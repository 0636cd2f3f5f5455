//! A grid-indexed collision and movement engine for a bounded 2D arena of
//! axis-aligned square bodies: tanks, projectiles and tiles.
//!
//! The engine computes on whole numbers. Positions, spans and the extents
//! of the world are counted in world units, time in time units, and a speed
//! in world units per time unit; a caller picks the units fine enough for
//! its needs. All arithmetic is exact and proved free of overflow inside
//! the limits `POS_MAX`, `SPAN_MAX` and `UNIT_MAX`.
//!
//! - `mytypes`: the 2D vector, the limits and the error values.
//! - `utils`: the resolvers, pure functions on positions and spans.
//! - `game_map`: the grid index, the broad-phase query and one step of a
//!   blocking or a passable mover.
//! - `game_obj`: the entity registry and the despawn set.
//! - `game_lib`: the kinds and sides of bodies and the table of body types.
//! - `systems`: what a tick does: steering, the projectiles' steps, area
//!   damage, and the cleanup that removes what was marked dead.
//! - `mycollide`: sweep tests that give the exact time of a first contact.
//! - `ai`: the decisions of a computer-steered tank.
//! - `mygame`: sides, directions and their names.
//! - `vertex_data`: blocks of vertex data and their interleaving.

pub mod ai;
pub mod game_lib;
pub mod game_map;
pub mod game_obj;
pub mod mycollide;
pub mod mygame;
pub mod mytypes;
pub mod systems;
pub mod utils;
pub mod vertex_data;
