//! The per-tick systems: writing a movement back into registry and grid,
//! area damage, the step of every projectile, and the end-of-tick cleanup
//! that takes the entities marked dead out of the world.

use vstd::prelude::*;
use crate::game_lib::{explosion_of, ExplosionConfig, GameLib, GameObjConfig, GameObjSide,
    GameObjType};
use crate::game_map::{in_region, missile_hits, vec_within, GameMap, MapPos};
use crate::game_obj::{DeadGameObjInfo, DespawnPool, GameObjInfo, GameObjInfoLib};
use crate::mygame::Direction;
use crate::mytypes::{valid_direction, valid_pos, valid_span, valid_unit, Vec2, UNIT_MAX};
use crate::utils::{collide_obj_pass, inside_bounds, overlaps, swept_pos};

verus! {

/// Hit points left after `damage`: never below zero.
pub open spec fn damaged(hp: u32, damage: u32) -> u32 {
    if hp >= damage {
        (hp - damage) as u32
    } else {
        0
    }
}

/// Damage only takes hit points away, and never below zero: the same
/// damage applied a second time leaves no more than the first time did, and
/// the first time leaves no more than there were.
pub proof fn lemma_damage_monotone(hp: u32, damage: u32)
    ensures
        0 <= damaged(damaged(hp, damage), damage) <= damaged(hp, damage) <= hp,
{
}

/// Two damages in a row take away what their sum takes away, down to zero.
pub proof fn lemma_damage_adds_up(hp: u32, first: u32, second: u32)
    ensures
        damaged(damaged(hp, first), second) == if hp >= first + second {
            hp - first - second
        } else {
            0
        },
{
}

/// Area damage only takes hit points away: after the same explosion has
/// gone off a second time no body has more hit points than after the first
/// time, and after the first time none has more than before. A body keeps
/// having hit points, and none goes below zero.
pub proof fn lemma_area_damage_monotone(
    lib: Map<u64, GameObjInfo>,
    pool: Map<u64, DeadGameObjInfo>,
    pos: Vec2,
    side: GameObjSide,
    damage: u32,
    explode_span: i64,
    e: u64,
)
    requires
        lib.contains_key(e),
    ensures
        ({
            let once = damage_lib(lib, pool, pos, side, damage, explode_span);
            let marked = damage_pool(lib, pool, pos, side, damage, explode_span);
            let twice = damage_lib(once, marked, pos, side, damage, explode_span);
            match lib[e].hp {
                Some(hp) => {
                    &&& once[e].hp is Some
                    &&& twice[e].hp is Some
                    &&& 0 <= twice[e].hp->0 <= once[e].hp->0 <= hp
                },
                None => once[e].hp is None && twice[e].hp is None,
            }
        }),
{
}

/// The registry entry of a body after it took `damage`. A body without hit
/// points is not changed.
pub open spec fn after_damage(obj: GameObjInfo, damage: u32) -> GameObjInfo {
    match obj.hp {
        Some(hp) => GameObjInfo { hp: Some(damaged(hp, damage)), ..obj },
        None => obj,
    }
}

/// The body has hit points and `damage` takes the last of them.
pub open spec fn dies_of(obj: GameObjInfo, damage: u32) -> bool {
    match obj.hp {
        Some(hp) => damaged(hp, damage) == 0,
        None => false,
    }
}

/// An explosion of `side` with half-extent `explode_span` at `pos` reaches
/// `e`: a registered tank of another side, not marked dead, whose square
/// overlaps the explosion's.
pub open spec fn is_damage_target(
    lib: Map<u64, GameObjInfo>,
    pool: Map<u64, DeadGameObjInfo>,
    e: u64,
    pos: Vec2,
    side: GameObjSide,
    explode_span: i64,
) -> bool {
    &&& lib.contains_key(e)
    &&& !pool.contains_key(e)
    &&& lib[e].obj_type == GameObjType::Tank
    &&& lib[e].side != side
    &&& overlaps(pos, explode_span, lib[e].pos, lib[e].collide_span)
}

/// The registry after an explosion: every body it reaches has taken the
/// damage, every other entry is as before.
pub open spec fn damage_lib(
    lib: Map<u64, GameObjInfo>,
    pool: Map<u64, DeadGameObjInfo>,
    pos: Vec2,
    side: GameObjSide,
    damage: u32,
    explode_span: i64,
) -> Map<u64, GameObjInfo> {
    Map::new(
        |e: u64| lib.contains_key(e),
        |e: u64|
            if is_damage_target(lib, pool, e, pos, side, explode_span) {
                after_damage(lib[e], damage)
            } else {
                lib[e]
            },
    )
}

/// The despawn set after an explosion: the bodies it killed are marked, as
/// fading out, with the cell they stand in; earlier marks stay.
pub open spec fn damage_pool(
    lib: Map<u64, GameObjInfo>,
    pool: Map<u64, DeadGameObjInfo>,
    pos: Vec2,
    side: GameObjSide,
    damage: u32,
    explode_span: i64,
) -> Map<u64, DeadGameObjInfo> {
    Map::new(
        |e: u64|
            pool.contains_key(e) || (is_damage_target(lib, pool, e, pos, side, explode_span)
                && dies_of(lib[e], damage)),
        |e: u64|
            if pool.contains_key(e) {
                pool[e]
            } else {
                DeadGameObjInfo { map_pos: lib[e].map_pos, is_phasing: true }
            },
    )
}

/// The registry entry of a body after it moved to `new_pos`, in the cell
/// `(row, col)`, and turned to `new_direction`.
pub open spec fn moved(obj: GameObjInfo, new_pos: Vec2, new_direction: Vec2, cell: (int, int))
    -> GameObjInfo {
    GameObjInfo {
        pos: new_pos,
        direction: new_direction,
        map_pos: MapPos { row: cell.0 as usize, col: cell.1 as usize },
        ..obj
    }
}

/// Whether `update_obj_pos_direction` writes the movement.
pub open spec fn can_move(
    map: &GameMap,
    lib: Map<u64, GameObjInfo>,
    entity: u64,
    new_pos: Vec2,
    new_direction: Vec2,
) -> bool {
    lib.contains_key(entity) && map.contains_point(new_pos) && valid_direction(new_direction)
}

/// Writes a movement back: the entity's position and heading in the
/// registry, and its cell in the grid, together. The entity leaves the cell
/// of its old position and enters the cell of the new one when the two
/// differ. Nothing is written, and `false` comes back, when the entity is
/// not registered, when the new position has no cell in the world, or when
/// the heading is outside the engine's limits.
pub fn update_obj_pos_direction(
    entity: &u64,
    new_pos: &Vec2,
    new_direction: &Vec2,
    game_obj_lib: &mut GameObjInfoLib,
    map: &mut GameMap,
) -> (updated: bool)
    requires
        old(map).indexes(old(game_obj_lib)),
    ensures
        final(map).indexes(final(game_obj_lib)),
        old(map).consistent_with(old(game_obj_lib)) ==> final(map).consistent_with(
            final(game_obj_lib),
        ),
        final(map).same_frame(old(map)),
        updated == can_move(old(map), old(game_obj_lib)@, *entity, *new_pos, *new_direction),
        !updated ==> *final(map) == *old(map) && final(game_obj_lib)@ == old(game_obj_lib)@,
        updated ==> final(game_obj_lib)@ == old(game_obj_lib)@.insert(
            *entity,
            moved(old(game_obj_lib)@[*entity], *new_pos, *new_direction, old(map).cell_of(*new_pos)),
        ),
{
    broadcast use vstd::std_specs::hash::group_hash_axioms;

    let obj = match game_obj_lib.get(*entity) {
        Some(o) => o,
        None => {
            return false;
        },
    };
    if !vec_within(new_direction, UNIT_MAX) {
        return false;
    }
    if new_pos.x < 0 || new_pos.x >= map.width() || new_pos.y < 0 || new_pos.y >= map.height() {
        return false;
    }
    assert(old(map).registered_well(*entity, obj));
    let new_map_pos = map.get_map_pos(new_pos);
    map.relocate(entity, &obj.map_pos, &new_map_pos);
    let new_obj = GameObjInfo {
        pos: *new_pos,
        direction: *new_direction,
        map_pos: new_map_pos,
        ..obj
    };
    game_obj_lib.0.insert(*entity, new_obj);
    proof {
        let orow = obj.map_pos.row as int;
        let ocol = obj.map_pos.col as int;
        let nrow = new_map_pos.row as int;
        let ncol = new_map_pos.col as int;
        assert forall|r: int, c: int, e: u64| #[trigger] map.holds(r, c, e) implies (e == *entity
            && r == nrow && c == ncol) || (e != *entity && old(map).holds(r, c, e)) by {
            if e == *entity {
                if !(r == nrow && c == ncol) {
                    if r == orow && c == ocol {
                        assert(!map.cell(r, c).contains(e));
                    } else {
                        assert(map.cell(r, c) == old(map).cell(r, c));
                        assert(old(map).holds(r, c, e));
                    }
                }
            } else {
                if r == orow && c == ocol {
                    assert(old(map).cell(r, c).contains(e));
                } else if r == nrow && c == ncol {
                    assert(old(map).cell(r, c).contains(e));
                } else {
                    assert(map.cell(r, c) == old(map).cell(r, c));
                }
            }
        }
        assert forall|r: int, c: int, e: u64|
            e != *entity && #[trigger] old(map).holds(r, c, e) implies map.holds(r, c, e) by {
            if r == orow && c == ocol {
                if obj.map_pos == new_map_pos {
                    assert(map.cell(r, c) == old(map).cell(r, c));
                }
            } else if r == nrow && c == ncol {
                if obj.map_pos == new_map_pos {
                    assert(map.cell(r, c) == old(map).cell(r, c));
                }
            } else {
                assert(map.cell(r, c) == old(map).cell(r, c));
            }
        }
        assert(map.holds(nrow, ncol, *entity)) by {
            if obj.map_pos == new_map_pos {
                assert(map.cell(nrow, ncol) == old(map).cell(nrow, ncol));
                assert(old(map).holds(orow, ocol, *entity));
            }
        }
        assert forall|e: u64| #[trigger] game_obj_lib@.contains_key(e) implies map.registered_well(
            e,
            game_obj_lib@[e],
        ) by {
            if e != *entity {
                let o = old(game_obj_lib)@[e];
                assert(old(game_obj_lib)@.contains_key(e));
                assert(old(map).registered_well(e, o));
                assert(old(map).holds(o.map_pos.row as int, o.map_pos.col as int, e));
            }
        }
    }
    true
}

/// Area damage: every tank of another side than `side` whose square
/// overlaps the square of half-extent `explode_span` around `pos`, and that
/// is not marked dead, loses `damage` hit points, down to zero at most. A
/// tank left without hit points is marked dead, as fading out, with the cell
/// it stands in. No position and no cell changes. An identifier that
/// stands in a cell without being registered is passed over.
pub fn do_damage(
    pos: &Vec2,
    side: GameObjSide,
    damage: u32,
    explode_span: i64,
    map: &GameMap,
    game_obj_lib: &mut GameObjInfoLib,
    despawn_pool: &mut DespawnPool,
)
    requires
        map.indexes(old(game_obj_lib)),
        old(despawn_pool).wf(),
        valid_pos(*pos),
        valid_span(explode_span),
    ensures
        map.indexes(final(game_obj_lib)),
        map.consistent_with(old(game_obj_lib)) ==> map.consistent_with(final(game_obj_lib)),
        final(despawn_pool).wf(),
        final(game_obj_lib)@ == damage_lib(
            old(game_obj_lib)@,
            old(despawn_pool)@,
            *pos,
            side,
            damage,
            explode_span,
        ),
        final(despawn_pool)@ == damage_pool(
            old(game_obj_lib)@,
            old(despawn_pool)@,
            *pos,
            side,
            damage,
            explode_span,
        ),
{
    broadcast use vstd::std_specs::hash::group_hash_axioms;

    proof {
        map.lemma_registered_once(game_obj_lib);
    }
    let ghost lib0 = game_obj_lib@;
    let ghost pool0 = despawn_pool@;
    let (start_pos, end_pos) = map.get_collide_region_pass(pos, explode_span);
    let ids = map.query_region(&start_pos, &end_pos, despawn_pool);
    let mut i: usize = 0;
    while i < ids.len()
        invariant
            map.indexes(game_obj_lib),
            map.consistent_with(old(game_obj_lib)) ==> map.consistent_with(game_obj_lib),
            despawn_pool.wf(),
            valid_pos(*pos),
            valid_span(explode_span),
            i <= ids@.len(),
            forall|j: int, k: int|
                0 <= j < k < ids@.len() && #[trigger] ids@[j] == #[trigger] ids@[k]
                    ==> !lib0.contains_key(ids@[j]),
            forall|k: int| 0 <= k < ids@.len() ==> !pool0.contains_key(#[trigger] ids@[k]),
            game_obj_lib@.dom() == lib0.dom(),
            forall|e: u64| #[trigger]
                lib0.contains_key(e) ==> game_obj_lib@[e] == if ids@.take(i as int).contains(e)
                    && is_damage_target(lib0, pool0, e, *pos, side, explode_span) {
                    after_damage(lib0[e], damage)
                } else {
                    lib0[e]
                },
            forall|e: u64| #[trigger]
                despawn_pool@.contains_key(e) <==> pool0.contains_key(e) || (ids@.take(
                    i as int,
                ).contains(e) && is_damage_target(lib0, pool0, e, *pos, side, explode_span)
                    && dies_of(lib0[e], damage)),
            forall|e: u64| #[trigger]
                despawn_pool@.contains_key(e) ==> despawn_pool@[e] == if pool0.contains_key(e) {
                    pool0[e]
                } else {
                    DeadGameObjInfo { map_pos: lib0[e].map_pos, is_phasing: true }
                },
        decreases ids@.len() - i,
    {
        let e = ids[i];
        proof {
            assert(ids@.take(i + 1) =~= ids@.take(i as int).push(e));
            assert(lib0.contains_key(e) ==> !ids@.take(i as int).contains(e)) by {
                if ids@.take(i as int).contains(e) {
                    let k = choose|k: int| 0 <= k < i && ids@.take(i as int)[k] == e;
                    assert(ids@[k] == ids@[i as int]);
                }
            }
            assert(!pool0.contains_key(ids@[i as int]));
            assert forall|x: u64| ids@.take(i + 1).contains(x) <==> (ids@.take(i as int).contains(
                x,
            ) || x == e) by {
                vstd::seq_lib::lemma_seq_contains_after_push(ids@.take(i as int), e, x);
            }
        }
        i += 1;
        let obj = match game_obj_lib.get(e) {
            Some(o) => o,
            None => {
                continue ;
            },
        };
        assert(lib0.contains_key(e));
        assert(obj == lib0[e]);
        assert(map.registered_well(e, obj));
        if obj.obj_type == GameObjType::Tank && obj.side != side && collide_obj_pass(
            pos,
            explode_span,
            &obj.pos,
            obj.collide_span,
        ) {
            assert(is_damage_target(lib0, pool0, e, *pos, side, explode_span));
            if let Some(hp) = obj.hp {
                let left: u32 = if hp >= damage {
                    hp - damage
                } else {
                    0
                };
                let ghost lib_before = game_obj_lib@;
                game_obj_lib.0.insert(e, GameObjInfo { hp: Some(left), ..obj });
                if left == 0 {
                    despawn_pool.insert(
                        e,
                        DeadGameObjInfo { map_pos: obj.map_pos, is_phasing: true },
                    );
                }
                proof {
                    assert(game_obj_lib@.dom() =~= lib0.dom());
                    assert forall|x: u64| #[trigger]
                        game_obj_lib@.contains_key(x) implies map.registered_well(
                        x,
                        game_obj_lib@[x],
                    ) by {
                        if x != e {
                            assert(lib_before.contains_key(x));
                        }
                    }
                }
            }
        }
    }
    proof {
        assert(ids@.take(ids@.len() as int) =~= ids@);
        assert forall|e: u64|
            is_damage_target(lib0, pool0, e, *pos, side, explode_span) implies ids@.contains(
            e,
        ) by {
            let o = lib0[e];
            assert(map.registered_well(e, o)) by {
                assert(game_obj_lib@.contains_key(e));
                assert(map.registered_well(e, game_obj_lib@[e]));
            }
            map.lemma_region_covers(*pos, *pos, explode_span, o.pos);
            assert(in_region(
                start_pos,
                end_pos,
                o.map_pos.row as int,
                o.map_pos.col as int,
            ) && map.holds(o.map_pos.row as int, o.map_pos.col as int, e));
            assert(map.region_holds(start_pos, end_pos, e));
        }
        assert(game_obj_lib@ =~= damage_lib(lib0, pool0, *pos, side, damage, explode_span));
        assert(despawn_pool@ =~= damage_pool(lib0, pool0, *pos, side, damage, explode_span));
    }
}

/// An explosion of `side` at `pos`: area damage with the explosion's
/// damage and span.
pub fn explode(
    pos: &Vec2,
    side: GameObjSide,
    explosion_config: &ExplosionConfig,
    map: &GameMap,
    game_obj_lib: &mut GameObjInfoLib,
    despawn_pool: &mut DespawnPool,
)
    requires
        map.indexes(old(game_obj_lib)),
        old(despawn_pool).wf(),
        valid_pos(*pos),
        valid_span(explosion_config.explode_span),
    ensures
        map.indexes(final(game_obj_lib)),
        map.consistent_with(old(game_obj_lib)) ==> map.consistent_with(final(game_obj_lib)),
        final(despawn_pool).wf(),
        final(game_obj_lib)@ == damage_lib(
            old(game_obj_lib)@,
            old(despawn_pool)@,
            *pos,
            side,
            explosion_config.damage,
            explosion_config.explode_span,
        ),
        final(despawn_pool)@ == damage_pool(
            old(game_obj_lib)@,
            old(despawn_pool)@,
            *pos,
            side,
            explosion_config.damage,
            explosion_config.explode_span,
        ),
{
    do_damage(
        pos,
        side,
        explosion_config.damage,
        explosion_config.explode_span,
        map,
        game_obj_lib,
        despawn_pool,
    );
}

/// What the systems of a tick change, as mathematical values: the
/// registry, the despawn set, and the list of projectiles that ended, each
/// with the point at which it ended.
pub struct WorldState {
    pub lib: Map<u64, GameObjInfo>,
    pub pool: Map<u64, DeadGameObjInfo>,
    pub ended: Seq<(u64, Vec2)>,
}

/// The end of the projectile `entity` at the point `at`: its explosion, if
/// its type sets one off, damages the tanks of the other sides around `at`;
/// then the projectile is marked dead, to go at once, with the cell it
/// stands in; and its end is put on the list.
pub open spec fn detonated(
    configs: Seq<GameObjConfig>,
    state: WorldState,
    entity: u64,
    at: Vec2,
) -> WorldState {
    let obj = state.lib[entity];
    let blast = match explosion_of(configs, obj.config_index) {
        Some(x) => WorldState {
            lib: damage_lib(state.lib, state.pool, at, obj.side, x.damage, x.explode_span),
            pool: damage_pool(state.lib, state.pool, at, obj.side, x.damage, x.explode_span),
            ended: state.ended,
        },
        None => state,
    };
    WorldState {
        lib: blast.lib,
        pool: if blast.pool.contains_key(entity) {
            blast.pool
        } else {
            blast.pool.insert(
                entity,
                DeadGameObjInfo { map_pos: blast.lib[entity].map_pos, is_phasing: false },
            )
        },
        ended: state.ended.push((entity, at)),
    }
}

/// The step of one projectile. A projectile that is marked dead or not
/// registered does nothing. Any other is swept to its destination, which is
/// written to the registry and the grid if it has a cell in the world. The
/// projectile ends there when its square reaches outside the world or
/// overlaps a live obstacle of another side. A projectile without speed
/// stays where it is and does not end.
pub open spec fn missile_step(
    map: &GameMap,
    configs: Seq<GameObjConfig>,
    state: WorldState,
    entity: u64,
    time_delta: i64,
) -> WorldState {
    if state.pool.contains_key(entity) || !state.lib.contains_key(entity) {
        state
    } else {
        let obj = state.lib[entity];
        let dest = swept_pos(obj.pos, obj.direction, obj.speed, time_delta);
        let ends = obj.speed != 0 && (!inside_bounds(
            dest,
            obj.collide_span,
            map.spec_width(),
            map.spec_height(),
        ) || missile_hits(state.lib, state.pool, entity, obj.side, dest, obj.collide_span));
        let swept = WorldState {
            lib: if map.contains_point(dest) {
                state.lib.insert(entity, moved(obj, dest, obj.direction, map.cell_of(dest)))
            } else {
                state.lib
            },
            pool: state.pool,
            ended: state.ended,
        };
        if ends {
            detonated(configs, swept, entity, dest)
        } else {
            swept
        }
    }
}

/// The steps of the projectiles of `missiles`, one after another.
pub open spec fn missiles_stepped(
    map: &GameMap,
    configs: Seq<GameObjConfig>,
    state: WorldState,
    missiles: Seq<u64>,
    time_delta: i64,
) -> WorldState
    decreases missiles.len(),
{
    if missiles.len() == 0 {
        state
    } else {
        missile_step(
            map,
            configs,
            missiles_stepped(map, configs, state, missiles.drop_last(), time_delta),
            missiles.last(),
            time_delta,
        )
    }
}

/// Ends the projectile `entity` at `at`.
fn detonate(
    entity: u64,
    at: &Vec2,
    game_lib: &GameLib,
    map: &GameMap,
    game_obj_lib: &mut GameObjInfoLib,
    despawn_pool: &mut DespawnPool,
    ended: &mut Vec<(u64, Vec2)>,
)
    requires
        map.indexes(old(game_obj_lib)),
        old(despawn_pool).wf(),
        valid_pos(*at),
        old(game_obj_lib)@.contains_key(entity),
    ensures
        map.indexes(final(game_obj_lib)),
        map.consistent_with(old(game_obj_lib)) ==> map.consistent_with(final(game_obj_lib)),
        final(despawn_pool).wf(),
        (WorldState {
            lib: final(game_obj_lib)@,
            pool: final(despawn_pool)@,
            ended: final(ended)@,
        }) == detonated(
            game_lib@,
            WorldState {
                lib: old(game_obj_lib)@,
                pool: old(despawn_pool)@,
                ended: old(ended)@,
            },
            entity,
            *at,
        ),
{
    let obj = match game_obj_lib.get(entity) {
        Some(o) => o,
        None => {
            return ;
        },
    };
    if let Some(explosion) = game_lib.get_explosion_config(obj.config_index) {
        explode(at, obj.side, &explosion, map, game_obj_lib, despawn_pool);
    }
    let map_pos = match game_obj_lib.get(entity) {
        Some(o) => o.map_pos,
        None => obj.map_pos,
    };
    despawn_pool.insert(entity, DeadGameObjInfo { map_pos, is_phasing: false });
    ended.push((entity, *at));
}

/// The step of one projectile: see `missile_step`.
pub fn update_missile(
    entity: u64,
    game_lib: &GameLib,
    map: &mut GameMap,
    game_obj_lib: &mut GameObjInfoLib,
    despawn_pool: &mut DespawnPool,
    ended: &mut Vec<(u64, Vec2)>,
    time_delta: i64,
)
    requires
        old(map).indexes(old(game_obj_lib)),
        old(despawn_pool).wf(),
        valid_unit(time_delta),
    ensures
        final(map).indexes(final(game_obj_lib)),
        old(map).consistent_with(old(game_obj_lib)) ==> final(map).consistent_with(
            final(game_obj_lib),
        ),
        final(map).same_frame(old(map)),
        final(despawn_pool).wf(),
        (WorldState {
            lib: final(game_obj_lib)@,
            pool: final(despawn_pool)@,
            ended: final(ended)@,
        }) == missile_step(
            old(map),
            game_lib@,
            WorldState {
                lib: old(game_obj_lib)@,
                pool: old(despawn_pool)@,
                ended: old(ended)@,
            },
            entity,
            time_delta,
        ),
{
    if despawn_pool.contains(entity) {
        return ;
    }
    let obj = match game_obj_lib.get(entity) {
        Some(o) => o,
        None => {
            return ;
        },
    };
    assert(map.registered_well(entity, obj));
    let (collide, new_pos) = map.get_missile_new_pos(
        &entity,
        &obj,
        game_obj_lib,
        despawn_pool,
        time_delta,
    );
    update_obj_pos_direction(&entity, &new_pos, &obj.direction, game_obj_lib, map);
    if collide {
        detonate(entity, &new_pos, game_lib, map, game_obj_lib, despawn_pool, ended);
    }
}

/// The projectiles' system of a tick: the step of every projectile of
/// `missiles`, in the order of the list. The projectiles that ended come
/// back, each with the point at which it ended, in the order in which they
/// ended.
pub fn update_missiles(
    missiles: &Vec<u64>,
    game_lib: &GameLib,
    map: &mut GameMap,
    game_obj_lib: &mut GameObjInfoLib,
    despawn_pool: &mut DespawnPool,
    time_delta: i64,
) -> (ended: Vec<(u64, Vec2)>)
    requires
        old(map).indexes(old(game_obj_lib)),
        old(despawn_pool).wf(),
        valid_unit(time_delta),
    ensures
        final(map).indexes(final(game_obj_lib)),
        old(map).consistent_with(old(game_obj_lib)) ==> final(map).consistent_with(
            final(game_obj_lib),
        ),
        final(map).same_frame(old(map)),
        final(despawn_pool).wf(),
        (WorldState { lib: final(game_obj_lib)@, pool: final(despawn_pool)@, ended: ended@ })
            == missiles_stepped(
            old(map),
            game_lib@,
            WorldState {
                lib: old(game_obj_lib)@,
                pool: old(despawn_pool)@,
                ended: Seq::<(u64, Vec2)>::empty(),
            },
            missiles@,
            time_delta,
        ),
{
    let mut ended: Vec<(u64, Vec2)> = Vec::new();
    let ghost state0 = WorldState {
        lib: game_obj_lib@,
        pool: despawn_pool@,
        ended: Seq::<(u64, Vec2)>::empty(),
    };
    let mut i: usize = 0;
    while i < missiles.len()
        invariant
            i <= missiles@.len(),
            map.indexes(game_obj_lib),
            old(map).consistent_with(old(game_obj_lib)) ==> map.consistent_with(game_obj_lib),
            map.same_frame(old(map)),
            despawn_pool.wf(),
            valid_unit(time_delta),
            (WorldState { lib: game_obj_lib@, pool: despawn_pool@, ended: ended@ })
                == missiles_stepped(old(map), game_lib@, state0, missiles@.take(i as int), time_delta),
        decreases missiles@.len() - i,
    {
        proof {
            assert(missiles@.take(i + 1).drop_last() =~= missiles@.take(i as int));
        }
        update_missile(
            missiles[i],
            game_lib,
            map,
            game_obj_lib,
            despawn_pool,
            &mut ended,
            time_delta,
        );
        i += 1;
    }
    proof {
        assert(missiles@.take(missiles@.len() as int) =~= missiles@);
    }
    ended
}

/// One candidate of a capture: a live projectile of another side than
/// `side` that overlaps the square of half-extent `span` around `pos` ends
/// where it stands. Any other candidate changes nothing.
pub open spec fn capture_step(
    configs: Seq<GameObjConfig>,
    state: WorldState,
    pos: Vec2,
    side: GameObjSide,
    span: i64,
    e: u64,
) -> WorldState {
    if state.lib.contains_key(e) && !state.pool.contains_key(e) && state.lib[e].obj_type
        == GameObjType::Missile && state.lib[e].side != side && overlaps(
        pos,
        span,
        state.lib[e].pos,
        state.lib[e].collide_span,
    ) {
        detonated(configs, state, e, state.lib[e].pos)
    } else {
        state
    }
}

/// A capture that meets its candidates in the order `order`.
pub open spec fn captured(
    configs: Seq<GameObjConfig>,
    state: WorldState,
    pos: Vec2,
    side: GameObjSide,
    span: i64,
    order: Seq<u64>,
) -> WorldState
    decreases order.len(),
{
    if order.len() == 0 {
        state
    } else {
        capture_step(
            configs,
            captured(configs, state, pos, side, span, order.drop_last()),
            pos,
            side,
            span,
            order.last(),
        )
    }
}

/// The end of a projectile changes no identifier's being registered.
pub proof fn lemma_detonated_keeps_ids(
    configs: Seq<GameObjConfig>,
    state: WorldState,
    entity: u64,
    at: Vec2,
)
    ensures
        detonated(configs, state, entity, at).lib.dom() =~= state.lib.dom(),
{
}

/// A capture changes no identifier's being registered.
pub proof fn lemma_captured_keeps_ids(
    configs: Seq<GameObjConfig>,
    state: WorldState,
    pos: Vec2,
    side: GameObjSide,
    span: i64,
    order: Seq<u64>,
)
    ensures
        captured(configs, state, pos, side, span, order).lib.dom() =~= state.lib.dom(),
    decreases order.len(),
{
    if order.len() > 0 {
        lemma_captured_keeps_ids(configs, state, pos, side, span, order.drop_last());
        let before = captured(configs, state, pos, side, span, order.drop_last());
        lemma_detonated_keeps_ids(configs, before, order.last(), before.lib[order.last()].pos);
    }
}

/// A candidate without a registry entry changes nothing: a capture that
/// meets the candidates of `order` comes to what it comes to without it.
pub proof fn lemma_capture_passes_over_unregistered(
    configs: Seq<GameObjConfig>,
    state: WorldState,
    pos: Vec2,
    side: GameObjSide,
    span: i64,
    order: Seq<u64>,
    i: int,
)
    requires
        0 <= i < order.len(),
        !state.lib.contains_key(order[i]),
    ensures
        captured(configs, state, pos, side, span, order) == captured(
            configs,
            state,
            pos,
            side,
            span,
            order.remove(i),
        ),
    decreases order.len(),
{
    if i == order.len() - 1 {
        assert(order.remove(i) =~= order.drop_last());
        lemma_captured_keeps_ids(configs, state, pos, side, span, order.drop_last());
        let before = captured(configs, state, pos, side, span, order.drop_last());
        assert(!before.lib.contains_key(order[i])) by {
            assert(before.lib.dom().contains(order[i]) == state.lib.dom().contains(order[i]));
        }
    } else {
        lemma_capture_passes_over_unregistered(
            configs,
            state,
            pos,
            side,
            span,
            order.drop_last(),
            i,
        );
        assert(order.remove(i).drop_last() =~= order.drop_last().remove(i));
        assert(order.remove(i).last() == order.last());
    }
}

/// A body of `side` with half-extent `collide_span` at `pos` captures the
/// projectiles of the other sides that it overlaps: each of them ends where
/// it stands, with its explosion. The candidates are those of the
/// broad-phase query around `pos`, met in the order in which the query
/// hands them out. The projectiles that ended come back, in that order. An
/// identifier that stands in a cell without being registered is passed
/// over.
pub fn capture_collide_missiles(
    pos: &Vec2,
    side: GameObjSide,
    collide_span: i64,
    map: &GameMap,
    game_lib: &GameLib,
    game_obj_lib: &mut GameObjInfoLib,
    despawn_pool: &mut DespawnPool,
) -> (ended: Vec<(u64, Vec2)>)
    requires
        map.indexes(old(game_obj_lib)),
        old(despawn_pool).wf(),
        valid_pos(*pos),
        valid_span(collide_span),
    ensures
        map.indexes(final(game_obj_lib)),
        map.consistent_with(old(game_obj_lib)) ==> map.consistent_with(final(game_obj_lib)),
        final(despawn_pool).wf(),
        exists|order: Seq<u64>|
            map.is_query_order(
                map.collide_region(*pos, *pos, collide_span).0,
                map.collide_region(*pos, *pos, collide_span).1,
                old(game_obj_lib)@,
                old(despawn_pool)@,
                order,
            ) && (WorldState {
                lib: final(game_obj_lib)@,
                pool: final(despawn_pool)@,
                ended: ended@,
            }) == captured(
                game_lib@,
                WorldState {
                    lib: old(game_obj_lib)@,
                    pool: old(despawn_pool)@,
                    ended: Seq::<(u64, Vec2)>::empty(),
                },
                *pos,
                side,
                collide_span,
                order,
            ),
{
    let ghost state0 = WorldState {
        lib: game_obj_lib@,
        pool: despawn_pool@,
        ended: Seq::<(u64, Vec2)>::empty(),
    };
    let mut ended: Vec<(u64, Vec2)> = Vec::new();
    let (start_map_pos, end_map_pos) = map.get_collide_region_pass(pos, collide_span);
    let ids = map.query_region(&start_map_pos, &end_map_pos, despawn_pool);
    let mut i: usize = 0;
    while i < ids.len()
        invariant
            i <= ids@.len(),
            map.indexes(game_obj_lib),
            map.consistent_with(old(game_obj_lib)) ==> map.consistent_with(game_obj_lib),
            despawn_pool.wf(),
            valid_pos(*pos),
            valid_span(collide_span),
            (WorldState { lib: game_obj_lib@, pool: despawn_pool@, ended: ended@ }) == captured(
                game_lib@,
                state0,
                *pos,
                side,
                collide_span,
                ids@.take(i as int),
            ),
        decreases ids@.len() - i,
    {
        let e = ids[i];
        proof {
            assert(ids@.take(i + 1).drop_last() =~= ids@.take(i as int));
        }
        i += 1;
        if despawn_pool.contains(e) {
            continue ;
        }
        let obj2 = match game_obj_lib.get(e) {
            Some(o) => o,
            None => {
                continue ;
            },
        };
        assert(map.registered_well(e, obj2));
        if obj2.obj_type == GameObjType::Missile && obj2.side != side && collide_obj_pass(
            pos,
            collide_span,
            &obj2.pos,
            obj2.collide_span,
        ) {
            detonate(e, &obj2.pos, game_lib, map, game_obj_lib, despawn_pool, &mut ended);
        }
    }
    proof {
        assert(ids@.take(ids@.len() as int) =~= ids@);
        map.lemma_registered_once(old(game_obj_lib));
        assert(map.is_query_order(start_map_pos, end_map_pos, state0.lib, state0.pool, ids@));
    }
    ended
}

/// What the player asks of its tank on a tick.
#[derive(Clone, Copy, Debug, PartialEq, Eq, Structural)]
pub enum PlayerCommand {
    /// Steer along a direction.
    Steer(Direction),
    /// Fire a projectile.
    Shoot,
}

/// The command that the keys held down on a tick come to: steering wins
/// over firing, and among the steering keys right wins over left, left over
/// up, and up over down.
pub open spec fn command_of(right: bool, left: bool, up: bool, down: bool, fire: bool) -> Option<
    PlayerCommand,
> {
    if right {
        Some(PlayerCommand::Steer(Direction::Right))
    } else if left {
        Some(PlayerCommand::Steer(Direction::Left))
    } else if up {
        Some(PlayerCommand::Steer(Direction::Up))
    } else if down {
        Some(PlayerCommand::Steer(Direction::Down))
    } else if fire {
        Some(PlayerCommand::Shoot)
    } else {
        None
    }
}

/// Reads the player's command from the keys held down: see `command_of`.
pub fn process_input(right: bool, left: bool, up: bool, down: bool, fire: bool) -> (command:
    Option<PlayerCommand>)
    ensures
        command == command_of(right, left, up, down, fire),
{
    if right {
        Some(PlayerCommand::Steer(Direction::Right))
    } else if left {
        Some(PlayerCommand::Steer(Direction::Left))
    } else if up {
        Some(PlayerCommand::Steer(Direction::Up))
    } else if down {
        Some(PlayerCommand::Steer(Direction::Down))
    } else if fire {
        Some(PlayerCommand::Shoot)
    } else {
        None
    }
}

/// What steering comes to when the two broad-phase queries hand out their
/// candidates in the orders `move_order` and `capture_order`. A player that
/// is marked dead or not registered does nothing. A player that heads
/// another way than `new_direction` turns on the spot; one that already
/// heads that way takes a blocking mover's step, if it has any speed. Then
/// the player captures the projectiles it overlaps where it now stands.
pub open spec fn steered(
    map: &GameMap,
    configs: Seq<GameObjConfig>,
    state: WorldState,
    player: u64,
    new_direction: Vec2,
    time_delta: i64,
    move_order: Seq<u64>,
    capture_order: Seq<u64>,
) -> WorldState {
    if state.pool.contains_key(player) || !state.lib.contains_key(player) {
        state
    } else {
        let obj = state.lib[player];
        let new_pos = if new_direction != obj.direction {
            obj.pos
        } else {
            map.tank_move(state.lib, player, obj, time_delta, move_order).1
        };
        let lib1 = if map.contains_point(new_pos) {
            state.lib.insert(player, moved(obj, new_pos, new_direction, map.cell_of(new_pos)))
        } else {
            state.lib
        };
        captured(
            configs,
            WorldState { lib: lib1, pool: state.pool, ended: state.ended },
            lib1[player].pos,
            obj.side,
            obj.collide_span,
            capture_order,
        )
    }
}

/// Steers the player's body along `d` for one tick: see `steered`. The
/// projectiles that the player captured come back, each with the point at
/// which it ended.
pub fn steer_player(
    d: Direction,
    player: u64,
    game_lib: &GameLib,
    map: &mut GameMap,
    game_obj_lib: &mut GameObjInfoLib,
    despawn_pool: &mut DespawnPool,
    time_delta: i64,
) -> (ended: Vec<(u64, Vec2)>)
    requires
        old(map).indexes(old(game_obj_lib)),
        old(despawn_pool).wf(),
        valid_unit(time_delta),
    ensures
        final(map).indexes(final(game_obj_lib)),
        old(map).consistent_with(old(game_obj_lib)) ==> final(map).consistent_with(
            final(game_obj_lib),
        ),
        final(map).same_frame(old(map)),
        final(despawn_pool).wf(),
        exists|move_order: Seq<u64>, capture_order: Seq<u64>| #[trigger]
            is_steering(
                old(map),
                final(map),
                game_lib@,
                WorldState {
                    lib: old(game_obj_lib)@,
                    pool: old(despawn_pool)@,
                    ended: Seq::<(u64, Vec2)>::empty(),
                },
                player,
                d.vec(),
                time_delta,
                move_order,
                capture_order,
                WorldState { lib: final(game_obj_lib)@, pool: final(despawn_pool)@, ended: ended@ },
            ),
{
    let ghost state0 = WorldState {
        lib: game_obj_lib@,
        pool: despawn_pool@,
        ended: Seq::<(u64, Vec2)>::empty(),
    };
    if despawn_pool.contains(player) {
        let ended: Vec<(u64, Vec2)> = Vec::new();
        assert(is_steering(
            old(map),
            map,
            game_lib@,
            state0,
            player,
            d.vec(),
            time_delta,
            Seq::<u64>::empty(),
            Seq::<u64>::empty(),
            WorldState { lib: game_obj_lib@, pool: despawn_pool@, ended: ended@ },
        ));
        return ended;
    }
    let obj = match game_obj_lib.get(player) {
        Some(o) => o,
        None => {
            let ended: Vec<(u64, Vec2)> = Vec::new();
            assert(is_steering(
                old(map),
                map,
                game_lib@,
                state0,
                player,
                d.vec(),
                time_delta,
                Seq::<u64>::empty(),
                Seq::<u64>::empty(),
                WorldState { lib: game_obj_lib@, pool: despawn_pool@, ended: ended@ },
            ));
            return ended;
        },
    };
    assert(map.registered_well(player, obj));
    let new_direction = d.to_vec();
    let mut new_pos = obj.pos;
    let ghost mut move_order = Seq::<u64>::empty();
    if new_direction == obj.direction {
        let (collided, pos) = map.get_tank_new_pos(
            &player,
            &obj,
            game_obj_lib,
            despawn_pool,
            time_delta,
        );
        new_pos = pos;
        proof {
            if obj.speed != 0 {
                let region = map.tank_region(obj, time_delta);
                move_order = choose|order: Seq<u64>|
                    map.is_query_order(region.0, region.1, game_obj_lib@, despawn_pool@, order) && (
                        collided,
                        pos,
                    )
                        == map.tank_move(game_obj_lib@, player, obj, time_delta, order);
            }
        }
    }
    update_obj_pos_direction(&player, &new_pos, &new_direction, game_obj_lib, map);
    let stand = match game_obj_lib.get(player) {
        Some(o) => o.pos,
        None => obj.pos,
    };
    assert(map.registered_well(player, game_obj_lib@[player]));
    let ghost lib1 = game_obj_lib@;
    let ended = capture_collide_missiles(
        &stand,
        obj.side,
        obj.collide_span,
        map,
        game_lib,
        game_obj_lib,
        despawn_pool,
    );
    proof {
        let region = map.collide_region(stand, stand, obj.collide_span);
        let capture_order = choose|order: Seq<u64>|
            map.is_query_order(region.0, region.1, lib1, state0.pool, order) && (WorldState {
                lib: game_obj_lib@,
                pool: despawn_pool@,
                ended: ended@,
            }) == captured(
                game_lib@,
                WorldState { lib: lib1, pool: state0.pool, ended: Seq::<(u64, Vec2)>::empty() },
                stand,
                obj.side,
                obj.collide_span,
                order,
            );
        assert(steer_orders(
            old(map),
            map,
            state0,
            player,
            d.vec(),
            time_delta,
            move_order,
            capture_order,
        ));
        assert((WorldState { lib: game_obj_lib@, pool: despawn_pool@, ended: ended@ }) == steered(
            old(map),
            game_lib@,
            state0,
            player,
            d.vec(),
            time_delta,
            move_order,
            capture_order,
        ));
        assert(is_steering(
            old(map),
            map,
            game_lib@,
            state0,
            player,
            d.vec(),
            time_delta,
            move_order,
            capture_order,
            WorldState { lib: game_obj_lib@, pool: despawn_pool@, ended: ended@ },
        ));
    }
    ended
}

/// `result` is what the steering of `state` comes to for the orders
/// `move_order` and `capture_order`, and these are orders in which its two
/// queries can hand out their candidates.
pub open spec fn is_steering(
    before: &GameMap,
    after: &GameMap,
    configs: Seq<GameObjConfig>,
    state: WorldState,
    player: u64,
    new_direction: Vec2,
    time_delta: i64,
    move_order: Seq<u64>,
    capture_order: Seq<u64>,
    result: WorldState,
) -> bool {
    &&& steer_orders(
        before,
        after,
        state,
        player,
        new_direction,
        time_delta,
        move_order,
        capture_order,
    )
    &&& result == steered(
        before,
        configs,
        state,
        player,
        new_direction,
        time_delta,
        move_order,
        capture_order,
    )
}

/// `move_order` and `capture_order` are orders in which the two queries of
/// a steering can hand out their candidates: the first on the world
/// `before` the step, around the player's sweep, when the player moves; the
/// second on the world `after` it, around the place where the player then
/// stands. A steering that makes no query leaves its order open.
pub open spec fn steer_orders(
    before: &GameMap,
    after: &GameMap,
    state: WorldState,
    player: u64,
    new_direction: Vec2,
    time_delta: i64,
    move_order: Seq<u64>,
    capture_order: Seq<u64>,
) -> bool {
    if state.pool.contains_key(player) || !state.lib.contains_key(player) {
        true
    } else {
        let obj = state.lib[player];
        let new_pos = if new_direction != obj.direction {
            obj.pos
        } else {
            before.tank_move(state.lib, player, obj, time_delta, move_order).1
        };
        let stand = if before.contains_point(new_pos) {
            new_pos
        } else {
            obj.pos
        };
        &&& new_direction == obj.direction && obj.speed != 0 ==> before.is_query_order(
            before.tank_region(obj, time_delta).0,
            before.tank_region(obj, time_delta).1,
            state.lib,
            state.pool,
            move_order,
        )
        &&& after.is_query_order(
            after.collide_region(stand, stand, obj.collide_span).0,
            after.collide_region(stand, stand, obj.collide_span).1,
            state.lib,
            state.pool,
            capture_order,
        )
    }
}

/// `e` is among the first `n` entities of the list `dead_objs`.
pub open spec fn listed(dead_objs: Seq<(u64, DeadGameObjInfo)>, n: int, e: u64) -> bool {
    exists|k: int| 0 <= k < n && (#[trigger] dead_objs[k]).0 == e
}

/// Takes the listed entities out of the world: each leaves the cell it
/// stands in and the registry, together. An entity that is listed twice, or
/// that is not registered, is passed over: an identifier that stands in a
/// cell without being registered stays there. Nothing else changes.
pub fn process_dead_objs(
    dead_objs: &Vec<(u64, DeadGameObjInfo)>,
    map: &mut GameMap,
    game_obj_lib: &mut GameObjInfoLib,
)
    requires
        old(map).indexes(old(game_obj_lib)),
    ensures
        final(map).indexes(final(game_obj_lib)),
        old(map).consistent_with(old(game_obj_lib)) ==> final(map).consistent_with(
            final(game_obj_lib),
        ),
        final(map).same_frame(old(map)),
        forall|e: u64|
            final(game_obj_lib)@.contains_key(e) <==> old(game_obj_lib)@.contains_key(e) && !listed(
                dead_objs@,
                dead_objs@.len() as int,
                e,
            ),
        forall|e: u64| #[trigger]
            final(game_obj_lib)@.contains_key(e) ==> final(game_obj_lib)@[e] == old(
                game_obj_lib,
            )@[e],
        forall|r: int, c: int, e: u64| #[trigger]
            final(map).holds(r, c, e) <==> old(map).holds(r, c, e) && !(listed(
                dead_objs@,
                dead_objs@.len() as int,
                e,
            ) && old(game_obj_lib)@.contains_key(e)),
{
    broadcast use vstd::std_specs::hash::group_hash_axioms;

    let ghost lib0 = game_obj_lib@;
    let ghost map0 = *map;
    let mut i: usize = 0;
    while i < dead_objs.len()
        invariant
            i <= dead_objs@.len(),
            map.indexes(game_obj_lib),
            old(map).consistent_with(old(game_obj_lib)) ==> map.consistent_with(game_obj_lib),
            map.same_frame(&map0),
            map0.indexes(old(game_obj_lib)),
            lib0 == old(game_obj_lib)@,
            forall|e: u64|
                game_obj_lib@.contains_key(e) <==> lib0.contains_key(e) && !listed(
                    dead_objs@,
                    i as int,
                    e,
                ),
            forall|e: u64| #[trigger] game_obj_lib@.contains_key(e) ==> game_obj_lib@[e] == lib0[e],
            forall|r: int, c: int, e: u64| #[trigger]
                map.holds(r, c, e) <==> map0.holds(r, c, e) && !(listed(dead_objs@, i as int, e)
                    && lib0.contains_key(e)),
        decreases dead_objs@.len() - i,
    {
        let entity = dead_objs[i].0;
        proof {
            assert forall|x: u64| listed(dead_objs@, i + 1, x) <==> (listed(dead_objs@, i as int, x)
                || x == entity) by {
                if listed(dead_objs@, i + 1, x) {
                    let k = choose|k: int| 0 <= k < i + 1 && (#[trigger] dead_objs@[k]).0 == x;
                    if k < i {
                        assert(listed(dead_objs@, i as int, x));
                    }
                }
                if listed(dead_objs@, i as int, x) {
                    let k = choose|k: int| 0 <= k < i && (#[trigger] dead_objs@[k]).0 == x;
                    assert(dead_objs@[k].0 == x);
                }
                if x == entity {
                    assert(dead_objs@[i as int].0 == x);
                }
            }
        }
        let ghost map1 = *map;
        let ghost lib1 = game_obj_lib@;
        match game_obj_lib.get(entity) {
            Some(obj) => {
                assert(map.registered_well(entity, obj));
                map.remove_obj(&obj.map_pos, &entity);
                game_obj_lib.0.remove(&entity);
                proof {
                    let row = obj.map_pos.row as int;
                    let col = obj.map_pos.col as int;
                    assert forall|r: int, c: int, e: u64| #[trigger]
                        map.holds(r, c, e) <==> map1.holds(r, c, e) && e != entity by {
                        if r == row && c == col {
                            assert(map.cell(r, c) == map1.cell(r, c).remove(entity));
                        } else if map1.has_cell(r, c) {
                            assert(map.cell(r, c) == map1.cell(r, c));
                            if e == entity && map1.holds(r, c, e) {
                                assert(lib1[e].map_pos.row == r);
                            }
                        }
                    }
                    assert forall|e: u64| #[trigger]
                        game_obj_lib@.contains_key(e) implies map.registered_well(
                        e,
                        game_obj_lib@[e],
                    ) by {
                        assert(lib1.contains_key(e));
                        assert(map1.registered_well(e, lib1[e]));
                        assert(map1.holds(
                            lib1[e].map_pos.row as int,
                            lib1[e].map_pos.col as int,
                            e,
                        ));
                    }
                    assert forall|r: int, c: int, e: u64| #[trigger]
                        map.holds(r, c, e) && game_obj_lib@.contains_key(
                            e,
                        ) implies game_obj_lib@[e].map_pos.row == r && game_obj_lib@[e].map_pos.col
                        == c by {
                        assert(map1.holds(r, c, e));
                    }
                    if old(map).consistent_with(old(game_obj_lib)) {
                        assert forall|r: int, c: int, e: u64| #[trigger]
                            map.holds(r, c, e) implies game_obj_lib@.contains_key(e) by {
                            assert(map1.holds(r, c, e));
                        }
                    }
                }
            },
            None => {},
        }
        i += 1;
    }
}

/// The end-of-tick cleanup: every entity marked dead leaves its cell and
/// the registry, and the despawn set is emptied. The marks come back,
/// oldest first and each entity once, for the caller to discard what it
/// holds for those entities. Entities that were not marked stay as they
/// are, in the cells they stood in, and so does an identifier that stands
/// in a cell without being registered.
pub fn cleanup(
    map: &mut GameMap,
    game_obj_lib: &mut GameObjInfoLib,
    despawn_pool: &mut DespawnPool,
) -> (removed: Vec<(u64, DeadGameObjInfo)>)
    requires
        old(map).indexes(old(game_obj_lib)),
        old(despawn_pool).wf(),
    ensures
        final(map).indexes(final(game_obj_lib)),
        old(map).consistent_with(old(game_obj_lib)) ==> final(map).consistent_with(
            final(game_obj_lib),
        ),
        final(map).same_frame(old(map)),
        final(despawn_pool).wf(),
        final(despawn_pool)@ == Map::<u64, DeadGameObjInfo>::empty(),
        final(game_obj_lib)@ == old(game_obj_lib)@.remove_keys(old(despawn_pool)@.dom()),
        forall|r: int, c: int, e: u64| #[trigger]
            final(map).holds(r, c, e) <==> old(map).holds(r, c, e) && !(old(
                despawn_pool,
            )@.contains_key(e) && old(game_obj_lib)@.contains_key(e)),
        removed@.len() == old(despawn_pool)@.dom().len(),
        forall|i: int| 0 <= i < removed@.len() ==> (#[trigger] removed@[i]).0 == old(
            despawn_pool,
        ).order()[i],
        forall|i: int, j: int|
            0 <= i < j < removed@.len() ==> (#[trigger] removed@[i]).0 != (#[trigger] removed@[j]).0,
        forall|i: int|
            0 <= i < removed@.len() ==> old(despawn_pool)@.contains_key((#[trigger] removed@[i]).0)
                && removed@[i].1 == old(despawn_pool)@[removed@[i].0],
        forall|e: u64|
            old(despawn_pool)@.contains_key(e) ==> listed(removed@, removed@.len() as int, e),
{
    let ghost order = despawn_pool.order();
    let ghost marks = despawn_pool@;
    proof {
        order.unique_seq_to_set();
    }
    let removed = despawn_pool.drain();
    process_dead_objs(&removed, map, game_obj_lib);
    proof {
        assert forall|e: u64| marks.contains_key(e) <==> listed(
            removed@,
            removed@.len() as int,
            e,
        ) by {
            if marks.contains_key(e) {
                assert(order.to_set().contains(e));
                let k = choose|k: int| 0 <= k < order.len() && order[k] == e;
                assert(removed@[k].0 == e);
            }
            if listed(removed@, removed@.len() as int, e) {
                let k = choose|k: int| 0 <= k < removed@.len() && (#[trigger] removed@[k]).0 == e;
                assert(marks.contains_key(removed@[k].0));
            }
        }
        assert(game_obj_lib@ =~= old(game_obj_lib)@.remove_keys(marks.dom()));
        assert forall|i: int, j: int| 0 <= i < j < removed@.len() implies (#[trigger] removed@[i]).0
            != (#[trigger] removed@[j]).0 by {
            assert(removed@[i].0 == order[i] && removed@[j].0 == order[j]);
        }
    }
    removed
}

} // verus!
