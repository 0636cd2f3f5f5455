use tank_arena::game_lib::{ExplosionConfig, GameLib, GameObjConfig, GameObjSide, GameObjType};
use tank_arena::game_map::{GameMap, MapPos};
use tank_arena::game_obj::{DeadGameObjInfo, DespawnPool, GameObjInfoLib};
use tank_arena::mytypes::Vec2;

fn config(obj_type: GameObjType, side: GameObjSide, speed: i64, span: i64) -> GameObjConfig {
    GameObjConfig {
        obj_type,
        side,
        speed,
        collide_span: span,
        max_hp: Some(100),
        explosion: None,
    }
}

fn small_lib() -> GameLib {
    GameLib::new(vec![
        config(GameObjType::Tank, GameObjSide::Player, 60, 10),
        config(GameObjType::Tile, GameObjSide::Neutral, 0, 20),
        config(GameObjType::Missile, GameObjSide::Player, 50, 5),
        config(GameObjType::Tank, GameObjSide::AI, 30, 15),
        config(GameObjType::Effect, GameObjSide::Neutral, 0, 0),
    ])
}

fn cells_holding(map: &GameMap, entity: u64) -> Vec<(usize, usize)> {
    let mut found = Vec::new();
    for row in 0..map.row_count() {
        for col in 0..map.col_count() {
            if map.cell_contains(&MapPos { row, col }, entity) {
                found.push((row, col));
            }
        }
    }
    found
}

#[test]
fn new_map_has_the_asked_shape() {
    let map = GameMap::new(40, 10, 15);
    assert_eq!(map.row_count(), 10);
    assert_eq!(map.col_count(), 15);
    assert_eq!(map.cell_size(), 40);
    assert_eq!(map.width(), 600);
    assert_eq!(map.height(), 400);
    assert_eq!(map.max_collide_span(), 0);
    assert!(cells_holding(&map, 1).is_empty());
}

#[test]
fn map_index_rounds_down() {
    let map = GameMap::new(40, 10, 10);
    assert_eq!(map.get_map_index(0), 0);
    assert_eq!(map.get_map_index(39), 0);
    assert_eq!(map.get_map_index(40), 1);
    assert_eq!(map.get_map_index(399), 9);
    assert_eq!(map.get_map_index(400), 10);
    assert_eq!(map.get_map_index(-1), -1);
    assert_eq!(map.get_map_index(-40), -1);
    assert_eq!(map.get_map_index(-41), -2);
    assert_eq!(map.get_map_index(-80), -2);
}

#[test]
fn map_pos_is_row_of_y_and_col_of_x() {
    let map = GameMap::new(40, 10, 10);
    assert_eq!(map.get_map_pos(&Vec2::new(100, 100)), MapPos { row: 2, col: 2 });
    assert_eq!(map.get_map_pos(&Vec2::new(160, 100)), MapPos { row: 2, col: 4 });
    assert_eq!(map.get_map_pos(&Vec2::new(399, 0)), MapPos { row: 0, col: 9 });
    assert_eq!(map.get_map_pos(&Vec2::new(0, 399)), MapPos { row: 9, col: 0 });
}

#[test]
fn clamped_indices_stay_in_the_grid() {
    let map = GameMap::new(40, 5, 10);
    assert_eq!(map.clamp_row(-1000), 0);
    assert_eq!(map.clamp_row(0), 0);
    assert_eq!(map.clamp_row(85), 2);
    assert_eq!(map.clamp_row(199), 4);
    assert_eq!(map.clamp_row(200), 4);
    assert_eq!(map.clamp_row(100000), 4);
    assert_eq!(map.clamp_col(-1), 0);
    assert_eq!(map.clamp_col(399), 9);
    assert_eq!(map.clamp_col(400), 9);
}

#[test]
fn is_inside_is_strict_at_the_far_edges() {
    let map = GameMap::new(40, 10, 10);
    assert!(map.is_inside(&Vec2::new(10, 10), 10));
    assert!(map.is_inside(&Vec2::new(389, 389), 10));
    assert!(!map.is_inside(&Vec2::new(390, 200), 10));
    assert!(!map.is_inside(&Vec2::new(200, 390), 10));
    assert!(!map.is_inside(&Vec2::new(9, 200), 10));
    assert!(!map.is_inside(&Vec2::new(200, 9), 10));
}

#[test]
fn region_of_a_sweep_is_padded_by_both_spans() {
    let lib = small_lib();
    let mut map = GameMap::new(40, 10, 10);
    let mut objs = GameObjInfoLib::new();
    // With no entity yet, only the mover's own span pads the region.
    let (low, high) =
        map.get_collide_region_nonpass(&Vec2::new(100, 100), &Vec2::new(160, 100), 10);
    assert_eq!(low, MapPos { row: 2, col: 2 });
    assert_eq!(high, MapPos { row: 2, col: 4 });
    // A tile of span 20 raises the largest span to 20.
    assert!(map.add_obj(7, 1, &Vec2::new(300, 300), &Vec2::new(0, 0), &lib, &mut objs));
    assert_eq!(map.max_collide_span(), 20);
    let (low, high) =
        map.get_collide_region_nonpass(&Vec2::new(100, 100), &Vec2::new(160, 100), 10);
    // x from 100 - 30 = 70 to 160 + 30 = 190; y from 70 to 130.
    assert_eq!(low, MapPos { row: 1, col: 1 });
    assert_eq!(high, MapPos { row: 3, col: 4 });
    // The start and the end of the sweep can be given in either order.
    let swapped = map.get_collide_region_nonpass(&Vec2::new(160, 100), &Vec2::new(100, 100), 10);
    assert_eq!(swapped, (low, high));
    // A standing body's region is that of a sweep that goes nowhere.
    let standing = map.get_collide_region_pass(&Vec2::new(200, 200), 30);
    assert_eq!(standing, (MapPos { row: 3, col: 3 }, MapPos { row: 6, col: 6 }));
    // Near a corner the region is clamped into the grid.
    let corner = map.get_collide_region_pass(&Vec2::new(5, 395), 30);
    assert_eq!(corner, (MapPos { row: 8, col: 0 }, MapPos { row: 9, col: 1 }));
}

#[test]
fn map_region_clamps_each_index_alone() {
    let map = GameMap::new(40, 10, 10);
    let (low, high) = map.get_map_region(-500, 85, 120, 9000);
    assert_eq!(low, MapPos { row: 2, col: 0 });
    assert_eq!(high, MapPos { row: 9, col: 3 });
}

#[test]
fn insert_remove_relocate_touch_one_cell_each() {
    let mut map = GameMap::new(40, 10, 10);
    let a = MapPos { row: 2, col: 2 };
    let b = MapPos { row: 2, col: 4 };
    map.insert_obj(&a, 1);
    assert_eq!(cells_holding(&map, 1), vec![(2, 2)]);
    // Inserting twice keeps one membership.
    map.insert_obj(&a, 1);
    assert_eq!(cells_holding(&map, 1), vec![(2, 2)]);
    map.relocate(&1, &a, &b);
    assert_eq!(cells_holding(&map, 1), vec![(2, 4)]);
    // Relocating within one cell changes nothing.
    map.relocate(&1, &b, &b);
    assert_eq!(cells_holding(&map, 1), vec![(2, 4)]);
    // Relocating within one cell does not add an entity that is not there.
    map.relocate(&9, &a, &a);
    assert!(cells_holding(&map, 9).is_empty());
    // Removing a non-member is a no-op.
    map.remove_obj(&a, &1);
    assert_eq!(cells_holding(&map, 1), vec![(2, 4)]);
    map.remove_obj(&b, &1);
    assert!(cells_holding(&map, 1).is_empty());
}

#[test]
fn add_obj_fills_grid_and_registry_together() {
    let lib = small_lib();
    let mut map = GameMap::new(40, 10, 10);
    let mut objs = GameObjInfoLib::new();
    assert!(map.add_obj(1, 0, &Vec2::new(100, 100), &Vec2::new(1, 0), &lib, &mut objs));
    let obj = objs.get(1).unwrap();
    assert_eq!(obj.config_index, 0);
    assert_eq!(obj.pos, Vec2::new(100, 100));
    assert_eq!(obj.map_pos, MapPos { row: 2, col: 2 });
    assert_eq!(obj.direction, Vec2::new(1, 0));
    assert_eq!(obj.side, GameObjSide::Player);
    assert_eq!(obj.obj_type, GameObjType::Tank);
    assert_eq!(obj.collide_span, 10);
    assert_eq!(obj.speed, 60);
    assert_eq!(obj.hp, Some(100));
    assert_eq!(cells_holding(&map, 1), vec![(2, 2)]);
    assert_eq!(map.max_collide_span(), 10);
    assert_eq!(objs.len(), 1);
    assert!(objs.contains(1));
}

#[test]
fn add_obj_turns_down_what_does_not_fit() {
    let lib = small_lib();
    let mut map = GameMap::new(40, 10, 10);
    let mut objs = GameObjInfoLib::new();
    // Outside the world, or touching the far edge.
    assert!(!map.add_obj(1, 0, &Vec2::new(395, 100), &Vec2::new(1, 0), &lib, &mut objs));
    assert!(!map.add_obj(1, 0, &Vec2::new(390, 100), &Vec2::new(1, 0), &lib, &mut objs));
    assert!(!map.add_obj(1, 0, &Vec2::new(5, 100), &Vec2::new(1, 0), &lib, &mut objs));
    assert!(!map.add_obj(1, 0, &Vec2::new(100, -100), &Vec2::new(1, 0), &lib, &mut objs));
    // A heading beyond the engine's limits.
    assert!(!map.add_obj(1, 0, &Vec2::new(100, 100), &Vec2::new(1 << 21, 0), &lib, &mut objs));
    assert_eq!(objs.len(), 0);
    assert!(cells_holding(&map, 1).is_empty());
    assert_eq!(map.max_collide_span(), 0);
    // An identifier that is already registered.
    assert!(map.add_obj(1, 0, &Vec2::new(100, 100), &Vec2::new(1, 0), &lib, &mut objs));
    assert!(!map.add_obj(1, 1, &Vec2::new(300, 300), &Vec2::new(1, 0), &lib, &mut objs));
    assert_eq!(objs.get(1).unwrap().pos, Vec2::new(100, 100));
    assert_eq!(cells_holding(&map, 1), vec![(2, 2)]);
    assert_eq!(map.max_collide_span(), 10);
}

#[test]
fn add_obj_turns_down_numbers_beyond_the_limits() {
    let lib = GameLib::new(vec![
        config(GameObjType::Tank, GameObjSide::Player, -1, 10),
        config(GameObjType::Tank, GameObjSide::Player, 60, -1),
        GameObjConfig {
            obj_type: GameObjType::Missile,
            side: GameObjSide::Player,
            speed: 50,
            collide_span: 5,
            max_hp: None,
            explosion: Some(ExplosionConfig { damage: 1, explode_span: -3 }),
        },
    ]);
    let mut map = GameMap::new(40, 10, 10);
    let mut objs = GameObjInfoLib::new();
    for index in 0..3 {
        assert!(!map.add_obj(1, index, &Vec2::new(100, 100), &Vec2::new(1, 0), &lib, &mut objs));
    }
    assert_eq!(objs.len(), 0);
}

#[test]
fn max_span_never_goes_down() {
    let lib = small_lib();
    let mut map = GameMap::new(40, 10, 10);
    let mut objs = GameObjInfoLib::new();
    assert!(map.add_obj(1, 1, &Vec2::new(100, 100), &Vec2::new(0, 0), &lib, &mut objs));
    assert_eq!(map.max_collide_span(), 20);
    assert!(map.add_obj(2, 2, &Vec2::new(200, 200), &Vec2::new(0, 1), &lib, &mut objs));
    assert_eq!(map.max_collide_span(), 20);
}

#[test]
fn query_lists_each_live_entity_of_the_region_once() {
    let lib = small_lib();
    let mut map = GameMap::new(40, 10, 10);
    let mut objs = GameObjInfoLib::new();
    let pool = DespawnPool::new();
    assert!(map.add_obj(1, 0, &Vec2::new(100, 100), &Vec2::new(1, 0), &lib, &mut objs));
    assert!(map.add_obj(2, 0, &Vec2::new(110, 110), &Vec2::new(1, 0), &lib, &mut objs));
    assert!(map.add_obj(3, 1, &Vec2::new(170, 100), &Vec2::new(0, 0), &lib, &mut objs));
    assert!(map.add_obj(4, 1, &Vec2::new(300, 300), &Vec2::new(0, 0), &lib, &mut objs));
    let mut ids = map.query_region(&MapPos { row: 2, col: 2 }, &MapPos { row: 2, col: 4 }, &pool);
    ids.sort();
    assert_eq!(ids, vec![1, 2, 3]);
    let mut all = map.query_region(&MapPos { row: 0, col: 0 }, &MapPos { row: 9, col: 9 }, &pool);
    all.sort();
    assert_eq!(all, vec![1, 2, 3, 4]);
    let none = map.query_region(&MapPos { row: 8, col: 0 }, &MapPos { row: 9, col: 9 }, &pool);
    assert!(none.is_empty());
}

#[test]
fn query_passes_over_entities_marked_dead() {
    let lib = small_lib();
    let mut map = GameMap::new(40, 10, 10);
    let mut objs = GameObjInfoLib::new();
    let mut pool = DespawnPool::new();
    assert!(map.add_obj(1, 0, &Vec2::new(100, 100), &Vec2::new(1, 0), &lib, &mut objs));
    assert!(map.add_obj(2, 0, &Vec2::new(110, 110), &Vec2::new(1, 0), &lib, &mut objs));
    let cell = MapPos { row: 2, col: 2 };
    assert!(pool.insert(2, DeadGameObjInfo { map_pos: cell, is_phasing: false }));
    // The entity still stands in its cell and in the registry.
    assert!(map.cell_contains(&cell, 2));
    assert!(objs.contains(2));
    // No query hands it out.
    let ids = map.query_region(&MapPos { row: 0, col: 0 }, &MapPos { row: 9, col: 9 }, &pool);
    assert_eq!(ids, vec![1]);
    let ids = map.query_region(&cell, &cell, &pool);
    assert_eq!(ids, vec![1]);
}

#[test]
fn despawn_pool_keeps_the_first_mark() {
    let mut pool = DespawnPool::new();
    let a = MapPos { row: 1, col: 1 };
    let b = MapPos { row: 2, col: 2 };
    assert_eq!(pool.len(), 0);
    assert!(!pool.contains(5));
    assert!(pool.get(5).is_none());
    assert!(pool.insert(5, DeadGameObjInfo { map_pos: a, is_phasing: true }));
    assert!(!pool.insert(5, DeadGameObjInfo { map_pos: b, is_phasing: false }));
    assert!(pool.insert(6, DeadGameObjInfo { map_pos: b, is_phasing: false }));
    assert_eq!(pool.len(), 2);
    assert!(pool.contains(5));
    let mark = pool.get(5).unwrap();
    assert_eq!(mark.map_pos, a);
    assert!(mark.is_phasing);
    let taken = pool.drain();
    assert_eq!(taken.len(), 2);
    assert_eq!(taken[0].0, 5);
    assert_eq!(taken[0].1.map_pos, a);
    assert!(taken[0].1.is_phasing);
    assert_eq!(taken[1].0, 6);
    assert!(!taken[1].1.is_phasing);
    assert_eq!(pool.len(), 0);
    assert!(!pool.contains(5));
}

#[test]
fn game_lib_lookups() {
    let lib = GameLib::new(vec![
        config(GameObjType::Tank, GameObjSide::Player, 60, 10),
        GameObjConfig {
            obj_type: GameObjType::Missile,
            side: GameObjSide::AI,
            speed: 50,
            collide_span: 5,
            max_hp: None,
            explosion: Some(ExplosionConfig { damage: 50, explode_span: 30 }),
        },
    ]);
    assert_eq!(lib.obj_config_count(), 2);
    assert_eq!(lib.get_obj_config(0).collide_span, 10);
    assert_eq!(lib.get_obj_config(1).side, GameObjSide::AI);
    assert!(lib.get_explosion_config(0).is_none());
    let explosion = lib.get_explosion_config(1).unwrap();
    assert_eq!(explosion.damage, 50);
    assert_eq!(explosion.explode_span, 30);
    assert!(lib.get_explosion_config(2).is_none());
    assert!(GameObjType::Tank.is_solid());
    assert!(GameObjType::Tile.is_solid());
    assert!(!GameObjType::Missile.is_solid());
    assert!(!GameObjType::Effect.is_solid());
}

#[test]
fn tank_moves_freely_when_nothing_is_in_the_way() {
    let lib = small_lib();
    let mut map = GameMap::new(40, 10, 10);
    let mut objs = GameObjInfoLib::new();
    let pool = DespawnPool::new();
    assert!(map.add_obj(1, 0, &Vec2::new(100, 100), &Vec2::new(1, 0), &lib, &mut objs));
    let obj = objs.get(1).unwrap();
    let (collided, pos) = map.get_tank_new_pos(&1, &obj, &objs, &pool, 1);
    assert!(!collided);
    assert_eq!(pos, Vec2::new(160, 100));
}

#[test]
fn tank_stops_flush_against_a_tile() {
    let lib = small_lib();
    let mut map = GameMap::new(40, 10, 10);
    let mut objs = GameObjInfoLib::new();
    let pool = DespawnPool::new();
    assert!(map.add_obj(1, 0, &Vec2::new(100, 100), &Vec2::new(1, 0), &lib, &mut objs));
    assert!(map.add_obj(2, 1, &Vec2::new(170, 100), &Vec2::new(0, 0), &lib, &mut objs));
    let obj = objs.get(1).unwrap();
    let (collided, pos) = map.get_tank_new_pos(&1, &obj, &objs, &pool, 1);
    assert!(collided);
    assert_eq!(pos, Vec2::new(140, 100));
}

#[test]
fn tank_stops_at_the_wall() {
    let lib = small_lib();
    let mut map = GameMap::new(40, 10, 10);
    let mut objs = GameObjInfoLib::new();
    let pool = DespawnPool::new();
    assert!(map.add_obj(1, 0, &Vec2::new(350, 100), &Vec2::new(1, 0), &lib, &mut objs));
    let obj = objs.get(1).unwrap();
    let (collided, pos) = map.get_tank_new_pos(&1, &obj, &objs, &pool, 1);
    assert!(collided);
    assert_eq!(pos, Vec2::new(390, 100));
}

#[test]
fn tank_passes_what_is_no_obstacle() {
    let lib = small_lib();
    let mut map = GameMap::new(40, 10, 10);
    let mut objs = GameObjInfoLib::new();
    let mut pool = DespawnPool::new();
    assert!(map.add_obj(1, 0, &Vec2::new(100, 100), &Vec2::new(1, 0), &lib, &mut objs));
    // A projectile and an effect in the way do not stop a tank.
    assert!(map.add_obj(2, 2, &Vec2::new(160, 100), &Vec2::new(0, 1), &lib, &mut objs));
    assert!(map.add_obj(3, 4, &Vec2::new(150, 100), &Vec2::new(0, 0), &lib, &mut objs));
    let obj = objs.get(1).unwrap();
    assert_eq!(map.get_tank_new_pos(&1, &obj, &objs, &pool, 1), (false, Vec2::new(160, 100)));
    // A tile marked dead does not stop it either.
    assert!(map.add_obj(4, 1, &Vec2::new(170, 100), &Vec2::new(0, 0), &lib, &mut objs));
    assert_eq!(map.get_tank_new_pos(&1, &obj, &objs, &pool, 1), (true, Vec2::new(140, 100)));
    let cell = objs.get(4).unwrap().map_pos;
    pool.insert(4, DeadGameObjInfo { map_pos: cell, is_phasing: true });
    assert_eq!(map.get_tank_new_pos(&1, &obj, &objs, &pool, 1), (false, Vec2::new(160, 100)));
}

#[test]
fn tank_finds_a_large_obstacle_registered_far_from_its_sweep() {
    // The tile's centre lies two cells beyond the cells the tank's own square sweeps;
    // only the padding by the largest span makes the query reach it.
    let lib = GameLib::new(vec![
        config(GameObjType::Tank, GameObjSide::Player, 10, 5),
        config(GameObjType::Tile, GameObjSide::Neutral, 0, 90),
    ]);
    let mut map = GameMap::new(40, 10, 10);
    let mut objs = GameObjInfoLib::new();
    let pool = DespawnPool::new();
    assert!(map.add_obj(1, 0, &Vec2::new(100, 200), &Vec2::new(1, 0), &lib, &mut objs));
    assert!(map.add_obj(2, 1, &Vec2::new(200, 200), &Vec2::new(0, 0), &lib, &mut objs));
    let obj = objs.get(1).unwrap();
    let (collided, pos) = map.get_tank_new_pos(&1, &obj, &objs, &pool, 1);
    assert!(collided);
    assert_eq!(pos, Vec2::new(105, 200));
}

#[test]
fn missile_flies_on_or_ends() {
    let lib = small_lib();
    let mut map = GameMap::new(40, 10, 10);
    let mut objs = GameObjInfoLib::new();
    let pool = DespawnPool::new();
    assert!(map.add_obj(1, 2, &Vec2::new(100, 100), &Vec2::new(1, 0), &lib, &mut objs));
    let obj = objs.get(1).unwrap();
    // Nothing in the way.
    assert_eq!(map.get_missile_new_pos(&1, &obj, &objs, &pool, 1), (false, Vec2::new(150, 100)));
    // A tank of its own side is passed through.
    assert!(map.add_obj(2, 0, &Vec2::new(150, 100), &Vec2::new(1, 0), &lib, &mut objs));
    assert_eq!(map.get_missile_new_pos(&1, &obj, &objs, &pool, 1), (false, Vec2::new(150, 100)));
    // A tank of another side is hit; the projectile is not set back.
    assert!(map.add_obj(3, 3, &Vec2::new(160, 110), &Vec2::new(1, 0), &lib, &mut objs));
    assert_eq!(map.get_missile_new_pos(&1, &obj, &objs, &pool, 1), (true, Vec2::new(150, 100)));
    // Leaving the world ends it too.
    assert_eq!(map.get_missile_new_pos(&1, &obj, &objs, &pool, 6), (true, Vec2::new(400, 100)));
}

#[test]
fn a_body_without_speed_takes_no_step() {
    let lib = small_lib();
    let mut map = GameMap::new(40, 10, 10);
    let mut objs = GameObjInfoLib::new();
    let pool = DespawnPool::new();
    // A tile, which has no speed, overlapping a tank: neither pushes the other.
    assert!(map.add_obj(1, 1, &Vec2::new(100, 100), &Vec2::new(1, 0), &lib, &mut objs));
    assert!(map.add_obj(2, 0, &Vec2::new(110, 100), &Vec2::new(1, 0), &lib, &mut objs));
    let tile = objs.get(1).unwrap();
    assert_eq!(map.get_tank_new_pos(&1, &tile, &objs, &pool, 5), (false, Vec2::new(100, 100)));
    assert_eq!(map.get_missile_new_pos(&1, &tile, &objs, &pool, 5), (false, Vec2::new(100, 100)));
    // A time step of zero is a step all the same: the overlap is resolved.
    let tank = objs.get(2).unwrap();
    assert_eq!(map.get_tank_new_pos(&2, &tank, &objs, &pool, 0), (true, Vec2::new(70, 100)));
}

#[test]
fn a_body_without_span_is_no_obstacle() {
    let lib = GameLib::new(vec![
        config(GameObjType::Tank, GameObjSide::Player, 60, 10),
        config(GameObjType::Tile, GameObjSide::Neutral, 0, 0),
        config(GameObjType::Missile, GameObjSide::AI, 50, 5),
    ]);
    let mut map = GameMap::new(40, 10, 10);
    let mut objs = GameObjInfoLib::new();
    let pool = DespawnPool::new();
    assert!(map.add_obj(1, 0, &Vec2::new(100, 100), &Vec2::new(1, 0), &lib, &mut objs));
    assert!(map.add_obj(2, 1, &Vec2::new(155, 100), &Vec2::new(0, 0), &lib, &mut objs));
    assert!(map.add_obj(3, 2, &Vec2::new(105, 100), &Vec2::new(1, 0), &lib, &mut objs));
    let tank = objs.get(1).unwrap();
    assert_eq!(map.get_tank_new_pos(&1, &tank, &objs, &pool, 1), (false, Vec2::new(160, 100)));
    let missile = objs.get(3).unwrap();
    assert_eq!(map.get_missile_new_pos(&3, &missile, &objs, &pool, 1), (false, Vec2::new(155, 100)));
}

#[test]
fn an_identifier_without_a_registry_entry_is_passed_over() {
    let lib = small_lib();
    let mut map = GameMap::new(40, 10, 10);
    let mut objs = GameObjInfoLib::new();
    let pool = DespawnPool::new();
    assert!(map.add_obj(1, 0, &Vec2::new(100, 100), &Vec2::new(1, 0), &lib, &mut objs));
    // An identifier planted in a cell behind the registry's back.
    map.insert_obj(&MapPos { row: 2, col: 3 }, 99);
    let tank = objs.get(1).unwrap();
    assert_eq!(map.get_tank_new_pos(&1, &tank, &objs, &pool, 1), (false, Vec2::new(160, 100)));
    assert_eq!(map.get_missile_new_pos(&1, &tank, &objs, &pool, 1), (false, Vec2::new(160, 100)));
}

#[test]
fn every_overlapping_body_lies_in_the_searched_region() {
    // Bodies of many sizes all over the world, and a query square at many places: whenever
    // the squares overlap, the body is among the entities of the searched region.
    let lib = GameLib::new(vec![
        config(GameObjType::Tile, GameObjSide::Neutral, 0, 3),
        config(GameObjType::Tile, GameObjSide::Neutral, 0, 17),
        config(GameObjType::Tile, GameObjSide::Neutral, 0, 64),
    ]);
    let mut map = GameMap::new(40, 10, 10);
    let mut objs = GameObjInfoLib::new();
    let pool = DespawnPool::new();
    let mut id = 0u64;
    let mut x = 70;
    while x < 330 {
        let mut y = 70;
        while y < 330 {
            id += 1;
            let index = (id % 3) as usize;
            assert!(map.add_obj(id, index, &Vec2::new(x, y), &Vec2::new(0, 0), &lib, &mut objs));
            y += 37;
        }
        x += 41;
    }
    let count = id;
    for span in [0i64, 5, 30] {
        let mut px = -20;
        while px < 420 {
            let mut py = -20;
            while py < 420 {
                let at = Vec2::new(px, py);
                let (low, high) = map.get_collide_region_pass(&at, span);
                let found = map.query_region(&low, &high, &pool);
                for e in 1..=count {
                    let body = objs.get(e).unwrap();
                    let total = span + body.collide_span;
                    let overlaps =
                        (px - body.pos.x).abs() < total && (py - body.pos.y).abs() < total;
                    if overlaps {
                        assert!(found.contains(&e));
                    }
                }
                py += 23;
            }
            px += 29;
        }
    }
}
