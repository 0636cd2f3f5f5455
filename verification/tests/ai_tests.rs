use tank_arena::ai::{
    apply_ai_step, choose_alt_direction, choose_new_direction, new_action, next_step,
    update_ai_for_obj, AIComponent, AIConfig, Action, Draws, Step, TimerEvents, TimerResets,
    PROB_SCALE,
};
use tank_arena::game_lib::{GameObjSide, GameObjType};
use tank_arena::game_map::MapPos;
use tank_arena::game_obj::GameObjInfo;
use tank_arena::mytypes::Vec2;

fn tank_at(x: i64, y: i64, dx: i64, dy: i64) -> GameObjInfo {
    GameObjInfo {
        config_index: 3,
        pos: Vec2::new(x, y),
        map_pos: MapPos { row: 0, col: 0 },
        direction: Vec2::new(dx, dy),
        side: GameObjSide::AI,
        obj_type: GameObjType::Tank,
        collide_span: 15,
        speed: 30,
        hp: Some(40),
    }
}

fn ai_config(move_prob: u32) -> AIConfig {
    AIConfig { move_prob, keep_direction_duration: 2000, move_duration: 3000, shoot_duration: 1000 }
}

const QUIET: TimerEvents =
    TimerEvents { keep_direction_finished: false, move_finished: false, shoot_finished: false };

#[test]
fn a_new_component_has_no_action() {
    let comp = AIComponent::new();
    assert_eq!(comp.action, None);
    assert!(!comp.collision_happened);
}

#[test]
fn steps_follow_the_timers() {
    let idle = AIComponent::new();
    assert_eq!(next_step(&idle, &QUIET), Step::NewAction);
    let moving = AIComponent { action: Some(Action::Move), collision_happened: false };
    assert_eq!(next_step(&moving, &QUIET), Step::Stay);
    let bumped = AIComponent { action: Some(Action::Move), collision_happened: true };
    assert_eq!(next_step(&bumped, &QUIET), Step::AltDirection);
    let keep = TimerEvents { keep_direction_finished: true, ..QUIET };
    assert_eq!(next_step(&bumped, &keep), Step::NewDirection);
    let all = TimerEvents { keep_direction_finished: true, move_finished: true, shoot_finished: true };
    assert_eq!(next_step(&bumped, &all), Step::NewAction);
    // A finished shot does not end a move, and a finished move does not end a shot.
    let shot_over = TimerEvents { shoot_finished: true, ..QUIET };
    assert_eq!(next_step(&moving, &shot_over), Step::Stay);
    let shooting = AIComponent { action: Some(Action::Shoot), collision_happened: true };
    let move_over = TimerEvents { move_finished: true, ..QUIET };
    assert_eq!(next_step(&shooting, &move_over), Step::Stay);
    assert_eq!(next_step(&shooting, &shot_over), Step::NewAction);
    assert_eq!(next_step(&shooting, &keep), Step::NewDirection);
}

#[test]
fn heading_makes_for_the_player() {
    let player = Vec2::new(200, 200);
    // Level with the player along x: head along y, whatever the coin.
    for coin in [false, true] {
        let mut obj = tank_at(190, 300, 1, 0);
        let resets = choose_new_direction(&mut obj, &player, 15, coin);
        assert_eq!(obj.direction, Vec2::new(0, -1));
        assert_eq!(resets, TimerResets { keep_direction: true, move_timer: false, shoot_timer: false });
        // Level along y only: head along x.
        let mut obj = tank_at(100, 210, 0, 1);
        choose_new_direction(&mut obj, &player, 15, coin);
        assert_eq!(obj.direction, Vec2::new(1, 0));
    }
    // Level along neither: the coin decides.
    let mut obj = tank_at(300, 100, 1, 0);
    choose_new_direction(&mut obj, &player, 15, true);
    assert_eq!(obj.direction, Vec2::new(0, 1));
    let mut obj = tank_at(300, 100, 1, 0);
    choose_new_direction(&mut obj, &player, 15, false);
    assert_eq!(obj.direction, Vec2::new(-1, 0));
    // On the same coordinate the step goes toward larger coordinates.
    let mut obj = tank_at(200, 200, 1, 0);
    choose_new_direction(&mut obj, &player, 15, false);
    assert_eq!(obj.direction, Vec2::new(0, 1));
    // Only the heading changes.
    assert_eq!(obj.pos, Vec2::new(200, 200));
    assert_eq!(obj.hp, Some(40));
}

#[test]
fn a_collision_turns_the_tank_across() {
    let mut obj = tank_at(100, 100, 1, 0);
    let mut comp = AIComponent { action: Some(Action::Move), collision_happened: true };
    let resets = choose_alt_direction(&mut obj, &mut comp, true);
    assert_eq!(obj.direction, Vec2::new(0, 1));
    assert_eq!(comp, AIComponent { action: Some(Action::Move), collision_happened: false });
    assert_eq!(resets, TimerResets { keep_direction: true, move_timer: true, shoot_timer: false });
    let mut obj = tank_at(100, 100, -1, 0);
    choose_alt_direction(&mut obj, &mut comp, false);
    assert_eq!(obj.direction, Vec2::new(0, -1));
    let mut obj = tank_at(100, 100, 0, 1);
    choose_alt_direction(&mut obj, &mut comp, true);
    assert_eq!(obj.direction, Vec2::new(1, 0));
    let mut obj = tank_at(100, 100, 0, 0);
    choose_alt_direction(&mut obj, &mut comp, false);
    assert_eq!(obj.direction, Vec2::new(-1, 0));
}

#[test]
fn a_new_action_starts_its_own_timer() {
    let player = Vec2::new(200, 200);
    let mut obj = tank_at(190, 300, 1, 0);
    let mut comp = AIComponent { action: None, collision_happened: true };
    let resets = new_action(&mut obj, &mut comp, &player, 15, true, false);
    assert_eq!(comp, AIComponent { action: Some(Action::Move), collision_happened: false });
    assert_eq!(resets, TimerResets { keep_direction: true, move_timer: true, shoot_timer: false });
    assert_eq!(obj.direction, Vec2::new(0, -1));
    let mut comp = AIComponent { action: None, collision_happened: true };
    let resets = new_action(&mut obj, &mut comp, &player, 15, false, false);
    // A shot leaves the collision flag as it was.
    assert_eq!(comp, AIComponent { action: Some(Action::Shoot), collision_happened: true });
    assert_eq!(resets, TimerResets { keep_direction: true, move_timer: false, shoot_timer: true });
}

#[test]
fn a_quiet_tick_changes_nothing() {
    let player = Vec2::new(200, 200);
    let mut obj = tank_at(300, 100, 1, 0);
    let mut comp = AIComponent { action: Some(Action::Shoot), collision_happened: true };
    let draws = Draws { moves: true, coin: true };
    let resets = apply_ai_step(&mut obj, &mut comp, &player, 15, &QUIET, &draws);
    assert_eq!(resets, TimerResets { keep_direction: false, move_timer: false, shoot_timer: false });
    assert_eq!(obj.direction, Vec2::new(1, 0));
    assert_eq!(comp, AIComponent { action: Some(Action::Shoot), collision_happened: true });
}

#[test]
fn full_chance_always_moves_and_no_chance_always_shoots() {
    let player = Vec2::new(200, 200);
    for _ in 0..50 {
        let mut obj = tank_at(190, 300, 1, 0);
        let mut comp = AIComponent::new();
        let resets =
            update_ai_for_obj(&mut obj, &mut comp, &ai_config(PROB_SCALE), &player, 15, &QUIET);
        assert_eq!(comp.action, Some(Action::Move));
        assert_eq!(resets, TimerResets { keep_direction: true, move_timer: true, shoot_timer: false });
        assert_eq!(obj.direction, Vec2::new(0, -1));

        let mut comp = AIComponent::new();
        let resets = update_ai_for_obj(&mut obj, &mut comp, &ai_config(0), &player, 15, &QUIET);
        assert_eq!(comp.action, Some(Action::Shoot));
        assert_eq!(resets, TimerResets { keep_direction: true, move_timer: false, shoot_timer: true });

        // A chance beyond the scale counts as full.
        let mut comp = AIComponent::new();
        update_ai_for_obj(&mut obj, &mut comp, &ai_config(5000), &player, 15, &QUIET);
        assert_eq!(comp.action, Some(Action::Move));
    }
}

#[test]
fn a_drawn_action_is_a_move_or_a_shot() {
    let player = Vec2::new(200, 200);
    let mut moves = 0;
    let mut shots = 0;
    for _ in 0..400 {
        let mut obj = tank_at(300, 100, 1, 0);
        let mut comp = AIComponent::new();
        let resets = update_ai_for_obj(&mut obj, &mut comp, &ai_config(500), &player, 15, &QUIET);
        match comp.action {
            Some(Action::Move) => {
                moves += 1;
                assert!(resets.move_timer && !resets.shoot_timer);
            }
            Some(Action::Shoot) => {
                shots += 1;
                assert!(!resets.move_timer && resets.shoot_timer);
            }
            None => panic!("no action was taken"),
        }
        assert!(resets.keep_direction);
        // Level with the player along neither axis: one of the two headings toward it.
        assert!(obj.direction == Vec2::new(0, 1) || obj.direction == Vec2::new(-1, 0));
    }
    // With even chances, 400 draws that all fall the same way would be a broken draw.
    assert!(moves > 0 && shots > 0);
}

#[test]
fn a_bumped_tank_turns_across_on_its_tick() {
    let player = Vec2::new(200, 200);
    let mut up = 0;
    let mut down = 0;
    for _ in 0..400 {
        let mut obj = tank_at(300, 100, 1, 0);
        let mut comp = AIComponent { action: Some(Action::Move), collision_happened: true };
        let resets = update_ai_for_obj(&mut obj, &mut comp, &ai_config(500), &player, 15, &QUIET);
        assert_eq!(resets, TimerResets { keep_direction: true, move_timer: true, shoot_timer: false });
        assert_eq!(comp, AIComponent { action: Some(Action::Move), collision_happened: false });
        if obj.direction == Vec2::new(0, 1) {
            up += 1;
        } else {
            assert_eq!(obj.direction, Vec2::new(0, -1));
            down += 1;
        }
    }
    assert!(up > 0 && down > 0);
}
