//! The decisions of a computer-steered tank: whether it moves or shoots
//! next, and which way it heads. Chance is drawn from the `rand` crate; what
//! follows from a draw is decided by verified functions that take the draw
//! as an argument.

use vstd::prelude::*;
use crate::game_obj::GameObjInfo;
use crate::mytypes::{abs, abs_i64, valid_body_pos, valid_pos, Vec2};

verus! {

/// The chances of `AIConfig::move_prob` are counted out of this many.
pub const PROB_SCALE: u32 = 1000;

/// What a computer-steered tank is doing.
#[derive(Clone, Copy, Debug, PartialEq, Eq, Structural)]
pub enum Action {
    Move,
    Shoot,
}

/// The numbers that shape a computer-steered tank's behaviour. Durations
/// are in time units; the caller keeps the timers that run them.
#[derive(Clone, Copy, Debug)]
pub struct AIConfig {
    /// Chances, out of `PROB_SCALE`, that the next action is a move.
    pub move_prob: u32,
    pub keep_direction_duration: i64,
    pub move_duration: i64,
    pub shoot_duration: i64,
}

/// The state of a computer-steered tank between two decisions.
#[derive(Clone, Copy, Debug, PartialEq, Eq, Structural)]
pub struct AIComponent {
    pub action: Option<Action>,
    pub collision_happened: bool,
}

/// Which of the tank's timers ran out on this tick.
#[derive(Clone, Copy, Debug, PartialEq, Eq, Structural)]
pub struct TimerEvents {
    pub keep_direction_finished: bool,
    pub move_finished: bool,
    pub shoot_finished: bool,
}

/// Which of the tank's timers the caller has to start again.
#[derive(Clone, Copy, Debug, PartialEq, Eq, Structural)]
pub struct TimerResets {
    pub keep_direction: bool,
    pub move_timer: bool,
    pub shoot_timer: bool,
}

/// The draws a decision may use: whether the next action is a move, and
/// the flip of a coin.
#[derive(Clone, Copy, Debug, PartialEq, Eq, Structural)]
pub struct Draws {
    pub moves: bool,
    pub coin: bool,
}

/// What a decision comes to: the tank's new heading, its new state, and the
/// timers to start again.
#[derive(Clone, Copy, Debug, PartialEq, Eq, Structural)]
pub struct Decision {
    pub direction: Vec2,
    pub ai_comp: AIComponent,
    pub resets: TimerResets,
}

/// The unit step from `from` toward `to` along one axis; toward larger
/// coordinates when the two are level.
pub open spec fn toward(from: int, to: int) -> int {
    if to < from {
        -1
    } else {
        1
    }
}

/// The heading of a tank at `pos` that makes for the player at
/// `player_pos`: along y when it is level with the player along x, within
/// the player's span; else along x when it is level along y; else along y
/// or x as the coin falls.
pub open spec fn heading_to_player(pos: Vec2, player_pos: Vec2, player_collide_span: i64, coin: bool)
    -> Vec2 {
    let along_y = Vec2 { x: 0, y: toward(pos.y as int, player_pos.y as int) as i64 };
    let along_x = Vec2 { x: toward(pos.x as int, player_pos.x as int) as i64, y: 0 };
    if abs(pos.x - player_pos.x) < player_collide_span {
        along_y
    } else if abs(pos.y - player_pos.y) < player_collide_span {
        along_x
    } else if coin {
        along_y
    } else {
        along_x
    }
}

/// A heading across the one the tank has: along y for a tank that moves
/// along x, along x for any other; up or right when the coin shows heads.
pub open spec fn side_heading(direction: Vec2, coin: bool) -> Vec2 {
    let c: i64 = if coin {
        1i64
    } else {
        -1i64
    };
    if direction.x != 0 {
        Vec2 { x: 0, y: c }
    } else {
        Vec2 { x: c, y: 0 }
    }
}

/// A new action: a move or a shot as drawn, with its timer started again,
/// and a heading that makes for the player.
pub open spec fn new_action_decision(
    obj: GameObjInfo,
    ai_comp: AIComponent,
    player_pos: Vec2,
    player_collide_span: i64,
    draws: Draws,
) -> Decision {
    Decision {
        direction: heading_to_player(obj.pos, player_pos, player_collide_span, draws.coin),
        ai_comp: if draws.moves {
            AIComponent { action: Some(Action::Move), collision_happened: false }
        } else {
            AIComponent { action: Some(Action::Shoot), collision_happened: ai_comp.collision_happened }
        },
        resets: TimerResets {
            keep_direction: true,
            move_timer: draws.moves,
            shoot_timer: !draws.moves,
        },
    }
}

/// A new heading toward the player; the action goes on.
pub open spec fn new_direction_decision(
    obj: GameObjInfo,
    ai_comp: AIComponent,
    player_pos: Vec2,
    player_collide_span: i64,
    draws: Draws,
) -> Decision {
    Decision {
        direction: heading_to_player(obj.pos, player_pos, player_collide_span, draws.coin),
        ai_comp,
        resets: TimerResets { keep_direction: true, move_timer: false, shoot_timer: false },
    }
}

/// A heading across the old one after a collision; the move starts again.
pub open spec fn alt_direction_decision(obj: GameObjInfo, ai_comp: AIComponent, draws: Draws)
    -> Decision {
    Decision {
        direction: side_heading(obj.direction, draws.coin),
        ai_comp: AIComponent { action: ai_comp.action, collision_happened: false },
        resets: TimerResets { keep_direction: true, move_timer: true, shoot_timer: false },
    }
}

/// Nothing changes.
pub open spec fn no_decision(obj: GameObjInfo, ai_comp: AIComponent) -> Decision {
    Decision {
        direction: obj.direction,
        ai_comp,
        resets: TimerResets { keep_direction: false, move_timer: false, shoot_timer: false },
    }
}

/// Which kind of decision a tank in the state `ai_comp` takes on a tick.
#[derive(Clone, Copy, Debug, PartialEq, Eq, Structural)]
pub enum Step {
    NewAction,
    NewDirection,
    AltDirection,
    Stay,
}

/// The kind of decision due: a tank without an action takes one. A moving
/// tank takes a new action when its move has run out; else a new heading
/// when it has kept its heading long enough; else a heading across the old
/// one when it has run into something. A shooting tank takes a new action
/// when its shot has run out; else a new heading when it has kept its
/// heading long enough.
pub open spec fn step_due(ai_comp: AIComponent, timers: TimerEvents) -> Step {
    match ai_comp.action {
        None => Step::NewAction,
        Some(Action::Move) => if timers.move_finished {
            Step::NewAction
        } else if timers.keep_direction_finished {
            Step::NewDirection
        } else if ai_comp.collision_happened {
            Step::AltDirection
        } else {
            Step::Stay
        },
        Some(Action::Shoot) => if timers.shoot_finished {
            Step::NewAction
        } else if timers.keep_direction_finished {
            Step::NewDirection
        } else {
            Step::Stay
        },
    }
}

/// What a tick comes to for the given draws.
pub open spec fn ai_decision(
    obj: GameObjInfo,
    ai_comp: AIComponent,
    player_pos: Vec2,
    player_collide_span: i64,
    timers: TimerEvents,
    draws: Draws,
) -> Decision {
    match step_due(ai_comp, timers) {
        Step::NewAction => new_action_decision(obj, ai_comp, player_pos, player_collide_span, draws),
        Step::NewDirection => new_direction_decision(
            obj,
            ai_comp,
            player_pos,
            player_collide_span,
            draws,
        ),
        Step::AltDirection => alt_direction_decision(obj, ai_comp, draws),
        Step::Stay => no_decision(obj, ai_comp),
    }
}

/// Flips a coin with `rand::random::<bool>()`. Nothing is claimed of the
/// outcome.
#[verifier::external_body]
fn coin_flip() -> (heads: bool) {
    rand::random::<bool>()
}

/// Draws with `rand::random_ratio(numerator, denominator)`, which gives
/// `true` with `numerator` chances in `denominator`. That function panics
/// on a zero denominator and on a numerator above the denominator, so those
/// are left out. Its documentation promises `true` for equal arguments and
/// `false` for a zero numerator; nothing else is claimed of the outcome.
#[verifier::external_body]
fn draw_ratio(numerator: u32, denominator: u32) -> (drawn: bool)
    requires
        denominator != 0,
        numerator <= denominator,
    ensures
        numerator == denominator ==> drawn,
        numerator == 0 ==> !drawn,
{
    rand::random_ratio(numerator, denominator)
}

/// The unit step of `toward`.
fn step_toward(from: i64, to: i64) -> (s: i64)
    ensures
        s == toward(from as int, to as int),
{
    if to < from {
        -1
    } else {
        1
    }
}

impl AIComponent {
    /// The state of a tank that has not decided anything yet.
    pub fn new() -> (ai_comp: AIComponent)
        ensures
            ai_comp == (AIComponent { action: None, collision_happened: false }),
    {
        AIComponent { action: None, collision_happened: false }
    }
}

/// The kind of decision due: see `step_due`.
pub fn next_step(ai_comp: &AIComponent, timers: &TimerEvents) -> (step: Step)
    ensures
        step == step_due(*ai_comp, *timers),
{
    match ai_comp.action {
        None => Step::NewAction,
        Some(Action::Move) => {
            if timers.move_finished {
                Step::NewAction
            } else if timers.keep_direction_finished {
                Step::NewDirection
            } else if ai_comp.collision_happened {
                Step::AltDirection
            } else {
                Step::Stay
            }
        },
        Some(Action::Shoot) => {
            if timers.shoot_finished {
                Step::NewAction
            } else if timers.keep_direction_finished {
                Step::NewDirection
            } else {
                Step::Stay
            }
        },
    }
}

/// Whether the heading toward the player is left to the coin: the tank is
/// level with the player along neither axis.
pub open spec fn needs_coin(pos: Vec2, player_pos: Vec2, player_collide_span: i64) -> bool {
    abs(pos.x - player_pos.x) >= player_collide_span && abs(pos.y - player_pos.y)
        >= player_collide_span
}

/// Gives the tank a heading toward the player, as the coin `coin` falls
/// where the coin decides, and asks for the heading's timer to start again.
pub fn choose_new_direction(
    obj: &mut GameObjInfo,
    player_pos: &Vec2,
    player_collide_span: i64,
    coin: bool,
) -> (resets: TimerResets)
    requires
        valid_body_pos(old(obj).pos),
        valid_pos(*player_pos),
    ensures
        *final(obj) == (GameObjInfo {
            direction: heading_to_player(old(obj).pos, *player_pos, player_collide_span, coin),
            ..*old(obj)
        }),
        resets == (TimerResets { keep_direction: true, move_timer: false, shoot_timer: false }),
{
    let along_y = Vec2 { x: 0, y: step_toward(obj.pos.y, player_pos.y) };
    let along_x = Vec2 { x: step_toward(obj.pos.x, player_pos.x), y: 0 };
    obj.direction = if abs_i64(obj.pos.x - player_pos.x) < player_collide_span {
        along_y
    } else if abs_i64(obj.pos.y - player_pos.y) < player_collide_span {
        along_x
    } else if coin {
        along_y
    } else {
        along_x
    };
    TimerResets { keep_direction: true, move_timer: false, shoot_timer: false }
}

/// Turns the tank across its heading after a collision, up or right when
/// `coin` shows heads, clears the collision, and asks for the timers of the
/// move and of the heading to start again.
pub fn choose_alt_direction(obj: &mut GameObjInfo, ai_comp: &mut AIComponent, coin: bool) -> (resets:
    TimerResets)
    ensures
        *final(obj) == (GameObjInfo {
            direction: side_heading(old(obj).direction, coin),
            ..*old(obj)
        }),
        *final(ai_comp) == (AIComponent {
            action: old(ai_comp).action,
            collision_happened: false,
        }),
        resets == (TimerResets { keep_direction: true, move_timer: true, shoot_timer: false }),
{
    let c: i64 = if coin {
        1
    } else {
        -1
    };
    obj.direction = if obj.direction.x != 0 {
        Vec2 { x: 0, y: c }
    } else {
        Vec2 { x: c, y: 0 }
    };
    ai_comp.collision_happened = false;
    TimerResets { keep_direction: true, move_timer: true, shoot_timer: false }
}

/// Starts a new action, a move if `moves` and a shot if not, gives the
/// tank a heading toward the player, and asks for the timers of the action
/// and of the heading to start again.
pub fn new_action(
    obj: &mut GameObjInfo,
    ai_comp: &mut AIComponent,
    player_pos: &Vec2,
    player_collide_span: i64,
    moves: bool,
    coin: bool,
) -> (resets: TimerResets)
    requires
        valid_body_pos(old(obj).pos),
        valid_pos(*player_pos),
    ensures
        ({
            let d = new_action_decision(
                *old(obj),
                *old(ai_comp),
                *player_pos,
                player_collide_span,
                Draws { moves, coin },
            );
            &&& *final(obj) == (GameObjInfo { direction: d.direction, ..*old(obj) })
            &&& *final(ai_comp) == d.ai_comp
            &&& resets == d.resets
        }),
{
    if moves {
        ai_comp.action = Some(Action::Move);
        ai_comp.collision_happened = false;
    } else {
        ai_comp.action = Some(Action::Shoot);
    }
    choose_new_direction(obj, player_pos, player_collide_span, coin);
    TimerResets { keep_direction: true, move_timer: moves, shoot_timer: !moves }
}

/// One tick of a computer-steered tank, with the draws given: see
/// `ai_decision`.
pub fn apply_ai_step(
    obj: &mut GameObjInfo,
    ai_comp: &mut AIComponent,
    player_pos: &Vec2,
    player_collide_span: i64,
    timers: &TimerEvents,
    draws: &Draws,
) -> (resets: TimerResets)
    requires
        valid_body_pos(old(obj).pos),
        valid_pos(*player_pos),
    ensures
        ({
            let d = ai_decision(
                *old(obj),
                *old(ai_comp),
                *player_pos,
                player_collide_span,
                *timers,
                *draws,
            );
            &&& *final(obj) == (GameObjInfo { direction: d.direction, ..*old(obj) })
            &&& *final(ai_comp) == d.ai_comp
            &&& resets == d.resets
        }),
{
    match next_step(ai_comp, timers) {
        Step::NewAction => new_action(
            obj,
            ai_comp,
            player_pos,
            player_collide_span,
            draws.moves,
            draws.coin,
        ),
        Step::NewDirection => choose_new_direction(
            obj,
            player_pos,
            player_collide_span,
            draws.coin,
        ),
        Step::AltDirection => choose_alt_direction(obj, ai_comp, draws.coin),
        Step::Stay => TimerResets { keep_direction: false, move_timer: false, shoot_timer: false },
    }
}

/// Whether a new action can be a move, can be a shot: with all chances
/// for a move it is a move, with none it is a shot.
pub open spec fn draw_allowed(ai_config: AIConfig, draws: Draws) -> bool {
    &&& ai_config.move_prob >= PROB_SCALE ==> draws.moves
    &&& ai_config.move_prob == 0 ==> !draws.moves
}

/// One tick of a computer-steered tank. `timers` tells which of its timers
/// ran out on this tick; the timers to start again come back. The tank's
/// heading and state change as `ai_decision` says, for draws that are made
/// here: a draw with `ai_config.move_prob` chances in `PROB_SCALE` when a
/// new action is due, and the flip of a coin when the heading is left to
/// one. A chance of `PROB_SCALE` or more always gives a move, a chance of
/// zero always a shot.
pub fn update_ai_for_obj(
    obj: &mut GameObjInfo,
    ai_comp: &mut AIComponent,
    ai_config: &AIConfig,
    player_pos: &Vec2,
    player_collide_span: i64,
    timers: &TimerEvents,
) -> (resets: TimerResets)
    requires
        valid_body_pos(old(obj).pos),
        valid_pos(*player_pos),
    ensures
        exists|draws: Draws|
            {
                let d = #[trigger] ai_decision(
                    *old(obj),
                    *old(ai_comp),
                    *player_pos,
                    player_collide_span,
                    *timers,
                    draws,
                );
                &&& draw_allowed(*ai_config, draws)
                &&& *final(obj) == (GameObjInfo { direction: d.direction, ..*old(obj) })
                &&& *final(ai_comp) == d.ai_comp
                &&& resets == d.resets
            },
{
    let step = next_step(ai_comp, timers);
    let moves = match step {
        Step::NewAction => {
            if ai_config.move_prob >= PROB_SCALE {
                true
            } else {
                draw_ratio(ai_config.move_prob, PROB_SCALE)
            }
        },
        _ => ai_config.move_prob >= PROB_SCALE,
    };
    let coin = match step {
        Step::AltDirection => coin_flip(),
        Step::Stay => false,
        _ => {
            if abs_i64(obj.pos.x - player_pos.x) >= player_collide_span && abs_i64(
                obj.pos.y - player_pos.y,
            ) >= player_collide_span {
                coin_flip()
            } else {
                false
            }
        },
    };
    let draws = Draws { moves, coin };
    let resets = apply_ai_step(obj, ai_comp, player_pos, player_collide_span, timers, &draws);
    proof {
        let d = ai_decision(
            *old(obj),
            *old(ai_comp),
            *player_pos,
            player_collide_span,
            *timers,
            draws,
        );
        assert(draw_allowed(*ai_config, draws));
        assert(*obj == (GameObjInfo { direction: d.direction, ..*old(obj) }));
    }
    resets
}

} // verus!
