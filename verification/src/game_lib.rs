//! What the configuration provider hands to the engine: the kind and side of
//! a body, and the numbers that belong to each type of body.

use vstd::prelude::*;
use crate::mytypes::{valid_span, valid_unit, SPAN_MAX};

verus! {

/// The kind of a body. It decides which collision policy applies to it.
#[derive(Clone, Copy, Debug, PartialEq, Eq, Structural)]
pub enum GameObjType {
    /// A static obstacle.
    Tile,
    /// A mobile body that blocks and is blocked.
    Tank,
    /// A projectile: it is only tested for overlap, never set back.
    Missile,
    /// A decoration that takes no part in collisions.
    Effect,
}

/// The faction of a body.
#[derive(Clone, Copy, Debug, PartialEq, Eq, Structural)]
pub enum GameObjSide {
    Player,
    AI,
    Neutral,
}

/// What an explosion does to the bodies it reaches.
#[derive(Clone, Copy, Debug)]
pub struct ExplosionConfig {
    pub damage: u32,
    pub explode_span: i64,
}

/// The numbers of one type of body.
#[derive(Clone, Copy, Debug)]
pub struct GameObjConfig {
    pub obj_type: GameObjType,
    pub side: GameObjSide,
    pub speed: i64,
    pub collide_span: i64,
    pub max_hp: Option<u32>,
    pub explosion: Option<ExplosionConfig>,
}

impl GameObjType {
    /// Bodies of this kind stop a blocking mover and are hit by projectiles.
    pub open spec fn is_solid_spec(self) -> bool {
        self == GameObjType::Tank || self == GameObjType::Tile
    }

    pub fn is_solid(&self) -> (b: bool)
        ensures
            b == self.is_solid_spec(),
    {
        match self {
            GameObjType::Tank => true,
            GameObjType::Tile => true,
            GameObjType::Missile => false,
            GameObjType::Effect => false,
        }
    }
}

impl GameObjConfig {
    /// The numbers are ones the engine can compute with.
    pub open spec fn valid(self) -> bool {
        &&& valid_span(self.collide_span)
        &&& valid_unit(self.speed)
        &&& match self.explosion {
            Some(e) => valid_span(e.explode_span),
            None => true,
        }
    }
}

/// The explosion of the body type at `config_index` of the table `configs`:
/// none when the table has no such type, when the type sets off none, or
/// when its span is outside the engine's limits.
pub open spec fn explosion_of(configs: Seq<GameObjConfig>, config_index: usize) -> Option<
    ExplosionConfig,
> {
    if config_index < configs.len() {
        match configs[config_index as int].explosion {
            Some(e) => if valid_span(e.explode_span) {
                Some(e)
            } else {
                None
            },
            None => None,
        }
    } else {
        None
    }
}

/// The table of body types, looked up by index when a body is created.
#[derive(Debug)]
pub struct GameLib {
    game_obj_configs: Vec<GameObjConfig>,
}

impl View for GameLib {
    type V = Seq<GameObjConfig>;

    closed spec fn view(&self) -> Seq<GameObjConfig> {
        self.game_obj_configs@
    }
}

impl GameLib {
    pub fn new(game_obj_configs: Vec<GameObjConfig>) -> (lib: GameLib)
        ensures
            lib@ == game_obj_configs@,
    {
        GameLib { game_obj_configs }
    }

    /// Number of body types.
    pub fn obj_config_count(&self) -> (n: usize)
        ensures
            n == self@.len(),
    {
        self.game_obj_configs.len()
    }

    /// The numbers of the body type at `config_index`.
    pub fn get_obj_config(&self, config_index: usize) -> (config: &GameObjConfig)
        requires
            config_index < self@.len(),
        ensures
            *config == self@[config_index as int],
    {
        &self.game_obj_configs[config_index]
    }

    /// The explosion that bodies of the type at `config_index` set off, if
    /// the table has that type, the type has one, and its span is one the
    /// engine can compute with.
    pub fn get_explosion_config(&self, config_index: usize) -> (explosion: Option<ExplosionConfig>)
        ensures
            explosion == explosion_of(self@, config_index),
    {
        if config_index < self.game_obj_configs.len() {
            match self.game_obj_configs[config_index].explosion {
                Some(e) => {
                    if 0 <= e.explode_span && e.explode_span <= SPAN_MAX {
                        Some(e)
                    } else {
                        None
                    }
                },
                None => None,
            }
        } else {
            None
        }
    }
}

} // verus!
