//! Small closed sets of values that describe an entity: whether it is
//! alive, whose side it is on, and which way it heads.

use vstd::prelude::*;
use crate::mytypes::{MyError, Vec2};

verus! {

/// Whether an entity takes part in the simulation.
#[derive(Clone, Copy, Debug, PartialEq, Eq, Structural)]
pub enum GameObjectState {
    Active,
    Dead,
}

/// The faction of an entity.
#[derive(Clone, Copy, Debug, PartialEq, Eq, Structural)]
pub enum Side {
    AI,
    Player,
    Neutral,
}

/// One of the four axial headings.
#[derive(Clone, Copy, Debug, PartialEq, Eq, Structural)]
pub enum Direction {
    Up,
    Down,
    Left,
    Right,
}

/// The side that `name` names, if it names one.
pub open spec fn side_named(name: Seq<char>) -> Option<Side> {
    if name == "AI"@ {
        Some(Side::AI)
    } else if name == "Player"@ {
        Some(Side::Player)
    } else if name == "Neutral"@ {
        Some(Side::Neutral)
    } else {
        None
    }
}

/// The direction that `name` names, if it names one.
pub open spec fn direction_named(name: Seq<char>) -> Option<Direction> {
    if name == "Up"@ {
        Some(Direction::Up)
    } else if name == "Down"@ {
        Some(Direction::Down)
    } else if name == "Left"@ {
        Some(Direction::Left)
    } else if name == "Right"@ {
        Some(Direction::Right)
    } else {
        None
    }
}

/// Whether two strings hold the same characters.
fn same_text(a: &str, b: &str) -> (same: bool)
    ensures
        same == (a@ == b@),
{
    a.to_owned() == b.to_owned()
}

impl Side {
    /// The side of the given name: `AI`, `Player` or `Neutral`. Any other
    /// name is turned down.
    pub fn try_from(value: &str) -> (r: Result<Side, MyError>)
        ensures
            r == match side_named(value@) {
                Some(side) => Ok::<Side, MyError>(side),
                None => Err::<Side, MyError>(MyError::InvalidSide),
            },
    {
        if same_text(value, "AI") {
            Ok(Side::AI)
        } else if same_text(value, "Player") {
            Ok(Side::Player)
        } else if same_text(value, "Neutral") {
            Ok(Side::Neutral)
        } else {
            Err(MyError::InvalidSide)
        }
    }
}

impl Direction {
    /// The unit vector of the heading, with y growing upward.
    pub open spec fn vec(self) -> Vec2 {
        match self {
            Direction::Up => Vec2 { x: 0, y: 1 },
            Direction::Down => Vec2 { x: 0, y: -1i64 },
            Direction::Left => Vec2 { x: -1i64, y: 0 },
            Direction::Right => Vec2 { x: 1, y: 0 },
        }
    }

    pub fn to_vec(&self) -> (v: Vec2)
        ensures
            v == self.vec(),
    {
        match self {
            Direction::Up => Vec2 { x: 0, y: 1 },
            Direction::Down => Vec2 { x: 0, y: -1 },
            Direction::Left => Vec2 { x: -1, y: 0 },
            Direction::Right => Vec2 { x: 1, y: 0 },
        }
    }

    /// The direction of the given name: `Up`, `Down`, `Left` or `Right`.
    /// Any other name is turned down.
    pub fn try_from(value: &str) -> (r: Result<Direction, MyError>)
        ensures
            r == match direction_named(value@) {
                Some(d) => Ok::<Direction, MyError>(d),
                None => Err::<Direction, MyError>(MyError::InvalidDirection),
            },
    {
        if same_text(value, "Up") {
            Ok(Direction::Up)
        } else if same_text(value, "Down") {
            Ok(Direction::Down)
        } else if same_text(value, "Left") {
            Ok(Direction::Left)
        } else if same_text(value, "Right") {
            Ok(Direction::Right)
        } else {
            Err(MyError::InvalidDirection)
        }
    }
}

impl Default for Direction {
    fn default() -> (d: Direction)
        ensures
            d == Direction::Left,
    {
        Direction::Left
    }
}

} // verus!
