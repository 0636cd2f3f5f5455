//! Plain values shared by every part of the engine: the 2D vector, the
//! numeric limits inside which all arithmetic is exact, and small helpers.

use vstd::prelude::*;

verus! {

/// Largest magnitude of a position the resolvers accept: a swept
/// destination may lie this far outside the world.
pub const POS_MAX: i64 = 0x2000_0000_0000_0000;

/// Largest span, and largest extent of a world.
pub const SPAN_MAX: i64 = 0x100_0000_0000;

/// Largest magnitude of a direction component, of a speed and of a time step.
pub const UNIT_MAX: i64 = 0x10_0000;

/// Why a validating function turned its input down.
#[derive(Clone, Copy, Debug, PartialEq, Eq, Structural)]
pub enum MyError {
    /// A time step, a span or an extent that is not positive, or a velocity
    /// without length.
    InvalidParam,
    /// The two bodies overlap before the movement starts.
    AlreadyColliding,
    /// The body does not stand strictly inside the bound before the
    /// movement starts.
    OutsideBound,
    /// A name that is no side.
    InvalidSide,
    /// A name that is no direction.
    InvalidDirection,
    /// A vertex that has no components.
    ZeroVertexSize,
    /// Vertex data that is empty or does not divide into whole vertices.
    InvalidDataSize,
    /// A slice of vertex data that starts too late to hold one vertex.
    InvalidStart,
    /// An empty list of blocks.
    NoBlocks,
    /// Blocks that do not hold the same number of vertices.
    VertexCountMismatch,
}

/// A point or a displacement of the plane, in world units.
#[derive(Clone, Copy, Debug, PartialEq, Eq, Structural)]
pub struct Vec2 {
    pub x: i64,
    pub y: i64,
}

/// Absolute value of a mathematical integer.
pub open spec fn abs(v: int) -> int {
    if v < 0 {
        -v
    } else {
        v
    }
}

/// `v` brought into `[lo, hi]`.
pub open spec fn clamp(v: int, lo: int, hi: int) -> int {
    if v < lo {
        lo
    } else if v > hi {
        hi
    } else {
        v
    }
}

impl Vec2 {
    /// Both coordinates have a magnitude of at most `bound`.
    pub open spec fn within(self, bound: int) -> bool {
        -bound <= self.x <= bound && -bound <= self.y <= bound
    }

    /// The vector has no length.
    pub open spec fn is_zero_spec(self) -> bool {
        self.x == 0 && self.y == 0
    }

    pub fn new(x: i64, y: i64) -> (v: Vec2)
        ensures
            v == (Vec2 { x, y }),
    {
        Vec2 { x, y }
    }

    pub fn is_zero(&self) -> (b: bool)
        ensures
            b == self.is_zero_spec(),
    {
        self.x == 0 && self.y == 0
    }
}

/// A position the resolvers can take.
pub open spec fn valid_pos(p: Vec2) -> bool {
    p.within(POS_MAX as int)
}

/// A span: a half-extent, never negative.
pub open spec fn valid_span(s: i64) -> bool {
    0 <= s <= SPAN_MAX
}

/// A movement heading.
pub open spec fn valid_direction(d: Vec2) -> bool {
    d.within(UNIT_MAX as int)
}

/// A speed or a time step: never negative, and small enough for a sweep to
/// stay inside the positions the resolvers accept.
pub open spec fn valid_unit(v: i64) -> bool {
    0 <= v <= UNIT_MAX
}

/// A position at which a body can stand in a world: within the largest
/// extent a world can have.
pub open spec fn valid_body_pos(p: Vec2) -> bool {
    p.within(SPAN_MAX as int)
}

/// Executable absolute value.
pub fn abs_i64(v: i64) -> (r: i64)
    requires
        v > i64::MIN,
    ensures
        r == abs(v as int),
{
    if v < 0 {
        -v
    } else {
        v
    }
}

} // verus!
