//! Validating sweep tests: the time at which a moving square first meets a
//! standing square, or the border of its world, within one time step. Times
//! are exact fractions.

use vstd::prelude::*;
use crate::mytypes::{abs, abs_i64, valid_pos, MyError, Vec2, SPAN_MAX};

verus! {

/// A time that is not negative, as the fraction `num / den`. It is not
/// reduced: `4/2` and `2/1` are the same time.
#[derive(Clone, Copy, Debug)]
pub struct Fraction {
    pub num: i64,
    pub den: i64,
}

/// What the movement along one axis comes to.
#[derive(Clone, Copy, Debug)]
pub enum AxisTime {
    /// The two squares overlap along this axis before the movement starts.
    Inside,
    /// The squares come into contact along this axis at this time.
    At(Fraction),
    /// The squares are apart along this axis and the mover does not move
    /// along it.
    Never,
    /// The squares touch along this axis and the mover does not move
    /// along it.
    Open,
}

impl Fraction {
    /// The denominator is positive and the numerator is not negative.
    pub open spec fn wf(self) -> bool {
        self.den > 0 && self.num >= 0
    }

    /// The two fractions are the same time.
    pub open spec fn same_time(self, other: Fraction) -> bool {
        self.num * other.den == other.num * self.den
    }

    /// The time is the whole number `k`.
    pub open spec fn is_whole_spec(self, k: int) -> bool {
        self.num == k * self.den
    }

    /// Whether the time is the whole number `k`.
    pub fn is_whole(&self, k: i64) -> (b: bool)
        ensures
            b == self.is_whole_spec(k as int),
    {
        self.num as i128 == wide_mul(k, self.den)
    }
}

/// The side of zero that `v` counts for: a mover that does not move along
/// an axis counts as heading toward larger coordinates.
pub open spec fn heading(v: int) -> int {
    if v < 0 {
        -1
    } else {
        1
    }
}

/// The movement along one axis. `w` is the way from the mover's centre to
/// the other centre, `span_sum` the sum of the two spans, `v` the velocity
/// along the axis. `None` stands for a mover that is apart from the other
/// square, or touches it, and heads away from it.
pub open spec fn axis_time(w: int, span_sum: int, v: int) -> Option<AxisTime> {
    let d = abs(w) - span_sum;
    if d < 0 {
        Some(AxisTime::Inside)
    } else if heading(v) != heading(w) {
        None
    } else if v != 0 {
        Some(AxisTime::At(Fraction { num: d as i64, den: abs(v) as i64 }))
    } else if d > 0 {
        Some(AxisTime::Never)
    } else {
        Some(AxisTime::Open)
    }
}

impl AxisTime {
    /// Contact along this axis still lies ahead, or never comes.
    pub open spec fn ahead(self) -> bool {
        self is At || self is Never
    }

    /// Contact along this axis comes later than along the axis of `other`.
    pub open spec fn later_than(self, other: AxisTime) -> bool {
        match (self, other) {
            (AxisTime::At(a), AxisTime::Inside) => true,
            (AxisTime::At(a), AxisTime::At(b)) => a.num * b.den > b.num * a.den,
            (AxisTime::Never, AxisTime::Inside) => true,
            (AxisTime::Never, AxisTime::At(b)) => true,
            _ => false,
        }
    }

    /// The time of contact, when it lies before the end of the step.
    pub open spec fn within(self, time_delta: int) -> Option<Fraction> {
        match self {
            AxisTime::At(a) => if a.num < time_delta * a.den {
                Some(a)
            } else {
                None
            },
            _ => None,
        }
    }
}

/// At the time `t` the mover, whose way along the other axis is `w` at the
/// velocity `v`, has not yet passed the far side of the other square along
/// that axis.
pub open spec fn still_beside(t: Fraction, w: int, span_sum: int, v: int) -> bool {
    abs(v) * t.num < (heading(v) * w + span_sum) * t.den
}

/// What `check_collide_nonpass` returns.
///
/// The input is turned down when the time step or a span is not positive
/// or the velocity has no length; and, with `AlreadyColliding`, when along
/// neither axis contact lies ahead. A mover that heads away from the other
/// square along an axis on which the two are apart never meets it. Else
/// contact is made along the axis on which it comes later, at that axis's
/// time, provided that time lies within the step and the mover is then
/// still beside the other square along the other axis. When neither axis
/// comes later than the other, the x axis decides alone.
pub open spec fn collide_time(
    pos1: Vec2,
    span1: i64,
    v: Vec2,
    pos2: Vec2,
    span2: i64,
    time_delta: i64,
) -> Result<Option<Fraction>, MyError> {
    let span_sum = span1 + span2;
    let wx = pos2.x - pos1.x;
    let wy = pos2.y - pos1.y;
    if time_delta <= 0 || span1 <= 0 || span2 <= 0 || v.is_zero_spec() {
        Err(MyError::InvalidParam)
    } else {
        match axis_time(wx, span_sum, v.x as int) {
            None => Ok(None),
            Some(tx) => match axis_time(wy, span_sum, v.y as int) {
                None => Ok(None),
                Some(ty) => if !tx.ahead() && !ty.ahead() {
                    Err(MyError::AlreadyColliding)
                } else if tx.later_than(ty) {
                    match tx.within(time_delta as int) {
                        Some(t) => if still_beside(t, wy, span_sum, v.y as int) {
                            Ok(Some(t))
                        } else {
                            Ok(None)
                        },
                        None => Ok(None),
                    }
                } else if ty.later_than(tx) {
                    match ty.within(time_delta as int) {
                        Some(t) => if still_beside(t, wx, span_sum, v.x as int) {
                            Ok(Some(t))
                        } else {
                            Ok(None)
                        },
                        None => Ok(None),
                    }
                } else {
                    Ok(tx.within(time_delta as int))
                },
            },
        }
    }
}

/// The time at which a mover at `pos`, with the velocity `v` along one
/// axis, reaches the border of `[0, bound]` along that axis with the side of
/// its square that leads; `None` when it does not move along the axis.
pub open spec fn bound_time(pos: int, span: int, v: int, bound: int) -> Option<Fraction> {
    if v < 0 {
        Some(Fraction { num: (pos - span) as i64, den: (-v) as i64 })
    } else if v > 0 {
        Some(Fraction { num: (bound - pos - span) as i64, den: v as i64 })
    } else {
        None
    }
}

/// The earlier of two times, the first of them when they are the same
/// time; a time that is `None` never comes.
pub open spec fn earlier(a: Option<Fraction>, b: Option<Fraction>) -> Option<Fraction> {
    match (a, b) {
        (Some(x), Some(y)) => if x.num * y.den <= y.num * x.den {
            Some(x)
        } else {
            Some(y)
        },
        (Some(x), None) => Some(x),
        (None, Some(y)) => Some(y),
        (None, None) => None,
    }
}

/// What `check_collide_bound_nonpass` returns.
///
/// The input is turned down when the span, the time step or an extent of
/// the bound is not positive or the velocity has no length; and, with
/// `OutsideBound`, when the square does not lie strictly inside the bound.
/// Else the result is the time at which the square first reaches the
/// border, if that lies within the step.
pub open spec fn bound_collide_time(pos: Vec2, span: i64, v: Vec2, bound: Vec2, time_delta: i64)
    -> Result<Option<Fraction>, MyError> {
    if span <= 0 || v.is_zero_spec() || bound.x <= 0 || bound.y <= 0 || time_delta <= 0 {
        Err(MyError::InvalidParam)
    } else if pos.x - span <= 0 || pos.x + span >= bound.x || pos.y - span <= 0 || pos.y + span
        >= bound.y {
        Err(MyError::OutsideBound)
    } else {
        match earlier(
            bound_time(pos.x as int, span as int, v.x as int, bound.x as int),
            bound_time(pos.y as int, span as int, v.y as int, bound.y as int),
        ) {
            Some(t) => if t.num < time_delta * t.den {
                Ok(Some(t))
            } else {
                Ok(None)
            },
            None => Ok(None),
        }
    }
}

/// At the time `t` the moving square touches the standing one: along one
/// axis their borders meet, and along the other the squares do not lie
/// apart. Distances are scaled by the denominator of `t`.
pub open spec fn touching_at(
    pos1: Vec2,
    span1: i64,
    v: Vec2,
    pos2: Vec2,
    span2: i64,
    t: Fraction,
) -> bool {
    let reach = (span1 + span2) * t.den;
    let gx = abs((pos2.x - pos1.x) * t.den - v.x * t.num);
    let gy = abs((pos2.y - pos1.y) * t.den - v.y * t.num);
    gx <= reach && gy <= reach && (gx == reach || gy == reach)
}

/// At the time `t` the moving square lies inside the rectangle from the
/// origin to `bound` and touches its border. Distances are scaled by the
/// denominator of `t`.
pub open spec fn at_border(pos: Vec2, span: i64, v: Vec2, bound: Vec2, t: Fraction) -> bool {
    let x = pos.x * t.den + v.x * t.num;
    let y = pos.y * t.den + v.y * t.num;
    let s = span * t.den;
    &&& 0 <= x - s
    &&& x + s <= bound.x * t.den
    &&& 0 <= y - s
    &&& y + s <= bound.y * t.den
    &&& (x - s == 0 || x + s == bound.x * t.den || y - s == 0 || y + s == bound.y * t.den)
}

/// Along the axis on which contact is made, the borders meet at the time
/// of contact.
proof fn lemma_contact_axis(w: int, span_sum: int, v: int)
    requires
        span_sum > 0,
        abs(w) - span_sum >= 0,
        heading(v) == heading(w),
        v != 0,
    ensures
        abs(w * abs(v) - v * (abs(w) - span_sum)) == span_sum * abs(v),
{
    if v > 0 {
        assert(w * v - v * (w - span_sum) == span_sum * v) by (nonlinear_arith);
        assert(span_sum * v > 0) by (nonlinear_arith)
            requires
                span_sum > 0,
                v > 0,
        ;
    } else {
        assert(w * (-v) - v * (-w - span_sum) == -(span_sum * (-v))) by (nonlinear_arith);
        assert(span_sum * (-v) > 0) by (nonlinear_arith)
            requires
                span_sum > 0,
                v < 0,
        ;
    }
}

/// Along an axis on which the squares overlap from the start, a mover that
/// is still beside the other square at the time `n / m` overlaps it then.
proof fn lemma_beside_axis_inside(w: int, span_sum: int, v: int, n: int, m: int)
    requires
        abs(w) < span_sum,
        m > 0,
        n >= 0,
        abs(v) * n < (heading(v) * w + span_sum) * m,
    ensures
        abs(w * m - v * n) < span_sum * m,
{
    if v >= 0 {
        assert(w * m - v * n > -(span_sum * m)) by (nonlinear_arith)
            requires
                v * n < (w + span_sum) * m,
        ;
        assert(w * m - v * n < span_sum * m) by (nonlinear_arith)
            requires
                w < span_sum,
                m > 0,
                v >= 0,
                n >= 0,
        ;
    } else {
        assert(w * m - v * n < span_sum * m) by (nonlinear_arith)
            requires
                (-v) * n < (-w + span_sum) * m,
        ;
        assert(w * m - v * n > -(span_sum * m)) by (nonlinear_arith)
            requires
                -w < span_sum,
                m > 0,
                v < 0,
                n >= 0,
        ;
    }
}

/// Along an axis on which contact comes no later than at the time `n / m`,
/// a mover that is still beside the other square at that time, or that
/// makes contact exactly then, does not lie apart from it then.
proof fn lemma_beside_axis_entered(w: int, span_sum: int, v: int, n: int, m: int)
    requires
        span_sum > 0,
        abs(w) - span_sum >= 0,
        heading(v) == heading(w),
        v != 0,
        m > 0,
        n >= 0,
        n * abs(v) >= (abs(w) - span_sum) * m,
        n * abs(v) == (abs(w) - span_sum) * m || abs(v) * n < (heading(v) * w + span_sum) * m,
    ensures
        abs(w * m - v * n) <= span_sum * m,
{
    if v > 0 {
        assert(w * m - v * n <= span_sum * m) by (nonlinear_arith)
            requires
                n * v >= (w - span_sum) * m,
        ;
        if n * abs(v) == (abs(w) - span_sum) * m {
            assert(w * m - v * n == span_sum * m) by (nonlinear_arith)
                requires
                    n * v == (w - span_sum) * m,
            ;
            assert(span_sum * m > 0) by (nonlinear_arith)
                requires
                    span_sum > 0,
                    m > 0,
            ;
        } else {
            assert(w * m - v * n > -(span_sum * m)) by (nonlinear_arith)
                requires
                    v * n < (w + span_sum) * m,
            ;
        }
    } else {
        assert(w * m - v * n >= -(span_sum * m)) by (nonlinear_arith)
            requires
                n * (-v) >= (-w - span_sum) * m,
        ;
        if n * abs(v) == (abs(w) - span_sum) * m {
            assert(w * m - v * n == -(span_sum * m)) by (nonlinear_arith)
                requires
                    n * (-v) == (-w - span_sum) * m,
            ;
            assert(span_sum * m > 0) by (nonlinear_arith)
                requires
                    span_sum > 0,
                    m > 0,
            ;
        } else {
            assert(w * m - v * n < span_sum * m) by (nonlinear_arith)
                requires
                    (-v) * n < (-w + span_sum) * m,
            ;
        }
    }
}

/// What the time that `check_collide_nonpass` returns means: it lies
/// within the step, and at that time the moving square touches the standing
/// one.
pub proof fn lemma_collide_time_touches(
    pos1: Vec2,
    span1: i64,
    v: Vec2,
    pos2: Vec2,
    span2: i64,
    time_delta: i64,
)
    requires
        valid_pos(pos1),
        valid_pos(pos2),
        span1 <= SPAN_MAX,
        span2 <= SPAN_MAX,
        v.x > i64::MIN,
        v.y > i64::MIN,
        collide_time(pos1, span1, v, pos2, span2, time_delta) matches Ok(Some(_)),
    ensures
        ({
            let t = collide_time(pos1, span1, v, pos2, span2, time_delta)->Ok_0->0;
            &&& t.wf()
            &&& t.num < time_delta * t.den
            &&& touching_at(pos1, span1, v, pos2, span2, t)
        }),
{
    let span_sum = span1 + span2;
    let wx = pos2.x - pos1.x;
    let wy = pos2.y - pos1.y;
    let tx = axis_time(wx, span_sum, v.x as int)->0;
    let ty = axis_time(wy, span_sum, v.y as int)->0;
    let t = collide_time(pos1, span1, v, pos2, span2, time_delta)->Ok_0->0;
    let n = t.num as int;
    let m = t.den as int;
    if tx.later_than(ty) {
        assert(tx == AxisTime::At(t));
        assert(n == abs(wx) - span_sum && m == abs(v.x as int));
        lemma_contact_axis(wx, span_sum, v.x as int);
        match ty {
            AxisTime::Inside => {
                lemma_beside_axis_inside(wy, span_sum, v.y as int, n, m);
            },
            AxisTime::At(b) => {
                assert(n * abs(v.y as int) >= (abs(wy) - span_sum) * m) by (nonlinear_arith)
                    requires
                        n * b.den > b.num * m,
                        b.den == abs(v.y as int),
                        b.num == abs(wy) - span_sum,
                ;
                lemma_beside_axis_entered(wy, span_sum, v.y as int, n, m);
            },
            _ => {},
        }
    } else if ty.later_than(tx) {
        assert(ty == AxisTime::At(t));
        assert(n == abs(wy) - span_sum && m == abs(v.y as int));
        lemma_contact_axis(wy, span_sum, v.y as int);
        match tx {
            AxisTime::Inside => {
                lemma_beside_axis_inside(wx, span_sum, v.x as int, n, m);
            },
            AxisTime::At(a) => {
                assert(n * abs(v.x as int) >= (abs(wx) - span_sum) * m) by (nonlinear_arith)
                    requires
                        n * a.den > a.num * m,
                        a.den == abs(v.x as int),
                        a.num == abs(wx) - span_sum,
                ;
                lemma_beside_axis_entered(wx, span_sum, v.x as int, n, m);
            },
            _ => {},
        }
    } else {
        assert(tx == AxisTime::At(t));
        assert(n == abs(wx) - span_sum && m == abs(v.x as int));
        lemma_contact_axis(wx, span_sum, v.x as int);
        match ty {
            AxisTime::At(b) => {
                assert(n * abs(v.y as int) == (abs(wy) - span_sum) * m) by (nonlinear_arith)
                    requires
                        !(n * b.den > b.num * m),
                        !(b.num * m > n * b.den),
                        b.den == abs(v.y as int),
                        b.num == abs(wy) - span_sum,
                ;
                lemma_beside_axis_entered(wy, span_sum, v.y as int, n, m);
            },
            AxisTime::Open => {
                assert(wy * m - 0 * n == span_sum * m) by (nonlinear_arith)
                    requires
                        wy == span_sum,
                ;
                assert(span_sum * m > 0) by (nonlinear_arith)
                    requires
                        span_sum > 0,
                        m > 0,
                ;
            },
            _ => {},
        }
    }
}

/// Along an axis, at a time `n / m` that is no later than the time at
/// which the square reaches the border along that axis, the square lies
/// between the two borders.
proof fn lemma_inside_until_border(pos: int, span: int, v: int, bound: int, n: int, m: int)
    requires
        0 < pos - span,
        pos + span < bound,
        m > 0,
        n >= 0,
        v < 0 ==> n * (-v) <= (pos - span) * m,
        v > 0 ==> n * v <= (bound - pos - span) * m,
    ensures
        0 <= pos * m + v * n - span * m,
        pos * m + v * n + span * m <= bound * m,
        v < 0 && n * (-v) == (pos - span) * m ==> pos * m + v * n - span * m == 0,
        v > 0 && n * v == (bound - pos - span) * m ==> pos * m + v * n + span * m == bound * m,
{
    if v < 0 {
        assert(0 <= pos * m + v * n - span * m) by (nonlinear_arith)
            requires
                n * (-v) <= (pos - span) * m,
        ;
        assert(pos * m + v * n + span * m <= bound * m) by (nonlinear_arith)
            requires
                pos + span < bound,
                m > 0,
                n >= 0,
                v < 0,
        ;
        if n * (-v) == (pos - span) * m {
            assert(pos * m + v * n - span * m == 0) by (nonlinear_arith)
                requires
                    n * (-v) == (pos - span) * m,
            ;
        }
    } else if v > 0 {
        assert(pos * m + v * n + span * m <= bound * m) by (nonlinear_arith)
            requires
                n * v <= (bound - pos - span) * m,
        ;
        assert(0 <= pos * m + v * n - span * m) by (nonlinear_arith)
            requires
                0 < pos - span,
                m > 0,
                n >= 0,
                v > 0,
        ;
        if n * v == (bound - pos - span) * m {
            assert(pos * m + v * n + span * m == bound * m) by (nonlinear_arith)
                requires
                    n * v == (bound - pos - span) * m,
            ;
        }
    } else {
        assert(pos * m + 0 * n - span * m >= 0 && pos * m + 0 * n + span * m <= bound * m)
            by (nonlinear_arith)
            requires
                0 < pos - span,
                pos + span < bound,
                m > 0,
        ;
    }
}

/// What the time that `check_collide_bound_nonpass` returns means: it lies
/// within the step, and at that time the square touches the border of the
/// bound from inside.
pub proof fn lemma_bound_time_at_border(
    pos: Vec2,
    span: i64,
    v: Vec2,
    bound: Vec2,
    time_delta: i64,
)
    requires
        valid_pos(pos),
        span <= SPAN_MAX,
        v.x > i64::MIN,
        v.y > i64::MIN,
        bound_collide_time(pos, span, v, bound, time_delta) matches Ok(Some(_)),
    ensures
        ({
            let t = bound_collide_time(pos, span, v, bound, time_delta)->Ok_0->0;
            &&& t.wf()
            &&& t.num < time_delta * t.den
            &&& at_border(pos, span, v, bound, t)
        }),
{
    let tx = bound_time(pos.x as int, span as int, v.x as int, bound.x as int);
    let ty = bound_time(pos.y as int, span as int, v.y as int, bound.y as int);
    let t = bound_collide_time(pos, span, v, bound, time_delta)->Ok_0->0;
    let n = t.num as int;
    let m = t.den as int;
    assert(earlier(tx, ty) == Some(t));
    match (tx, ty) {
        (Some(a), Some(b)) => {
            if a.num * b.den <= b.num * a.den {
                assert(t == a);
                assert(v.y < 0 ==> n * (-(v.y as int)) <= (pos.y - span) * m) by (nonlinear_arith)
                    requires
                        n * b.den <= b.num * m,
                        v.y < 0 ==> b.den == -(v.y as int) && b.num == pos.y - span,
                ;
                assert(v.y > 0 ==> n * (v.y as int) <= (bound.y - pos.y - span) * m)
                    by (nonlinear_arith)
                    requires
                        n * b.den <= b.num * m,
                        v.y > 0 ==> b.den == v.y as int && b.num == bound.y - pos.y - span,
                ;
                assert(v.x < 0 ==> n * (-(v.x as int)) == (pos.x - span) * m) by (nonlinear_arith)
                    requires
                        v.x < 0 ==> m == -(v.x as int) && n == pos.x - span,
                ;
                assert(v.x > 0 ==> n * (v.x as int) == (bound.x - pos.x - span) * m)
                    by (nonlinear_arith)
                    requires
                        v.x > 0 ==> m == v.x as int && n == bound.x - pos.x - span,
                ;
            } else {
                assert(t == b);
                assert(v.x < 0 ==> n * (-(v.x as int)) <= (pos.x - span) * m) by (nonlinear_arith)
                    requires
                        n * a.den < a.num * m,
                        v.x < 0 ==> a.den == -(v.x as int) && a.num == pos.x - span,
                ;
                assert(v.x > 0 ==> n * (v.x as int) <= (bound.x - pos.x - span) * m)
                    by (nonlinear_arith)
                    requires
                        n * a.den < a.num * m,
                        v.x > 0 ==> a.den == v.x as int && a.num == bound.x - pos.x - span,
                ;
                assert(v.y < 0 ==> n * (-(v.y as int)) == (pos.y - span) * m) by (nonlinear_arith)
                    requires
                        v.y < 0 ==> m == -(v.y as int) && n == pos.y - span,
                ;
                assert(v.y > 0 ==> n * (v.y as int) == (bound.y - pos.y - span) * m)
                    by (nonlinear_arith)
                    requires
                        v.y > 0 ==> m == v.y as int && n == bound.y - pos.y - span,
                ;
            }
        },
        (Some(a), None) => {
            assert(t == a && v.y == 0);
            assert(v.x < 0 ==> n * (-(v.x as int)) == (pos.x - span) * m) by (nonlinear_arith)
                requires
                    v.x < 0 ==> m == -(v.x as int) && n == pos.x - span,
            ;
            assert(v.x > 0 ==> n * (v.x as int) == (bound.x - pos.x - span) * m)
                by (nonlinear_arith)
                requires
                    v.x > 0 ==> m == v.x as int && n == bound.x - pos.x - span,
            ;
        },
        (None, Some(b)) => {
            assert(t == b && v.x == 0);
            assert(v.y < 0 ==> n * (-(v.y as int)) == (pos.y - span) * m) by (nonlinear_arith)
                requires
                    v.y < 0 ==> m == -(v.y as int) && n == pos.y - span,
            ;
            assert(v.y > 0 ==> n * (v.y as int) == (bound.y - pos.y - span) * m)
                by (nonlinear_arith)
                requires
                    v.y > 0 ==> m == v.y as int && n == bound.y - pos.y - span,
            ;
        },
        (None, None) => {},
    }
    lemma_inside_until_border(pos.x as int, span as int, v.x as int, bound.x as int, n, m);
    lemma_inside_until_border(pos.y as int, span as int, v.y as int, bound.y as int, n, m);
}

/// The product of two machine integers, in a type that always holds it.
fn wide_mul(a: i64, b: i64) -> (p: i128)
    ensures
        p == a * b,
{
    assert(-0x4000_0000_0000_0000_0000_0000_0000_0000 <= a * b
        <= 0x4000_0000_0000_0000_0000_0000_0000_0000) by (nonlinear_arith)
        requires
            -0x8000_0000_0000_0000 <= a <= 0x8000_0000_0000_0000,
            -0x8000_0000_0000_0000 <= b <= 0x8000_0000_0000_0000,
    ;
    (a as i128) * (b as i128)
}

/// The movement along one axis: see `axis_time`.
fn axis_time_of(w: i64, span_sum: i64, v: i64) -> (r: Option<AxisTime>)
    requires
        -0x7000_0000_0000_0000 <= w <= 0x7000_0000_0000_0000,
        0 <= span_sum <= 0x400_0000_0000,
        v > i64::MIN,
    ensures
        r == axis_time(w as int, span_sum as int, v as int),
{
    let d: i64 = abs_i64(w) - span_sum;
    if d < 0 {
        Some(AxisTime::Inside)
    } else if (v < 0) != (w < 0) {
        None
    } else if v != 0 {
        Some(AxisTime::At(Fraction { num: d, den: abs_i64(v) }))
    } else if d > 0 {
        Some(AxisTime::Never)
    } else {
        Some(AxisTime::Open)
    }
}

/// Whether contact along the first axis comes later than along the second.
fn later(a: &AxisTime, b: &AxisTime) -> (r: bool)
    requires
        a matches AxisTime::At(x) ==> x.wf(),
        b matches AxisTime::At(y) ==> y.wf(),
    ensures
        r == a.later_than(*b),
{
    match (a, b) {
        (AxisTime::At(_), AxisTime::Inside) => true,
        (AxisTime::At(x), AxisTime::At(y)) => wide_mul(x.num, y.den) > wide_mul(y.num, x.den),
        (AxisTime::Never, AxisTime::Inside) => true,
        (AxisTime::Never, AxisTime::At(_)) => true,
        _ => false,
    }
}

/// The time of contact, when it lies before the end of the step.
fn time_within(t: &AxisTime, time_delta: i64) -> (r: Option<Fraction>)
    requires
        t matches AxisTime::At(x) ==> x.wf(),
    ensures
        r == t.within(time_delta as int),
{
    match t {
        AxisTime::At(a) => {
            if (a.num as i128) < wide_mul(time_delta, a.den) {
                Some(*a)
            } else {
                None
            }
        },
        _ => None,
    }
}

/// Whether the mover is still beside the other square: see `still_beside`.
fn beside(t: &Fraction, w: i64, span_sum: i64, v: i64) -> (r: bool)
    requires
        t.wf(),
        -0x7000_0000_0000_0000 <= w <= 0x7000_0000_0000_0000,
        0 <= span_sum <= 0x400_0000_0000,
        v > i64::MIN,
    ensures
        r == still_beside(*t, w as int, span_sum as int, v as int),
{
    let reach: i64 = if v < 0 {
        -w + span_sum
    } else {
        w + span_sum
    };
    wide_mul(abs_i64(v), t.num) < wide_mul(reach, t.den)
}

/// The time at which the square of half-extent `span1` that moves from
/// `pos1` with the velocity `v` first meets the standing square of
/// half-extent `span2` at `pos2`, if it does so before `time_delta` has
/// passed: see `collide_time`.
pub fn check_collide_nonpass(
    pos1: &Vec2,
    span1: i64,
    v: &Vec2,
    pos2: &Vec2,
    span2: i64,
    time_delta: i64,
) -> (r: Result<Option<Fraction>, MyError>)
    requires
        valid_pos(*pos1),
        valid_pos(*pos2),
        span1 <= SPAN_MAX,
        span2 <= SPAN_MAX,
        v.x > i64::MIN,
        v.y > i64::MIN,
    ensures
        r == collide_time(*pos1, span1, *v, *pos2, span2, time_delta),
        r matches Ok(Some(t)) ==> t.wf() && t.num < time_delta * t.den,
{
    if time_delta <= 0 || span1 <= 0 || span2 <= 0 || v.is_zero() {
        return Err(MyError::InvalidParam);
    }
    let span_sum: i64 = span1 + span2;
    let wx: i64 = pos2.x - pos1.x;
    let wy: i64 = pos2.y - pos1.y;
    let tx = match axis_time_of(wx, span_sum, v.x) {
        Some(t) => t,
        None => {
            return Ok(None);
        },
    };
    let ty = match axis_time_of(wy, span_sum, v.y) {
        Some(t) => t,
        None => {
            return Ok(None);
        },
    };
    let x_ahead = match tx {
        AxisTime::At(_) => true,
        AxisTime::Never => true,
        _ => false,
    };
    let y_ahead = match ty {
        AxisTime::At(_) => true,
        AxisTime::Never => true,
        _ => false,
    };
    if !x_ahead && !y_ahead {
        return Err(MyError::AlreadyColliding);
    }
    if later(&tx, &ty) {
        match time_within(&tx, time_delta) {
            Some(t) => {
                if beside(&t, wy, span_sum, v.y) {
                    Ok(Some(t))
                } else {
                    Ok(None)
                }
            },
            None => Ok(None),
        }
    } else if later(&ty, &tx) {
        match time_within(&ty, time_delta) {
            Some(t) => {
                if beside(&t, wx, span_sum, v.x) {
                    Ok(Some(t))
                } else {
                    Ok(None)
                }
            },
            None => Ok(None),
        }
    } else {
        Ok(time_within(&tx, time_delta))
    }
}

/// The time of `bound_time`.
fn bound_time_of(pos: i64, span: i64, v: i64, bound: i64) -> (r: Option<Fraction>)
    requires
        0 < pos - span,
        pos + span < bound,
        span > 0,
        v > i64::MIN,
    ensures
        r == bound_time(pos as int, span as int, v as int, bound as int),
        r matches Some(t) ==> t.wf(),
{
    if v < 0 {
        Some(Fraction { num: pos - span, den: -v })
    } else if v > 0 {
        Some(Fraction { num: bound - pos - span, den: v })
    } else {
        None
    }
}

/// The time at which the square of half-extent `span` that moves from
/// `pos` with the velocity `v` first reaches the border of the rectangle
/// from the origin to `bound`, if it does so before `time_delta` has
/// passed: see `bound_collide_time`.
pub fn check_collide_bound_nonpass(
    pos: &Vec2,
    span: i64,
    v: &Vec2,
    bound: &Vec2,
    time_delta: i64,
) -> (r: Result<Option<Fraction>, MyError>)
    requires
        valid_pos(*pos),
        span <= SPAN_MAX,
        v.x > i64::MIN,
        v.y > i64::MIN,
    ensures
        r == bound_collide_time(*pos, span, *v, *bound, time_delta),
        r matches Ok(Some(t)) ==> t.wf() && t.num < time_delta * t.den,
{
    if span <= 0 || v.is_zero() || bound.x <= 0 || bound.y <= 0 || time_delta <= 0 {
        return Err(MyError::InvalidParam);
    }
    if pos.x - span <= 0 || pos.x + span >= bound.x || pos.y - span <= 0 || pos.y + span
        >= bound.y {
        return Err(MyError::OutsideBound);
    }
    let tx = bound_time_of(pos.x, span, v.x, bound.x);
    let ty = bound_time_of(pos.y, span, v.y, bound.y);
    let t = match (tx, ty) {
        (Some(x), Some(y)) => {
            if wide_mul(x.num, y.den) <= wide_mul(y.num, x.den) {
                x
            } else {
                y
            }
        },
        (Some(x), None) => x,
        (None, Some(y)) => y,
        (None, None) => {
            return Ok(None);
        },
    };
    if (t.num as i128) < wide_mul(time_delta, t.den) {
        Ok(Some(t))
    } else {
        Ok(None)
    }
}

} // verus!
