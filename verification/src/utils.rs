//! The resolvers: pure computations on positions and spans that decide
//! whether a square body leaves the world or meets another body, and where a
//! blocked body comes to rest.

use vstd::prelude::*;
use crate::mytypes::{abs, abs_i64, clamp, valid_body_pos, valid_direction, valid_pos,
    valid_span, valid_unit, Vec2, SPAN_MAX, UNIT_MAX};

verus! {

/// The point reached from `pos` after `time_delta` at `speed` along `direction`.
pub open spec fn swept_pos(pos: Vec2, direction: Vec2, speed: i64, time_delta: i64) -> Vec2 {
    Vec2 {
        x: (pos.x + direction.x * speed * time_delta) as i64,
        y: (pos.y + direction.y * speed * time_delta) as i64,
    }
}

/// The square of half-extent `span` around `pos` lies inside the rectangle
/// `[0, width] x [0, height]` with its whole border.
pub open spec fn inside_bounds(pos: Vec2, span: i64, width: i64, height: i64) -> bool {
    &&& span <= pos.x <= width - span
    &&& span <= pos.y <= height - span
}

/// `pos` with each axis brought into `[span, extent - span]` on its own.
pub open spec fn clamped_to_bounds(pos: Vec2, span: i64, width: i64, height: i64) -> Vec2 {
    Vec2 {
        x: clamp(pos.x as int, span as int, width - span) as i64,
        y: clamp(pos.y as int, span as int, height - span) as i64,
    }
}

/// The squares around `pos1` and `pos2` share interior points.
pub open spec fn overlaps(pos1: Vec2, span1: i64, pos2: Vec2, span2: i64) -> bool {
    &&& abs(pos1.x - pos2.x) < span1 + span2
    &&& abs(pos1.y - pos2.y) < span1 + span2
}

/// Distance between the borders of the two squares along the axis on which
/// they are furthest apart: negative when they overlap, zero when they touch.
pub open spec fn gap(pos1: Vec2, span1: i64, pos2: Vec2, span2: i64) -> int {
    let dx = abs(pos1.x - pos2.x);
    let dy = abs(pos1.y - pos2.y);
    (if dx >= dy { dx } else { dy }) - (span1 + span2)
}

/// How far a mover has to go back along one axis, against its heading,
/// until its square is flush with the other body's on the side it came
/// from. `heading` is the mover's heading along the axis, `from` its
/// coordinate, `other` the other body's, and `total` the sum of the two
/// spans. While the squares overlap this lies strictly between zero and
/// twice `total`, also for a mover whose centre has passed the other
/// body's. A mover that does not move along the axis cannot become flush
/// on it; `total` stands for its way back.
pub open spec fn way_back(total: int, heading: int, from: int, other: int) -> int {
    if heading > 0 {
        total + (from - other)
    } else if heading < 0 {
        total - (from - other)
    } else {
        total
    }
}

/// The coordinate `from` taken back by `way` against the heading `heading`
/// along its axis.
pub open spec fn taken_back(from: int, heading: int, way: int) -> int {
    if heading > 0 {
        from - way
    } else if heading < 0 {
        from + way
    } else {
        from
    }
}

/// The mover is stopped on the x axis, flush against the other body: going
/// back along its line of travel it becomes flush on x no later than on y.
pub open spec fn stops_on_x(pos1: Vec2, span1: i64, direction: Vec2, pos2: Vec2, span2: i64)
    -> bool {
    let total = span1 + span2;
    let cx = way_back(total, direction.x as int, pos1.x as int, pos2.x as int);
    let cy = way_back(total, direction.y as int, pos1.y as int, pos2.y as int);
    cx * abs(direction.y as int) <= cy * abs(direction.x as int)
}

/// Where a mover that overlaps the body at `pos2` comes to rest. It is taken
/// back along its line of travel, against its heading, until one axis is
/// flush with the other body on the side the mover came from: the axis on
/// which that happens first. The other coordinate goes back in proportion,
/// rounded down to whole units. Where both axes become flush together the
/// x axis is the one made flush. A mover without a heading stays.
pub open spec fn slide_pos(pos1: Vec2, span1: i64, direction: Vec2, pos2: Vec2, span2: i64)
    -> Vec2 {
    let total = span1 + span2;
    let cx = way_back(total, direction.x as int, pos1.x as int, pos2.x as int);
    let cy = way_back(total, direction.y as int, pos1.y as int, pos2.y as int);
    let ax = abs(direction.x as int);
    let ay = abs(direction.y as int);
    if direction.is_zero_spec() {
        pos1
    } else if stops_on_x(pos1, span1, direction, pos2, span2) {
        Vec2 {
            x: taken_back(pos1.x as int, direction.x as int, cx) as i64,
            y: taken_back(pos1.y as int, direction.y as int, (cx * ay) / ax) as i64,
        }
    } else {
        Vec2 {
            x: taken_back(pos1.x as int, direction.x as int, (cy * ax) / ay) as i64,
            y: taken_back(pos1.y as int, direction.y as int, cy) as i64,
        }
    }
}

/// A quotient is no larger than a factor that bounds the dividend, and
/// what the division leaves over is less than the divisor.
proof fn lemma_quotient_bound(a: int, b: int, c: int)
    requires
        0 <= a <= c * b,
        0 < b,
    ensures
        0 <= a / b <= c,
        0 <= a - (a / b) * b < b,
{
    assert(0 <= a / b <= c) by (nonlinear_arith)
        requires
            0 <= a <= c * b,
            0 < b,
    ;
    vstd::arithmetic::div_mod::lemma_fundamental_div_mod(a, b);
    vstd::arithmetic::div_mod::lemma_mod_pos_bound(a, b);
    assert(b * (a / b) == (a / b) * b) by (nonlinear_arith);
}

/// Products of a way back and a heading component fit the machine.
proof fn lemma_product_bound(c: int, a: int)
    requires
        0 <= c <= 4 * SPAN_MAX,
        0 <= a <= UNIT_MAX,
    ensures
        0 <= c * a <= 4 * SPAN_MAX * UNIT_MAX,
{
    assert(0 <= c * a <= 4 * SPAN_MAX * UNIT_MAX) by (nonlinear_arith)
        requires
            0 <= c <= 4 * SPAN_MAX,
            0 <= a <= UNIT_MAX,
    ;
}

/// What holds of a mover that the pairwise resolver sets back, flush on the
/// x axis: it has a heading along x; it went back on x by the whole way to
/// the side it came from, which it reaches no later than the side on y; it
/// went back on y in proportion, up to the rounding of whole units; and
/// where it reaches both sides together it is flush on y too.
pub open spec fn set_back_on_x(pos1: Vec2, span1: i64, direction: Vec2, pos2: Vec2, span2: i64)
    -> bool {
    let total = span1 + span2;
    let r = slide_pos(pos1, span1, direction, pos2, span2);
    let ax = abs(direction.x as int);
    let ay = abs(direction.y as int);
    let back_x = abs(pos1.x - r.x);
    let back_y = abs(pos1.y - r.y);
    let way_y = way_back(total, direction.y as int, pos1.y as int, pos2.y as int);
    &&& direction.x != 0
    &&& abs(r.x - pos2.x) == total
    &&& r.x == taken_back(pos1.x as int, direction.x as int, back_x)
    &&& r.y == taken_back(pos1.y as int, direction.y as int, back_y)
    &&& back_x == way_back(total, direction.x as int, pos1.x as int, pos2.x as int)
    &&& 0 < back_x < 2 * total
    &&& back_x * ay <= way_y * ax
    &&& 0 <= back_x * ay - back_y * ax < ax
    &&& back_x * ay == way_y * ax ==> abs(r.y - pos2.y) == total
}

/// The same for a mover that is set back flush on the y axis, which it
/// reaches strictly before the side on x.
pub open spec fn set_back_on_y(pos1: Vec2, span1: i64, direction: Vec2, pos2: Vec2, span2: i64)
    -> bool {
    let total = span1 + span2;
    let r = slide_pos(pos1, span1, direction, pos2, span2);
    let ax = abs(direction.x as int);
    let ay = abs(direction.y as int);
    let back_x = abs(pos1.x - r.x);
    let back_y = abs(pos1.y - r.y);
    let way_x = way_back(total, direction.x as int, pos1.x as int, pos2.x as int);
    &&& direction.y != 0
    &&& abs(r.y - pos2.y) == total
    &&& r.x == taken_back(pos1.x as int, direction.x as int, back_x)
    &&& r.y == taken_back(pos1.y as int, direction.y as int, back_y)
    &&& back_y == way_back(total, direction.y as int, pos1.y as int, pos2.y as int)
    &&& 0 < back_y < 2 * total
    &&& back_y * ax < way_x * ay
    &&& 0 <= back_y * ax - back_x * ay < ay
}

/// The pairwise resolver sets a mover back along its line of travel: the
/// corrected point lies behind the mover on both axes, one axis is flush
/// with the other body, namely the one that becomes flush first, and the
/// ways back on the two axes are in the proportion of the heading, up to
/// the rounding of whole units. Where both axes become flush together, both
/// are flush in the result.
pub proof fn lemma_slide_on_ray(pos1: Vec2, span1: i64, direction: Vec2, pos2: Vec2, span2: i64)
    requires
        valid_pos(pos1),
        valid_span(span1),
        valid_direction(direction),
        valid_body_pos(pos2),
        valid_span(span2),
        overlaps(pos1, span1, pos2, span2),
        !direction.is_zero_spec(),
    ensures
        stops_on_x(pos1, span1, direction, pos2, span2) ==> set_back_on_x(
            pos1,
            span1,
            direction,
            pos2,
            span2,
        ),
        !stops_on_x(pos1, span1, direction, pos2, span2) ==> set_back_on_y(
            pos1,
            span1,
            direction,
            pos2,
            span2,
        ),
{
    let total = span1 + span2;
    let cx = way_back(total, direction.x as int, pos1.x as int, pos2.x as int);
    let cy = way_back(total, direction.y as int, pos1.y as int, pos2.y as int);
    let ax = abs(direction.x as int);
    let ay = abs(direction.y as int);
    let r = slide_pos(pos1, span1, direction, pos2, span2);
    lemma_product_bound(cx, ay);
    lemma_product_bound(cy, ax);
    if stops_on_x(pos1, span1, direction, pos2, span2) {
        assert(ax > 0) by (nonlinear_arith)
            requires
                cx > 0,
                ay >= 0,
                ax >= 0,
                cx * ay <= cy * ax,
                !(ax == 0 && ay == 0),
        ;
        lemma_quotient_bound(cx * ay, ax, cy);
        let q = (cx * ay) / ax;
        assert(r.x == taken_back(pos1.x as int, direction.x as int, cx));
        assert(r.y == taken_back(pos1.y as int, direction.y as int, q));
        let back_x = abs(pos1.x - r.x);
        let back_y = abs(pos1.y - r.y);
        assert(back_x == cx);
        assert(cy * ax > 0) by (nonlinear_arith)
            requires
                cy > 0,
                ax > 0,
        ;
        if direction.y == 0 {
            assert(cx * ay == 0 && q == 0) by (nonlinear_arith)
                requires
                    ay == 0,
                    ax > 0,
                    q == (cx * ay) / ax,
            ;
            assert(back_y == 0);
            assert(back_x * ay - back_y * ax == 0) by (nonlinear_arith)
                requires
                    ay == 0,
                    back_y == 0,
            ;
        } else {
            assert(back_y == q);
            assert(back_x * ay - back_y * ax == cx * ay - q * ax) by (nonlinear_arith)
                requires
                    back_x == cx,
                    back_y == q,
            ;
            if cx * ay == cy * ax {
                assert((cy * ax) / ax == cy) by (nonlinear_arith)
                    requires
                        ax > 0,
                ;
            }
        }
    } else {
        assert(ay > 0) by (nonlinear_arith)
            requires
                cy > 0,
                ay >= 0,
                ax >= 0,
                cx * ay > cy * ax,
        ;
        lemma_quotient_bound(cy * ax, ay, cx);
        let q = (cy * ax) / ay;
        assert(r.x == taken_back(pos1.x as int, direction.x as int, q));
        assert(r.y == taken_back(pos1.y as int, direction.y as int, cy));
        if direction.x == 0 {
            assert(cy * ax == 0) by (nonlinear_arith)
                requires
                    ax == 0,
            ;
        }
    }
}

/// Bringing a position into the world changes nothing the second time: a
/// position that is inside the bounds is its own clamped position, and a
/// clamped position is inside the bounds.
pub proof fn lemma_bounds_idempotent(pos: Vec2, span: i64, width: i64, height: i64)
    requires
        valid_pos(pos),
        valid_span(span),
        2 * span <= width <= SPAN_MAX,
        2 * span <= height <= SPAN_MAX,
    ensures
        inside_bounds(pos, span, width, height) ==> clamped_to_bounds(pos, span, width, height)
            == pos,
        inside_bounds(clamped_to_bounds(pos, span, width, height), span, width, height),
        clamped_to_bounds(clamped_to_bounds(pos, span, width, height), span, width, height)
            == clamped_to_bounds(pos, span, width, height),
{
}

/// After the pairwise resolver has set back a mover that has a heading, the
/// two squares touch and do not overlap: the gap between them is zero.
pub proof fn lemma_slide_touches(pos1: Vec2, span1: i64, direction: Vec2, pos2: Vec2, span2: i64)
    requires
        valid_pos(pos1),
        valid_span(span1),
        valid_direction(direction),
        valid_body_pos(pos2),
        valid_span(span2),
        overlaps(pos1, span1, pos2, span2),
        !direction.is_zero_spec(),
    ensures
        gap(slide_pos(pos1, span1, direction, pos2, span2), span1, pos2, span2) == 0,
        !overlaps(slide_pos(pos1, span1, direction, pos2, span2), span1, pos2, span2),
{
    let total = span1 + span2;
    let cx = way_back(total, direction.x as int, pos1.x as int, pos2.x as int);
    let cy = way_back(total, direction.y as int, pos1.y as int, pos2.y as int);
    let ax = abs(direction.x as int);
    let ay = abs(direction.y as int);
    let r = slide_pos(pos1, span1, direction, pos2, span2);
    lemma_product_bound(cx, ay);
    lemma_product_bound(cy, ax);
    if stops_on_x(pos1, span1, direction, pos2, span2) {
        assert(ax > 0) by (nonlinear_arith)
            requires
                cx > 0,
                ay >= 0,
                ax >= 0,
                cx * ay <= cy * ax,
                !(ax == 0 && ay == 0),
        ;
        lemma_quotient_bound(cx * ay, ax, cy);
        let q = (cx * ay) / ax;
        assert(r.y == taken_back(pos1.y as int, direction.y as int, q));
        assert(abs(r.x - pos2.x) == total);
        assert(abs(r.y - pos2.y) <= total);
    } else {
        assert(ay > 0) by (nonlinear_arith)
            requires
                cy > 0,
                ay >= 0,
                ax >= 0,
                cx * ay > cy * ax,
        ;
        lemma_quotient_bound(cy * ax, ay, cx);
        let q = (cy * ax) / ay;
        assert(r.x == taken_back(pos1.x as int, direction.x as int, q));
        assert(abs(r.y - pos2.y) == total);
        assert(abs(r.x - pos2.x) <= total);
    }
}

/// A mover that heads along the x axis only and overlaps another body is
/// set back along that axis alone, to the side it came from, until the two
/// squares touch.
pub proof fn lemma_slide_head_on_x(pos1: Vec2, span1: i64, direction: Vec2, pos2: Vec2, span2: i64)
    requires
        valid_pos(pos1),
        valid_span(span1),
        valid_direction(direction),
        valid_body_pos(pos2),
        valid_span(span2),
        overlaps(pos1, span1, pos2, span2),
        direction.x != 0,
        direction.y == 0,
    ensures
        slide_pos(pos1, span1, direction, pos2, span2) == (Vec2 {
            x: (if direction.x > 0 {
                pos2.x - (span1 + span2)
            } else {
                pos2.x + (span1 + span2)
            }) as i64,
            y: pos1.y,
        }),
        gap(slide_pos(pos1, span1, direction, pos2, span2), span1, pos2, span2) == 0,
{
    let total = span1 + span2;
    let cx = way_back(total, direction.x as int, pos1.x as int, pos2.x as int);
    let cy = way_back(total, direction.y as int, pos1.y as int, pos2.y as int);
    let ax = abs(direction.x as int);
    assert(cx * 0 == 0 && cy * ax >= 0) by (nonlinear_arith)
        requires
            cy > 0,
            ax > 0,
    ;
    assert((cx * 0) / ax == 0) by (nonlinear_arith)
        requires
            ax > 0,
    ;
    lemma_slide_touches(pos1, span1, direction, pos2, span2);
}

/// A mover that heads along the y axis only and overlaps another body is
/// set back along that axis alone, to the side it came from, until the two
/// squares touch.
pub proof fn lemma_slide_head_on_y(pos1: Vec2, span1: i64, direction: Vec2, pos2: Vec2, span2: i64)
    requires
        valid_pos(pos1),
        valid_span(span1),
        valid_direction(direction),
        valid_body_pos(pos2),
        valid_span(span2),
        overlaps(pos1, span1, pos2, span2),
        direction.x == 0,
        direction.y != 0,
    ensures
        slide_pos(pos1, span1, direction, pos2, span2) == (Vec2 {
            x: pos1.x,
            y: (if direction.y > 0 {
                pos2.y - (span1 + span2)
            } else {
                pos2.y + (span1 + span2)
            }) as i64,
        }),
        gap(slide_pos(pos1, span1, direction, pos2, span2), span1, pos2, span2) == 0,
{
    let total = span1 + span2;
    let cx = way_back(total, direction.x as int, pos1.x as int, pos2.x as int);
    let cy = way_back(total, direction.y as int, pos1.y as int, pos2.y as int);
    let ay = abs(direction.y as int);
    assert(cy * 0 == 0 && cx * ay > 0) by (nonlinear_arith)
        requires
            cx > 0,
            ay > 0,
    ;
    assert((cy * 0) / ay == 0) by (nonlinear_arith)
        requires
            ay > 0,
    ;
    lemma_slide_touches(pos1, span1, direction, pos2, span2);
}

/// The overlap test does not depend on which of the two bodies is named
/// first.
pub proof fn lemma_overlaps_symmetric(pos1: Vec2, span1: i64, pos2: Vec2, span2: i64)
    ensures
        overlaps(pos1, span1, pos2, span2) == overlaps(pos2, span2, pos1, span1),
{
}

/// The point a body reaches in one step when nothing stops it.
pub fn sweep(pos: &Vec2, direction: &Vec2, speed: i64, time_delta: i64) -> (dest: Vec2)
    requires
        valid_body_pos(*pos),
        valid_direction(*direction),
        valid_unit(speed),
        valid_unit(time_delta),
    ensures
        dest == swept_pos(*pos, *direction, speed, time_delta),
        dest.x == pos.x + direction.x * speed * time_delta,
        dest.y == pos.y + direction.y * speed * time_delta,
        valid_pos(dest),
{
    let step: i64 = {
        assert(0 <= speed * time_delta <= UNIT_MAX * UNIT_MAX) by (nonlinear_arith)
            requires
                0 <= speed <= UNIT_MAX,
                0 <= time_delta <= UNIT_MAX,
        ;
        speed * time_delta
    };
    assert(-(UNIT_MAX * UNIT_MAX * UNIT_MAX) <= direction.x * step <= UNIT_MAX * UNIT_MAX
        * UNIT_MAX) by (nonlinear_arith)
        requires
            -UNIT_MAX <= direction.x <= UNIT_MAX,
            0 <= step <= UNIT_MAX * UNIT_MAX,
    ;
    assert(-(UNIT_MAX * UNIT_MAX * UNIT_MAX) <= direction.y * step <= UNIT_MAX * UNIT_MAX
        * UNIT_MAX) by (nonlinear_arith)
        requires
            -UNIT_MAX <= direction.y <= UNIT_MAX,
            0 <= step <= UNIT_MAX * UNIT_MAX,
    ;
    assert(direction.x * speed * time_delta == direction.x * step) by (nonlinear_arith)
        requires
            step == speed * time_delta,
    ;
    assert(direction.y * speed * time_delta == direction.y * step) by (nonlinear_arith)
        requires
            step == speed * time_delta,
    ;
    Vec2 { x: pos.x + direction.x * step, y: pos.y + direction.y * step }
}

/// Bounds resolver for a blocking body. A destination whose square stays
/// inside the world comes back unchanged and unflagged; any other comes back
/// flagged, each axis brought into the world on its own, so that a body
/// sliding along a wall keeps the motion the wall does not stop.
/// `direction` is the mover's heading; it does not change the outcome.
pub fn collide_bounds_nonpass(
    pos: &Vec2,
    collide_span: i64,
    direction: &Vec2,
    width: i64,
    height: i64,
) -> (r: (bool, Vec2))
    requires
        valid_pos(*pos),
        valid_span(collide_span),
        2 * collide_span <= width <= SPAN_MAX,
        2 * collide_span <= height <= SPAN_MAX,
    ensures
        r.0 == !inside_bounds(*pos, collide_span, width, height),
        r.1 == clamped_to_bounds(*pos, collide_span, width, height),
        !r.0 ==> r.1 == *pos,
        inside_bounds(r.1, collide_span, width, height),
{
    let min_x: i64 = collide_span;
    let max_x: i64 = width - collide_span;
    let min_y: i64 = collide_span;
    let max_y: i64 = height - collide_span;
    let x: i64 = if pos.x < min_x {
        min_x
    } else if pos.x > max_x {
        max_x
    } else {
        pos.x
    };
    let y: i64 = if pos.y < min_y {
        min_y
    } else if pos.y > max_y {
        max_y
    } else {
        pos.y
    };
    let collide = x != pos.x || y != pos.y;
    (collide, Vec2 { x, y })
}

/// Bounds resolver for a passable body: whether the square around `pos`
/// reaches outside `[0, width] x [0, height]` on any side.
pub fn collide_bounds_pass(pos: &Vec2, collide_span: i64, width: i64, height: i64) -> (exited:
    bool)
    requires
        valid_pos(*pos),
        valid_span(collide_span),
    ensures
        exited == (pos.x - collide_span < 0 || pos.x + collide_span > width || pos.y
            - collide_span < 0 || pos.y + collide_span > height),
        0 <= width && 0 <= height ==> exited == !inside_bounds(*pos, collide_span, width, height),
{
    pos.x - collide_span < 0 || pos.x + collide_span > width || pos.y - collide_span < 0 || pos.y
        + collide_span > height
}

/// Pairwise resolver for a blocking mover against a standing body. Without
/// overlap the position comes back unchanged and unflagged. With overlap the
/// result is flagged and the mover is set back to `slide_pos`, along its
/// line of travel: it then touches the other body on the side it came from
/// and no longer overlaps it, unless it has no heading, in which case it
/// stays where it is.
pub fn collide_obj_nonpass(
    pos1: &Vec2,
    collide_span1: i64,
    direction: &Vec2,
    pos2: &Vec2,
    collide_span2: i64,
) -> (r: (bool, Vec2))
    requires
        valid_pos(*pos1),
        valid_span(collide_span1),
        valid_direction(*direction),
        valid_body_pos(*pos2),
        valid_span(collide_span2),
    ensures
        r.0 == overlaps(*pos1, collide_span1, *pos2, collide_span2),
        !r.0 ==> r.1 == *pos1,
        r.0 ==> r.1 == slide_pos(*pos1, collide_span1, *direction, *pos2, collide_span2),
        r.0 && !direction.is_zero_spec() ==> gap(r.1, collide_span1, *pos2, collide_span2) == 0,
        r.0 && !direction.is_zero_spec() ==> if stops_on_x(
            *pos1,
            collide_span1,
            *direction,
            *pos2,
            collide_span2,
        ) {
            set_back_on_x(*pos1, collide_span1, *direction, *pos2, collide_span2)
        } else {
            set_back_on_y(*pos1, collide_span1, *direction, *pos2, collide_span2)
        },
        r.0 && !direction.is_zero_spec() ==> r.1.within(3 * SPAN_MAX),
        valid_pos(r.1),
{
    let total_span: i64 = collide_span1 + collide_span2;
    let dx: i64 = abs_i64(pos1.x - pos2.x);
    let dy: i64 = abs_i64(pos1.y - pos2.y);

    if dx >= total_span || dy >= total_span {
        return (false, *pos1);
    }
    if direction.is_zero() {
        return (true, *pos1);
    }
    let cx: i64 = if direction.x > 0 {
        total_span + (pos1.x - pos2.x)
    } else if direction.x < 0 {
        total_span - (pos1.x - pos2.x)
    } else {
        total_span
    };
    let cy: i64 = if direction.y > 0 {
        total_span + (pos1.y - pos2.y)
    } else if direction.y < 0 {
        total_span - (pos1.y - pos2.y)
    } else {
        total_span
    };
    let ax: i64 = abs_i64(direction.x);
    let ay: i64 = abs_i64(direction.y);
    proof {
        lemma_product_bound(cx as int, ay as int);
        lemma_product_bound(cy as int, ax as int);
        lemma_slide_touches(*pos1, collide_span1, *direction, *pos2, collide_span2);
        lemma_slide_on_ray(*pos1, collide_span1, *direction, *pos2, collide_span2);
    }
    let px: i64 = cx * ay;
    let py: i64 = cy * ax;

    if px <= py {
        assert(ax > 0) by (nonlinear_arith)
            requires
                cx > 0,
                ay >= 0,
                ax >= 0,
                cx * ay <= cy * ax,
                !(ax == 0 && ay == 0),
        ;
        proof {
            lemma_quotient_bound(px as int, ax as int, cy as int);
        }
        let q: i64 = px / ax;
        let x: i64 = if direction.x > 0 {
            pos1.x - cx
        } else {
            pos1.x + cx
        };
        let y: i64 = if direction.y > 0 {
            pos1.y - q
        } else if direction.y < 0 {
            pos1.y + q
        } else {
            pos1.y
        };
        (true, Vec2 { x, y })
    } else {
        assert(ay > 0) by (nonlinear_arith)
            requires
                cy > 0,
                ay >= 0,
                ax >= 0,
                cx * ay > cy * ax,
        ;
        proof {
            lemma_quotient_bound(py as int, ay as int, cx as int);
        }
        let q: i64 = py / ay;
        let y: i64 = if direction.y > 0 {
            pos1.y - cy
        } else {
            pos1.y + cy
        };
        let x: i64 = if direction.x > 0 {
            pos1.x - q
        } else if direction.x < 0 {
            pos1.x + q
        } else {
            pos1.x
        };
        (true, Vec2 { x, y })
    }
}

/// Pairwise test for a passable body: whether the two squares overlap.
/// Neither position is changed, and equal inputs give equal answers.
pub fn collide_obj_pass(pos1: &Vec2, collide_span1: i64, pos2: &Vec2, collide_span2: i64) -> (hit:
    bool)
    requires
        valid_pos(*pos1),
        valid_span(collide_span1),
        valid_pos(*pos2),
        valid_span(collide_span2),
    ensures
        hit == overlaps(*pos1, collide_span1, *pos2, collide_span2),
{
    let total_span: i64 = collide_span1 + collide_span2;
    abs_i64(pos1.x - pos2.x) < total_span && abs_i64(pos1.y - pos2.y) < total_span
}

} // verus!
