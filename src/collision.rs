use vstd::prelude::*;

use crate::geometry::{abs_i64, abs_int, Rect, Vec2};

verus! {

/// The overlap is wider than it is tall, so the collision is resolved vertically.
pub open spec fn is_vertical(a: Rect, b: Rect) -> bool {
    a.common(b).w > a.common(b).h
}

/// The moving rectangle and its velocity after an overlap with the static `b` is
/// resolved: the rectangle moves by the overlap along one axis, away from `b`'s
/// centre (a tie counts as `b` lying below or to the right), and the velocity's
/// component on that axis is turned to point away from `b`.
pub open spec fn resolved(a: Rect, v: Vec2, b: Rect) -> (Rect, Vec2) {
    let c = a.common(b);
    if is_vertical(a, b) {
        if b.center2_y() >= a.center2_y() {
            (Rect { y: (a.y - c.h) as i64, ..a }, Vec2 { y: (-abs_int(v.y as int)) as i64, ..v })
        } else {
            (Rect { y: (a.y + c.h) as i64, ..a }, Vec2 { y: abs_int(v.y as int) as i64, ..v })
        }
    } else {
        if b.center2_x() < a.center2_x() {
            (Rect { x: (a.x + c.w) as i64, ..a }, Vec2 { x: abs_int(v.x as int) as i64, ..v })
        } else {
            (Rect { x: (a.x - c.w) as i64, ..a }, Vec2 { x: (-abs_int(v.x as int)) as i64, ..v })
        }
    }
}

/// Resolves a collision of the moving rectangle `a`, with velocity `vel`, against
/// the static rectangle `b`, and tells whether there was one.
pub fn resolve_collision(a: &mut Rect, vel: &mut Vec2, b: &Rect) -> (hit: bool)
    requires
        old(a).fits(),
        b.fits(),
        old(vel).negatable(),
    ensures
        hit == old(a).overlaps(*b),
        !hit ==> *final(a) == *old(a) && *final(vel) == *old(vel),
        hit ==> (*final(a), *final(vel)) == resolved(*old(a), *old(vel), *b),
{
    let intersection = match a.intersect(b) {
        Some(intersection) => intersection,
        None => return false,
    };
    let a_center = a.center2();
    let b_center = b.center2();
    let to = Vec2::new(b_center.x - a_center.x, b_center.y - a_center.y);
    let to_signum = to.signum();
    if intersection.w > intersection.h {
        if to_signum.y > 0 {
            a.y = a.y - intersection.h;
            vel.y = -abs_i64(vel.y);
        } else {
            a.y = a.y + intersection.h;
            vel.y = abs_i64(vel.y);
        }
    } else {
        if to_signum.x < 0 {
            a.x = a.x + intersection.w;
            vel.x = abs_i64(vel.x);
        } else {
            a.x = a.x - intersection.w;
            vel.x = -abs_i64(vel.x);
        }
    }
    true
}

/// Neither interval `[a0, a1)` nor `[b0, b1)` lies strictly inside the other.
pub open spec fn staggered(a0: int, a1: int, b0: int, b1: int) -> bool {
    (a0 <= b0 && a1 <= b1) || (b0 <= a0 && b1 <= a1)
}

/// Along the axis on which the collision of `a` with `b` is resolved, neither
/// rectangle's extent lies strictly inside the other's.
pub open spec fn staggered_on_axis(a: Rect, b: Rect) -> bool {
    if is_vertical(a, b) {
        staggered(a.y as int, a.bottom(), b.y as int, b.bottom())
    } else {
        staggered(a.x as int, a.right(), b.x as int, b.right())
    }
}

/// After a resolved collision the velocity's component on the correction axis
/// points away from `b`.
pub open spec fn points_away(a: Rect, b: Rect, v: Vec2) -> bool {
    if is_vertical(a, b) {
        if b.center2_y() >= a.center2_y() {
            v.y <= 0
        } else {
            v.y >= 0
        }
    } else {
        if b.center2_x() < a.center2_x() {
            v.x >= 0
        } else {
            v.x <= 0
        }
    }
}

/// A resolved overlap leaves the two rectangles apart, unless along the correction
/// axis one of them lies strictly inside the other; and the velocity on that axis
/// then points away from the static rectangle.
pub proof fn lemma_resolve_separates(a: Rect, v: Vec2, b: Rect)
    requires
        a.fits(),
        b.fits(),
        v.negatable(),
        a.overlaps(b),
        staggered_on_axis(a, b),
    ensures
        !resolved(a, v, b).0.overlaps(b),
        points_away(a, b, resolved(a, v, b).1),
{
}

/// Resolving a collision only turns the velocity's components: their magnitudes stay.
pub proof fn lemma_resolve_keeps_speed(a: Rect, v: Vec2, b: Rect)
    requires
        a.fits(),
        b.fits(),
        v.negatable(),
    ensures
        abs_int(resolved(a, v, b).1.x as int) == abs_int(v.x as int),
        abs_int(resolved(a, v, b).1.y as int) == abs_int(v.y as int),
{
}

} // verus!
