//! Directions: the heading along an offset, and the thrust along a heading.

use crate::components::Heading;
use crate::scalar::{
    abs_wide, clamp, isqrt, length_sq, magnitude, norm_sq, quotient, root, saturate,
    scale, scaled,
};
use vstd::prelude::*;

verus! {

/// The heading along the offset `(dx, dy)`: the offset scaled to the length
/// of one unit. The offset zero has the heading along the first axis.
pub open spec fn heading_along(dx: int, dy: int) -> Heading {
    let r = root(norm_sq(dx, dy));
    if r == 0 {
        Heading { x: 1000, y: 0 }
    } else {
        Heading { x: quotient(dx * 1000, r) as i32, y: quotient(dy * 1000, r) as i32 }
    }
}

/// The acceleration of a drive of strength `thrust` that pushes against the
/// heading `h`.
pub open spec fn thrust_against(h: Heading, thrust: int) -> (int, int) {
    (clamp(scaled(thrust, -h.x)), clamp(scaled(thrust, -h.y)))
}

/// A heading is no longer than one unit on either axis.
pub proof fn lemma_heading_unit(dx: int, dy: int)
    ensures
        -1000 <= heading_along(dx, dy).x <= 1000,
        -1000 <= heading_along(dx, dy).y <= 1000,
        dx >= 0 ==> heading_along(dx, dy).x >= 0,
        dx <= 0 && (dx != 0 || dy != 0) ==> heading_along(dx, dy).x <= 0,
        dy >= 0 ==> heading_along(dx, dy).y >= 0,
        dy <= 0 ==> heading_along(dx, dy).y <= 0,
{
    crate::scalar::lemma_component_within_root(dx, dy);
    let r = root(norm_sq(dx, dy));
    if r != 0 {
        lemma_scaled_component(dx, r);
        lemma_scaled_component(dy, r);
    } else {
        assert(dx == 0 && dy == 0);
    }
}

/// A component no longer than `r`, scaled by a thousand over `r`, is no
/// longer than a thousand, and keeps its sign.
pub proof fn lemma_scaled_component(d: int, r: int)
    requires
        0 < r,
        magnitude(d) <= r,
    ensures
        -1000 <= quotient(d * 1000, r) <= 1000,
        d >= 0 ==> quotient(d * 1000, r) >= 0,
        d <= 0 ==> quotient(d * 1000, r) <= 0,
{
    let m = magnitude(d) * 1000;
    vstd::arithmetic::div_mod::lemma_div_is_ordered(m, r * 1000, r);
    vstd::arithmetic::div_mod::lemma_div_multiples_vanish(1000, r);
    vstd::arithmetic::div_mod::lemma_div_pos_is_pos(m, r);
    assert(r * 1000 == 1000 * r);
}

/// The heading along an offset, computed.
pub fn heading_of(dx: i64, dy: i64) -> (h: Heading)
    ensures
        h == heading_along(dx as int, dy as int),
{
    let r2: u128 = length_sq(dx, dy);
    let r: u128 = isqrt(r2) as u128;
    if r == 0 {
        return Heading { x: 1000, y: 0 };
    }
    let qx: u128 = abs_wide(dx) * 1000 / r;
    let qy: u128 = abs_wide(dy) * 1000 / r;
    proof {
        crate::scalar::lemma_component_within_root(dx as int, dy as int);
        lemma_scaled_component(dx as int, r as int);
        lemma_scaled_component(dy as int, r as int);
    }
    let sx: i32 = if dx < 0 {
        -(qx as i32)
    } else {
        qx as i32
    };
    let sy: i32 = if dy < 0 {
        -(qy as i32)
    } else {
        qy as i32
    };
    Heading { x: sx, y: sy }
}

/// The acceleration of a drive that pushes against a heading, computed.
pub fn thrust_of(h: Heading, thrust: i32) -> (a: (i32, i32))
    ensures
        (a.0 as int, a.1 as int) == thrust_against(h, thrust as int),
{
    let x: i128 = scale(thrust, -(h.x as i64));
    let y: i128 = scale(thrust, -(h.y as i64));
    (saturate(x), saturate(y))
}

} // verus!
