//! The force law. A source of mass `m` pulls a point at distance `r` toward
//! itself with `m / r^3` times the offset to the source, that is with
//! magnitude `m / r^2`; sources out of reach and sources at the very point
//! pull nothing.

use crate::components::{Gravity, Position};
use crate::registry::{Entity, Registry};
use crate::scalar::{
    abs_wide, clamp, delta, isqrt, length_sq, magnitude, norm_sq, root, saturate,
};
use crate::store::Store;
use vstd::prelude::*;

verus! {

/// A thousand cubed: the factor between a mass over a squared distance in
/// world units and the same in stored steps.
pub const UNIT_CUBED: u128 = 1_000_000_000;

/// Whether a point at squared distance `r2` is within the reach of `g`.
pub open spec fn in_reach(g: Gravity, r2: int) -> bool {
    match g.reach_sq {
        Some(limit) => r2 <= limit,
        None => true,
    }
}

/// The pull along one axis on a point whose offset to the source is `d` on
/// that axis, at squared distance `r2 > 0` from it.
pub open spec fn axis_pull(mass: int, d: int, r2: int) -> int {
    let m = (mass * magnitude(d) * UNIT_CUBED as int) / (r2 * root(r2));
    clamp(
        if d < 0 {
            -m
        } else {
            m
        },
    )
}

/// The acceleration that the source `g` at `at` gives a point at `(px, py)`.
pub open spec fn pull(g: Gravity, at: Position, px: int, py: int) -> (int, int) {
    let dx = at.x - px;
    let dy = at.y - py;
    let r2 = norm_sq(dx, dy);
    if r2 == 0 || !in_reach(g, r2) {
        (0, 0)
    } else {
        (axis_pull(g.mass as int, dx, r2), axis_pull(g.mass as int, dy, r2))
    }
}

/// What the entity `e` adds to the field at `(px, py)`: its pull if it is a
/// placed source other than `skip`, nothing otherwise.
pub open spec fn pull_of(
    e: Entity,
    gravities: Map<u64, Gravity>,
    positions: Map<u64, Position>,
    px: int,
    py: int,
    skip: Option<u64>,
) -> (int, int) {
    if skip == Some(e.id) || !gravities.contains_key(e.id) || !positions.contains_key(e.id) {
        (0, 0)
    } else {
        pull(gravities[e.id], positions[e.id], px, py)
    }
}

/// The sum of what the first `n` entities add to the field at `(px, py)`.
pub open spec fn pull_sum(
    entities: Seq<Entity>,
    gravities: Map<u64, Gravity>,
    positions: Map<u64, Position>,
    px: int,
    py: int,
    skip: Option<u64>,
    n: nat,
) -> (int, int)
    decreases n,
{
    if n == 0 {
        (0, 0)
    } else {
        let rest = pull_sum(entities, gravities, positions, px, py, skip, (n - 1) as nat);
        let p = pull_of(entities[n - 1], gravities, positions, px, py, skip);
        (rest.0 + p.0, rest.1 + p.1)
    }
}

/// The gravitational acceleration at `(px, py)`: the vector sum of the pulls
/// of all live sources but `skip`.
pub open spec fn field_at(
    entities: Seq<Entity>,
    gravities: Map<u64, Gravity>,
    positions: Map<u64, Position>,
    px: int,
    py: int,
    skip: Option<u64>,
) -> (int, int) {
    let s = pull_sum(entities, gravities, positions, px, py, skip, entities.len());
    (clamp(s.0), clamp(s.1))
}

/// A source pulls nothing beyond its reach.
pub proof fn lemma_cutoff(g: Gravity, at: Position, px: int, py: int, limit: u64)
    requires
        g.reach_sq == Some(limit),
        norm_sq(at.x - px, at.y - py) > limit,
    ensures
        pull(g, at, px, py) == (0int, 0int),
{
}

/// The pull points toward the source: on each axis it has the sign of the
/// offset to the source, or is zero.
pub proof fn lemma_pull_toward_source(g: Gravity, at: Position, px: int, py: int)
    ensures
        at.x - px >= 0 ==> pull(g, at, px, py).0 >= 0,
        at.x - px <= 0 ==> pull(g, at, px, py).0 <= 0,
        at.y - py >= 0 ==> pull(g, at, px, py).1 >= 0,
        at.y - py <= 0 ==> pull(g, at, px, py).1 <= 0,
{
    let dx = at.x - px;
    let dy = at.y - py;
    let r2 = norm_sq(dx, dy);
    assert(0 <= r2) by (nonlinear_arith)
        requires
            r2 == dx * dx + dy * dy,
    ;
    if r2 != 0 && in_reach(g, r2) {
        lemma_axis_pull_sign(g.mass as int, dx, r2);
        lemma_axis_pull_sign(g.mass as int, dy, r2);
    }
}

/// The sign of a pull along one axis.
pub proof fn lemma_axis_pull_sign(mass: int, d: int, r2: int)
    requires
        0 <= mass,
        0 < r2,
    ensures
        d >= 0 ==> axis_pull(mass, d, r2) >= 0,
        d <= 0 ==> axis_pull(mass, d, r2) <= 0,
{
    crate::scalar::lemma_root_positive(r2);
    let num = mass * magnitude(d) * UNIT_CUBED as int;
    let den = r2 * root(r2);
    assert(0 <= num) by (nonlinear_arith)
        requires
            num == mass * magnitude(d) * UNIT_CUBED as int,
            0 <= mass,
            0 <= magnitude(d),
            UNIT_CUBED as int == 1_000_000_000,
    ;
    assert(0 < den) by (nonlinear_arith)
        requires
            den == r2 * root(r2),
            0 < r2,
            0 < root(r2),
    ;
    vstd::arithmetic::div_mod::lemma_div_pos_is_pos(num, den);
    if d == 0 {
        assert(num == 0) by (nonlinear_arith)
            requires
                num == mass * magnitude(d) * UNIT_CUBED as int,
                magnitude(d) == 0,
        ;
    }
}

/// The pull on a point that lies on an axis through the source: along that
/// axis the offset is the whole distance `d`, and the pull is `m / d^2`
/// toward the source, which in stored steps is `m * 1000^3 / d^2`.
pub proof fn lemma_axis_pull_aligned(mass: int, d: int)
    requires
        0 <= mass,
        d != 0,
    ensures
        axis_pull(mass, d, d * d) == clamp(
            if d < 0 {
                -((mass * UNIT_CUBED as int) / (d * d))
            } else {
                (mass * UNIT_CUBED as int) / (d * d)
            },
        ),
        axis_pull(mass, 0, d * d) == 0,
{
    let r = magnitude(d);
    let k = UNIT_CUBED as int;
    assert(d * d == r * r && 0 < r * r) by (nonlinear_arith)
        requires
            r == d || r == -d,
            r > 0,
    ;
    crate::scalar::lemma_root_of_square(r);
    assert(mass * r * k == r * (mass * k)) by (nonlinear_arith);
    assert((r * r) * r == r * (r * r)) by (nonlinear_arith);
    assert(0 <= mass * k) by (nonlinear_arith)
        requires
            0 <= mass,
            0 < k,
    ;
    vstd::arithmetic::div_mod::lemma_div_multiples_vanish_quotient(r, mass * k, r * r);
    assert(mass * magnitude(0) * k == 0) by (nonlinear_arith)
        requires
            magnitude(0) == 0,
    ;
    assert(0 < (r * r) * r) by (nonlinear_arith)
        requires
            0 < r,
    ;
    vstd::arithmetic::div_mod::lemma_div_basics((r * r) * r);
}

/// The inverse-square law: a source of mass `m` pulls a point that lies at
/// distance `d` from it on one of the axes through it, within its reach,
/// straight toward itself with `m / d^2`.
pub proof fn lemma_inverse_square_on_axis(g: Gravity, at: Position, px: int, py: int)
    requires
        at.x != px || at.y != py,
        at.x == px || at.y == py,
        in_reach(g, norm_sq(at.x - px, at.y - py)),
    ensures
        at.y == py ==> pull(g, at, px, py) == (
            clamp(
                if at.x < px {
                    -((g.mass * UNIT_CUBED as int) / ((at.x - px) * (at.x - px)))
                } else {
                    (g.mass * UNIT_CUBED as int) / ((at.x - px) * (at.x - px))
                },
            ),
            0int,
        ),
        at.x == px ==> pull(g, at, px, py) == (
            0int,
            clamp(
                if at.y < py {
                    -((g.mass * UNIT_CUBED as int) / ((at.y - py) * (at.y - py)))
                } else {
                    (g.mass * UNIT_CUBED as int) / ((at.y - py) * (at.y - py))
                },
            ),
        ),
{
    let dx = at.x - px;
    let dy = at.y - py;
    if dy == 0 {
        assert(norm_sq(dx, dy) == dx * dx) by (nonlinear_arith)
            requires
                dy == 0,
        ;
        assert(dx * dx > 0) by (nonlinear_arith)
            requires
                dx != 0,
        ;
        lemma_axis_pull_aligned(g.mass as int, dx);
    } else {
        assert(norm_sq(dx, dy) == dy * dy) by (nonlinear_arith)
            requires
                dx == 0,
        ;
        assert(dy * dy > 0) by (nonlinear_arith)
            requires
                dy != 0,
        ;
        lemma_axis_pull_aligned(g.mass as int, dy);
    }
}

/// Off the axes the pull is shared between them: neither component exceeds
/// the whole pull `m / r^2`.
pub proof fn lemma_pull_within_inverse_square(g: Gravity, at: Position, px: int, py: int)
    requires
        at.x != px || at.y != py,
    ensures
        magnitude(pull(g, at, px, py).0) <= (g.mass * UNIT_CUBED as int) / norm_sq(
            at.x - px,
            at.y - py,
        ),
        magnitude(pull(g, at, px, py).1) <= (g.mass * UNIT_CUBED as int) / norm_sq(
            at.x - px,
            at.y - py,
        ),
{
    let dx = at.x - px;
    let dy = at.y - py;
    let r2 = norm_sq(dx, dy);
    assert(0 < r2) by (nonlinear_arith)
        requires
            r2 == dx * dx + dy * dy,
            dx != 0 || dy != 0,
    ;
    let k = UNIT_CUBED as int;
    let m = g.mass as int;
    assert(0 <= m * k) by (nonlinear_arith)
        requires
            0 <= m,
            0 < k,
    ;
    vstd::arithmetic::div_mod::lemma_div_pos_is_pos(m * k, r2);
    crate::scalar::lemma_component_within_root(dx, dy);
    lemma_axis_pull_bound(m, dx, r2);
    lemma_axis_pull_bound(m, dy, r2);
}

/// The pull along one axis is at most the whole pull.
pub proof fn lemma_axis_pull_bound(mass: int, d: int, r2: int)
    requires
        0 <= mass,
        0 < r2,
        magnitude(d) <= root(r2),
        crate::scalar::is_root(root(r2), r2),
    ensures
        magnitude(axis_pull(mass, d, r2)) <= (mass * UNIT_CUBED as int) / r2,
{
    let r = root(r2);
    let k = UNIT_CUBED as int;
    crate::scalar::lemma_root_positive(r2);
    assert(0 <= mass * magnitude(d) * k <= r * (mass * k)) by (nonlinear_arith)
        requires
            0 <= mass,
            0 <= magnitude(d) <= r,
            0 < k,
    ;
    assert(0 < r2 * r && r2 * r == r * r2) by (nonlinear_arith)
        requires
            0 < r2,
            0 < r,
    ;
    assert(0 <= mass * k) by (nonlinear_arith)
        requires
            0 <= mass,
            0 < k,
    ;
    vstd::arithmetic::div_mod::lemma_div_is_ordered(
        mass * magnitude(d) * k,
        r * (mass * k),
        r2 * r,
    );
    vstd::arithmetic::div_mod::lemma_div_multiples_vanish_quotient(r, mass * k, r2);
    vstd::arithmetic::div_mod::lemma_div_pos_is_pos(mass * magnitude(d) * k, r2 * r);
}

/// The pull along one axis, computed.
fn axis_pull_of(mass: u64, d: i64, r2: u128) -> (a: i32)
    requires
        -0x1_0000_0000i64 <= d <= 0x1_0000_0000i64,
        0 < r2 <= 0x2_0000_0000_0000_0000u128,
    ensures
        a == axis_pull(mass as int, d as int, r2 as int),
{
    let r: u128 = isqrt(r2) as u128;
    let md: u128 = abs_wide(d);
    proof {
        crate::scalar::lemma_root_positive(r2 as int);
        assert(r < 0x2_0000_0000u128) by (nonlinear_arith)
            requires
                r * r <= r2,
                r2 <= 0x2_0000_0000_0000_0000u128,
        ;
        assert(r2 * r <= 0x4_0000_0000_0000_0000_0000_0000u128) by (nonlinear_arith)
            requires
                r < 0x2_0000_0000u128,
                r2 <= 0x2_0000_0000_0000_0000u128,
        ;
        assert(0 < r2 * r) by (nonlinear_arith)
            requires
                0 < r2,
                0 < r,
        ;
        assert(mass * md <= 0x1_0000_0000_0000_0000_0000_0000u128) by (nonlinear_arith)
            requires
                mass <= 0xffff_ffff_ffff_ffffu64,
                md <= 0x1_0000_0000u128,
        ;
        assert(mass * md * UNIT_CUBED <= 0x1_0000_0000_0000_0000_0000_0000u128 * 1_000_000_000)
            by (nonlinear_arith)
            requires
                mass * md <= 0x1_0000_0000_0000_0000_0000_0000u128,
                UNIT_CUBED == 1_000_000_000,
        ;
    }
    let wide_mass: u128 = mass as u128;
    let num: u128 = wide_mass * md * UNIT_CUBED;
    let den: u128 = r2 * r;
    let q: u128 = num / den;
    let capped: u128 = if q > 0x8000_0000u128 {
        0x8000_0000u128
    } else {
        q
    };
    let signed: i128 = if d < 0 {
        -(capped as i128)
    } else {
        capped as i128
    };
    saturate(signed)
}

/// The acceleration that one source gives a point.
pub fn pull_from(g: &Gravity, at: &Position, px: i32, py: i32) -> (a: (i32, i32))
    ensures
        (a.0 as int, a.1 as int) == pull(*g, *at, px as int, py as int),
{
    let dx: i64 = delta(at.x, px);
    let dy: i64 = delta(at.y, py);
    let r2: u128 = length_sq(dx, dy);
    if r2 == 0 {
        return (0, 0);
    }
    let reaches: bool = match g.reach_sq {
        Some(limit) => r2 <= limit as u128,
        None => true,
    };
    if !reaches {
        return (0, 0);
    }
    (axis_pull_of(g.mass, dx, r2), axis_pull_of(g.mass, dy, r2))
}

/// The gravitational acceleration at `(px, py)`: the sum of the pulls of all
/// live sources, `skip` excepted, each taken in registry order.
pub fn gravity_at(
    registry: &Registry,
    gravities: &Store<Gravity>,
    positions: &Store<Position>,
    px: i32,
    py: i32,
    skip: Option<u64>,
) -> (a: (i32, i32))
    ensures
        (a.0 as int, a.1 as int) == field_at(
            registry@,
            gravities@,
            positions@,
            px as int,
            py as int,
            skip,
        ),
{
    let n: usize = registry.len();
    let mut sum_x: i128 = 0;
    let mut sum_y: i128 = 0;
    let mut i: usize = 0;
    while i < n
        invariant
            i <= n,
            n == registry@.len(),
            (sum_x as int, sum_y as int) == pull_sum(
                registry@,
                gravities@,
                positions@,
                px as int,
                py as int,
                skip,
                i as nat,
            ),
            -0x8000_0000 * i <= sum_x <= 0x8000_0000 * i,
            -0x8000_0000 * i <= sum_y <= 0x8000_0000 * i,
        decreases n - i,
    {
        let e: Entity = registry.entity(i);
        let mut term: (i32, i32) = (0, 0);
        let skipped: bool = match skip {
            Some(s) => s == e.id,
            None => false,
        };
        if !skipped {
            if let Some(g) = gravities.get(e.id) {
                if let Some(at) = positions.get(e.id) {
                    term = pull_from(g, at, px, py);
                }
            }
        }
        assert((term.0 as int, term.1 as int) == pull_of(
            e,
            gravities@,
            positions@,
            px as int,
            py as int,
            skip,
        ));
        sum_x = sum_x + term.0 as i128;
        sum_y = sum_y + term.1 as i128;
        i += 1;
    }
    (saturate(sum_x), saturate(sum_y))
}


/// The field depends on the ids of the entities, not on their flags: what
/// is flagged for destruction pulls until it is swept.
pub proof fn lemma_pull_sum_by_ids(
    a: Seq<Entity>,
    b: Seq<Entity>,
    gravities: Map<u64, Gravity>,
    positions: Map<u64, Position>,
    px: int,
    py: int,
    skip: Option<u64>,
    n: nat,
)
    requires
        crate::registry::same_ids(a, b),
        n <= a.len(),
    ensures
        pull_sum(a, gravities, positions, px, py, skip, n) == pull_sum(
            b,
            gravities,
            positions,
            px,
            py,
            skip,
            n,
        ),
    decreases n,
{
    if n > 0 {
        lemma_pull_sum_by_ids(a, b, gravities, positions, px, py, skip, (n - 1) as nat);
        assert(a[n - 1].id == b[n - 1].id);
    }
}

} // verus!
