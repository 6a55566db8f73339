//! Fixed-point scalars.
//!
//! Lengths, velocities and accelerations are `i32` counts of thousandths of a
//! world unit (per second, per second squared); times are counts of
//! milliseconds. Results that leave the `i32` range saturate at its ends.
//! Every division rounds toward zero.

use vstd::prelude::*;

verus! {

/// Number of stored steps per world unit, and of time steps per second.
pub const UNIT: i64 = 1000;

/// The value of `v` pulled into the `i32` range.
pub open spec fn clamp(v: int) -> int {
    if v < i32::MIN {
        i32::MIN as int
    } else if v > i32::MAX {
        i32::MAX as int
    } else {
        v
    }
}

/// The magnitude of `v`.
pub open spec fn magnitude(v: int) -> int {
    if v < 0 {
        -v
    } else {
        v
    }
}

/// `num / den` rounded toward zero, for a positive `den`.
pub open spec fn quotient(num: int, den: int) -> int {
    if num < 0 {
        -((-num) / den)
    } else {
        num / den
    }
}

/// `v` multiplied by `k` thousandths.
pub open spec fn scaled(v: int, k: int) -> int {
    quotient(v * k, UNIT as int)
}

/// `r` is the integer square root of `n`.
pub open spec fn is_root(r: int, n: int) -> bool {
    0 <= r && r * r <= n && n < (r + 1) * (r + 1)
}

/// The integer square root of `n`: the largest `r` with `r * r <= n`.
pub open spec fn root(n: int) -> int {
    choose|r: int| is_root(r, n)
}

/// The squared length of the vector `(dx, dy)`.
pub open spec fn norm_sq(dx: int, dy: int) -> int {
    dx * dx + dy * dy
}

/// A number has at most one integer square root.
pub proof fn lemma_root_unique(a: int, b: int, n: int)
    requires
        is_root(a, n),
        is_root(b, n),
    ensures
        a == b,
{
    if a < b {
        assert((a + 1) * (a + 1) <= b * b) by (nonlinear_arith)
            requires
                0 <= a,
                a + 1 <= b,
        ;
    } else if b < a {
        assert((b + 1) * (b + 1) <= a * a) by (nonlinear_arith)
            requires
                0 <= b,
                b + 1 <= a,
        ;
    }
}

/// Whoever holds an integer square root of `n` holds `root(n)`.
pub proof fn lemma_root_is(r: int, n: int)
    requires
        is_root(r, n),
    ensures
        root(n) == r,
{
    lemma_root_unique(root(n), r, n);
}

/// The root of a perfect square is its base.
pub proof fn lemma_root_of_square(r: int)
    requires
        0 <= r,
    ensures
        root(r * r) == r,
{
    assert(r * r < (r + 1) * (r + 1)) by (nonlinear_arith)
        requires
            0 <= r,
    ;
    lemma_root_is(r, r * r);
}

/// A positive number has a root, and the root is positive.
pub proof fn lemma_root_positive(n: int)
    requires
        0 < n,
    ensures
        is_root(root(n), n),
        0 < root(n),
{
    lemma_root_exists(n as nat);
}

/// Every natural number has an integer square root.
pub proof fn lemma_root_exists(n: nat)
    ensures
        is_root(root(n as int), n as int),
    decreases n,
{
    if n == 0 {
        assert(is_root(0, 0));
    } else {
        lemma_root_exists((n - 1) as nat);
        let r = root(n - 1);
        if (r + 1) * (r + 1) <= n {
            assert(n < (r + 2) * (r + 2)) by (nonlinear_arith)
                requires
                    n - 1 < (r + 1) * (r + 1),
                    0 <= r,
            ;
            assert(is_root(r + 1, n as int));
        } else {
            assert(is_root(r, n as int));
        }
    }
}

/// No component of an offset is longer than the offset.
pub proof fn lemma_component_within_root(dx: int, dy: int)
    ensures
        is_root(root(norm_sq(dx, dy)), norm_sq(dx, dy)),
        magnitude(dx) <= root(norm_sq(dx, dy)),
        magnitude(dy) <= root(norm_sq(dx, dy)),
{
    let n = norm_sq(dx, dy);
    assert(0 <= n && magnitude(dx) * magnitude(dx) <= n && magnitude(dy) * magnitude(dy) <= n)
        by (nonlinear_arith)
        requires
            n == dx * dx + dy * dy,
            magnitude(dx) == dx || magnitude(dx) == -dx,
            magnitude(dy) == dy || magnitude(dy) == -dy,
    ;
    lemma_root_exists(n as nat);
    let r = root(n);
    let mx = magnitude(dx);
    let my = magnitude(dy);
    if mx > r {
        assert((r + 1) * (r + 1) <= mx * mx) by (nonlinear_arith)
            requires
                0 <= r,
                r + 1 <= mx,
        ;
    }
    if my > r {
        assert((r + 1) * (r + 1) <= my * my) by (nonlinear_arith)
            requires
                0 <= r,
                r + 1 <= my,
        ;
    }
}

/// Saturating narrowing of a wide intermediate result.
pub fn saturate(v: i128) -> (r: i32)
    ensures
        r == clamp(v as int),
{
    if v < -2147483648i128 {
        i32::MIN
    } else if v > 2147483647i128 {
        i32::MAX
    } else {
        v as i32
    }
}

/// The integer square root, by bisection.
pub fn isqrt(n: u128) -> (r: u64)
    ensures
        is_root(r as int, n as int),
        r == root(n as int),
{
    let mut lo: u128 = 0;
    let mut hi: u128 = 0x1_0000_0000_0000_0000u128;
    assert(n < hi * hi) by (nonlinear_arith)
        requires
            hi == 0x1_0000_0000_0000_0000u128,
            n <= u128::MAX,
    ;
    while hi - lo > 1
        invariant
            lo < hi,
            hi <= 0x1_0000_0000_0000_0000u128,
            lo * lo <= n,
            n < hi * hi,
        decreases hi - lo,
    {
        let mid: u128 = lo + (hi - lo) / 2;
        assert(mid * mid <= u128::MAX) by (nonlinear_arith)
            requires
                mid < 0x1_0000_0000_0000_0000u128,
        ;
        if mid * mid <= n {
            lo = mid;
        } else {
            hi = mid;
        }
    }
    proof {
        assert(hi == lo + 1);
        lemma_root_is(lo as int, n as int);
    }
    lo as u64
}

/// The difference of two coordinates.
pub fn delta(a: i32, b: i32) -> (d: i64)
    ensures
        d == a - b,
{
    let wide_a: i64 = a as i64;
    let wide_b: i64 = b as i64;
    wide_a - wide_b
}

/// The magnitude of a difference.
pub fn abs_wide(v: i64) -> (m: u128)
    ensures
        m == magnitude(v as int),
{
    let wide: i128 = v as i128;
    if wide < 0 {
        (-wide) as u128
    } else {
        wide as u128
    }
}

/// The squared length of a vector of differences.
pub fn length_sq(dx: i64, dy: i64) -> (r2: u128)
    ensures
        r2 == norm_sq(dx as int, dy as int),
        magnitude(dx as int) <= 0x1_0000_0000 && magnitude(dy as int) <= 0x1_0000_0000 ==> r2
            <= 0x2_0000_0000_0000_0000u128,
{
    let mx: u128 = abs_wide(dx);
    let my: u128 = abs_wide(dy);
    assert(mx * mx <= 0x4000_0000_0000_0000_0000_0000_0000_0000u128 && mx * mx == dx * dx)
        by (nonlinear_arith)
        requires
            mx == magnitude(dx as int),
            mx <= 0x8000_0000_0000_0000u128,
    ;
    assert(my * my <= 0x4000_0000_0000_0000_0000_0000_0000_0000u128 && my * my == dy * dy)
        by (nonlinear_arith)
        requires
            my == magnitude(dy as int),
            my <= 0x8000_0000_0000_0000u128,
    ;
    if mx <= 0x1_0000_0000u128 && my <= 0x1_0000_0000u128 {
        assert(mx * mx <= 0x1_0000_0000_0000_0000u128) by (nonlinear_arith)
            requires
                mx <= 0x1_0000_0000u128,
        ;
        assert(my * my <= 0x1_0000_0000_0000_0000u128) by (nonlinear_arith)
            requires
                my <= 0x1_0000_0000u128,
        ;
    }
    mx * mx + my * my
}

/// `v` multiplied by `k` thousandths, rounded toward zero.
pub fn scale(v: i32, k: i64) -> (r: i128)
    ensures
        r == scaled(v as int, k as int),
        -0x4000_0000_0000_0000_0000_0000i128 <= r <= 0x4000_0000_0000_0000_0000_0000i128,
{
    let wide_v: i128 = v as i128;
    let wide_k: i128 = k as i128;
    assert(-0x4000_0000_0000_0000_0000_0000i128 <= wide_v * wide_k
        <= 0x4000_0000_0000_0000_0000_0000i128) by (nonlinear_arith)
        requires
            -0x8000_0000i128 <= wide_v <= 0x7fff_ffffi128,
            -0x8000_0000_0000_0000i128 <= wide_k <= 0x7fff_ffff_ffff_ffffi128,
    ;
    let p: i128 = wide_v * wide_k;
    if p < 0 {
        let m: i128 = -p;
        -(m / 1000i128)
    } else {
        p / 1000i128
    }
}

/// `a + b`, saturated.
pub fn add_sat(a: i32, b: i128) -> (r: i32)
    ensures
        r == clamp(a + b),
{
    if b >= 0x2_0000_0000i128 {
        i32::MAX
    } else if b <= -0x2_0000_0000i128 {
        i32::MIN
    } else {
        saturate(a as i128 + b)
    }
}

} // verus!
