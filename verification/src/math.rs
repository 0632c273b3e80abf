//! Integer and fixed-point arithmetic primitives: floor division and
//! remainder, absolute value, and an exact integer square root.

use vstd::prelude::*;

verus! {

/// Fixed-point scale. Fractional quantities (rotation cosines/sines, field
/// slopes, unit directions, interpolation weights) are stored as integers
/// that count units of `1 / SCALE`.
pub const SCALE: i64 = 1024;

/// Largest magnitude accepted for a world coordinate, a region half-extent,
/// or a shape extent. Keeps every intermediate product inside `i64`.
pub const MAX_COORD: i64 = 1048576;

/// `|v|` as a mathematical integer.
pub open spec fn abs_int(v: int) -> int {
    if v < 0 { -v } else { v }
}

/// The floor of the exact square root: the largest `r >= 0` with `r * r <= n`
/// (and `0` for negative `n`, which no caller asks about).
pub open spec fn sqrt_floor(n: int) -> int
    decreases n,
{
    if n <= 0 {
        0
    } else {
        let r = sqrt_floor(n - 1);
        if (r + 1) * (r + 1) <= n {
            r + 1
        } else {
            r
        }
    }
}

/// `sqrt_floor(n)` is the unique `r >= 0` with `r * r <= n < (r + 1) * (r + 1)`.
pub proof fn lemma_sqrt_floor_bounds(n: int)
    requires
        n >= 0,
    ensures
        0 <= sqrt_floor(n),
        sqrt_floor(n) * sqrt_floor(n) <= n,
        n < (sqrt_floor(n) + 1) * (sqrt_floor(n) + 1),
    decreases n,
{
    if n == 0 {
    } else {
        lemma_sqrt_floor_bounds(n - 1);
        let r = sqrt_floor(n - 1);
        if (r + 1) * (r + 1) <= n {
            assert((r + 1 + 1) * (r + 1 + 1) > n) by (nonlinear_arith)
                requires
                    r >= 0,
                    n - 1 < (r + 1) * (r + 1),
                    (r + 1) * (r + 1) <= n,
            {}
        }
    }
}

/// Any `r` that satisfies the square-root bounds is `sqrt_floor(n)`.
pub proof fn lemma_sqrt_floor_unique(n: int, r: int)
    requires
        n >= 0,
        r >= 0,
        r * r <= n,
        n < (r + 1) * (r + 1),
    ensures
        r == sqrt_floor(n),
{
    lemma_sqrt_floor_bounds(n);
    let s = sqrt_floor(n);
    if r < s {
        assert(false) by (nonlinear_arith)
            requires
                0 <= r < s,
                s * s <= n,
                n < (r + 1) * (r + 1),
        {}
    }
    if s < r {
        assert(false) by (nonlinear_arith)
            requires
                0 <= s < r,
                r * r <= n,
                n < (s + 1) * (s + 1),
        {}
    }
}

/// Floor division by a positive divisor keeps a scaled bound: if
/// `|a| <= c * b` then `|a / b| <= c`.
pub proof fn lemma_div_bound_scaled(a: int, b: int, c: int)
    requires
        b >= 1,
        c >= 0,
        -(c * b) <= a <= c * b,
    ensures
        -c <= a / b <= c,
{
    vstd::arithmetic::div_mod::lemma_fundamental_div_mod(a, b);
    let q = a / b;
    let r = a % b;
    assert(-c <= q <= c) by (nonlinear_arith)
        requires
            a == b * q + r,
            0 <= r < b,
            b >= 1,
            c >= 0,
            -(c * b) <= a <= c * b,
    {}
}

/// `sqrt_floor` is monotone.
pub proof fn lemma_sqrt_floor_mono(a: int, b: int)
    requires
        0 <= a <= b,
    ensures
        sqrt_floor(a) <= sqrt_floor(b),
{
    lemma_sqrt_floor_bounds(a);
    lemma_sqrt_floor_bounds(b);
    let ra = sqrt_floor(a);
    let rb = sqrt_floor(b);
    if rb < ra {
        assert(false) by (nonlinear_arith)
            requires
                0 <= rb < ra,
                ra * ra <= a,
                a <= b,
                b < (rb + 1) * (rb + 1),
        {}
    }
}

/// The square root of a perfect square is exact.
pub proof fn lemma_sqrt_floor_square(t: int)
    requires
        t >= 0,
    ensures
        sqrt_floor(t * t) == t,
{
    assert(t * t >= 0 && t * t < (t + 1) * (t + 1)) by (nonlinear_arith)
        requires
            t >= 0,
    {}
    lemma_sqrt_floor_unique(t * t, t);
}

/// A product of bounded factors is bounded by the product of the bounds.
pub proof fn lemma_mul_bound(a: int, b: int, aa: int, bb: int)
    by (nonlinear_arith)
    requires
        -aa <= a <= aa,
        -bb <= b <= bb,
        0 <= aa,
        0 <= bb,
    ensures
        -(aa * bb) <= a * b <= aa * bb,
{
}

/// Floor division of bounded integers by a positive divisor.
///
/// The result is the mathematical floor `a / b` (Euclidean division, which
/// coincides with the floor for a positive divisor).
pub fn div_floor(a: i64, b: i64) -> (q: i64)
    requires
        -0x4000_0000_0000_0000 <= a <= 0x4000_0000_0000_0000,
        1 <= b <= 0x4_0000_0000_0000,
    ensures
        q == a as int / b as int,
{
    proof {
        vstd::arithmetic::div_mod::lemma_fundamental_div_mod(a as int, b as int);
        let qi = a as int / b as int;
        let ri = a as int % b as int;
        assert(i64::MIN < qi < i64::MAX) by (nonlinear_arith)
            requires
                a == (b as int) * qi + ri,
                0 <= ri < b,
                1 <= b <= 0x4_0000_0000_0000,
                -0x4000_0000_0000_0000 <= a <= 0x4000_0000_0000_0000,
        {}
    }
    match a.checked_div_euclid(b) {
        Some(q) => q,
        None => 0,
    }
}

/// Euclidean remainder of division by a positive divisor; always in `[0, b)`.
pub fn rem_floor(a: i64, b: i64) -> (r: i64)
    requires
        -0x4000_0000_0000_0000 <= a <= 0x4000_0000_0000_0000,
        1 <= b <= 0x4_0000_0000_0000,
    ensures
        r == a as int % b as int,
        0 <= r < b,
{
    proof {
        vstd::arithmetic::div_mod::lemma_fundamental_div_mod(a as int, b as int);
    }
    match a.checked_rem_euclid(b) {
        Some(r) => r,
        None => 0,
    }
}

/// Absolute value of a (non-extremal) `i64`.
pub fn abs_i64(a: i64) -> (r: i64)
    requires
        a > i64::MIN,
    ensures
        r == abs_int(a as int),
{
    if a < 0 {
        -a
    } else {
        a
    }
}

/// Exact integer square root over the full `u128` range.
pub fn isqrt_u128(n: u128) -> (r: u128)
    ensures
        r == sqrt_floor(n as int),
        r * r <= n,
{
    let mut lo: u128 = 0;
    let mut hi: u128 = 0x1_0000_0000_0000_0000;
    assert((n as int) < 0x1_0000_0000_0000_0000 * 0x1_0000_0000_0000_0000);
    while lo + 1 < hi
        invariant
            0 <= lo < hi <= 0x1_0000_0000_0000_0000u128,
            (lo as int) * (lo as int) <= n as int,
            (n as int) < (hi as int) * (hi as int),
        decreases hi - lo,
    {
        let mid = lo + (hi - lo) / 2;
        assert(lo < mid < hi);
        assert((mid as int) * (mid as int) <= u128::MAX as int) by (nonlinear_arith)
            requires
                0 <= (mid as int) <= 0xffff_ffff_ffff_ffff,
        {}
        if mid * mid <= n {
            lo = mid;
        } else {
            hi = mid;
        }
    }
    proof {
        lemma_sqrt_floor_unique(n as int, lo as int);
    }
    lo
}

/// Exact integer square root of a non-negative `i64`.
pub fn isqrt_i64(n: i64) -> (r: i64)
    requires
        0 <= n,
    ensures
        r == sqrt_floor(n as int),
        0 <= r,
        r * r <= n,
{
    let r = isqrt_u128(n as u128);
    proof {
        lemma_sqrt_floor_bounds(n as int);
        assert((r as int) <= 0xffff_ffff) by (nonlinear_arith)
            requires
                0 <= (r as int),
                (r as int) * (r as int) <= (n as int),
                (n as int) < 0x8000_0000_0000_0000,
        {}
    }
    r as i64
}

} // verus!
