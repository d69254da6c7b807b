//! Fixed-point arithmetic underlying the engine.
//!
//! Clock readings and durations are integers in microseconds; dimensionless
//! quantities (interpolation parameters, timescales, period multipliers) are
//! integers scaled by [`SCALE`], so that `SCALE` stands for 1.0.

use vstd::arithmetic::div_mod::lemma_div_is_ordered;
use vstd::arithmetic::div_mod::lemma_div_nonincreasing;
use vstd::arithmetic::div_mod::lemma_div_pos_is_pos;
use vstd::prelude::*;

verus! {

/// Fixed-point scale: the integer `SCALE` stands for the real number 1.0.
pub const SCALE: i64 = 1_000_000;

/// Upper bound, in microseconds, on the clock readings and remote timestamps
/// the engine accepts: 2^40 microseconds, close to 13 days of uptime.
pub const TIME_MAX: i64 = 0x100_0000_0000;

/// Upper bound on the magnitude of samples fed to a moving average (2^46).
pub const EMA_MAX: i64 = 0x4000_0000_0000;

/// Truncating (round-toward-zero) integer division for a positive divisor:
/// the semantics of Rust's `/` on signed integers, stated over mathematical
/// integers (where `/` is Euclidean).
pub open spec fn tdiv(a: int, b: int) -> int
    recommends
        b > 0,
{
    if a >= 0 {
        a / b
    } else {
        -((-a) / b)
    }
}

/// Truncating division shrinks magnitudes: the quotient has the sign of the
/// dividend and magnitude at most `|a| / b`, hence at most `|a|`.
pub proof fn lemma_tdiv_bounds(a: int, b: int)
    requires
        b > 0,
    ensures
        a >= 0 ==> 0 <= tdiv(a, b) <= a,
        a < 0 ==> a <= tdiv(a, b) <= 0,
        a >= 0 ==> tdiv(a, b) == a / b,
{
    if a >= 0 {
        lemma_div_pos_is_pos(a, b);
        lemma_div_nonincreasing(a, b);
    } else {
        lemma_div_pos_is_pos(-a, b);
        lemma_div_nonincreasing(-a, b);
    }
}

/// For a non-negative dividend, the quotient times the divisor comes back
/// to within one divisor of the dividend.
pub proof fn lemma_tdiv_mul(a: int, b: int)
    requires
        0 < b,
        0 <= a,
    ensures
        b * tdiv(a, b) <= a < b * tdiv(a, b) + b,
{
    vstd::arithmetic::div_mod::lemma_fundamental_div_mod(a, b);
    vstd::arithmetic::div_mod::lemma_mod_bound(a, b);
}

/// Division of a scaled product: if `0 <= c <= d` then `tdiv(c * x, d)` lies
/// between 0 and `x` (it is a fraction `c/d` of `x`, rounded toward zero).
pub proof fn lemma_tdiv_fraction(x: int, c: int, d: int)
    requires
        0 <= c <= d,
        0 < d,
    ensures
        x >= 0 ==> 0 <= tdiv(c * x, d) <= x,
        x < 0 ==> x <= tdiv(c * x, d) <= 0,
{
    if x >= 0 {
        assert(0 <= c * x <= d * x) by (nonlinear_arith)
            requires
                0 <= c <= d,
                x >= 0,
        ;
        lemma_tdiv_bounds(c * x, d);
        lemma_div_is_ordered(c * x, d * x, d);
        assert(d * x / d == x) by (nonlinear_arith)
            requires
                d > 0,
        ;
    } else {
        assert(0 <= c * (-x) <= d * (-x)) by (nonlinear_arith)
            requires
                0 <= c <= d,
                x < 0,
        ;
        assert(c * (-x) == -(c * x)) by (nonlinear_arith);
        lemma_tdiv_bounds(c * x, d);
        lemma_div_is_ordered(c * (-x), d * (-x), d);
        assert(d * (-x) / d == -x) by (nonlinear_arith)
            requires
                d > 0,
        ;
    }
}

/// A quotient is bounded by the quotient of a bound on the dividend.
pub proof fn lemma_tdiv_le(a: int, m: int, b: int)
    requires
        0 < b,
        -m <= a <= m,
        0 <= m,
    ensures
        -(m / b) <= tdiv(a, b) <= m / b,
{
    if a >= 0 {
        lemma_div_pos_is_pos(a, b);
        lemma_div_is_ordered(a, m, b);
        lemma_div_pos_is_pos(m, b);
    } else {
        lemma_div_pos_is_pos(-a, b);
        lemma_div_is_ordered(-a, m, b);
        lemma_div_pos_is_pos(m, b);
    }
}

/// Division that comes out exact: a whole multiple of the divisor divided
/// by it gives back the multiplier, whatever its sign.
pub proof fn lemma_tdiv_exact(k: int, m: int)
    requires
        0 < m,
    ensures
        tdiv(k * m, m) == k,
{
    if k >= 0 {
        assert(k * m >= 0 && k * m == m * k) by (nonlinear_arith)
            requires
                k >= 0,
                m > 0,
        ;
        vstd::arithmetic::div_mod::lemma_div_multiples_vanish(k, m);
    } else {
        assert(k * m < 0 && -(k * m) == m * (-k)) by (nonlinear_arith)
            requires
                k < 0,
                m > 0,
        ;
        vstd::arithmetic::div_mod::lemma_div_multiples_vanish(-k, m);
    }
}

/// `x` forced into the closed interval `[lo, hi]`.
pub open spec fn clamp_int(x: int, lo: int, hi: int) -> int
    recommends
        lo <= hi,
{
    if x < lo {
        lo
    } else if x > hi {
        hi
    } else {
        x
    }
}

/// Multiply two 64-bit values and divide the exact product by a positive
/// divisor, rounding toward zero, through a 128-bit intermediate.
pub fn mul_div(x: i64, y: i64, d: i64) -> (r: i64)
    requires
        0 < d,
        i64::MIN <= tdiv(x * y, d as int) <= i64::MAX,
    ensures
        r == tdiv(x * y, d as int),
{
    proof {
        assert(-0x4000_0000_0000_0000_0000_0000_0000_0000i128 <= (x as i128) * (y as i128)
            <= 0x4000_0000_0000_0000_0000_0000_0000_0000i128) by (nonlinear_arith)
            requires
                -0x8000_0000_0000_0000i128 <= x as i128 <= 0x7fff_ffff_ffff_ffffi128,
                -0x8000_0000_0000_0000i128 <= y as i128 <= 0x7fff_ffff_ffff_ffffi128,
        ;
    }
    let p: i128 = (x as i128) * (y as i128);
    let q: i128 = p / (d as i128);
    q as i64
}

/// `r` is the floor of the square root of `v`.
pub open spec fn is_sqrt_floor(r: int, v: int) -> bool {
    0 <= r && r * r <= v && v < (r + 1) * (r + 1)
}

/// The floor of a square root is unique.
pub proof fn lemma_sqrt_floor_unique(r1: int, r2: int, v: int)
    requires
        is_sqrt_floor(r1, v),
        is_sqrt_floor(r2, v),
    ensures
        r1 == r2,
{
    if r1 < r2 {
        assert((r1 + 1) * (r1 + 1) <= r2 * r2) by (nonlinear_arith)
            requires
                0 <= r1 < r2,
        ;
    }
    if r2 < r1 {
        assert((r2 + 1) * (r2 + 1) <= r1 * r1) by (nonlinear_arith)
            requires
                0 <= r2 < r1,
        ;
    }
}

/// Floor of the square root of a non-negative 128-bit integer, by binary
/// search over the root.  Inputs are capped at 2^126 so that the square of
/// the upper search bound stays representable.
pub fn isqrt(v: u128) -> (r: u128)
    requires
        v < 0x4000_0000_0000_0000_0000_0000_0000_0000u128,
    ensures
        is_sqrt_floor(r as int, v as int),
{
    let mut lo: u128 = 0;
    let mut hi: u128 = 0x8000_0000_0000_0000;
    assert(hi * hi > v) by (nonlinear_arith)
        requires
            hi == 0x8000_0000_0000_0000u128,
            v < 0x4000_0000_0000_0000_0000_0000_0000_0000u128,
    ;
    while lo + 1 < hi
        invariant
            0 <= lo < hi <= 0x8000_0000_0000_0000,
            lo * lo <= v,
            v < hi * hi,
        decreases hi - lo,
    {
        let mid: u128 = lo + (hi - lo) / 2;
        assert(lo < mid < hi);
        assert(mid * mid <= 0x8000_0000_0000_0000u128 * 0x8000_0000_0000_0000u128)
            by (nonlinear_arith)
            requires
                0 < mid <= 0x8000_0000_0000_0000u128,
        ;
        if mid * mid <= v {
            lo = mid;
        } else {
            hi = mid;
        }
    }
    assert((lo + 1) * (lo + 1) > v);
    lo
}

} // verus!
