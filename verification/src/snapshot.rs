//! The snapshot capability and the numeric helpers offered to its
//! implementations.

use crate::fixed::SCALE;
use crate::fixed::TIME_MAX;
use crate::fixed::lemma_tdiv_exact;
use crate::fixed::lemma_tdiv_le;
use crate::fixed::mul_div;
use crate::fixed::tdiv;
use vstd::prelude::*;

verus! {

/// Any value the application wishes to interpolate: it carries the remote
/// clock reading at which it was produced, and knows how to produce a value
/// part of the way between two of its kind.
///
/// `t` is scaled by [`SCALE`]: `t == 0` gives `from`, `t == SCALE` gives
/// `to`, and values up to `2_500_000` (2.5) extrapolate beyond `to`.
///
/// Snapshots are plain values, copied freely between the buffer and the
/// playback.
pub trait Snapshot: Sized + Copy {
    /// The remote clock reading this snapshot carries (microseconds).
    spec fn spec_remote_time(&self) -> i64;

    /// Bounds under which this snapshot may be interpolated.
    spec fn wf(&self) -> bool;

    /// What `interpolate` returns, as a mathematical function.
    spec fn spec_interpolate(t: i64, from: &Self, to: &Self) -> Self;

    /// The remote clock reading this snapshot carries (microseconds).
    fn remote_time(&self) -> (r: i64)
        ensures
            r == self.spec_remote_time(),
    ;

    /// A value `t / SCALE` of the way from `from` to `to`.
    fn interpolate(t: i64, from: &Self, to: &Self) -> (r: Self)
        requires
            0 <= t <= 2_500_000,
            from.wf(),
            to.wf(),
        ensures
            r == Self::spec_interpolate(t, from, to),
    ;
}

/// What `lerp` returns: `a + t * (b - a) / SCALE`, rounded toward zero.
pub open spec fn spec_lerp(a: i64, b: i64, t: i64) -> int {
    a + tdiv(t * (b - a), SCALE as int)
}

/// Linear interpolation between `a` and `b`: `t == 0` gives `a`, `t == SCALE`
/// gives `b`, and values outside `[0, SCALE]` extrapolate linearly.
pub fn lerp(a: i64, b: i64, t: i64) -> (r: i64)
    requires
        -TIME_MAX <= a <= TIME_MAX,
        -TIME_MAX <= b <= TIME_MAX,
        -100 * (SCALE as int) <= t <= 100 * (SCALE as int),
    ensures
        r == spec_lerp(a, b, t),
        -300 * (TIME_MAX as int) <= r <= 300 * (TIME_MAX as int),
{
    proof {
        assert(-200 * (SCALE as int) * (TIME_MAX as int) <= t * (b - a) <= 200 * (SCALE as int) * (
        TIME_MAX as int)) by (nonlinear_arith)
            requires
                -100 * (SCALE as int) <= t <= 100 * (SCALE as int),
                -2 * (TIME_MAX as int) <= b - a <= 2 * (TIME_MAX as int),
        ;
        lemma_tdiv_le(t * (b - a), 200 * (SCALE as int) * (TIME_MAX as int), SCALE as int);
    }
    a + mul_div(t, b - a, SCALE)
}

/// What `linear_map` returns: `c + (x - a) * (d - c) / (b - a)`, rounded
/// toward zero (the division is by `|b - a|` after moving the sign to the
/// dividend).
pub open spec fn spec_linear_map(x: i64, a: i64, b: i64, c: i64, d: i64) -> int {
    if b > a {
        c + tdiv((x - a) * (d - c), b - a)
    } else {
        c + tdiv((a - x) * (d - c), a - b)
    }
}

/// Map `x` linearly from the range `[a, b]` onto the range `[c, d]`, so that
/// `a` goes to `c` and `b` goes to `d`; values outside `[a, b]` extrapolate.
pub fn linear_map(x: i64, a: i64, b: i64, c: i64, d: i64) -> (r: i64)
    requires
        a != b,
        i64::MIN <= spec_linear_map(x, a, b, c, d) <= i64::MAX,
        -TIME_MAX <= x <= TIME_MAX,
        -TIME_MAX <= a <= TIME_MAX,
        -TIME_MAX <= b <= TIME_MAX,
        -TIME_MAX <= c <= TIME_MAX,
        -TIME_MAX <= d <= TIME_MAX,
    ensures
        r == spec_linear_map(x, a, b, c, d),
{
    if b > a {
        proof {
            assert(-4 * (TIME_MAX as int) * (TIME_MAX as int) <= ((x - a) as i128) * ((d
                - c) as i128) <= 4 * (TIME_MAX as int) * (TIME_MAX as int)) by (nonlinear_arith)
                requires
                    -2 * (TIME_MAX as int) <= (x - a) as i128 <= 2 * (TIME_MAX as int),
                    -2 * (TIME_MAX as int) <= (d - c) as i128 <= 2 * (TIME_MAX as int),
            ;
        }
        let p: i128 = ((x - a) as i128) * ((d - c) as i128);
        let q: i128 = p / ((b - a) as i128);
        proof {
            lemma_tdiv_le(p as int, 4 * (TIME_MAX as int) * (TIME_MAX as int), (b - a) as int);
        }
        ((c as i128) + q) as i64
    } else {
        proof {
            assert(-4 * (TIME_MAX as int) * (TIME_MAX as int) <= ((a - x) as i128) * ((d
                - c) as i128) <= 4 * (TIME_MAX as int) * (TIME_MAX as int)) by (nonlinear_arith)
                requires
                    -2 * (TIME_MAX as int) <= (a - x) as i128 <= 2 * (TIME_MAX as int),
                    -2 * (TIME_MAX as int) <= (d - c) as i128 <= 2 * (TIME_MAX as int),
            ;
        }
        let p: i128 = ((a - x) as i128) * ((d - c) as i128);
        let q: i128 = p / ((a - b) as i128);
        proof {
            lemma_tdiv_le(p as int, 4 * (TIME_MAX as int) * (TIME_MAX as int), (a - b) as int);
        }
        ((c as i128) + q) as i64
    }
}

/// What `lerp_angle` returns: the shortest-arc route between the two
/// angles, reduced to `[0, 360)` degrees (`SCALE`-scaled).
pub open spec fn spec_lerp_angle(a: i64, b: i64, t: i64) -> int {
    let full = 360 * (SCALE as int);
    let half = 180 * (SCALE as int);
    let raw = if b - a > half {
        b + tdiv((SCALE - t) * (a + full - b), SCALE as int)
    } else if b - a < -half {
        a + tdiv(t * (b + full - a), SCALE as int)
    } else {
        a + tdiv(t * (b - a), SCALE as int)
    };
    raw % full
}

/// Interpolate an angle in degrees (`SCALE`-scaled), always taking the
/// shortest distance around the circle; the result is reduced to
/// `[0, 360)` degrees.
pub fn lerp_angle(a: i64, b: i64, t: i64) -> (r: i64)
    requires
        -TIME_MAX <= a <= TIME_MAX,
        -TIME_MAX <= b <= TIME_MAX,
        -100 * (SCALE as int) <= t <= 100 * (SCALE as int),
    ensures
        r == spec_lerp_angle(a, b, t),
        0 <= r < 360 * (SCALE as int),
{
    let full: i64 = 360 * SCALE;
    let half: i64 = 180 * SCALE;
    let raw: i64 = if b - a > half {
        proof {
            assert(-402 * (SCALE as int) * (TIME_MAX as int) <= (SCALE - t) * (a + full - b) <= 402
                * (SCALE as int) * (TIME_MAX as int)) by (nonlinear_arith)
                requires
                    -101 * (SCALE as int) <= SCALE - t <= 101 * (SCALE as int),
                    -3 * (TIME_MAX as int) <= a + full - b <= 3 * (TIME_MAX as int),
            ;
            lemma_tdiv_le(
                (SCALE - t) * (a + full - b),
                402 * (SCALE as int) * (TIME_MAX as int),
                SCALE as int,
            );
        }
        b + mul_div(SCALE - t, a + full - b, SCALE)
    } else if b - a < -half {
        proof {
            assert(-300 * (SCALE as int) * (TIME_MAX as int) <= t * (b + full - a) <= 300 * (
            SCALE as int) * (TIME_MAX as int)) by (nonlinear_arith)
                requires
                    -100 * (SCALE as int) <= t <= 100 * (SCALE as int),
                    -3 * (TIME_MAX as int) <= b + full - a <= 3 * (TIME_MAX as int),
        ;
            lemma_tdiv_le(
                t * (b + full - a),
                300 * (SCALE as int) * (TIME_MAX as int),
                SCALE as int,
            );
        }
        a + mul_div(t, b + full - a, SCALE)
    } else {
        proof {
            assert(-200 * (SCALE as int) * (TIME_MAX as int) <= t * (b - a) <= 200 * (SCALE as int)
                * (TIME_MAX as int)) by (nonlinear_arith)
                requires
                    -100 * (SCALE as int) <= t <= 100 * (SCALE as int),
                    -2 * (TIME_MAX as int) <= b - a <= 2 * (TIME_MAX as int),
            ;
            lemma_tdiv_le(t * (b - a), 200 * (SCALE as int) * (TIME_MAX as int), SCALE as int);
        }
        a + mul_div(t, b - a, SCALE)
    };
    let m: i64 = raw % full;
    if m < 0 {
        m + full
    } else {
        m
    }
}

/// Law: interpolation respects its endpoints.  `lerp(a, b, 0)` is `a`,
/// `lerp(a, b, SCALE)` is `b`, and at the half-way point the result is the
/// exact midpoint `(a + b) / 2` whenever `b - a` is even (an odd gap makes
/// the midpoint fall between two representable values; `a = -2, b = 1` is
/// such a pair).
pub proof fn lemma_lerp_endpoints(a: i64, b: i64)
    ensures
        spec_lerp(a, b, 0) == a,
        spec_lerp(a, b, SCALE) == b,
        (b - a) % 2 == 0 ==> spec_lerp(a, b, 500_000) == (a + b) / 2,
{
    assert(0 * (b - a) == 0) by (nonlinear_arith);
    assert(tdiv(0, SCALE as int) == 0);
    assert((SCALE as int) * (b - a) == (b - a) * (SCALE as int)) by (nonlinear_arith);
    lemma_tdiv_exact(b - a, SCALE as int);
    if (b - a) % 2 == 0 {
        let k = (b - a) / 2;
        vstd::arithmetic::div_mod::lemma_fundamental_div_mod(b - a, 2);
        assert(500_000 * (b - a) == k * (SCALE as int)) by (nonlinear_arith)
            requires
                b - a == 2 * k,
        ;
        lemma_tdiv_exact(k, SCALE as int);
        assert(a + b == 2 * (a + k));
        vstd::arithmetic::div_mod::lemma_div_multiples_vanish(a + k, 2);
    }
}

/// Law: mapping a value from `[a, b]` onto `[c, d]` and back returns it
/// unchanged, whenever the forward map divides exactly (otherwise the
/// rounded forward value can land between preimages: `x = 1` over
/// `[a, b] = [0, 3]`, `[c, d] = [0, 1]` maps to 0 and back to 0).
pub proof fn lemma_linear_map_round_trip(x: i64, a: i64, b: i64, c: i64, d: i64)
    requires
        a != b,
        c != d,
        ((x - a) * (d - c)) % (if b > a {
            b - a
        } else {
            a - b
        }) == 0,
        i64::MIN <= spec_linear_map(x, a, b, c, d) <= i64::MAX,
    ensures
        spec_linear_map((spec_linear_map(x, a, b, c, d)) as i64, c, d, a, b) == x,
{
    let m = if b > a { b - a } else { a - b };
    let p = (x - a) * (d - c);
    vstd::arithmetic::div_mod::lemma_fundamental_div_mod(p, m);
    let k = if b > a { p / m } else { -(p / m) };
    assert((x - a) * (d - c) == k * (b - a)) by (nonlinear_arith)
        requires
            m == if b > a { b - a } else { a - b },
            b != a,
            p == (x - a) * (d - c),
            p == m * (p / m),
            k == if b > a { p / m } else { -(p / m) },
    ;
    // Forward: both branches of the map give y = c + k.
    if b > a {
        lemma_tdiv_exact(k, b - a);
    } else {
        assert((a - x) * (d - c) == k * (a - b)) by (nonlinear_arith)
            requires
                (x - a) * (d - c) == k * (b - a),
        ;
        lemma_tdiv_exact(k, a - b);
    }
    let y = spec_linear_map(x, a, b, c, d);
    assert(y == c + k);
    let yc = y as i64;
    assert(yc == c + k);
    // Backward: the product divides exactly again, giving back x - a.
    if d > c {
        assert((yc - c) * (b - a) == (x - a) * (d - c)) by (nonlinear_arith)
            requires
                yc == c + k,
                (x - a) * (d - c) == k * (b - a),
        ;
        lemma_tdiv_exact(x - a, d - c);
    } else {
        assert((c - yc) * (b - a) == (x - a) * (c - d)) by (nonlinear_arith)
            requires
                yc == c + k,
                (x - a) * (d - c) == k * (b - a),
        ;
        lemma_tdiv_exact(x - a, c - d);
    }
}

/// A planar position: the concrete snapshot the crate ships, mirroring a
/// remotely simulated object moving in two dimensions.
#[derive(Clone, Copy, Debug)]
pub struct Position {
    /// Horizontal coordinate (fixed-point, `SCALE`-scaled units).
    pub x: i64,
    /// Vertical coordinate (fixed-point, `SCALE`-scaled units).
    pub y: i64,
    /// Remote clock reading when the position was sampled (microseconds).
    pub remote_time: i64,
}

impl Snapshot for Position {
    open spec fn spec_remote_time(&self) -> i64 {
        self.remote_time
    }

    open spec fn wf(&self) -> bool {
        &&& -TIME_MAX <= self.x <= TIME_MAX
        &&& -TIME_MAX <= self.y <= TIME_MAX
        &&& -TIME_MAX <= self.remote_time <= TIME_MAX
    }

    open spec fn spec_interpolate(t: i64, from: &Self, to: &Self) -> Self {
        Position {
            x: spec_lerp(from.x, to.x, t) as i64,
            y: spec_lerp(from.y, to.y, t) as i64,
            remote_time: spec_lerp(from.remote_time, to.remote_time, t) as i64,
        }
    }

    fn remote_time(&self) -> (r: i64) {
        self.remote_time
    }

    fn interpolate(t: i64, from: &Self, to: &Self) -> (r: Self) {
        Position {
            x: lerp(from.x, to.x, t),
            y: lerp(from.y, to.y, t),
            remote_time: lerp(from.remote_time, to.remote_time, t),
        }
    }
}

} // verus!
