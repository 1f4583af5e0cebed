//! Fixed-point arithmetic for the rendering engine.
//!
//! Lengths are measured in units of 1/`SCALE` pixel and angles in units
//! of 1/`FULL_TURN` turn.  This module provides the verified numeric
//! primitives the geometry is built on: an integer square root, a
//! truncating division, and a fixed-point sine/cosine pair.

use vstd::prelude::*;
use vstd::arithmetic::div_mod::{
    lemma_div_nonincreasing, lemma_div_pos_is_pos, lemma_fundamental_div_mod,
    lemma_mod_multiples_vanish,
};
use vstd::arithmetic::mul::lemma_mul_inequality;

verus! {

/// Sub-pixel units per pixel.
pub const SCALE: i64 = 1000;

/// Angle units in a full turn.
pub const FULL_TURN: i64 = 4096;

/// Angle units in half a turn.
pub const HALF_TURN: i64 = 2048;

/// Angle units in a quarter turn.
pub const QUARTER_TURN: i64 = 1024;

/// Floor of the square root of `n`, as a recursive definition.
pub open spec fn sqrt_floor(n: int) -> int
    decreases n,
{
    if n <= 0 {
        0
    } else {
        let p = sqrt_floor(n - 1);
        if (p + 1) * (p + 1) <= n {
            p + 1
        } else {
            p
        }
    }
}

/// `sqrt_floor(n)` really is the floor of the square root.
pub proof fn lemma_sqrt_floor_bounds(n: int)
    requires
        n >= 0,
    ensures
        0 <= sqrt_floor(n),
        sqrt_floor(n) * sqrt_floor(n) <= n,
        n < (sqrt_floor(n) + 1) * (sqrt_floor(n) + 1),
    decreases n,
{
    if n == 0 {
        assert(sqrt_floor(0) == 0);
    } else {
        lemma_sqrt_floor_bounds(n - 1);
        let p = sqrt_floor(n - 1);
        if (p + 1) * (p + 1) <= n {
            assert(n - 1 < (p + 1) * (p + 1));
            assert(n < (p + 2) * (p + 2)) by (nonlinear_arith)
                requires
                    n <= (p + 1) * (p + 1),
                    p >= 0,
            ;
        }
    }
}

/// The floor of the square root is the only value between whose square
/// and the next square `n` falls.
pub proof fn lemma_sqrt_floor_unique(n: int, r: int)
    requires
        r >= 0,
        r * r <= n,
        n < (r + 1) * (r + 1),
    ensures
        r == sqrt_floor(n),
{
    lemma_sqrt_floor_bounds(n);
    let s = sqrt_floor(n);
    assert(r == s) by (nonlinear_arith)
        requires
            r >= 0,
            s >= 0,
            r * r <= n,
            n < (r + 1) * (r + 1),
            s * s <= n,
            n < (s + 1) * (s + 1),
    ;
}

/// Integer square root by binary search.
pub fn isqrt(n: u64) -> (r: u64)
    requires
        n <= 0x7fff_ffff_ffff_ffff,
    ensures
        r == sqrt_floor(n as int),
        r <= 3_037_000_499,
{
    proof {
        lemma_sqrt_floor_bounds(n as int);
    }
    if n == 0 {
        return 0;
    }
    let mut lo: u64 = 0;
    let mut hi: u64 = 3_037_000_500;
    assert(hi * hi > n);
    while lo + 1 < hi
        invariant
            lo < hi <= 3_037_000_500,
            lo * lo <= n,
            hi * hi > n,
        decreases hi - lo,
    {
        let mid = lo + (hi - lo) / 2;
        assert(lo < mid < hi);
        assert(mid * mid <= 3_037_000_500 * 3_037_000_500) by (nonlinear_arith)
            requires
                0 <= mid <= 3_037_000_500,
        ;
        if mid * mid <= n {
            lo = mid;
        } else {
            hi = mid;
        }
    }
    proof {
        lemma_sqrt_floor_unique(n as int, lo as int);
    }
    lo
}

/// The square root of a perfect square is exact.
pub proof fn lemma_sqrt_floor_of_square(d: int)
    requires
        d >= 0,
    ensures
        sqrt_floor(d * d) == d,
{
    assert(d * d < (d + 1) * (d + 1)) by (nonlinear_arith)
        requires
            d >= 0,
    ;
    lemma_sqrt_floor_unique(d * d, d);
}

/// Division truncating toward zero, for a positive divisor; this is the
/// rounding that machine division performs.
pub open spec fn tdiv(x: int, d: int) -> int {
    if x >= 0 {
        x / d
    } else {
        -((-x) / d)
    }
}

/// If `0 <= x <= d * b` then `x / d <= b`.
pub proof fn lemma_div_le(x: int, d: int, b: int)
    requires
        0 <= x,
        0 < d,
        0 <= b,
        x <= d * b,
    ensures
        x / d <= b,
{
    lemma_fundamental_div_mod(x, d);
    if x / d > b {
        assert(x / d >= b + 1);
        lemma_mul_inequality(b + 1, x / d, d);
        assert(d * (b + 1) <= d * (x / d)) by (nonlinear_arith)
            requires
                b + 1 <= x / d,
                d > 0,
        ;
        assert(d * (b + 1) == d * b + d) by (nonlinear_arith);
        assert(false);
    }
}

/// Truncating division is bounded: `|x| <= d * b` gives `|tdiv(x, d)| <= b`.
pub proof fn lemma_tdiv_bound(x: int, d: int, b: int)
    requires
        0 < d,
        0 <= b,
        -(d * b) <= x <= d * b,
    ensures
        -b <= tdiv(x, d) <= b,
{
    if x >= 0 {
        lemma_div_le(x, d, b);
        lemma_div_pos_is_pos(x, d);
    } else {
        lemma_div_le(-x, d, b);
        lemma_div_pos_is_pos(-x, d);
    }
}

/// Truncating division of a possibly negative value by a positive divisor.
pub fn div_trunc(a: i64, d: i64) -> (q: i64)
    requires
        0 < d,
        -0x7fff_ffff_ffff_ffff <= a,
    ensures
        q == tdiv(a as int, d as int),
{
    if a >= 0 {
        let q = (a as u64) / (d as u64);
        proof {
            lemma_div_nonincreasing(a as int, d as int);
            lemma_div_pos_is_pos(a as int, d as int);
        }
        q as i64
    } else {
        let m = (-a) as u64;
        let q = m / (d as u64);
        proof {
            lemma_div_nonincreasing(m as int, d as int);
            lemma_div_pos_is_pos(m as int, d as int);
        }
        -(q as i64)
    }
}

/// Half wave of the sine, by Bhaskara I's rational approximation:
/// `16u(H - u) / (5H^2 - 4u(H - u))`, scaled by `SCALE`, on
/// `0 <= u <= HALF_TURN`.  Its error against the true sine stays below
/// two thousandths of the amplitude, so points built from it stay well
/// inside the one-pixel orbit band.
pub open spec fn half_wave(u: int) -> int {
    (16 * u * (HALF_TURN - u) * SCALE) / (5 * HALF_TURN * HALF_TURN - 4 * u * (HALF_TURN - u))
}

/// Fixed-point sine: scaled by `SCALE`, periodic in `FULL_TURN` angle units.
pub open spec fn sine_fixed(a: int) -> int {
    let u = a % (FULL_TURN as int);
    if u < HALF_TURN {
        half_wave(u)
    } else {
        -half_wave(u - HALF_TURN)
    }
}

/// Fixed-point cosine: the sine advanced by a quarter turn.
pub open spec fn cosine_fixed(a: int) -> int {
    sine_fixed(a + QUARTER_TURN)
}

/// The half wave stays within `[0, SCALE]` on its domain.
pub proof fn lemma_half_wave_bounds(u: int)
    requires
        0 <= u <= HALF_TURN,
    ensures
        0 <= half_wave(u) <= SCALE,
{
    let num = 16 * u * (HALF_TURN - u) * SCALE;
    let den = 5 * HALF_TURN * HALF_TURN - 4 * u * (HALF_TURN - u);
    assert(0 <= 4 * u * (2048 - u) <= 2048 * 2048 && 0 <= num && num <= den * 1000)
        by (nonlinear_arith)
        requires
            0 <= u <= 2048,
            num == 16 * u * (2048 - u) * 1000,
            den == 5 * 2048 * 2048 - 4 * u * (2048 - u),
    ;
    lemma_div_le(num, den, SCALE as int);
    lemma_div_pos_is_pos(num, den);
}

/// The fixed-point sine stays within `[-SCALE, SCALE]`.
pub proof fn lemma_sine_bounds(a: int)
    ensures
        -SCALE <= sine_fixed(a) <= SCALE,
{
    let u = a % (FULL_TURN as int);
    assert(0 <= u < FULL_TURN);
    if u < HALF_TURN {
        lemma_half_wave_bounds(u);
    } else {
        lemma_half_wave_bounds(u - HALF_TURN);
    }
}

/// The fixed-point sine only depends on the angle modulo a full turn.
pub proof fn lemma_sine_period(a: int, k: int)
    ensures
        sine_fixed(a + k * FULL_TURN) == sine_fixed(a),
{
    lemma_mod_multiples_vanish(k, a, FULL_TURN as int);
    assert((FULL_TURN * k + a) % (FULL_TURN as int) == a % (FULL_TURN as int));
    assert(a + k * FULL_TURN == FULL_TURN * k + a) by (nonlinear_arith);
}

/// Executable half wave.
fn half_wave_exec(u: i64) -> (s: i64)
    requires
        0 <= u <= HALF_TURN,
    ensures
        s == half_wave(u as int),
        0 <= s <= SCALE,
{
    proof {
        lemma_half_wave_bounds(u as int);
        assert(0 <= 4 * u * (HALF_TURN - u) && 4 * u * (HALF_TURN - u) <= 2048 * 2048 && 4 * (4 * u
            * (HALF_TURN - u)) * SCALE == 16 * u * (HALF_TURN - u) * SCALE) by (nonlinear_arith)
            requires
                0 <= u <= 2048,
                HALF_TURN == 2048,
                SCALE == 1000,
        ;
    }
    let prod = 4 * (u as u64) * ((HALF_TURN - u) as u64);
    let num = 4 * prod * (SCALE as u64);
    let den = (5 * HALF_TURN * HALF_TURN) as u64 - prod;
    (num / den) as i64
}

/// Executable fixed-point sine for non-negative angles.
pub fn sine(a: i64) -> (s: i64)
    requires
        0 <= a,
    ensures
        s == sine_fixed(a as int),
        -SCALE <= s <= SCALE,
{
    let u = a % FULL_TURN;
    if u < HALF_TURN {
        half_wave_exec(u)
    } else {
        -half_wave_exec(u - HALF_TURN)
    }
}

/// Executable fixed-point cosine for non-negative angles.
pub fn cosine(a: i64) -> (s: i64)
    requires
        0 <= a <= 0x7fff_ffff_ffff_0000,
    ensures
        s == cosine_fixed(a as int),
        -SCALE <= s <= SCALE,
{
    sine(a + QUARTER_TURN)
}

} // verus!
