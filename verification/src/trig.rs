//! Fixed-point trigonometry: the sine wave every oscillator traces, the
//! normalized-sinc weighting used by `add_weight`, and the reciprocal
//! distance weighting used by sampling.
//!
//! The sine is a rational quarter-wave approximation (Bhaskara's formula)
//! evaluated in integers.  It is exact at the points the engine depends on:
//! zero at `0` and `PI_FIXED`, `ONE` at `QUARTER_TAU`, and `-ONE` at
//! `3 * QUARTER_TAU`, the trough that `slam` steers phases toward.

use vstd::prelude::*;
use vstd::arithmetic::div_mod::{
    lemma_div_by_self, lemma_div_is_ordered, lemma_div_multiples_vanish, lemma_div_pos_is_pos,
    lemma_mod_division_less_than_divisor,
};
use crate::fixed::{ONE, HALF_TURN, TAU, PI_FIXED, RIPPLE_K, lemma_div_in_range};

verus! {

/// Bhaskara's sine approximation over half a cycle, scaled by `ONE`:
/// for `x` in `[0, PI_FIXED]` this tracks `sin(x / ONE) * ONE`.
pub open spec fn sin_half_fp(x: int) -> int {
    (16 * x * (PI_FIXED - x) * ONE) / (5 * PI_FIXED * PI_FIXED - 4 * x * (PI_FIXED - x))
}

/// One full sine cycle: the first half-wave positive, the second negated.
/// Defined for `x` in `[0, TAU)`.
pub open spec fn sin_cycle_fp(x: int) -> int {
    if x < PI_FIXED {
        sin_half_fp(x)
    } else {
        -sin_half_fp(x - PI_FIXED)
    }
}

/// The sine of an unbounded scaled-radian phase: the cycle wave applied to
/// the phase reduced into `[0, TAU)`.
pub open spec fn sin_fp(t: int) -> int {
    sin_cycle_fp(t % (TAU as int))
}

/// The half-wave approximation stays within `[0, ONE]` on its domain.
pub proof fn lemma_sin_half_bounds(x: int)
    requires
        0 <= x <= PI_FIXED,
    ensures
        0 <= sin_half_fp(x) <= ONE,
{
    let p = PI_FIXED as int;
    let arch = x * (p - x);
    let num = 16 * arch * ONE;
    let den = 5 * p * p - 4 * arch;
    assert(0 <= arch && 4 * arch <= p * p) by (nonlinear_arith)
        requires
            0 <= x <= p,
            arch == x * (p - x),
    ;
    assert(16 * x * (p - x) * ONE == num && 5 * p * p - 4 * x * (p - x) == den)
        by (nonlinear_arith)
        requires
            arch == x * (p - x),
            num == 16 * arch * ONE,
            den == 5 * p * p - 4 * arch,
    ;
    assert(den >= 1);
    assert(num <= den * ONE) by (nonlinear_arith)
        requires
            num == 16 * arch * ONE,
            den == 5 * p * p - 4 * arch,
            4 * arch <= p * p,
            p == PI_FIXED,
    ;
    lemma_div_pos_is_pos(num, den);
    lemma_div_is_ordered(num, den * ONE, den);
    lemma_div_multiples_vanish(ONE as int, den);
    assert(sin_half_fp(x) == num / den);
}

/// The full sine wave stays within `[-ONE, ONE]` for every phase.
pub proof fn lemma_sin_bounds(t: int)
    ensures
        -ONE <= sin_fp(t) <= ONE,
{
    lemma_mod_division_less_than_divisor(t, TAU as int);
    let local = t % (TAU as int);
    if local < PI_FIXED {
        lemma_sin_half_bounds(local);
    } else {
        lemma_sin_half_bounds(local - PI_FIXED);
    }
}

/// Bhaskara's half-wave sine, evaluated in integers.
fn sin_half(x: i64) -> (r: i64)
    requires
        0 <= x <= PI_FIXED,
    ensures
        r == sin_half_fp(x as int),
        0 <= r <= ONE,
{
    proof {
        lemma_sin_half_bounds(x as int);
        assert(x * (PI_FIXED - x) <= PI_FIXED * PI_FIXED && 0 <= x * (PI_FIXED - x))
            by (nonlinear_arith)
            requires
                0 <= x <= PI_FIXED,
        ;
    }
    let arch = x * (PI_FIXED - x);
    let num = 16 * arch * ONE;
    let den = 5 * PI_FIXED * PI_FIXED - 4 * arch;
    proof {
        let p = PI_FIXED as int;
        assert(16 * (x as int) * (p - x) * ONE == num && 5 * p * p - 4 * (x as int) * (p - x)
            == den) by (nonlinear_arith)
            requires
                arch == (x as int) * (p - x),
                num == 16 * (arch as int) * ONE,
                den == 5 * p * p - 4 * arch,
        ;
        assert(sin_half_fp(x as int) == num as int / den as int);
    }
    num.checked_div_euclid(den).unwrap()
}

/// The sine of a phase in scaled radians, in `[-ONE, ONE]`.
pub fn sin_fixed(t: i64) -> (r: i64)
    ensures
        r == sin_fp(t as int),
        -ONE <= r <= ONE,
{
    proof {
        lemma_mod_division_less_than_divisor(t as int, TAU as int);
    }
    let local = t.checked_rem_euclid(TAU).unwrap();
    if local < PI_FIXED {
        sin_half(local)
    } else {
        -sin_half(local - PI_FIXED)
    }
}

/// The normalized sinc weighting, scaled by `ONE`: `ONE` at `u == 0`
/// (the limiting value, special-cased to avoid dividing by zero) and
/// `sin(u) * ONE / u` elsewhere.
pub open spec fn sinc_weight_fp(u: int) -> int {
    if u == 0 {
        ONE as int
    } else {
        (sin_fp(u) * ONE) / u
    }
}

/// The sinc weighting never exceeds `ONE * ONE` in magnitude.
pub proof fn lemma_sinc_weight_bounds(u: int)
    requires
        u >= 0,
    ensures
        -(ONE * ONE) <= sinc_weight_fp(u) <= ONE * ONE,
{
    if u != 0 {
        lemma_sin_bounds(u);
        assert(-(ONE * ONE) <= sin_fp(u) * ONE <= ONE * ONE) by (nonlinear_arith)
            requires
                -ONE <= sin_fp(u) <= ONE,
        ;
        assert((ONE * ONE) * u >= ONE * ONE) by (nonlinear_arith)
            requires
                u >= 1,
        ;
        lemma_div_in_range(sin_fp(u) * ONE, u, ONE * ONE);
    }
}

/// The sinc distance weighting of `add_weight`, for a nonnegative
/// scaled-radian argument.
pub fn sinc_weight(u: i64) -> (r: i64)
    requires
        0 <= u <= RIPPLE_K * HALF_TURN,
    ensures
        r == sinc_weight_fp(u as int),
        -(ONE * ONE) <= r <= ONE * ONE,
{
    proof {
        lemma_sinc_weight_bounds(u as int);
    }
    if u == 0 {
        ONE
    } else {
        let s = sin_fixed(u);
        (s * ONE).checked_div_euclid(u).unwrap()
    }
}

/// The reciprocal distance weighting, scaled by `ONE`: the fixed-point
/// image of `1 / (1 + k * d)` with `d` a distance in fractions of a turn.
pub open spec fn distance_weight_fp(d: int, k: int) -> int {
    (ONE * ONE) / (ONE + k * d)
}

/// For a distance in `[0, HALF_TURN]` and a moderate sharpness the
/// reciprocal weighting is strictly positive and at most `ONE`.
pub proof fn lemma_distance_weight_bounds(d: int, k: int)
    requires
        0 <= d <= HALF_TURN,
        0 <= k <= RIPPLE_K,
    ensures
        1 <= distance_weight_fp(d, k) <= ONE,
{
    let den = ONE + k * d;
    assert(ONE <= den <= ONE + RIPPLE_K * HALF_TURN) by (nonlinear_arith)
        requires
            0 <= d <= HALF_TURN,
            0 <= k <= RIPPLE_K,
            den == ONE + k * d,
    ;
    assert(ONE * ONE <= ONE * den) by (nonlinear_arith)
        requires
            ONE <= den,
    ;
    lemma_div_in_range(ONE * ONE, den, ONE as int);
    lemma_div_by_self(den);
    lemma_div_is_ordered(den, ONE * ONE, den);
}

/// The reciprocal falloff that sampling applies with distance: weight
/// `1 / (1 + k * d)` in fixed point.
pub fn distance_weight(dist: i64, k: i64) -> (r: i64)
    requires
        0 <= dist <= HALF_TURN,
        0 <= k <= RIPPLE_K,
    ensures
        r == distance_weight_fp(dist as int, k as int),
        1 <= r <= ONE,
{
    proof {
        assert(0 <= k * dist <= RIPPLE_K * HALF_TURN) by (nonlinear_arith)
            requires
                0 <= dist <= HALF_TURN,
                0 <= k <= RIPPLE_K,
        ;
        lemma_distance_weight_bounds(dist as int, k as int);
    }
    (ONE * ONE).checked_div_euclid(ONE + k * dist).unwrap()
}

} // verus!
