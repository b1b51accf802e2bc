//! Fixed-point scale, the engine's numeric constants, and small helpers
//! shared by every module.

use vstd::prelude::*;
use vstd::arithmetic::div_mod::lemma_fundamental_div_mod;

verus! {

/// The fixed-point scale: the real number `1.0` is stored as `ONE`.
pub const ONE: i64 = 65536;

/// Half a turn of the circle, the largest possible circular distance.
pub const HALF_TURN: i64 = 32768;

/// One full oscillation cycle in scaled radians.  This is the fixed-point
/// image of `2 * pi` (`2 * pi * ONE` is about `411775`), rounded to a
/// multiple of `480` so that the quarter-cycle marks and the per-tick rate
/// below are exact integers.
pub const TAU: i64 = 411840;

/// Half a cycle (`pi`, scaled).
pub const PI_FIXED: i64 = 205920;

/// A quarter cycle (`pi / 2`, scaled); the phase targets used by `slam`
/// are odd multiples of this value.
pub const QUARTER_TAU: i64 = 102960;

/// The resting phase increment per tick: one full cycle every 120 ticks.
pub const BASE_RATE: i64 = 3432;

/// The slowest permitted phase increment, half the resting rate.
pub const MIN_RATE: i64 = 1716;

/// Sharpness of the reciprocal distance weighting used by sampling.
pub const SAMPLE_K: i64 = 50;

/// Sharpness of the sinc distance weighting used by `add_weight`.
pub const RIPPLE_K: i64 = 100;

/// Circular distance below which a slam reaches an oscillator (`0.125`).
pub const SLAM_RADIUS: i64 = 8192;

/// Slope of the linear falloff a slam applies inside `SLAM_RADIUS`.
pub const SLAM_FALLOFF: i64 = 20;

/// Largest accepted magnitude for a perturbation strength (`delta` or
/// `force`); this keeps every intermediate product inside `i64`.
pub const FORCE_LIMIT: i64 = 0x4000_0000;

/// Largest phase magnitude accepted by the operations that move a phase;
/// this keeps phase arithmetic inside `i64`, and every starting phase a
/// construction can produce lies well within it.
pub const PHASE_LIMIT: i64 = 0x1000_0000_0000_0000;

/// Largest accepted oscillator count for a `World`.
pub const COUNT_LIMIT: usize = 0xFFFF_FFFF;

/// Largest accepted construction seed.
pub const SEED_LIMIT: usize = 0xFFFF_FFFF;

/// Mathematical clamp of `x` into `[lo, hi]`.
pub open spec fn clamp_fp(x: int, lo: int, hi: int) -> int {
    if x < lo {
        lo
    } else if x > hi {
        hi
    } else {
        x
    }
}

/// Sign of `x`: `-1`, `0` or `1`.
pub open spec fn sign_fp(x: int) -> int {
    if x > 0 {
        1
    } else if x < 0 {
        -1
    } else {
        0
    }
}

/// Absolute value of `x`.
pub open spec fn abs_fp(x: int) -> int {
    if x < 0 {
        -x
    } else {
        x
    }
}

/// A Euclidean quotient stays within a scaled-down range: if `|x| <= m * d`
/// then `|x / d| <= m`.
pub proof fn lemma_div_in_range(x: int, d: int, m: int)
    requires
        d >= 1,
        m >= 0,
        -(m * d) <= x <= m * d,
    ensures
        -m <= x / d <= m,
{
    lemma_fundamental_div_mod(x, d);
    let q = x / d;
    let r = x % d;
    assert(x == d * q + r);
    assert(-m <= q <= m) by (nonlinear_arith)
        requires
            d >= 1,
            m >= 0,
            -(m * d) <= x <= m * d,
            x == d * q + r,
            0 <= r < d,
    ;
}

} // verus!
