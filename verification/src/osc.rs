//! A single oscillator: a point on the world circle tracing a sine wave
//! from its own phase and amplitude.

use vstd::prelude::*;
use vstd::arithmetic::div_mod::{
    lemma_div_multiples_vanish, lemma_fundamental_div_mod, lemma_fundamental_div_mod_converse_mod,
    lemma_mod_division_less_than_divisor,
};
use crate::fixed::{
    ONE, TAU, PI_FIXED, QUARTER_TAU, BASE_RATE, MIN_RATE, FORCE_LIMIT, PHASE_LIMIT, clamp_fp,
    sign_fp, abs_fp, lemma_div_in_range,
};
use crate::trig::{sin_fp, sin_half_fp, sin_fixed};

verus! {

/// One unit of periodic motion.  Only `t`, `rate` and `amp` ever change
/// after construction; `pos` is fixed for the oscillator's lifetime.
#[derive(Clone, Copy, PartialEq, Eq, Structural, Debug)]
pub struct Oscillator {
    /// Accumulated phase in scaled radians: unbounded, never wrapped.
    pub t: i64,
    /// Location on the circle as a fraction of a turn in `[0, ONE)`.
    pub pos: i64,
    /// Phase increment per tick, kept within `[MIN_RATE, BASE_RATE]`.
    pub rate: i64,
    /// Oscillation amplitude, kept within `[0, ONE]`.
    pub amp: i64,
}

/// The per-oscillator invariant: position on the circle, amplitude in
/// `[0, ONE]`, rate between the minimum and the resting rate.
pub open spec fn osc_wf(o: Oscillator) -> bool {
    &&& 0 <= o.pos < ONE
    &&& 0 <= o.amp <= ONE
    &&& MIN_RATE <= o.rate <= BASE_RATE
}

/// An oscillator's own surface contribution: amplitude times the sine of
/// the phase, in fixed point, always in `[-ONE, ONE]` for a well-formed
/// oscillator.
pub open spec fn osc_sample_fp(o: Oscillator) -> int {
    (o.amp * sin_fp(o.t as int)) / (ONE as int)
}

/// One time step: the phase advances by the current rate; position, rate
/// and amplitude are untouched.
pub open spec fn tick_osc(o: Oscillator) -> Oscillator {
    Oscillator { t: (o.t + o.rate) as i64, ..o }
}

/// An impulse of the given effective force: the amplitude is pushed up and
/// clamped, the rate damped and clamped, and the phase pulled toward a
/// trough of the sine wave by at most `force` scaled radians.
///
/// The trough policy: the unbounded phase is split into a whole number of
/// cycles plus a local phase `b` in `[0, TAU)`.  A local phase still before
/// the first crest (`b < QUARTER_TAU`) retreats to the trough just behind
/// the cycle, at `-QUARTER_TAU`; any later local phase heads for the
/// trough inside the cycle, at `3 * QUARTER_TAU`.  The travel is applied
/// to the unbounded phase, so elapsed cycles are preserved.
pub open spec fn slam_osc(o: Oscillator, force: int) -> Oscillator {
    let b = (o.t as int) % (TAU as int);
    let target = if b < QUARTER_TAU {
        -(QUARTER_TAU as int)
    } else {
        3 * QUARTER_TAU
    };
    let raw = target - b;
    let moved = if abs_fp(raw) > force {
        sign_fp(raw) * force
    } else {
        raw
    };
    Oscillator {
        t: (o.t + moved) as i64,
        pos: o.pos,
        rate: clamp_fp(o.rate - force, MIN_RATE as int, BASE_RATE as int) as i64,
        amp: clamp_fp(o.amp + force, 0, ONE as int) as i64,
    }
}

impl Oscillator {
    /// The oscillator's current surface contribution.
    pub fn sample(&self) -> (r: i64)
        requires
            -ONE <= self.amp <= ONE,
        ensures
            r == osc_sample_fp(*self),
            -ONE <= r <= ONE,
    {
        let s = sin_fixed(self.t);
        proof {
            assert(-(ONE * ONE) <= self.amp * s <= ONE * ONE) by (nonlinear_arith)
                requires
                    -ONE <= self.amp <= ONE,
                    -ONE <= s <= ONE,
            ;
            lemma_div_in_range(self.amp * s, ONE as int, ONE as int);
        }
        (self.amp * s).checked_div_euclid(ONE).unwrap()
    }

    /// Advance the phase by one step of the current rate.
    pub fn tick(&mut self)
        requires
            i64::MIN <= old(self).t + old(self).rate <= i64::MAX,
        ensures
            *final(self) == tick_osc(*old(self)),
            final(self).t == old(self).t + old(self).rate,
    {
        self.t = self.t + self.rate;
    }

    /// Nudge the amplitude by `delta` and clamp it into `[0, ONE]`.
    pub fn update_amp(&mut self, delta: i64)
        requires
            i64::MIN <= old(self).amp + delta <= i64::MAX,
        ensures
            final(self).amp == clamp_fp(old(self).amp + delta, 0, ONE as int),
            final(self).t == old(self).t,
            final(self).pos == old(self).pos,
            final(self).rate == old(self).rate,
    {
        let v = self.amp + delta;
        self.amp = if v < 0 {
            0
        } else if v > ONE {
            ONE
        } else {
            v
        };
    }

    /// Nudge the rate by `delta` and clamp it into `[MIN_RATE, BASE_RATE]`.
    pub fn update_rate(&mut self, delta: i64)
        requires
            i64::MIN <= old(self).rate + delta <= i64::MAX,
        ensures
            final(self).rate == clamp_fp(old(self).rate + delta, MIN_RATE as int, BASE_RATE as int),
            final(self).t == old(self).t,
            final(self).pos == old(self).pos,
            final(self).amp == old(self).amp,
    {
        let v = self.rate + delta;
        self.rate = if v < MIN_RATE {
            MIN_RATE
        } else if v > BASE_RATE {
            BASE_RATE
        } else {
            v
        };
    }

    /// Take an impulse of the given effective force: boost the amplitude,
    /// damp the rate, and move the phase toward the nearest trough of the
    /// sine wave, travelling at most `force` scaled radians.
    pub fn slam(&mut self, force: i64)
        requires
            -FORCE_LIMIT <= force <= FORCE_LIMIT,
            -PHASE_LIMIT <= old(self).t <= PHASE_LIMIT,
            i64::MIN <= old(self).amp + force <= i64::MAX,
            i64::MIN <= old(self).rate - force <= i64::MAX,
        ensures
            *final(self) == slam_osc(*old(self), force as int),
    {
        self.update_amp(force);
        self.update_rate(-force);
        let move_val = force;
        proof {
            lemma_mod_division_less_than_divisor(self.t as int, TAU as int);
        }
        let b = self.t.checked_rem_euclid(TAU).unwrap();
        let b_target = if b < QUARTER_TAU {
            -QUARTER_TAU
        } else {
            3 * QUARTER_TAU
        };
        let mut delta = b_target - b;
        let mag = if delta < 0 {
            -delta
        } else {
            delta
        };
        if mag > move_val {
            delta = if delta > 0 {
                move_val
            } else if delta < 0 {
                -move_val
            } else {
                0
            };
        }
        self.t = self.t + delta;
    }
}

/// `n` consecutive ticks, folded at the specification level.
pub open spec fn ticks_osc(o: Oscillator, n: nat) -> Oscillator
    decreases n,
{
    if n == 0 {
        o
    } else {
        tick_osc(ticks_osc(o, (n - 1) as nat))
    }
}

/// Law: over a run of `n` ticks with no perturbation in between, the phase
/// advances by exactly `n` times the rate, and position, rate and
/// amplitude are untouched.
pub proof fn lemma_ticks_advance(o: Oscillator, n: nat)
    requires
        0 <= o.rate,
        o.t + n * o.rate <= i64::MAX,
    ensures
        ticks_osc(o, n).t == o.t + n * o.rate,
        ticks_osc(o, n).rate == o.rate,
        ticks_osc(o, n).amp == o.amp,
        ticks_osc(o, n).pos == o.pos,
    decreases n,
{
    if n == 0 {
        assert(n * o.rate == 0) by (nonlinear_arith)
            requires
                n == 0,
        ;
    } else {
        let m = (n - 1) as nat;
        assert(m * o.rate <= n * o.rate && 0 <= m * o.rate && m * o.rate + o.rate == n * o.rate)
            by (nonlinear_arith)
            requires
                0 <= o.rate,
                m == n - 1,
                n >= 1,
        ;
        lemma_ticks_advance(o, m);
    }
}

/// Law: a slam whose permitted movement covers the farthest possible
/// distance to a trough lands the local phase exactly on the trough, where
/// the sine wave is exactly `-ONE`.
pub proof fn lemma_slam_seeks_trough(o: Oscillator, force: int)
    requires
        3 * QUARTER_TAU <= force <= FORCE_LIMIT,
        -PHASE_LIMIT <= o.t <= PHASE_LIMIT,
    ensures
        (slam_osc(o, force).t as int) % (TAU as int) == 3 * QUARTER_TAU,
        sin_fp(slam_osc(o, force).t as int) == -ONE,
{
    let t = o.t as int;
    let tau = TAU as int;
    lemma_mod_division_less_than_divisor(t, tau);
    lemma_fundamental_div_mod(t, tau);
    let b = t % tau;
    let q = t / tau;
    let t2 = slam_osc(o, force).t as int;
    if b < QUARTER_TAU {
        assert(t2 == tau * (q - 1) + 3 * QUARTER_TAU) by {
            assert(t == tau * q + b);
        };
        lemma_fundamental_div_mod_converse_mod(t2, tau, q - 1, 3 * QUARTER_TAU);
    } else {
        assert(t2 == tau * q + 3 * QUARTER_TAU) by {
            assert(t == tau * q + b);
        };
        lemma_fundamental_div_mod_converse_mod(t2, tau, q, 3 * QUARTER_TAU);
    }
    let x = QUARTER_TAU as int;
    let num = 16 * x * (PI_FIXED - x) * ONE;
    let den = 5 * (PI_FIXED as int) * PI_FIXED - 4 * x * (PI_FIXED - x);
    assert(num == den * ONE && den == 169612185600) by (nonlinear_arith)
        requires
            x == QUARTER_TAU as int,
            num == 16 * x * (PI_FIXED - x) * ONE,
            den == 5 * (PI_FIXED as int) * PI_FIXED - 4 * x * (PI_FIXED - x),
            QUARTER_TAU == 102960,
            PI_FIXED == 205920,
            ONE == 65536,
    ;
    lemma_div_multiples_vanish(ONE as int, den);
    assert(sin_half_fp(x) == num / den);
    assert(sin_fp(t2) == -sin_half_fp(3 * QUARTER_TAU - PI_FIXED));
}

} // verus!
