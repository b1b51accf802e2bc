//! The world: an ordered, fixed-length ring of oscillators spaced evenly
//! around the circle, with field sampling, smooth and impulsive
//! perturbation, and time advancement.

use vstd::prelude::*;
use vstd::arithmetic::div_mod::{
    lemma_div_of0, lemma_div_pos_is_pos, lemma_multiply_divide_lt,
};
use crate::fixed::{
    ONE, HALF_TURN, BASE_RATE, MIN_RATE, SAMPLE_K, RIPPLE_K, SLAM_RADIUS, SLAM_FALLOFF,
    FORCE_LIMIT, PHASE_LIMIT, COUNT_LIMIT, SEED_LIMIT, clamp_fp, lemma_div_in_range,
};
use crate::angles::{circular_distance, min_dist};
use crate::trig::{
    sinc_weight_fp, sinc_weight, distance_weight_fp, distance_weight, lemma_sin_bounds,
    lemma_distance_weight_bounds,
};
use crate::osc::{Oscillator, osc_wf, osc_sample_fp, tick_osc, slam_osc};

verus! {

/// A world: a collection of oscillators equally spaced on a circle.
pub struct World {
    /// The oscillators, in construction order; the ring's length is fixed
    /// for the world's lifetime.
    pub oscs: Vec<Oscillator>,
}

/// The oscillator a construction with the given seed and count places at
/// index `i`: position `i / count` of a turn, the resting rate, one of
/// four amplitude levels (`1/16` up to `4/16`, cycling with `i + seed`),
/// and a large seed-and-index-derived starting phase.
pub open spec fn init_osc(seed: int, count: int, i: int) -> Oscillator {
    Oscillator {
        t: ((seed * 1235 + i * 100) * (ONE as int)) as i64,
        pos: ((i * (ONE as int)) / count) as i64,
        rate: BASE_RATE,
        amp: ((((i + seed) % 4) + 1) * 4096) as i64,
    }
}

/// What one oscillator adds to a field sample: its own contribution times
/// the reciprocal distance weighting, counted only while the weight is
/// strictly positive (a defensive guard; the weight provably is).
pub open spec fn sample_term_fp(o: Oscillator, pos: int) -> int {
    let w = distance_weight_fp(circular_distance(o.pos as int, pos), SAMPLE_K as int);
    if w > 0 {
        (w * osc_sample_fp(o)) / (ONE as int)
    } else {
        0
    }
}

/// The sampled field value: the sum of every oscillator's weighted
/// contribution.
pub open spec fn sample_sum_fp(s: Seq<Oscillator>, pos: int) -> int
    decreases s.len(),
{
    if s.len() == 0 {
        0
    } else {
        sample_sum_fp(s.drop_last(), pos) + sample_term_fp(s.last(), pos)
    }
}

/// How `add_weight` changes one oscillator: the caller's delta, scaled by
/// the sinc of the scaled-radian distance to the target position, nudges
/// both amplitude and rate, each clamped to its range.  Every oscillator
/// receives such a nudge, however far away: the ripple is global.
pub open spec fn add_weight_osc(o: Oscillator, delta: int, pos: int) -> Oscillator {
    let d = circular_distance(o.pos as int, pos);
    let dl = (delta * sinc_weight_fp(RIPPLE_K * d)) / (ONE as int);
    Oscillator {
        amp: clamp_fp(o.amp + dl, 0, ONE as int) as i64,
        rate: clamp_fp(o.rate + dl, MIN_RATE as int, BASE_RATE as int) as i64,
        ..o
    }
}

/// How `slam` changes one oscillator: only inside the hard cutoff radius,
/// and only while the linear falloff weighting is still positive, does the
/// impulse reach it, with force scaled by that weighting.
pub open spec fn slam_osc_at(o: Oscillator, force: int, pos: int) -> Oscillator {
    let d = circular_distance(o.pos as int, pos);
    if d < SLAM_RADIUS {
        let w = ONE - SLAM_FALLOFF * d;
        if w > 0 {
            slam_osc(o, (force * w) / (ONE as int))
        } else {
            o
        }
    } else {
        o
    }
}

/// Law: a well-formed oscillator's weighted sample contribution lies in
/// `[-ONE, ONE]`.
pub proof fn lemma_sample_term_bounded(o: Oscillator, pos: int)
    requires
        osc_wf(o),
        0 <= pos < ONE,
    ensures
        -ONE <= sample_term_fp(o, pos) <= ONE,
{
    let d = circular_distance(o.pos as int, pos);
    let w = distance_weight_fp(d, SAMPLE_K as int);
    lemma_distance_weight_bounds(d, SAMPLE_K as int);
    lemma_sin_bounds(o.t as int);
    assert(-(ONE * ONE) <= o.amp * crate::trig::sin_fp(o.t as int) <= ONE * ONE)
        by (nonlinear_arith)
        requires
            0 <= o.amp <= ONE,
            -ONE <= crate::trig::sin_fp(o.t as int) <= ONE,
    ;
    lemma_div_in_range(o.amp * crate::trig::sin_fp(o.t as int), ONE as int, ONE as int);
    assert(-(ONE * ONE) <= w * osc_sample_fp(o) <= ONE * ONE) by (nonlinear_arith)
        requires
            0 <= w <= ONE,
            -ONE <= osc_sample_fp(o) <= ONE,
    ;
    lemma_div_in_range(w * osc_sample_fp(o), ONE as int, ONE as int);
}

/// Law: the sampled field never diverges; its magnitude is bounded by the
/// oscillator count times `ONE`, the envelope left when every weight and
/// every amplitude is at its largest.
pub proof fn lemma_sample_sum_bounded(s: Seq<Oscillator>, pos: int)
    requires
        forall|i: int| 0 <= i < s.len() ==> osc_wf(#[trigger] s[i]),
        0 <= pos < ONE,
    ensures
        -(s.len() * ONE) <= sample_sum_fp(s, pos) <= s.len() * ONE,
    decreases s.len(),
{
    let n = s.len() as int;
    if s.len() == 0 {
        assert(s.len() * ONE == 0) by (nonlinear_arith)
            requires
                s.len() == 0,
        ;
    } else {
        assert(forall|i: int| 0 <= i < s.drop_last().len() ==> osc_wf(#[trigger] s.drop_last()[i]));
        lemma_sample_sum_bounded(s.drop_last(), pos);
        lemma_sample_term_bounded(s.last(), pos);
        assert((n - 1) * ONE + ONE == n * ONE) by (nonlinear_arith);
    }
}

/// Law: with a zero delta, `add_weight` leaves a well-formed oscillator
/// exactly as it was.
pub proof fn lemma_add_weight_zero(o: Oscillator, pos: int)
    requires
        osc_wf(o),
    ensures
        add_weight_osc(o, 0, pos) == o,
{
    let d = circular_distance(o.pos as int, pos);
    let w = sinc_weight_fp(RIPPLE_K * d);
    assert(0 * w == 0) by (nonlinear_arith);
    lemma_div_of0(ONE as int);
}

impl World {
    /// The world's invariant: a bounded ring in which every oscillator is
    /// well formed.  It holds from construction on, whatever sequence of
    /// operations the host applies.
    pub open spec fn wf(self) -> bool {
        &&& self.oscs@.len() <= COUNT_LIMIT
        &&& forall|i: int| 0 <= i < self.oscs@.len() ==> osc_wf(#[trigger] self.oscs@[i])
    }

    /// Every phase is small enough for the operations that move phases.
    pub open spec fn phases_bounded(self) -> bool {
        forall|i: int|
            0 <= i < self.oscs@.len() ==> -PHASE_LIMIT <= (#[trigger] self.oscs@[i]).t
                <= PHASE_LIMIT
    }

    /// Build a world of `osc_count` oscillators evenly spaced on the
    /// circle.  The seed fixes each oscillator's starting amplitude level
    /// and starting phase; different seeds decorrelate the phases.
    pub fn new(seed: usize, osc_count: usize) -> (w: World)
        requires
            seed <= SEED_LIMIT,
            osc_count <= COUNT_LIMIT,
        ensures
            w.oscs@.len() == osc_count,
            forall|i: int|
                0 <= i < osc_count ==> w.oscs@[i] == init_osc(
                    seed as int,
                    osc_count as int,
                    i,
                ),
            w.wf(),
            w.phases_bounded(),
    {
        let mut oscs: Vec<Oscillator> = Vec::new();
        let mut i: usize = 0;
        while i < osc_count
            invariant
                i <= osc_count,
                seed <= SEED_LIMIT,
                osc_count <= COUNT_LIMIT,
                oscs@.len() == i,
                forall|j: int|
                    0 <= j < i ==> oscs@[j] == init_osc(seed as int, osc_count as int, j),
                forall|j: int| 0 <= j < i ==> osc_wf(#[trigger] oscs@[j]),
                forall|j: int|
                    0 <= j < i ==> -PHASE_LIMIT <= (#[trigger] oscs@[j]).t <= PHASE_LIMIT,
            decreases osc_count - i,
        {
            proof {
                assert((i as int) * (ONE as int) <= 0xFFFF_FFFF * 65536 && 0 <= (i as int) * (
                ONE as int)) by (nonlinear_arith)
                    requires
                        0 <= i <= 0xFFFF_FFFF,
                        ONE == 65536,
                ;
                assert((i as int) * (ONE as int) < (osc_count as int) * (ONE as int))
                    by (nonlinear_arith)
                    requires
                        i < osc_count,
                        ONE == 65536,
                ;
                lemma_div_pos_is_pos((i as int) * (ONE as int), osc_count as int);
                lemma_multiply_divide_lt(
                    (i as int) * (ONE as int),
                    osc_count as int,
                    ONE as int,
                );
                assert((seed as int) * 1235 + (i as int) * 100 <= 0xFFFF_FFFFint * 1235
                    + 0xFFFF_FFFFint * 100 && 0 <= (seed as int) * 1235 + (i as int) * 100)
                    by (nonlinear_arith)
                    requires
                        0 <= seed <= 0xFFFF_FFFF,
                        0 <= i <= 0xFFFF_FFFF,
                ;
                assert(((seed as int) * 1235 + (i as int) * 100) * (ONE as int) <= (
                0xFFFF_FFFFint * 1235 + 0xFFFF_FFFFint * 100) * 65536 && 0 <= ((seed as int)
                    * 1235 + (i as int) * 100) * (ONE as int)) by (nonlinear_arith)
                    requires
                        0 <= (seed as int) * 1235 + (i as int) * 100 <= 0xFFFF_FFFFint * 1235
                            + 0xFFFF_FFFFint * 100,
                        ONE == 65536,
                ;
            }
            let pos = ((i as i64) * ONE).checked_div_euclid(osc_count as i64).unwrap();
            let level = ((i as i64) + (seed as i64)).checked_rem_euclid(4).unwrap() + 1;
            let amp = level * 4096;
            let t = ((seed as i64) * 1235 + (i as i64) * 100) * ONE;
            let osc = Oscillator { t, pos, rate: BASE_RATE, amp };
            proof {
                vstd::arithmetic::div_mod::lemma_mod_division_less_than_divisor(
                    (i as int) + (seed as int),
                    4,
                );
            }
            oscs.push(osc);
            i = i + 1;
        }
        World { oscs }
    }

    /// Advance every oscillator's phase by one step of its current rate.
    /// Phases accumulate without wrapping.
    pub fn tick(&mut self)
        requires
            forall|i: int|
                0 <= i < old(self).oscs@.len() ==> i64::MIN <= (#[trigger] old(
                    self,
                ).oscs@[i]).t + old(self).oscs@[i].rate <= i64::MAX,
        ensures
            final(self).oscs@.len() == old(self).oscs@.len(),
            forall|i: int|
                0 <= i < old(self).oscs@.len() ==> final(self).oscs@[i] == tick_osc(
                    #[trigger] old(self).oscs@[i],
                ),
            old(self).wf() ==> final(self).wf(),
    {
        let n = self.oscs.len();
        let mut i: usize = 0;
        while i < n
            invariant
                i <= n,
                n == self.oscs@.len(),
                n == old(self).oscs@.len(),
                forall|j: int|
                    0 <= j < i ==> self.oscs@[j] == tick_osc(#[trigger] old(self).oscs@[j]),
                forall|j: int| i <= j < n ==> self.oscs@[j] == old(self).oscs@[j],
                forall|j: int|
                    0 <= j < old(self).oscs@.len() ==> i64::MIN <= (#[trigger] old(
                        self,
                    ).oscs@[j]).t + old(self).oscs@[j].rate <= i64::MAX,
            decreases n - i,
        {
            self.oscs[i].tick();
            i = i + 1;
        }
        proof {
            if old(self).wf() {
                assert forall|j: int| 0 <= j < n implies osc_wf(#[trigger] self.oscs@[j]) by {
                    assert(self.oscs@[j] == tick_osc(old(self).oscs@[j]));
                    assert(osc_wf(old(self).oscs@[j]));
                }
            }
        }
    }

    /// Sample the surface level at an angular position given as a fraction
    /// of a turn.  Every oscillator contributes, weighted by reciprocal
    /// falloff with circular distance; a contribution is added only while
    /// its weight is strictly positive.  Sampling mutates nothing.
    pub fn sample(&self, pos: i64) -> (r: i64)
        requires
            self.wf(),
            0 <= pos < ONE,
        ensures
            r == sample_sum_fp(self.oscs@, pos as int),
            -(self.oscs@.len() * ONE) <= r <= self.oscs@.len() * ONE,
    {
        let n = self.oscs.len();
        let mut res: i64 = 0;
        let mut i: usize = 0;
        while i < n
            invariant
                i <= n,
                n == self.oscs@.len(),
                self.wf(),
                0 <= pos < ONE,
                res == sample_sum_fp(self.oscs@.subrange(0, i as int), pos as int),
                -((i as int) * ONE) <= res <= (i as int) * ONE,
            decreases n - i,
        {
            let o = self.oscs[i];
            let dist = min_dist(o.pos, pos);
            let w = distance_weight(dist, SAMPLE_K);
            let part = o.sample();
            proof {
                assert(-(ONE * ONE) <= w * part <= ONE * ONE) by (nonlinear_arith)
                    requires
                        0 <= w <= ONE,
                        -ONE <= part <= ONE,
                ;
                lemma_div_in_range(w * part, ONE as int, ONE as int);
                assert((i as int) * ONE + ONE == (i as int + 1) * ONE) by (nonlinear_arith);
                assert((i as int + 1) * ONE <= 0x1_0000_0000int * 65536) by (nonlinear_arith)
                    requires
                        i + 1 <= 0x1_0000_0000,
                        ONE == 65536,
                ;
            }
            if w > 0 {
                let term = (w * part).checked_div_euclid(ONE).unwrap();
                res = res + term;
            }
            proof {
                let pre = self.oscs@.subrange(0, i as int);
                let cur = self.oscs@.subrange(0, i as int + 1);
                assert(cur.drop_last() =~= pre);
                assert(cur.last() == self.oscs@[i as int]);
            }
            i = i + 1;
        }
        proof {
            assert(self.oscs@.subrange(0, n as int) =~= self.oscs@);
        }
        res
    }

    /// Nudge the field around a position: every oscillator's amplitude and
    /// rate take the caller's delta scaled by the sinc of the distance, a
    /// smooth global ripple with no cutoff.  A zero delta changes nothing.
    pub fn add_weight(&mut self, delta_weight: i64, pos: i64)
        requires
            old(self).wf(),
            0 <= pos < ONE,
            -FORCE_LIMIT <= delta_weight <= FORCE_LIMIT,
        ensures
            final(self).oscs@.len() == old(self).oscs@.len(),
            forall|i: int|
                0 <= i < old(self).oscs@.len() ==> final(self).oscs@[i] == add_weight_osc(
                    #[trigger] old(self).oscs@[i],
                    delta_weight as int,
                    pos as int,
                ),
            final(self).wf(),
            old(self).phases_bounded() ==> final(self).phases_bounded(),
            delta_weight == 0 ==> final(self).oscs@ == old(self).oscs@,
    {
        let n = self.oscs.len();
        let mut i: usize = 0;
        while i < n
            invariant
                i <= n,
                n == self.oscs@.len(),
                n == old(self).oscs@.len(),
                old(self).wf(),
                0 <= pos < ONE,
                -FORCE_LIMIT <= delta_weight <= FORCE_LIMIT,
                forall|j: int|
                    0 <= j < i ==> self.oscs@[j] == add_weight_osc(
                        #[trigger] old(self).oscs@[j],
                        delta_weight as int,
                        pos as int,
                    ),
                forall|j: int| i <= j < n ==> self.oscs@[j] == old(self).oscs@[j],
            decreases n - i,
        {
            let p0 = self.oscs[i].pos;
            let dist = min_dist(p0, pos);
            proof {
                assert(0 <= RIPPLE_K * dist <= RIPPLE_K * HALF_TURN) by (nonlinear_arith)
                    requires
                        0 <= dist <= HALF_TURN,
                        RIPPLE_K == 100,
                ;
            }
            let u = RIPPLE_K * dist;
            let w = sinc_weight(u);
            proof {
                assert(-(FORCE_LIMIT * (ONE * ONE)) <= delta_weight * w <= FORCE_LIMIT * (ONE
                    * ONE)) by (nonlinear_arith)
                    requires
                        -FORCE_LIMIT <= delta_weight <= FORCE_LIMIT,
                        -(ONE * ONE) <= w <= ONE * ONE,
                ;
                assert(FORCE_LIMIT * (ONE * ONE) == (FORCE_LIMIT * ONE) * ONE)
                    by (nonlinear_arith);
                lemma_div_in_range(delta_weight * w, ONE as int, FORCE_LIMIT * ONE);
                assert(FORCE_LIMIT * ONE <= 0x4000_0000int * 65536) by (nonlinear_arith)
                    requires
                        FORCE_LIMIT == 0x4000_0000,
                        ONE == 65536,
                ;
            }
            let dl = (delta_weight * w).checked_div_euclid(ONE).unwrap();
            self.oscs[i].update_amp(dl);
            self.oscs[i].update_rate(dl);
            i = i + 1;
        }
        proof {
            assert forall|i: int| 0 <= i < n implies osc_wf(#[trigger] self.oscs@[i])
                && self.oscs@[i].t == old(self).oscs@[i].t by {
                assert(self.oscs@[i] == add_weight_osc(
                    old(self).oscs@[i],
                    delta_weight as int,
                    pos as int,
                ));
            }
            if delta_weight == 0 {
                assert forall|i: int| 0 <= i < n implies self.oscs@[i] == #[trigger] old(
                    self,
                ).oscs@[i] by {
                    lemma_add_weight_zero(old(self).oscs@[i], pos as int);
                }
                assert(self.oscs@ =~= old(self).oscs@);
            }
        }
    }

    /// Strike the field at a position: oscillators strictly inside the
    /// cutoff radius, while the linear falloff weighting stays positive,
    /// take an impulse of proportionally weakened force.  Everything at or
    /// beyond the cutoff is untouched.
    pub fn slam(&mut self, force: i64, pos: i64)
        requires
            old(self).wf(),
            old(self).phases_bounded(),
            0 <= pos < ONE,
            -FORCE_LIMIT <= force <= FORCE_LIMIT,
        ensures
            final(self).oscs@.len() == old(self).oscs@.len(),
            forall|i: int|
                0 <= i < old(self).oscs@.len() ==> final(self).oscs@[i] == slam_osc_at(
                    #[trigger] old(self).oscs@[i],
                    force as int,
                    pos as int,
                ),
            forall|i: int|
                0 <= i < old(self).oscs@.len() && circular_distance(
                    (#[trigger] old(self).oscs@[i]).pos as int,
                    pos as int,
                ) >= SLAM_RADIUS ==> final(self).oscs@[i] == old(self).oscs@[i],
            final(self).wf(),
    {
        let n = self.oscs.len();
        let mut i: usize = 0;
        while i < n
            invariant
                i <= n,
                n == self.oscs@.len(),
                n == old(self).oscs@.len(),
                old(self).wf(),
                old(self).phases_bounded(),
                0 <= pos < ONE,
                -FORCE_LIMIT <= force <= FORCE_LIMIT,
                forall|j: int|
                    0 <= j < i ==> self.oscs@[j] == slam_osc_at(
                        #[trigger] old(self).oscs@[j],
                        force as int,
                        pos as int,
                    ),
                forall|j: int| i <= j < n ==> self.oscs@[j] == old(self).oscs@[j],
            decreases n - i,
        {
            let p0 = self.oscs[i].pos;
            let dist = min_dist(p0, pos);
            if dist < SLAM_RADIUS {
                proof {
                    assert(0 <= SLAM_FALLOFF * dist <= SLAM_FALLOFF * SLAM_RADIUS)
                        by (nonlinear_arith)
                        requires
                            0 <= dist <= SLAM_RADIUS,
                            SLAM_FALLOFF == 20,
                            SLAM_RADIUS == 8192,
                    ;
                }
                let weighting = ONE - SLAM_FALLOFF * dist;
                if weighting > 0 {
                    proof {
                        assert(-(FORCE_LIMIT * ONE) <= force * weighting <= FORCE_LIMIT * ONE)
                            by (nonlinear_arith)
                            requires
                                -FORCE_LIMIT <= force <= FORCE_LIMIT,
                                0 <= weighting <= ONE,
                        ;
                        lemma_div_in_range(force * weighting, ONE as int, FORCE_LIMIT as int);
                    }
                    let ef = (force * weighting).checked_div_euclid(ONE).unwrap();
                    self.oscs[i].slam(ef);
                }
            }
            i = i + 1;
        }
        proof {
            assert forall|i: int| 0 <= i < n implies osc_wf(#[trigger] self.oscs@[i]) by {
                assert(self.oscs@[i] == slam_osc_at(
                    old(self).oscs@[i],
                    force as int,
                    pos as int,
                ));
            }
        }
    }

    /// Read one oscillator's position, rate and amplitude for diagnostics.
    /// The index must be valid; the engine does not recover from an
    /// out-of-range identifier.
    pub fn inspect(&self, index: usize) -> (r: (i64, i64, i64))
        requires
            index < self.oscs@.len(),
        ensures
            r.0 == self.oscs@[index as int].pos,
            r.1 == self.oscs@[index as int].rate,
            r.2 == self.oscs@[index as int].amp,
    {
        let o = &self.oscs[index];
        (o.pos, o.rate, o.amp)
    }
}

} // verus!
