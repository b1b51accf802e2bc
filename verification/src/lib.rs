//! A procedurally evolving circular height field.
//!
//! A `World` owns a fixed ring of phase oscillators spaced evenly around the
//! unit circle.  The field can be sampled at any angular position, nudged
//! smoothly (`add_weight`), struck impulsively (`slam`), and advanced one
//! step at a time (`tick`).
//!
//! All quantities are fixed-point integers: a real value `x` is represented
//! by the integer `x * ONE`, with `ONE = 65536`.  Angles on the circle are
//! fractions of a turn in `[0, ONE)`; phases are radians scaled by `ONE`,
//! with one full cycle equal to the constant `TAU`.

mod fixed;
mod angles;
mod trig;
mod osc;
mod world;

pub use fixed::{
    ONE, HALF_TURN, TAU, PI_FIXED, QUARTER_TAU, BASE_RATE, MIN_RATE, SAMPLE_K, RIPPLE_K,
    SLAM_RADIUS, SLAM_FALLOFF, FORCE_LIMIT, PHASE_LIMIT, COUNT_LIMIT, SEED_LIMIT, clamp_fp,
    sign_fp, abs_fp, lemma_div_in_range,
};
pub use angles::{
    angular_difference, circular_distance, angle_diff, min_dist, lemma_distance_self,
    lemma_distance_symmetric,
};
pub use trig::{
    sin_half_fp, sin_cycle_fp, sin_fp, sin_fixed, sinc_weight_fp, sinc_weight,
    distance_weight_fp, distance_weight, lemma_sin_half_bounds, lemma_sin_bounds,
    lemma_sinc_weight_bounds, lemma_distance_weight_bounds,
};
pub use osc::{
    Oscillator, osc_wf, osc_sample_fp, tick_osc, slam_osc, ticks_osc, lemma_ticks_advance,
    lemma_slam_seeks_trough,
};
pub use world::{
    World, init_osc, sample_term_fp, sample_sum_fp, add_weight_osc, slam_osc_at,
    lemma_sample_term_bounded, lemma_sample_sum_bounded, lemma_add_weight_zero,
};
