use world_generators::{
    sin_fixed, sinc_weight, distance_weight, ONE, TAU, PI_FIXED, QUARTER_TAU, SAMPLE_K,
};

#[test]
fn sine_hits_its_landmarks_exactly() {
    assert_eq!(sin_fixed(0), 0);
    assert_eq!(sin_fixed(QUARTER_TAU), ONE);
    assert_eq!(sin_fixed(PI_FIXED), 0);
    assert_eq!(sin_fixed(3 * QUARTER_TAU), -ONE);
}

#[test]
fn sine_is_periodic() {
    assert_eq!(sin_fixed(TAU + QUARTER_TAU), ONE);
    assert_eq!(sin_fixed(-TAU + QUARTER_TAU), ONE);
    assert_eq!(sin_fixed(5 * TAU), 0);
    assert_eq!(sin_fixed(6553600), sin_fixed(6553600 + 3 * TAU));
}

#[test]
fn sine_of_seed_phases() {
    // the starting phases of a four-oscillator world with seed 0
    assert_eq!(sin_fixed(6553600), -34065);
    assert_eq!(sin_fixed(13107200), -58145);
    assert_eq!(sin_fixed(19660800), -65375);
}

#[test]
fn sine_stays_in_range() {
    let mut t: i64 = -1000000;
    while t < 1000000 {
        let s = sin_fixed(t);
        assert!(-ONE <= s && s <= ONE);
        t += 7919;
    }
}

#[test]
fn sinc_weighting_values() {
    // the limiting value at zero distance
    assert_eq!(sinc_weight(0), ONE);
    // just off zero the integer approximation sits near ONE
    assert_eq!(sinc_weight(100), 66191);
    // far out on the circle the ripple has decayed and oscillates
    assert_eq!(sinc_weight(3276800), -356);
}

#[test]
fn reciprocal_weighting_values() {
    assert_eq!(distance_weight(0, SAMPLE_K), ONE);
    assert_eq!(distance_weight(16384, SAMPLE_K), 4854);
    assert_eq!(distance_weight(32768, SAMPLE_K), 2520);
    // the weight is strictly positive even at the farthest distance
    assert!(distance_weight(32768, SAMPLE_K) > 0);
}
