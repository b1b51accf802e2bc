use world_generators::{Oscillator, ONE, BASE_RATE, MIN_RATE, QUARTER_TAU, TAU};

fn resting(t: i64) -> Oscillator {
    Oscillator { t, pos: 0, rate: BASE_RATE, amp: ONE / 16 }
}

#[test]
fn update_amp_clamps_both_ends() {
    let mut o = resting(0);
    o.update_amp(100);
    assert_eq!(o.amp, ONE / 16 + 100);
    o.update_amp(ONE);
    assert_eq!(o.amp, ONE);
    o.update_amp(-3 * ONE);
    assert_eq!(o.amp, 0);
}

#[test]
fn update_rate_clamps_to_its_band() {
    let mut o = resting(0);
    o.update_rate(50);
    // the ceiling is the resting rate itself: it can never be exceeded
    assert_eq!(o.rate, BASE_RATE);
    o.update_rate(-500);
    assert_eq!(o.rate, BASE_RATE - 500);
    o.update_rate(-BASE_RATE);
    assert_eq!(o.rate, MIN_RATE);
    o.update_rate(300);
    assert_eq!(o.rate, MIN_RATE + 300);
}

#[test]
fn tick_accumulates_phase_without_wrapping() {
    let mut o = resting(0);
    for _ in 0..240 {
        o.tick();
    }
    // two full cycles at the resting rate; the phase is not wrapped
    assert_eq!(o.t, 2 * TAU);
    assert_eq!(o.rate, BASE_RATE);
    assert_eq!(o.amp, ONE / 16);
}

#[test]
fn slam_from_late_phase_advances_to_the_next_trough() {
    // local phase past pi/2: the target is the trough at 3 pi/2 ahead
    let mut o = resting(5 * TAU + 2 * QUARTER_TAU);
    o.slam(TAU);
    assert_eq!(o.t, 5 * TAU + 3 * QUARTER_TAU);
    assert_eq!(o.sample(), -o.amp);
}

#[test]
fn slam_from_early_phase_retreats_to_the_previous_trough() {
    let mut o = resting(3 * TAU + QUARTER_TAU / 2);
    o.slam(TAU);
    assert_eq!(o.t, 3 * TAU - QUARTER_TAU);
}

#[test]
fn oscillator_sample_is_amplitude_times_sine() {
    let o = Oscillator { t: QUARTER_TAU, pos: 0, rate: BASE_RATE, amp: ONE / 2 };
    assert_eq!(o.sample(), ONE / 2);
    let p = Oscillator { t: 3 * QUARTER_TAU, pos: 0, rate: BASE_RATE, amp: ONE / 2 };
    assert_eq!(p.sample(), -(ONE / 2));
    let z = Oscillator { t: 0, pos: 0, rate: BASE_RATE, amp: ONE };
    assert_eq!(z.sample(), 0);
}
