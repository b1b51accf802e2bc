use world_generators::{World, Oscillator, ONE, BASE_RATE, MIN_RATE, QUARTER_TAU};

#[test]
fn construction_cycles_the_four_amplitude_levels() {
    let w = World::new(0, 4);
    assert_eq!(w.oscs.len(), 4);
    // amplitude levels 1..4 scaled into (0, 1]: 1/16, 2/16, 3/16, 4/16
    assert_eq!(w.oscs[0].amp, ONE / 16);
    assert_eq!(w.oscs[1].amp, 2 * (ONE / 16));
    assert_eq!(w.oscs[2].amp, 3 * (ONE / 16));
    assert_eq!(w.oscs[3].amp, 4 * (ONE / 16));
    for o in &w.oscs {
        assert_eq!(o.rate, BASE_RATE);
    }
    // evenly spaced positions: i / count of a turn
    assert_eq!(w.oscs[0].pos, 0);
    assert_eq!(w.oscs[1].pos, ONE / 4);
    assert_eq!(w.oscs[2].pos, ONE / 2);
    assert_eq!(w.oscs[3].pos, 3 * (ONE / 4));
    // seed-and-index-derived starting phases
    assert_eq!(w.oscs[0].t, 0);
    assert_eq!(w.oscs[1].t, 100 * ONE);
    assert_eq!(w.oscs[2].t, 200 * ONE);
    assert_eq!(w.oscs[3].t, 300 * ONE);
}

#[test]
fn construction_offsets_levels_by_seed() {
    let w = World::new(1, 4);
    assert_eq!(w.oscs[0].amp, 2 * (ONE / 16));
    assert_eq!(w.oscs[3].amp, ONE / 16);
    assert_eq!(w.oscs[0].t, 1235 * ONE);
}

#[test]
fn initial_sample_matches_the_weighted_sum() {
    let w = World::new(0, 4);
    // the literal weighted sum of amp * sin(phase) over all four
    // oscillators, before any tick
    assert_eq!(w.sample(0), -1947);
    assert_eq!(w.sample(ONE / 4), -5696);
}

#[test]
fn sample_stays_within_the_envelope() {
    let w = World::new(7, 16);
    let mut pos: i64 = 0;
    while pos < ONE {
        let s = w.sample(pos);
        assert!(s.abs() <= 16 * ONE);
        pos += 4096;
    }
}

#[test]
fn ticks_advance_each_phase_by_its_rate() {
    let mut w = World::new(0, 4);
    w.tick();
    w.tick();
    w.tick();
    assert_eq!(w.oscs[0].t, 3 * BASE_RATE);
    assert_eq!(w.oscs[1].t, 100 * ONE + 3 * BASE_RATE);
    assert_eq!(w.oscs[2].t, 200 * ONE + 3 * BASE_RATE);
    assert_eq!(w.oscs[3].t, 300 * ONE + 3 * BASE_RATE);
    // rates and amplitudes are untouched by time
    assert_eq!(w.oscs[0].rate, BASE_RATE);
    assert_eq!(w.oscs[0].amp, ONE / 16);
    // the field animates only through the accumulated phases
    assert_eq!(w.sample(0), -1174);
}

#[test]
fn sampling_does_not_mutate() {
    let w = World::new(3, 5);
    let before: Vec<Oscillator> = w.oscs.clone();
    let _ = w.sample(0);
    let _ = w.sample(ONE - 1);
    assert_eq!(w.oscs, before);
}

#[test]
fn add_weight_zero_is_a_no_op() {
    let mut w = World::new(0, 4);
    let before: Vec<Oscillator> = w.oscs.clone();
    w.add_weight(0, 0);
    w.add_weight(0, ONE / 3);
    assert_eq!(w.oscs, before);
    // still a no-op after the state has evolved
    w.tick();
    w.slam(1000, 0);
    let evolved: Vec<Oscillator> = w.oscs.clone();
    w.add_weight(0, ONE / 2);
    assert_eq!(w.oscs, evolved);
}

#[test]
fn add_weight_ripples_across_every_oscillator() {
    let mut w = World::new(0, 4);
    w.add_weight(4096, 0);
    // the targeted oscillator takes the full delta; the clamp holds the
    // rate at its ceiling
    assert_eq!(w.oscs[0].amp, 8192);
    assert_eq!(w.oscs[0].rate, BASE_RATE);
    // distant oscillators still feel a small sinc-weighted ripple
    assert_eq!(w.oscs[1].amp, 8169);
    assert_eq!(w.oscs[2].amp, 12265);
    assert_eq!(w.oscs[3].amp, 16361);
    assert_eq!(w.oscs[1].rate, 3409);
    assert_eq!(w.oscs[2].rate, 3409);
    assert_eq!(w.oscs[3].rate, 3409);
}

#[test]
fn clamps_hold_under_any_sequence_of_perturbations() {
    let mut w = World::new(2, 6);
    let positions = [0i64, 9000, 30000, 50000, 65535];
    for (k, &p) in positions.iter().enumerate() {
        w.add_weight(if k % 2 == 0 { 50000 } else { -50000 }, p);
        w.slam(if k % 2 == 0 { -70000 } else { 70000 }, p);
        w.tick();
        for o in &w.oscs {
            assert!(0 <= o.amp && o.amp <= ONE);
            assert!(MIN_RATE <= o.rate && o.rate <= BASE_RATE);
        }
    }
}

#[test]
fn slam_leaves_distant_oscillators_untouched() {
    let mut w = World::new(0, 4);
    let before: Vec<Oscillator> = w.oscs.clone();
    // a slam at position 0 cannot reach oscillators a quarter turn or
    // more away
    w.slam(100000, 0);
    assert_eq!(w.oscs[1], before[1]);
    assert_eq!(w.oscs[2], before[2]);
    assert_eq!(w.oscs[3], before[3]);
    // the oscillator at the impact position was hit
    assert_ne!(w.oscs[0], before[0]);
}

#[test]
fn weak_slam_nudges_toward_the_trough() {
    let mut w = World::new(0, 1);
    // osc 0 starts at phase 0, amplitude 4096, resting rate
    w.slam(1000, 0);
    assert_eq!(w.oscs[0].amp, 5096);
    assert_eq!(w.oscs[0].rate, 2432);
    // phase moved backwards toward the preceding trough, capped by force
    assert_eq!(w.oscs[0].t, -1000);
}

#[test]
fn strong_slam_lands_exactly_on_the_trough() {
    let mut w = World::new(0, 1);
    // a force covering three quarter-cycles reaches any trough in one step
    w.slam(3 * QUARTER_TAU, 0);
    assert_eq!(w.oscs[0].amp, ONE);
    assert_eq!(w.oscs[0].rate, MIN_RATE);
    // local phase 0 retreats to the preceding trough at -pi/2
    assert_eq!(w.oscs[0].t, -QUARTER_TAU);
    // the oscillator now sits at the bottom of its waveform
    assert_eq!(w.oscs[0].sample(), -ONE);
}

#[test]
fn inspect_reports_an_oscillator() {
    let w = World::new(0, 4);
    let (pos, rate, amp) = w.inspect(2);
    assert_eq!(pos, ONE / 2);
    assert_eq!(rate, BASE_RATE);
    assert_eq!(amp, 3 * (ONE / 16));
}
