use world_generators::{angle_diff, min_dist, ONE, HALF_TURN};

#[test]
fn distance_to_self_is_zero() {
    assert_eq!(min_dist(0, 0), 0);
    assert_eq!(min_dist(12345, 12345), 0);
    assert_eq!(min_dist(ONE - 1, ONE - 1), 0);
}

#[test]
fn distance_wraps_around_the_circle() {
    // positions 0.0 and 0.99998... are one step apart, not a full turn
    assert_eq!(min_dist(0, ONE - 1), 1);
    assert_eq!(min_dist(ONE - 1, 0), 1);
}

#[test]
fn distance_is_symmetric() {
    assert_eq!(min_dist(100, 40000), min_dist(40000, 100));
    assert_eq!(min_dist(0, HALF_TURN), min_dist(HALF_TURN, 0));
    assert_eq!(min_dist(65535, 1), min_dist(1, 65535));
}

#[test]
fn signed_difference_wraps() {
    assert_eq!(angle_diff(0, 16384), 16384);
    assert_eq!(angle_diff(16384, 0), -16384);
    // crossing the wrap point: 0.9 to 0.1 is a short forward step
    assert_eq!(angle_diff(58982, 6554), 13108);
    assert_eq!(angle_diff(0, HALF_TURN), HALF_TURN);
}

#[test]
fn distance_never_exceeds_half_a_turn() {
    assert_eq!(min_dist(0, HALF_TURN), HALF_TURN);
    assert_eq!(min_dist(0, HALF_TURN + 1), HALF_TURN - 1);
    assert_eq!(min_dist(1, 65535), 2);
}
