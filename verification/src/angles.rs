//! The circular metric: positions on the world circle are fractions of a
//! turn in `[0, ONE)`, and the distance between two positions is the length
//! of the shorter arc between them.

use vstd::prelude::*;
use crate::fixed::{ONE, HALF_TURN, abs_fp};

verus! {

/// The signed shortest angular step from `x` to `y`, wrapped into
/// `[-HALF_TURN, HALF_TURN]`.
pub open spec fn angular_difference(x: int, y: int) -> int {
    let diff = y - x;
    if diff > HALF_TURN {
        diff - ONE
    } else if diff < -HALF_TURN {
        diff + ONE
    } else {
        diff
    }
}

/// The circular distance between two positions: the absolute value of the
/// shortest signed step, in `[0, HALF_TURN]`.
pub open spec fn circular_distance(x: int, y: int) -> int {
    abs_fp(angular_difference(x, y))
}

/// The smallest signed difference between two angles given as fractions of
/// a turn in `[0, ONE)`.
pub fn angle_diff(x: i64, y: i64) -> (r: i64)
    requires
        0 <= x < ONE,
        0 <= y < ONE,
    ensures
        r == angular_difference(x as int, y as int),
        -HALF_TURN <= r <= HALF_TURN,
{
    let diff = y - x;
    if diff > HALF_TURN {
        diff - ONE
    } else if diff < -HALF_TURN {
        diff + ONE
    } else {
        diff
    }
}

/// The circular distance between two angles given as fractions of a turn
/// in `[0, ONE)`.
pub fn min_dist(x: i64, y: i64) -> (r: i64)
    requires
        0 <= x < ONE,
        0 <= y < ONE,
    ensures
        r == circular_distance(x as int, y as int),
        0 <= r <= HALF_TURN,
{
    let d = angle_diff(x, y);
    if d < 0 {
        -d
    } else {
        d
    }
}

/// Law: the circular distance from any position to itself is zero.
pub proof fn lemma_distance_self(a: int)
    ensures
        circular_distance(a, a) == 0,
{
}

/// Law: the circular distance is symmetric in its two positions.
pub proof fn lemma_distance_symmetric(a: int, b: int)
    requires
        0 <= a < ONE,
        0 <= b < ONE,
    ensures
        circular_distance(a, b) == circular_distance(b, a),
{
}

} // verus!
