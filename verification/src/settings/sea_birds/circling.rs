//! Constants of a bird that circles its target.

use vstd::prelude::*;

verus! {

/// Into how many waypoints the circle is split (a count, not fixed-point).
pub const N: i64 = 128;

/// How close to a waypoint a bird must come to head for the next one.
pub const ADVANCE_RADIUS: i64 = 5_000_000;

/// The speed of a circling bird.
pub const SPEED: i64 = 4_000_000;

/// The radius of the circle.
pub const RADIUS: i64 = 50_000_000;

} // verus!
