//! Constants of the swimmer.

use vstd::prelude::*;

verus! {

/// The factor by which the clock of the swimmer's animation runs faster than
/// the world's.
pub const SPEEDUP: i64 = 2_000_000;

/// Where the swimmer starts, `x`.
pub const START_X: i64 = 100_000_000;

/// Where the swimmer starts, `y`.
pub const START_Y: i64 = 100_000_000;

/// For how many seconds a bite shows.
pub const BITTEN_FADE_OUT_SECONDS: i64 = 2_000_000;

/// The number of animation frames (a count, not fixed-point).
pub const FRAME_COUNT: usize = 8;

/// Seconds between two animation frames.
pub const FRAME_INTERVAL: i64 = 200_000;

/// The acceleration that one pressed key gives.
pub const ACC: i64 = 50_000_000;

} // verus!
