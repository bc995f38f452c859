//! Constants of the health bar.

use vstd::prelude::*;

verus! {

/// The value a full bar holds.
pub const START_VAL: i64 = 1_000_000;

/// How much of the bar drains per second: 0.005.
pub const DEC_VAL: i64 = 5_000;

} // verus!
