//! Constants of the blood trail.

use vstd::prelude::*;

verus! {

/// Seconds between two drops.
pub const DROP_INTERVAL: i64 = 200_000;

/// Seconds a drop lives.
pub const SPAN: i64 = 50_000_000;

} // verus!
