//! Palm trees: decoration that the simulation carries along untouched.

use vstd::prelude::*;
use crate::vector::Vec2;

verus! {

/// Where the palm trees stand.
pub struct PalmTrees {
    pub palms: Vec<Vec2>,
}

impl PalmTrees {
    /// A level without palm trees.
    pub fn new() -> (r: PalmTrees)
        ensures
            r.palms@.len() == 0,
    {
        PalmTrees { palms: Vec::new() }
    }
}

} // verus!
