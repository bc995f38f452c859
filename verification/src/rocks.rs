//! Rocks: obstacles that do not move and that all have the same radius.

use vstd::prelude::*;
use crate::settings::rocks::RADIUS;
use crate::vector::Vec2;

verus! {

/// A rock, by its centre.
#[derive(Clone, Copy, PartialEq, Eq, Debug, Structural)]
pub struct Rock {
    pub pos: Vec2,
}

/// All rocks of the level.
pub struct Rocks {
    pub rocks: Vec<Rock>,
}

/// Whether `p` lies inside one of the rocks: nearer to its centre than the
/// radius.
pub open spec fn hits_any(rocks: Seq<Rock>, p: Vec2) -> bool {
    exists|i: int| 0 <= i < rocks.len() && (#[trigger] rocks[i]).pos.spec_minus(p).spec_shorter_than(RADIUS)
}

impl Rocks {
    /// A level without rocks.
    pub fn new() -> (r: Rocks)
        ensures
            r.rocks@.len() == 0,
    {
        Rocks { rocks: Vec::new() }
    }

    /// Whether `p` lies inside one of the rocks.
    pub fn hits(&self, p: Vec2) -> (hit: bool)
        ensures
            hit == hits_any(self.rocks@, p),
    {
        let n: usize = self.rocks.len();
        let mut i: usize = 0;
        while i < n
            invariant
                i <= n,
                n == self.rocks@.len(),
                forall|j: int| 0 <= j < i ==> !(#[trigger] self.rocks@[j]).pos.spec_minus(p).spec_shorter_than(RADIUS),
            decreases n - i,
        {
            if self.rocks[i].pos.minus(p).shorter_than(RADIUS) {
                return true;
            }
            i = i + 1;
        }
        false
    }
}

/// A rock whose centre is the point itself is hit.
pub proof fn lemma_rock_at_point_is_hit(rocks: Seq<Rock>, i: int, p: Vec2)
    requires
        0 <= i < rocks.len(),
        rocks[i].pos == p,
    ensures
        hits_any(rocks, p),
{
    assert(rocks[i].pos.spec_minus(p) == Vec2::spec_zero());
    let d = rocks[i].pos.spec_minus(p);
    assert(d.x * d.x + d.y * d.y == 0) by (nonlinear_arith)
        requires
            d.x == 0,
            d.y == 0,
    ;
    assert(RADIUS * RADIUS > 0) by (nonlinear_arith)
        requires
            RADIUS == 20_000_000,
    ;
    assert(rocks[i].pos.spec_minus(p).spec_shorter_than(RADIUS));
}

} // verus!
