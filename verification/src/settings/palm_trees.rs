//! The loader of the palm trees.

use vstd::prelude::*;
use crate::palm_trees::PalmTrees;
use crate::settings::LoadError;
use crate::settings::text::{numbers, parsed};
use crate::vector::Vec2;

verus! {

/// The place that the `k`-th pair of numbers describes.
pub open spec fn palm_of(values: Seq<i64>, k: int) -> Vec2 {
    Vec2 { x: values[2 * k], y: values[2 * k + 1] }
}

/// The places that the numbers describe, two numbers to a place.
pub open spec fn palms_of(values: Seq<i64>) -> Seq<Vec2> {
    Seq::new((values.len() / 2) as nat, |k: int| palm_of(values, k))
}

/// Adds the palm trees that the numbers describe, two numbers to a tree:
/// `x`, `y`. Numbers that do not come in whole pairs are refused, and the
/// palm trees stay as they were.
pub fn load_values(palm_trees: &mut PalmTrees, values: &Vec<i64>) -> (r: Result<(), LoadError>)
    ensures
        values@.len() % 2 != 0 ==> r == Err::<(), LoadError>(LoadError::Incomplete)
            && final(palm_trees).palms@ == old(palm_trees).palms@,
        values@.len() % 2 == 0 ==> r.is_ok() && final(palm_trees).palms@ == old(palm_trees).palms@
            + palms_of(values@),
{
    let n: usize = values.len();
    if n % 2 != 0 {
        return Err(LoadError::Incomplete);
    }
    let count: usize = n / 2;
    let mut k: usize = 0;
    while k < count
        invariant
            k <= count,
            count * 2 == n,
            n == values@.len(),
            palm_trees.palms@ =~= old(palm_trees).palms@ + Seq::new(
                k as nat,
                |j: int| palm_of(values@, j),
            ),
        decreases count - k,
    {
        let at: usize = 2 * k;
        palm_trees.palms.push(Vec2 { x: values[at], y: values[at + 1] });
        k = k + 1;
    }
    Ok(())
}

/// Adds the palm trees that a level text describes. A text that does not
/// consist of numbers, or of numbers that do not come in whole pairs, is
/// refused, and the palm trees stay as they were.
pub fn load(palm_trees: &mut PalmTrees, text: &[u8]) -> (r: Result<(), LoadError>)
    ensures
        match parsed(text@) {
            None => r == Err::<(), LoadError>(LoadError::Malformed),
            Some(values) => if values.len() % 2 != 0 {
                r == Err::<(), LoadError>(LoadError::Incomplete)
            } else {
                r.is_ok() && final(palm_trees).palms@ == old(palm_trees).palms@ + palms_of(values)
            },
        },
        r.is_err() ==> final(palm_trees).palms@ == old(palm_trees).palms@,
{
    match numbers(text) {
        Err(e) => Err(e),
        Ok(values) => load_values(palm_trees, &values),
    }
}

/// Whether a level text describes palm trees: it consists of numbers, and
/// they come in whole pairs.
pub open spec fn is_whole(text: Seq<u8>) -> bool {
    parsed(text) matches Some(values) && values.len() % 2 == 0
}

/// Adds the palm trees of a level text that is known to describe palm trees.
/// There is nothing to refuse, so there is no error to return: a caller who
/// cannot vouch for the text uses `load`.
pub fn load_whole(palm_trees: &mut PalmTrees, text: &[u8])
    requires
        is_whole(text@),
    ensures
        final(palm_trees).palms@ == old(palm_trees).palms@ + palms_of(parsed(text@).unwrap()),
{
    match numbers(text) {
        Ok(values) => {
            let _done: Result<(), LoadError> = load_values(palm_trees, &values);
        },
        Err(_) => {},
    }
}

} // verus!
