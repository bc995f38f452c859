//! Constants of the rocks, and their loader.

use vstd::prelude::*;
use crate::rocks::{Rock, Rocks};
use crate::settings::LoadError;
use crate::settings::text::{numbers, parsed};
use crate::vector::Vec2;

verus! {

/// The radius that all rocks share.
pub const RADIUS: i64 = 20_000_000;

/// The rock that the `k`-th pair of numbers describes.
pub open spec fn rock_of(values: Seq<i64>, k: int) -> Rock {
    Rock { pos: Vec2 { x: values[2 * k], y: values[2 * k + 1] } }
}

/// The rocks that the numbers describe, two numbers to a rock.
pub open spec fn rocks_of(values: Seq<i64>) -> Seq<Rock> {
    Seq::new((values.len() / 2) as nat, |k: int| rock_of(values, k))
}

/// Adds the rocks that the numbers describe, two numbers to a rock: `x`,
/// `y`. Numbers that do not come in whole pairs are refused, and the rocks
/// stay as they were.
pub fn load_values(rocks: &mut Rocks, values: &Vec<i64>) -> (r: Result<(), LoadError>)
    ensures
        values@.len() % 2 != 0 ==> r == Err::<(), LoadError>(LoadError::Incomplete) && final(rocks).rocks@
            == old(rocks).rocks@,
        values@.len() % 2 == 0 ==> r.is_ok() && final(rocks).rocks@ == old(rocks).rocks@ + rocks_of(
            values@,
        ),
{
    let n: usize = values.len();
    if n % 2 != 0 {
        return Err(LoadError::Incomplete);
    }
    let count: usize = n / 2;
    let mut k: usize = 0;
    while k < count
        invariant
            k <= count,
            count * 2 == n,
            n == values@.len(),
            rocks.rocks@ =~= old(rocks).rocks@ + Seq::new(k as nat, |j: int| rock_of(values@, j)),
        decreases count - k,
    {
        let at: usize = 2 * k;
        rocks.rocks.push(Rock { pos: Vec2 { x: values[at], y: values[at + 1] } });
        k = k + 1;
    }
    Ok(())
}

/// Adds the rocks that a level text describes. A text that does not consist
/// of numbers, or of numbers that do not come in whole pairs, is refused,
/// and the rocks stay as they were.
pub fn load(rocks: &mut Rocks, text: &[u8]) -> (r: Result<(), LoadError>)
    ensures
        match parsed(text@) {
            None => r == Err::<(), LoadError>(LoadError::Malformed),
            Some(values) => if values.len() % 2 != 0 {
                r == Err::<(), LoadError>(LoadError::Incomplete)
            } else {
                r.is_ok() && final(rocks).rocks@ == old(rocks).rocks@ + rocks_of(values)
            },
        },
        r.is_err() ==> final(rocks).rocks@ == old(rocks).rocks@,
{
    match numbers(text) {
        Err(e) => Err(e),
        Ok(values) => load_values(rocks, &values),
    }
}

/// Whether a level text describes rocks: it consists of numbers, and they
/// come in whole pairs.
pub open spec fn is_whole(text: Seq<u8>) -> bool {
    parsed(text) matches Some(values) && values.len() % 2 == 0
}

/// Adds the rocks of a level text that is known to describe rocks. There is
/// nothing to refuse, so there is no error to return: a caller who cannot
/// vouch for the text uses `load`.
pub fn load_whole(rocks: &mut Rocks, text: &[u8])
    requires
        is_whole(text@),
    ensures
        final(rocks).rocks@ == old(rocks).rocks@ + rocks_of(parsed(text@).unwrap()),
{
    match numbers(text) {
        Ok(values) => {
            let _done: Result<(), LoadError> = load_values(rocks, &values);
        },
        Err(_) => {},
    }
}

} // verus!
