//! Constants of the sea birds, and their loader.

use vstd::prelude::*;
use crate::behavior::fresh;
use crate::fixed::UNIT;
use crate::sea_birds::{BirdView, SeaBird, SeaBirds, views};
use crate::settings::LoadError;
use crate::settings::text::{numbers, parsed};
use crate::vector::Vec2;

pub mod circling;

verus! {

/// The factor by which a bird's clock runs faster than the world's.
pub const SPEEDUP: i64 = 5_000_000;

/// The bird that the `k`-th pair of numbers describes, for a behaviour of
/// `nodes` nodes: it sits on its target, faces along the `x` axis, and has
/// not run yet.
pub open spec fn bird_of(values: Seq<i64>, k: int, nodes: nat) -> BirdView {
    BirdView {
        pos: Vec2 { x: values[2 * k], y: values[2 * k + 1] },
        dir: Vec2 { x: UNIT, y: 0 },
        target: Vec2 { x: values[2 * k], y: values[2 * k + 1] },
        circling_angle: 0,
        entries: Seq::new(nodes, |i: int| fresh()),
    }
}

/// The birds that the numbers describe, two numbers to a bird, for a
/// behaviour of `nodes` nodes.
pub open spec fn birds_of(values: Seq<i64>, nodes: nat) -> Seq<BirdView> {
    Seq::new((values.len() / 2) as nat, |k: int| bird_of(values, k, nodes))
}

/// Adds the birds that the numbers describe, two numbers to a bird: the `x`
/// and `y` of its target, where it also starts. Numbers that do not come in
/// whole pairs are refused, and the birds stay as they were.
pub fn load_values(sea_birds: &mut SeaBirds, values: &Vec<i64>) -> (r: Result<(), LoadError>)
    requires
        old(sea_birds).wf(),
    ensures
        final(sea_birds).wf(),
        final(sea_birds).behavior == old(sea_birds).behavior,
        values@.len() % 2 != 0 ==> r == Err::<(), LoadError>(LoadError::Incomplete) && views(
            final(sea_birds).birds@,
        ) == views(old(sea_birds).birds@),
        values@.len() % 2 == 0 ==> r.is_ok() && views(final(sea_birds).birds@) == views(
            old(sea_birds).birds@,
        ) + birds_of(values@, old(sea_birds).behavior.nodes@.len()),
{
    let n: usize = values.len();
    if n % 2 != 0 {
        return Err(LoadError::Incomplete);
    }
    let count: usize = n / 2;
    let mut k: usize = 0;
    while k < count
        invariant
            k <= count,
            count * 2 == n,
            n == values@.len(),
            sea_birds.wf(),
            sea_birds.behavior == old(sea_birds).behavior,
            views(sea_birds.birds@) =~= views(old(sea_birds).birds@) + Seq::new(
                k as nat,
                |j: int| bird_of(values@, j, old(sea_birds).behavior.nodes@.len()),
            ),
        decreases count - k,
    {
        let at: usize = 2 * k;
        let home: Vec2 = Vec2 { x: values[at], y: values[at + 1] };
        let bird: SeaBird = SeaBird::new(home, home, &sea_birds.behavior);
        assert(bird@.entries =~= Seq::new(old(sea_birds).behavior.nodes@.len(), |i: int| fresh()));
        assert(bird@ == bird_of(values@, k as int, old(sea_birds).behavior.nodes@.len()));
        let ghost before = sea_birds.birds@;
        let ghost added = bird@;
        sea_birds.birds.push(bird);
        assert(views(sea_birds.birds@) =~= views(before).push(added));
        k = k + 1;
    }
    Ok(())
}

/// Adds the birds that a level text describes. A text that does not consist
/// of numbers, or of numbers that do not come in whole pairs, is refused,
/// and the birds stay as they were.
pub fn load(sea_birds: &mut SeaBirds, text: &[u8]) -> (r: Result<(), LoadError>)
    requires
        old(sea_birds).wf(),
    ensures
        final(sea_birds).wf(),
        final(sea_birds).behavior == old(sea_birds).behavior,
        match parsed(text@) {
            None => r == Err::<(), LoadError>(LoadError::Malformed),
            Some(values) => if values.len() % 2 != 0 {
                r == Err::<(), LoadError>(LoadError::Incomplete)
            } else {
                r.is_ok() && views(final(sea_birds).birds@) == views(old(sea_birds).birds@) + birds_of(
                    values,
                    old(sea_birds).behavior.nodes@.len(),
                )
            },
        },
        r.is_err() ==> views(final(sea_birds).birds@) == views(old(sea_birds).birds@),
{
    match numbers(text) {
        Err(e) => Err(e),
        Ok(values) => load_values(sea_birds, &values),
    }
}

/// Whether a level text describes birds: it consists of numbers, and they
/// come in whole pairs.
pub open spec fn is_whole(text: Seq<u8>) -> bool {
    parsed(text) matches Some(values) && values.len() % 2 == 0
}

/// Adds the birds of a level text that is known to describe birds. There is
/// nothing to refuse, so there is no error to return: a caller who cannot
/// vouch for the text uses `load`.
pub fn load_whole(sea_birds: &mut SeaBirds, text: &[u8])
    requires
        old(sea_birds).wf(),
        is_whole(text@),
    ensures
        final(sea_birds).wf(),
        final(sea_birds).behavior == old(sea_birds).behavior,
        views(final(sea_birds).birds@) == views(old(sea_birds).birds@) + birds_of(
            parsed(text@).unwrap(),
            old(sea_birds).behavior.nodes@.len(),
        ),
{
    match numbers(text) {
        Ok(values) => {
            let _done: Result<(), LoadError> = load_values(sea_birds, &values);
        },
        Err(_) => {},
    }
}

} // verus!
