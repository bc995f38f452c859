//! Constants of the sea current, and the loader of its arrows.

use vstd::prelude::*;
use crate::curves::TAU;
use crate::fixed::{spec_over, over};
use crate::settings::LoadError;
use crate::settings::text::{numbers, parsed};
use crate::stream::{Arrow, Stream};
use crate::vector::Vec2;

verus! {

/// Lower end of the range of current strengths.
pub const STRENGTH_MIN: i64 = 10_000_000;

/// Upper end of the range of current strengths.
pub const STRENGTH_MAX: i64 = 50_000_000;

/// The spacing of the grid of drifting arrows.
pub const SAMPLE_SIZE: i64 = 25_000_000;

/// The distance a drifting arrow travels before it starts over.
pub const MOVING_ARROW_TIME_SPAN: i64 = 40_000_000;

/// The factor by which the current's clock runs faster than the world's.
pub const SPEEDUP: i64 = 1_000_000;

/// How fast every arrow's phase turns: a seventh of a turn per second.
pub const PHASE_VEL: i64 = 142_857;

/// The arrow that the `k`-th tuple of five numbers describes: position,
/// direction.
pub open spec fn arrow_of(values: Seq<i64>, k: int) -> Arrow {
    Arrow {
        pos: Vec2 { x: values[5 * k], y: values[5 * k + 1] },
        dir: Vec2 { x: values[5 * k + 2], y: values[5 * k + 3] },
    }
}

/// The phase that the `k`-th tuple of five numbers gives its arrow: the
/// tuple holds it in radians, the stream wants it in turns.
pub open spec fn phase_of(values: Seq<i64>, k: int) -> i64 {
    spec_over(values[5 * k + 4], TAU)
}

/// The arrows that the numbers describe, five numbers to an arrow.
pub open spec fn arrows_of(values: Seq<i64>) -> Seq<Arrow> {
    Seq::new((values.len() / 5) as nat, |k: int| arrow_of(values, k))
}

/// The phases of the arrows that the numbers describe.
pub open spec fn phases_of(values: Seq<i64>) -> Seq<i64> {
    Seq::new((values.len() / 5) as nat, |k: int| phase_of(values, k))
}

/// Adds to the stream the arrows that the numbers describe, five numbers to
/// an arrow: `x`, `y`, `dx`, `dy`, and the phase in radians. Numbers that do
/// not come in whole tuples are refused, and the stream stays as it was.
pub fn load_values(stream: &mut Stream, values: &Vec<i64>) -> (r: Result<(), LoadError>)
    requires
        old(stream).wf(),
    ensures
        final(stream).wf(),
        final(stream).rect == old(stream).rect,
        final(stream).strength == old(stream).strength,
        values@.len() % 5 != 0 ==> r == Err::<(), LoadError>(LoadError::Incomplete) && final(stream).arrows@
            == old(stream).arrows@ && final(stream).arrow_phases@ == old(stream).arrow_phases@,
        values@.len() % 5 == 0 ==> r.is_ok() && final(stream).arrows@ == old(stream).arrows@ + arrows_of(
            values@,
        ) && final(stream).arrow_phases@ == old(stream).arrow_phases@ + phases_of(values@),
{
    let n: usize = values.len();
    if n % 5 != 0 {
        return Err(LoadError::Incomplete);
    }
    let count: usize = n / 5;
    let mut k: usize = 0;
    while k < count
        invariant
            k <= count,
            count * 5 == n,
            n == values@.len(),
            stream.wf(),
            stream.rect == old(stream).rect,
            stream.strength == old(stream).strength,
            stream.arrows@ =~= old(stream).arrows@ + Seq::new(k as nat, |j: int| arrow_of(values@, j)),
            stream.arrow_phases@ =~= old(stream).arrow_phases@ + Seq::new(
                k as nat,
                |j: int| phase_of(values@, j),
            ),
        decreases count - k,
    {
        let at: usize = 5 * k;
        let arrow: Arrow = Arrow {
            pos: Vec2 { x: values[at], y: values[at + 1] },
            dir: Vec2 { x: values[at + 2], y: values[at + 3] },
        };
        let _index: usize = stream.add_arrow(arrow, over(values[at + 4], TAU));
        k = k + 1;
    }
    Ok(())
}

/// Adds to the stream the arrows that a level text describes. A text that
/// does not consist of numbers, or of numbers that do not come in whole
/// tuples, is refused, and the stream stays as it was.
pub fn load(stream: &mut Stream, text: &[u8]) -> (r: Result<(), LoadError>)
    requires
        old(stream).wf(),
    ensures
        final(stream).wf(),
        final(stream).rect == old(stream).rect,
        final(stream).strength == old(stream).strength,
        match parsed(text@) {
            None => r == Err::<(), LoadError>(LoadError::Malformed),
            Some(values) => if values.len() % 5 != 0 {
                r == Err::<(), LoadError>(LoadError::Incomplete)
            } else {
                r.is_ok() && final(stream).arrows@ == old(stream).arrows@ + arrows_of(values)
                    && final(stream).arrow_phases@ == old(stream).arrow_phases@ + phases_of(values)
            },
        },
        r.is_err() ==> final(stream).arrows@ == old(stream).arrows@ && final(stream).arrow_phases@ == old(
            stream,
        ).arrow_phases@,
{
    match numbers(text) {
        Err(e) => Err(e),
        Ok(values) => load_values(stream, &values),
    }
}

/// Whether a level text describes arrows: it consists of numbers, and they
/// come in whole tuples of five.
pub open spec fn is_whole(text: Seq<u8>) -> bool {
    parsed(text) matches Some(values) && values.len() % 5 == 0
}

/// Adds to the stream the arrows of a level text that is known to describe
/// arrows. There is nothing to refuse, so there is no error to return: a
/// caller who cannot vouch for the text uses `load`.
pub fn load_whole(stream: &mut Stream, text: &[u8])
    requires
        old(stream).wf(),
        is_whole(text@),
    ensures
        final(stream).wf(),
        final(stream).rect == old(stream).rect,
        final(stream).strength == old(stream).strength,
        final(stream).arrows@ == old(stream).arrows@ + arrows_of(parsed(text@).unwrap()),
        final(stream).arrow_phases@ == old(stream).arrow_phases@ + phases_of(parsed(text@).unwrap()),
{
    match numbers(text) {
        Ok(values) => {
            let _done: Result<(), LoadError> = load_values(stream, &values);
        },
        Err(_) => {},
    }
}

} // verus!
