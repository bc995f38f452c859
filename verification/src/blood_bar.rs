//! The health bar: one number that only ever falls, and never below zero.

use vstd::prelude::*;
use crate::fixed::{spec_max, spec_minus, spec_times, max, minus, times};
use crate::settings::blood_bar::DEC_VAL;

verus! {

/// How much blood is left; a full bar holds `START_VAL`.
#[derive(Clone, Copy, PartialEq, Eq, Debug, Structural)]
pub struct BloodBar(pub i64);

/// What is left of `val` after `d` has been taken away: the difference, but
/// no less than zero.
pub open spec fn drained(val: i64, d: i64) -> i64
    recommends
        d >= 0,
{
    spec_max(spec_minus(val, d), 0)
}

/// What is left of `val` after each of `amounts` has been taken away in turn.
pub open spec fn drained_by_all(val: i64, amounts: Seq<i64>) -> i64
    decreases amounts.len(),
{
    if amounts.len() == 0 {
        val
    } else {
        drained(drained_by_all(val, amounts.drop_last()), amounts.last())
    }
}

/// Takes `d` away from the bar, which stops at zero. What is taken away is
/// never negative, so a bar that holds blood never rises.
pub fn decrease(blood_bar: &mut BloodBar, d: i64)
    requires
        d >= 0,
    ensures
        final(blood_bar).0 == drained(old(blood_bar).0, d),
        final(blood_bar).0 >= 0,
        old(blood_bar).0 >= 0 ==> final(blood_bar).0 <= old(blood_bar).0,
{
    blood_bar.0 = max(minus(blood_bar.0, d), 0);
}

/// Lets `dt` seconds pass: the bar drains at its steady rate.
pub fn update_blood_bar(blood_bar: &mut BloodBar, dt: i64)
    requires
        dt >= 0,
    ensures
        final(blood_bar).0 == drained(old(blood_bar).0, spec_times(dt, DEC_VAL)),
        final(blood_bar).0 >= 0,
        old(blood_bar).0 >= 0 ==> final(blood_bar).0 <= old(blood_bar).0,
{
    decrease(blood_bar, times(dt, DEC_VAL));
}

/// Whatever is taken, what is left is not negative.
pub proof fn lemma_drained_never_negative(val: i64, d: i64)
    ensures
        drained(val, d) >= 0,
{
}

/// Taking away at least as much as there is leaves exactly zero.
pub proof fn lemma_drained_clamps_to_zero(val: i64, d: i64)
    requires
        d >= val,
    ensures
        drained(val, d) == 0,
{
}

/// Taking away an amount that is not negative never raises the bar.
pub proof fn lemma_drained_never_rises(val: i64, d: i64)
    requires
        val >= 0,
        d >= 0,
    ensures
        drained(val, d) <= val,
{
}

/// However many amounts are taken away, a bar that was not negative stays
/// so.
pub proof fn lemma_repeated_drain_never_negative(val: i64, amounts: Seq<i64>)
    requires
        val >= 0,
    ensures
        drained_by_all(val, amounts) >= 0,
    decreases amounts.len(),
{
    if amounts.len() > 0 {
        lemma_repeated_drain_never_negative(val, amounts.drop_last());
    }
}

/// As long as no amount is negative, every further drain leaves the bar at
/// or below where it was.
pub proof fn lemma_repeated_drain_never_rises(val: i64, amounts: Seq<i64>)
    requires
        val >= 0,
        forall|i: int| 0 <= i < amounts.len() ==> amounts[i] >= 0,
    ensures
        0 <= drained_by_all(val, amounts) <= val,
    decreases amounts.len(),
{
    if amounts.len() > 0 {
        lemma_repeated_drain_never_rises(val, amounts.drop_last());
    }
}

} // verus!
