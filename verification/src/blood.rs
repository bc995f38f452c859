//! The trail of blood behind the swimmer: a pool of drops that drift with
//! the current and die of age. A new drop takes the place of the first dead
//! one; the pool grows only when every drop is alive.

use vstd::prelude::*;
use crate::fixed::{spec_minus, spec_plus, minus, plus};
use crate::player::Player;
use crate::settings::blood::{DROP_INTERVAL, SPAN};
use crate::stream::{Stream, flow_at};
use crate::vector::Vec2;

verus! {

/// A drop of blood in the water.
#[derive(Clone, Copy, PartialEq, Eq, Debug, Structural)]
pub struct BloodDrop {
    pub pos: Vec2,
    /// The drop's age in seconds.
    pub time: i64,
    pub dead: bool,
}

/// The pool of drops, dead ones included.
pub struct Blood {
    pub blood_drops: Vec<BloodDrop>,
    pub time_since_last_drop: i64,
}

/// The index of the first dead drop at or after `from`, or the pool's length
/// if there is none.
pub open spec fn first_dead_from(drops: Seq<BloodDrop>, from: int) -> int
    decreases drops.len() - from,
{
    if from >= drops.len() {
        drops.len() as int
    } else if from >= 0 && drops[from].dead {
        from
    } else {
        first_dead_from(drops, from + 1)
    }
}

/// The pool after a drop has been put in: in place of the first dead drop, or
/// at the end if every drop is alive.
pub open spec fn inserted(drops: Seq<BloodDrop>, new_drop: BloodDrop) -> Seq<BloodDrop> {
    let slot = first_dead_from(drops, 0);
    if slot < drops.len() {
        drops.update(slot, new_drop)
    } else {
        drops.push(new_drop)
    }
}

/// A drop `dt` seconds later: carried by the flow at its place, older, and
/// dead once it has outlived its span.
pub open spec fn aged(stream: &Stream, drop: BloodDrop, dt: i64) -> BloodDrop {
    let time = spec_plus(drop.time, dt);
    BloodDrop {
        pos: drop.pos.spec_plus(flow_at(stream.arrows@, stream.arrow_phases@, drop.pos).spec_scaled(dt)),
        time,
        dead: drop.dead || time > SPAN,
    }
}

/// The first dead drop is where the search says: it is dead, and no drop
/// before it is.
pub proof fn lemma_first_dead(drops: Seq<BloodDrop>, from: int)
    requires
        0 <= from <= drops.len(),
    ensures
        from <= first_dead_from(drops, from) <= drops.len(),
        first_dead_from(drops, from) < drops.len() ==> drops[first_dead_from(drops, from)].dead,
        forall|j: int| from <= j < first_dead_from(drops, from) ==> !(#[trigger] drops[j]).dead,
    decreases drops.len() - from,
{
    if from < drops.len() && !drops[from].dead {
        lemma_first_dead(drops, from + 1);
    }
}

impl Blood {
    /// An empty pool.
    pub fn new() -> (b: Blood)
        ensures
            b.blood_drops@.len() == 0,
            b.time_since_last_drop == 0,
    {
        Blood { blood_drops: Vec::new(), time_since_last_drop: 0 }
    }

    /// Puts a drop into the pool: in place of the first dead drop, or at the
    /// end if every drop is alive.
    pub fn insert(&mut self, new_drop: BloodDrop)
        ensures
            final(self).blood_drops@ == inserted(old(self).blood_drops@, new_drop),
            final(self).time_since_last_drop == old(self).time_since_last_drop,
    {
        let n: usize = self.blood_drops.len();
        let mut i: usize = 0;
        while i < n
            invariant
                i <= n,
                n == self.blood_drops@.len(),
                self.blood_drops@ == old(self).blood_drops@,
                self.time_since_last_drop == old(self).time_since_last_drop,
                first_dead_from(self.blood_drops@, 0) == first_dead_from(self.blood_drops@, i as int),
            decreases n - i,
        {
            if self.blood_drops[i].dead {
                self.blood_drops.set(i, new_drop);
                return;
            }
            i = i + 1;
        }
        self.blood_drops.push(new_drop);
    }

    /// The drops that are alive, in the order of the pool.
    pub fn alive(&self) -> (drops: Vec<BloodDrop>)
        ensures
            drops@ == self.blood_drops@.filter(|d: BloodDrop| !d.dead),
    {
        let mut drops: Vec<BloodDrop> = Vec::new();
        let n: usize = self.blood_drops.len();
        let mut i: usize = 0;
        assert(self.blood_drops@.take(0) =~= Seq::empty());
        while i < n
            invariant
                i <= n,
                n == self.blood_drops@.len(),
                drops@ == self.blood_drops@.take(i as int).filter(|d: BloodDrop| !d.dead),
            decreases n - i,
        {
            proof {
                let next = self.blood_drops@.take(i as int + 1);
                assert(next.drop_last() =~= self.blood_drops@.take(i as int));
                assert(next.last() == self.blood_drops@[i as int]);
                reveal(Seq::filter);
            }
            if !self.blood_drops[i].dead {
                drops.push(self.blood_drops[i]);
            }
            i = i + 1;
        }
        assert(self.blood_drops@.take(n as int) =~= self.blood_drops@);
        drops
    }
}

/// The pool and its clock after `dt` seconds: once more than a drop interval
/// has gathered, a fresh drop falls at the swimmer's place; then every drop
/// ages.
pub open spec fn bled(
    drops: Seq<BloodDrop>,
    time_since_last_drop: i64,
    at: Vec2,
    stream: &Stream,
    dt: i64,
) -> (Seq<BloodDrop>, i64) {
    let gathered = spec_plus(time_since_last_drop, dt);
    let fresh = BloodDrop { pos: at, time: 0, dead: false };
    let (pool, clock) = if gathered > DROP_INTERVAL {
        (inserted(drops, fresh), spec_minus(gathered, DROP_INTERVAL))
    } else {
        (drops, gathered)
    };
    (pool.map_values(|d: BloodDrop| aged(stream, d, dt)), clock)
}

/// Lets `dt` seconds pass for the trail of blood.
pub fn update_blood(blood: &mut Blood, player: &Player, stream: &Stream, dt: i64)
    requires
        stream.wf(),
    ensures
        final(blood).blood_drops@ == bled(
            old(blood).blood_drops@,
            old(blood).time_since_last_drop,
            player.pos,
            stream,
            dt,
        ).0,
        final(blood).time_since_last_drop == bled(
            old(blood).blood_drops@,
            old(blood).time_since_last_drop,
            player.pos,
            stream,
            dt,
        ).1,
{
    let gathered: i64 = plus(blood.time_since_last_drop, dt);
    if gathered > DROP_INTERVAL {
        blood.time_since_last_drop = minus(gathered, DROP_INTERVAL);
        blood.insert(BloodDrop { pos: player.pos, time: 0, dead: false });
    } else {
        blood.time_since_last_drop = gathered;
    }
    let ghost pool = blood.blood_drops@;
    let n: usize = blood.blood_drops.len();
    let mut i: usize = 0;
    while i < n
        invariant
            i <= n,
            stream.wf(),
            n == pool.len(),
            n == blood.blood_drops@.len(),
            blood.time_since_last_drop == bled(
                old(blood).blood_drops@,
                old(blood).time_since_last_drop,
                player.pos,
                stream,
                dt,
            ).1,
            forall|j: int| 0 <= j < i ==> #[trigger] blood.blood_drops@[j] == aged(stream, pool[j], dt),
            forall|j: int| i <= j < n ==> #[trigger] blood.blood_drops@[j] == pool[j],
        decreases n - i,
    {
        let drop: BloodDrop = blood.blood_drops[i];
        let time: i64 = plus(drop.time, dt);
        let next: BloodDrop = BloodDrop {
            pos: drop.pos.plus(stream.at(drop.pos).scaled(dt)),
            time,
            dead: drop.dead || time > SPAN,
        };
        blood.blood_drops.set(i, next);
        i = i + 1;
    }
    assert(blood.blood_drops@ =~= pool.map_values(|d: BloodDrop| aged(stream, d, dt)));
}

/// A dead slot is used again: when every drop of a pool is alive, one of
/// them dies, and a new drop is put in, the new drop takes the dead one's
/// place, no other drop is touched, and the pool does not grow.
pub proof fn lemma_dead_slot_is_reused(drops: Seq<BloodDrop>, k: int, new_drop: BloodDrop)
    requires
        0 <= k < drops.len(),
        forall|i: int| 0 <= i < drops.len() ==> !(#[trigger] drops[i]).dead,
    ensures
        ({
            let killed = drops.update(k, BloodDrop { pos: drops[k].pos, time: drops[k].time, dead: true });
            &&& inserted(killed, new_drop).len() == drops.len()
            &&& inserted(killed, new_drop)[k] == new_drop
            &&& forall|i: int| 0 <= i < drops.len() && i != k ==> inserted(killed, new_drop)[i] == drops[i]
        }),
{
    let killed = drops.update(k, BloodDrop { pos: drops[k].pos, time: drops[k].time, dead: true });
    lemma_first_dead(killed, 0);
    let slot = first_dead_from(killed, 0);
    if slot < k {
        assert(!killed[slot].dead);
    } else if slot > k {
        assert(killed[k].dead);
    }
}

/// A pool whose drops are all alive grows by exactly the new drop.
pub proof fn lemma_full_pool_grows(drops: Seq<BloodDrop>, new_drop: BloodDrop)
    requires
        forall|i: int| 0 <= i < drops.len() ==> !(#[trigger] drops[i]).dead,
    ensures
        inserted(drops, new_drop) == drops.push(new_drop),
{
    lemma_first_dead(drops, 0);
    let slot = first_dead_from(drops, 0);
    if slot < drops.len() {
        assert(!drops[slot].dead);
    }
}

/// A pool with a dead drop never grows: the new drop goes where the first
/// dead one was.
pub proof fn lemma_insert_never_grows_over_dead(drops: Seq<BloodDrop>, k: int, new_drop: BloodDrop)
    requires
        0 <= k < drops.len(),
        drops[k].dead,
    ensures
        inserted(drops, new_drop).len() == drops.len(),
        first_dead_from(drops, 0) <= k,
        inserted(drops, new_drop)[first_dead_from(drops, 0)] == new_drop,
{
    lemma_first_dead(drops, 0);
    let slot = first_dead_from(drops, 0);
    if slot > k {
        assert(!drops[k].dead);
    }
}

} // verus!
