//! Behaviour trees: a tree of waits, actions and ways to combine them, and an
//! interpreter that carries an agent through the tree one tick at a time.
//!
//! A tree is a read-only template that many agents share. Its nodes lie in a
//! list, every node after its children, so the last node is the root. What an
//! agent remembers between ticks (which child of a sequence is active, how
//! long a wait has lasted) lies in a list of its own, one entry per node.
//!
//! A tick hands a node a span of time `dt`. The node answers with a status
//! and with how much of the span it used up; what is left over goes to the
//! node that runs next within the same tick. A node that is still running
//! has used up the whole span.

use vstd::prelude::*;

verus! {

/// How a node or an action answers a tick.
#[derive(Clone, Copy, PartialEq, Eq, Debug, Structural)]
pub enum Status {
    Success,
    Failure,
    Running,
}

/// A node of a behaviour tree. Children are named by their index in the
/// tree's list of nodes.
pub enum Node<A> {
    /// Succeeds once this many seconds have passed.
    Wait(i64),
    /// Runs forever.
    WaitForever,
    /// Does what the agent's world makes of the action.
    Action(A),
    /// Runs the children one after the other and succeeds after the last;
    /// fails as soon as one fails.
    Sequence(Vec<usize>),
    /// Runs the children of the second part one after the other, over and
    /// over, until the first part succeeds or something fails.
    While(usize, Vec<usize>),
    /// Runs all children side by side and succeeds as soon as one succeeds;
    /// fails once all have failed.
    WhenAny(Vec<usize>),
}

/// A behaviour tree: the template that agents share.
pub struct Behavior<A> {
    pub nodes: Vec<Node<A>>,
}

/// What an agent remembers of one node between ticks.
#[derive(Clone, Copy, PartialEq, Eq, Debug, Structural)]
pub struct Entry {
    /// Which child of a sequence, or of the repeated part of a loop, is active.
    pub active: usize,
    /// How long a wait has lasted.
    pub elapsed: i64,
    /// Whether the node has failed under a `WhenAny` that is still running.
    pub retired: bool,
}

/// An agent's place in a behaviour tree: one entry per node of the tree.
pub struct State {
    pub entries: Vec<Entry>,
}

/// The entry of a node that has not run yet.
pub open spec fn fresh() -> Entry {
    Entry { active: 0, elapsed: 0, retired: false }
}

/// Whether all children of a node come before index `i`.
pub open spec fn children_below<A>(node: Node<A>, i: int) -> bool {
    match node {
        Node::Sequence(cs) => forall|k: int| 0 <= k < cs@.len() ==> #[trigger] cs@[k] < i,
        Node::WhenAny(cs) => forall|k: int| 0 <= k < cs@.len() ==> #[trigger] cs@[k] < i,
        Node::While(c, body) => c < i && forall|k: int| 0 <= k < body@.len() ==> #[trigger] body@[k] < i,
        _ => true,
    }
}

/// How many children a node has in its list.
pub open spec fn child_count<A>(node: Node<A>) -> int {
    match node {
        Node::Sequence(cs) => cs@.len() as int,
        Node::WhenAny(cs) => cs@.len() as int,
        Node::While(_, body) => body@.len() as int,
        _ => 0,
    }
}

/// The entries after the first `k` of the given children of node `parent`,
/// and all that lies below them, have been made fresh.
pub open spec fn reset_children<A>(
    nodes: Seq<Node<A>>,
    entries: Seq<Entry>,
    children: Seq<usize>,
    k: int,
    parent: int,
) -> Seq<Entry>
    decreases parent, k,
{
    if k <= 0 || k > children.len() {
        entries
    } else {
        let before = reset_children(nodes, entries, children, k - 1, parent);
        if children[k - 1] < parent {
            reset_node(nodes, before, children[k - 1] as int)
        } else {
            before
        }
    }
}

/// The entries after node `i` and all that lies below it have been made
/// fresh.
pub open spec fn reset_node<A>(nodes: Seq<Node<A>>, entries: Seq<Entry>, i: int) -> Seq<Entry>
    decreases i, child_count(nodes[i]) + 1,
{
    if 0 <= i < nodes.len() && i < entries.len() {
        let cleared = entries.update(i, fresh());
        match nodes[i] {
            Node::Sequence(cs) => reset_children(nodes, cleared, cs@, cs@.len() as int, i),
            Node::WhenAny(cs) => reset_children(nodes, cleared, cs@, cs@.len() as int, i),
            Node::While(c, body) => {
                let below = if c < i {
                    reset_node(nodes, cleared, c as int)
                } else {
                    cleared
                };
                reset_children(nodes, below, body@, body@.len() as int, i)
            },
            _ => cleared,
        }
    } else {
        entries
    }
}

/// The agent's side of a tree: the world that an action acts on.
pub trait Actor<A>: Sized {
    /// What an action makes of the world when it is given `dt` seconds: the
    /// world afterwards, the action's status, and how much of the time it
    /// says it used up.
    spec fn acted(self, action: A, dt: i64) -> (Self, Status, i64);

    /// Carries out an action that is given `dt` seconds.
    fn act(&mut self, action: &A, dt: i64) -> (r: (Status, i64))
        requires
            dt >= 0,
        ensures
            *final(self) == old(self).acted(*action, dt).0,
            r.0 == old(self).acted(*action, dt).1,
            r.1 == old(self).acted(*action, dt).2,
    ;
}

/// What a tick leaves behind: the agent's entries, the world, the status of
/// the node that ran, and how much of the time it used up.
pub struct Outcome<W> {
    pub entries: Seq<Entry>,
    pub world: W,
    pub status: Status,
    pub consumed: i64,
}

/// How much of `dt` counts as used up: all of it while running, else what
/// was claimed, kept within `0..=dt`.
pub open spec fn used(status: Status, claimed: int, dt: i64) -> i64 {
    if status == Status::Running || claimed > dt {
        dt
    } else if claimed < 0 {
        0
    } else {
        claimed as i64
    }
}

/// The child at which a node with the given entry takes up its children: the
/// active one, or the end of the list if the entry points beyond it.
pub open spec fn first_child(entry: Entry, children: Seq<usize>) -> int {
    if entry.active <= children.len() {
        entry.active as int
    } else {
        children.len() as int
    }
}

/// Runs the given children of node `i` one after the other, from child `k`
/// on, each with the time its predecessors left over. A child that is
/// running or has failed stays the active one; after the last child the
/// first is active again.
pub open spec fn run_children<A, W: Actor<A>>(
    nodes: Seq<Node<A>>,
    entries: Seq<Entry>,
    world: W,
    i: int,
    children: Seq<usize>,
    k: int,
    dt: i64,
) -> Outcome<W>
    decreases i, children.len() - k,
{
    if !(0 <= i < entries.len()) {
        Outcome { entries, world, status: Status::Failure, consumed: 0 }
    } else if k < 0 || k >= children.len() {
        Outcome {
            entries: entries.update(i, Entry { active: 0, ..entries[i] }),
            world,
            status: Status::Success,
            consumed: 0,
        }
    } else if children[k] >= i {
        Outcome { entries, world, status: Status::Failure, consumed: 0 }
    } else {
        let r = ticked(nodes, entries, world, children[k] as int, dt);
        match r.status {
            Status::Success => {
                let rest = run_children(
                    nodes,
                    r.entries,
                    r.world,
                    i,
                    children,
                    k + 1,
                    (dt - r.consumed) as i64,
                );
                Outcome {
                    entries: rest.entries,
                    world: rest.world,
                    status: rest.status,
                    consumed: (r.consumed + rest.consumed) as i64,
                }
            },
            _ => Outcome {
                entries: r.entries.update(i, Entry { active: k as usize, ..r.entries[i] }),
                world: r.world,
                status: r.status,
                consumed: r.consumed,
            },
        }
    }
}

/// Runs the given children of node `i` side by side, from child `k` on, each
/// with the whole of `dt`, skipping those that have failed before. The first
/// child to succeed makes the node succeed and everything below it fresh. A
/// child that fails is retired; once none is left running the node fails,
/// having used up as much as the longest failure of this tick (`longest`
/// among the children before `k`).
pub open spec fn run_any<A, W: Actor<A>>(
    nodes: Seq<Node<A>>,
    entries: Seq<Entry>,
    world: W,
    i: int,
    children: Seq<usize>,
    k: int,
    dt: i64,
    longest: i64,
    running: bool,
) -> Outcome<W>
    decreases i, children.len() - k,
{
    if k < 0 || k >= children.len() {
        if running {
            Outcome { entries, world, status: Status::Running, consumed: dt }
        } else {
            Outcome { entries, world, status: Status::Failure, consumed: longest }
        }
    } else if children[k] >= i || children[k] >= entries.len() {
        Outcome { entries, world, status: Status::Failure, consumed: 0 }
    } else if entries[children[k] as int].retired {
        run_any(nodes, entries, world, i, children, k + 1, dt, longest, running)
    } else {
        let c = children[k] as int;
        let r = ticked(nodes, entries, world, c, dt);
        match r.status {
            Status::Success => Outcome {
                entries: reset_node(nodes, r.entries, i),
                world: r.world,
                status: Status::Success,
                consumed: r.consumed,
            },
            Status::Running => run_any(nodes, r.entries, r.world, i, children, k + 1, dt, longest, true),
            Status::Failure => run_any(
                nodes,
                if c < r.entries.len() {
                    r.entries.update(c, Entry { retired: true, ..r.entries[c] })
                } else {
                    r.entries
                },
                r.world,
                i,
                children,
                k + 1,
                dt,
                if r.consumed > longest {
                    r.consumed
                } else {
                    longest
                },
                running,
            ),
        }
    }
}

/// What a tick of `dt` seconds at node `i` makes of an agent's entries and
/// world.
pub open spec fn ticked<A, W: Actor<A>>(
    nodes: Seq<Node<A>>,
    entries: Seq<Entry>,
    world: W,
    i: int,
    dt: i64,
) -> Outcome<W>
    recommends
        0 <= i < nodes.len(),
        dt >= 0,
    decreases i, child_count(nodes[i]) + 1,
{
    if !(0 <= i < nodes.len() && i < entries.len()) {
        Outcome { entries, world, status: Status::Failure, consumed: 0 }
    } else {
        match nodes[i] {
            Node::Wait(secs) => {
                let total = entries[i].elapsed + dt;
                if total >= secs {
                    Outcome {
                        entries: entries.update(i, Entry { elapsed: 0, ..entries[i] }),
                        world,
                        status: Status::Success,
                        consumed: used(Status::Success, secs - entries[i].elapsed, dt),
                    }
                } else {
                    Outcome {
                        entries: entries.update(i, Entry { elapsed: total as i64, ..entries[i] }),
                        world,
                        status: Status::Running,
                        consumed: dt,
                    }
                }
            },
            Node::WaitForever => Outcome { entries, world, status: Status::Running, consumed: dt },
            Node::Action(a) => {
                let r = world.acted(a, dt);
                Outcome { entries, world: r.0, status: r.1, consumed: used(r.1, r.2 as int, dt) }
            },
            Node::Sequence(cs) => run_children(
                nodes,
                entries,
                world,
                i,
                cs@,
                first_child(entries[i], cs@),
                dt,
            ),
            Node::While(c, body) => {
                if c >= i {
                    Outcome { entries, world, status: Status::Failure, consumed: 0 }
                } else {
                    let rc = ticked(nodes, entries, world, c as int, dt);
                    match rc.status {
                        Status::Success => Outcome {
                            entries: reset_node(nodes, rc.entries, i),
                            world: rc.world,
                            status: Status::Success,
                            consumed: rc.consumed,
                        },
                        Status::Failure => rc,
                        Status::Running => {
                            let rb = run_children(
                                nodes,
                                rc.entries,
                                rc.world,
                                i,
                                body@,
                                if i < rc.entries.len() {
                                    first_child(rc.entries[i], body@)
                                } else {
                                    0
                                },
                                dt,
                            );
                            match rb.status {
                                Status::Failure => rb,
                                _ => Outcome {
                                    entries: rb.entries,
                                    world: rb.world,
                                    status: Status::Running,
                                    consumed: dt,
                                },
                            }
                        },
                    }
                }
            },
            Node::WhenAny(cs) => run_any(nodes, entries, world, i, cs@, 0, dt, 0, false),
        }
    }
}

/// Making entries fresh neither adds nor drops an entry.
pub proof fn lemma_reset_keeps_length<A>(nodes: Seq<Node<A>>, entries: Seq<Entry>, i: int)
    ensures
        reset_node(nodes, entries, i).len() == entries.len(),
    decreases i, child_count(nodes[i]) + 1,
{
    if 0 <= i < nodes.len() && i < entries.len() {
        let cleared = entries.update(i, fresh());
        match nodes[i] {
            Node::Sequence(cs) => {
                lemma_reset_children_keeps_length(nodes, cleared, cs@, cs@.len() as int, i);
            },
            Node::WhenAny(cs) => {
                lemma_reset_children_keeps_length(nodes, cleared, cs@, cs@.len() as int, i);
            },
            Node::While(c, body) => {
                let below = if c < i {
                    reset_node(nodes, cleared, c as int)
                } else {
                    cleared
                };
                if c < i {
                    lemma_reset_keeps_length(nodes, cleared, c as int);
                }
                lemma_reset_children_keeps_length(nodes, below, body@, body@.len() as int, i);
            },
            _ => {},
        }
    }
}

/// Making the entries of some children fresh neither adds nor drops an entry.
pub proof fn lemma_reset_children_keeps_length<A>(
    nodes: Seq<Node<A>>,
    entries: Seq<Entry>,
    children: Seq<usize>,
    k: int,
    parent: int,
)
    ensures
        reset_children(nodes, entries, children, k, parent).len() == entries.len(),
    decreases parent, k,
{
    if !(k <= 0 || k > children.len()) {
        lemma_reset_children_keeps_length(nodes, entries, children, k - 1, parent);
        if children[k - 1] < parent {
            lemma_reset_keeps_length(
                nodes,
                reset_children(nodes, entries, children, k - 1, parent),
                children[k - 1] as int,
            );
        }
    }
}

/// Whether an outcome is one that a tick of `dt` seconds over `n` entries may
/// have: no more time used up than was given, all of it while running, and
/// as many entries as before.
pub open spec fn sound<W>(out: Outcome<W>, dt: i64, n: nat) -> bool {
    &&& 0 <= out.consumed <= dt
    &&& out.status == Status::Running ==> out.consumed == dt
    &&& out.entries.len() == n
}

/// A tick never uses up more time than it is given, uses up all of it while
/// the node is running, and keeps one entry per node, whatever the tree, the
/// entries and the world.
pub proof fn lemma_tick_is_sound<A, W: Actor<A>>(
    nodes: Seq<Node<A>>,
    entries: Seq<Entry>,
    world: W,
    i: int,
    dt: i64,
)
    requires
        dt >= 0,
    ensures
        sound(ticked(nodes, entries, world, i, dt), dt, entries.len()),
    decreases i, child_count(nodes[i]) + 1,
{
    if 0 <= i < nodes.len() && i < entries.len() {
        match nodes[i] {
            Node::Sequence(cs) => {
                lemma_children_are_sound(nodes, entries, world, i, cs@, first_child(entries[i], cs@), dt);
            },
            Node::While(c, body) => {
                if c < i {
                    lemma_tick_is_sound(nodes, entries, world, c as int, dt);
                    let rc = ticked(nodes, entries, world, c as int, dt);
                    lemma_reset_keeps_length(nodes, rc.entries, i);
                    lemma_children_are_sound(
                        nodes,
                        rc.entries,
                        rc.world,
                        i,
                        body@,
                        first_child(rc.entries[i], body@),
                        dt,
                    );
                }
            },
            Node::WhenAny(cs) => {
                lemma_any_is_sound(nodes, entries, world, i, cs@, 0, dt, 0, false);
            },
            _ => {},
        }
    }
}

/// Children that run one after the other never use up more time than they
/// are given together.
pub proof fn lemma_children_are_sound<A, W: Actor<A>>(
    nodes: Seq<Node<A>>,
    entries: Seq<Entry>,
    world: W,
    i: int,
    children: Seq<usize>,
    k: int,
    dt: i64,
)
    requires
        dt >= 0,
    ensures
        sound(run_children(nodes, entries, world, i, children, k, dt), dt, entries.len()),
    decreases i, children.len() - k,
{
    if 0 <= i < entries.len() && 0 <= k < children.len() && children[k] < i {
        lemma_tick_is_sound(nodes, entries, world, children[k] as int, dt);
        let r = ticked(nodes, entries, world, children[k] as int, dt);
        if r.status == Status::Success {
            lemma_children_are_sound(
                nodes,
                r.entries,
                r.world,
                i,
                children,
                k + 1,
                (dt - r.consumed) as i64,
            );
        }
    }
}

/// Children that run side by side never use up more time than each of them
/// is given.
pub proof fn lemma_any_is_sound<A, W: Actor<A>>(
    nodes: Seq<Node<A>>,
    entries: Seq<Entry>,
    world: W,
    i: int,
    children: Seq<usize>,
    k: int,
    dt: i64,
    longest: i64,
    running: bool,
)
    requires
        dt >= 0,
        0 <= longest <= dt,
    ensures
        sound(run_any(nodes, entries, world, i, children, k, dt, longest, running), dt, entries.len()),
    decreases i, children.len() - k,
{
    if 0 <= k < children.len() && children[k] < i && children[k] < entries.len() {
        let c = children[k] as int;
        if entries[c].retired {
            lemma_any_is_sound(nodes, entries, world, i, children, k + 1, dt, longest, running);
        } else {
            lemma_tick_is_sound(nodes, entries, world, c, dt);
            let r = ticked(nodes, entries, world, c, dt);
            match r.status {
                Status::Success => {
                    lemma_reset_keeps_length(nodes, r.entries, i);
                },
                Status::Running => {
                    lemma_any_is_sound(nodes, r.entries, r.world, i, children, k + 1, dt, longest, true);
                },
                Status::Failure => {
                    lemma_any_is_sound(
                        nodes,
                        r.entries.update(c, Entry { retired: true, ..r.entries[c] }),
                        r.world,
                        i,
                        children,
                        k + 1,
                        dt,
                        if r.consumed > longest {
                            r.consumed
                        } else {
                            longest
                        },
                        running,
                    );
                },
            }
        }
    }
}

/// Children that have all succeeded leave their node with the first child
/// active again.
pub proof fn lemma_children_start_over<A, W: Actor<A>>(
    nodes: Seq<Node<A>>,
    entries: Seq<Entry>,
    world: W,
    i: int,
    children: Seq<usize>,
    k: int,
    dt: i64,
)
    requires
        dt >= 0,
        0 <= i < entries.len(),
        run_children(nodes, entries, world, i, children, k, dt).status == Status::Success,
    ensures
        run_children(nodes, entries, world, i, children, k, dt).entries[i].active == 0,
    decreases children.len() - k,
{
    if 0 <= k < children.len() && children[k] < i {
        lemma_tick_is_sound(nodes, entries, world, children[k] as int, dt);
        let r = ticked(nodes, entries, world, children[k] as int, dt);
        if r.status == Status::Success {
            lemma_children_start_over(nodes, r.entries, r.world, i, children, k + 1, (dt - r.consumed) as i64);
        }
    }
}

/// A sequence that has succeeded starts over: its first child is the active
/// one when the next tick comes.
pub proof fn lemma_sequence_starts_over<A, W: Actor<A>>(
    nodes: Seq<Node<A>>,
    entries: Seq<Entry>,
    world: W,
    i: int,
    dt: i64,
)
    requires
        dt >= 0,
        0 <= i < nodes.len(),
        i < entries.len(),
        nodes[i] is Sequence,
        ticked(nodes, entries, world, i, dt).status == Status::Success,
    ensures
        ticked(nodes, entries, world, i, dt).entries[i].active == 0,
{
    match nodes[i] {
        Node::Sequence(cs) => {
            lemma_children_start_over(nodes, entries, world, i, cs@, first_child(entries[i], cs@), dt);
        },
        _ => {},
    }
}

/// Waiting forever never ends: the node is running after every tick, has
/// used up all of the time, and has changed nothing.
pub proof fn lemma_wait_forever_never_ends<A, W: Actor<A>>(
    nodes: Seq<Node<A>>,
    entries: Seq<Entry>,
    world: W,
    i: int,
    dt: i64,
)
    requires
        0 <= i < nodes.len(),
        i < entries.len(),
        nodes[i] == Node::<A>::WaitForever,
    ensures
        ticked(nodes, entries, world, i, dt) == (Outcome {
            entries,
            world,
            status: Status::Running,
            consumed: dt,
        }),
{
}

/// A wait succeeds in the tick in which the time gathered reaches its span:
/// it hands on what it did not need and starts from zero the next time.
/// Before that it is running and gathers the whole tick.
pub proof fn lemma_wait<A, W: Actor<A>>(
    nodes: Seq<Node<A>>,
    entries: Seq<Entry>,
    world: W,
    i: int,
    dt: i64,
    seconds: i64,
)
    requires
        0 <= i < nodes.len(),
        i < entries.len(),
        nodes[i] == Node::<A>::Wait(seconds),
        dt >= 0,
        0 <= entries[i].elapsed <= seconds,
    ensures
        entries[i].elapsed + dt >= seconds ==> ticked(nodes, entries, world, i, dt) == (Outcome {
            entries: entries.update(i, Entry { elapsed: 0, ..entries[i] }),
            world,
            status: Status::Success,
            consumed: (seconds - entries[i].elapsed) as i64,
        }),
        entries[i].elapsed + dt < seconds ==> ticked(nodes, entries, world, i, dt) == (Outcome {
            entries: entries.update(i, Entry { elapsed: (entries[i].elapsed + dt) as i64, ..entries[i] }),
            world,
            status: Status::Running,
            consumed: dt,
        }),
{
}

/// Whether every index of the list names a node before `bound`.
pub open spec fn all_below(children: Seq<usize>, bound: int) -> bool {
    forall|k: int| 0 <= k < children.len() ==> #[trigger] children[k] < bound
}

/// Whether every index of the list names a node before `bound`.
fn check_all_below(children: &Vec<usize>, bound: usize) -> (ok: bool)
    ensures
        ok == all_below(children@, bound as int),
{
    let n: usize = children.len();
    let mut k: usize = 0;
    while k < n
        invariant
            k <= n,
            n == children@.len(),
            forall|j: int| 0 <= j < k ==> #[trigger] children@[j] < bound,
        decreases n - k,
    {
        if children[k] >= bound {
            return false;
        }
        k = k + 1;
    }
    true
}

impl<A> Behavior<A> {
    /// Every node comes after its children.
    pub open spec fn wf(&self) -> bool {
        forall|i: int| 0 <= i < self.nodes@.len() ==> children_below(#[trigger] self.nodes@[i], i)
    }

    /// A tree without nodes.
    pub fn new() -> (b: Behavior<A>)
        ensures
            b.wf(),
            b.nodes@.len() == 0,
    {
        Behavior { nodes: Vec::new() }
    }

    /// Adds a node that waits for the given number of seconds and returns its
    /// index.
    pub fn wait(&mut self, seconds: i64) -> (id: usize)
        ensures
            id == old(self).nodes@.len(),
            final(self).nodes@ == old(self).nodes@.push(Node::Wait(seconds)),
            old(self).wf() ==> final(self).wf(),
    {
        let id: usize = self.nodes.len();
        self.nodes.push(Node::Wait(seconds));
        id
    }

    /// Adds a node that runs forever and returns its index.
    pub fn wait_forever(&mut self) -> (id: usize)
        ensures
            id == old(self).nodes@.len(),
            final(self).nodes@ == old(self).nodes@.push(Node::WaitForever),
            old(self).wf() ==> final(self).wf(),
    {
        let id: usize = self.nodes.len();
        self.nodes.push(Node::WaitForever);
        id
    }

    /// Adds a node that carries out an action and returns its index.
    pub fn action(&mut self, action: A) -> (id: usize)
        ensures
            id == old(self).nodes@.len(),
            final(self).nodes@ == old(self).nodes@.push(Node::Action(action)),
            old(self).wf() ==> final(self).wf(),
    {
        let id: usize = self.nodes.len();
        self.nodes.push(Node::Action(action));
        id
    }

    /// Adds a sequence of nodes that are already in the tree and returns its
    /// index; adds nothing if one of the children is not in the tree.
    pub fn sequence(&mut self, children: Vec<usize>) -> (id: Option<usize>)
        ensures
            all_below(children@, old(self).nodes@.len() as int) ==> id == Some(
                old(self).nodes@.len() as usize,
            ) && final(self).nodes@ == old(self).nodes@.push(Node::Sequence(children)),
            !all_below(children@, old(self).nodes@.len() as int) ==> id.is_none() && final(self).nodes@
                == old(self).nodes@,
            old(self).wf() ==> final(self).wf(),
    {
        let id: usize = self.nodes.len();
        if !check_all_below(&children, id) {
            return None;
        }
        self.nodes.push(Node::Sequence(children));
        Some(id)
    }

    /// Adds a loop over nodes that are already in the tree, which runs until
    /// `condition` succeeds, and returns its index; adds nothing if one of
    /// the children is not in the tree.
    pub fn while_loop(&mut self, condition: usize, body: Vec<usize>) -> (id: Option<usize>)
        ensures
            condition < old(self).nodes@.len() && all_below(body@, old(self).nodes@.len() as int) ==> id
                == Some(old(self).nodes@.len() as usize) && final(self).nodes@ == old(self).nodes@.push(
                Node::While(condition, body),
            ),
            !(condition < old(self).nodes@.len() && all_below(body@, old(self).nodes@.len() as int))
                ==> id.is_none() && final(self).nodes@ == old(self).nodes@,
            old(self).wf() ==> final(self).wf(),
    {
        let id: usize = self.nodes.len();
        if condition >= id || !check_all_below(&body, id) {
            return None;
        }
        self.nodes.push(Node::While(condition, body));
        Some(id)
    }

    /// Adds a node that runs nodes already in the tree side by side until one
    /// succeeds, and returns its index; adds nothing if one of the children
    /// is not in the tree.
    pub fn when_any(&mut self, children: Vec<usize>) -> (id: Option<usize>)
        ensures
            all_below(children@, old(self).nodes@.len() as int) ==> id == Some(
                old(self).nodes@.len() as usize,
            ) && final(self).nodes@ == old(self).nodes@.push(Node::WhenAny(children)),
            !all_below(children@, old(self).nodes@.len() as int) ==> id.is_none() && final(self).nodes@
                == old(self).nodes@,
            old(self).wf() ==> final(self).wf(),
    {
        let id: usize = self.nodes.len();
        if !check_all_below(&children, id) {
            return None;
        }
        self.nodes.push(Node::WhenAny(children));
        Some(id)
    }
}

/// Makes fresh the entries of the given children of node `parent` and of all
/// that lies below them.
fn reset_children_exec<A>(tree: &Behavior<A>, state: &mut State, children: &Vec<usize>, parent: usize)
    requires
        tree.wf(),
        parent < tree.nodes@.len(),
        old(state).entries@.len() == tree.nodes@.len(),
        all_below(children@, parent as int),
    ensures
        final(state).entries@ == reset_children(
            tree.nodes@,
            old(state).entries@,
            children@,
            children@.len() as int,
            parent as int,
        ),
        final(state).entries@.len() == old(state).entries@.len(),
    decreases parent, 0int,
{
    let n: usize = children.len();
    let mut k: usize = 0;
    while k < n
        invariant
            k <= n,
            n == children@.len(),
            tree.wf(),
            parent < tree.nodes@.len(),
            state.entries@.len() == tree.nodes@.len(),
            state.entries@.len() == old(state).entries@.len(),
            all_below(children@, parent as int),
            state.entries@ == reset_children(
                tree.nodes@,
                old(state).entries@,
                children@,
                k as int,
                parent as int,
            ),
        decreases n - k,
    {
        reset_node_exec(tree, state, children[k]);
        k = k + 1;
    }
}

/// Makes fresh the entries of node `i` and of all that lies below it.
fn reset_node_exec<A>(tree: &Behavior<A>, state: &mut State, i: usize)
    requires
        tree.wf(),
        i < tree.nodes@.len(),
        old(state).entries@.len() == tree.nodes@.len(),
    ensures
        final(state).entries@ == reset_node(tree.nodes@, old(state).entries@, i as int),
        final(state).entries@.len() == old(state).entries@.len(),
    decreases i, 1int,
{
    state.entries.set(i, Entry { active: 0, elapsed: 0, retired: false });
    match &tree.nodes[i] {
        Node::Sequence(cs) => {
            reset_children_exec(tree, state, cs, i);
        },
        Node::WhenAny(cs) => {
            reset_children_exec(tree, state, cs, i);
        },
        Node::While(c, body) => {
            reset_node_exec(tree, state, *c);
            reset_children_exec(tree, state, body, i);
        },
        _ => {},
    }
}

/// How much of `dt` a node that has ended counts as having used up.
fn clamp_used(claimed: i128, dt: i64) -> (r: i64)
    requires
        dt >= 0,
    ensures
        r == used(Status::Success, claimed as int, dt),
        r == used(Status::Failure, claimed as int, dt),
        0 <= r <= dt,
{
    if claimed > dt as i128 {
        dt
    } else if claimed < 0 {
        0
    } else {
        claimed as i64
    }
}

/// Runs the given children of node `i` one after the other, from child `k`
/// on.
fn run_children_exec<A, W: Actor<A>>(
    tree: &Behavior<A>,
    state: &mut State,
    world: &mut W,
    i: usize,
    children: &Vec<usize>,
    k: usize,
    dt: i64,
) -> (r: (Status, i64))
    requires
        tree.wf(),
        i < tree.nodes@.len(),
        old(state).entries@.len() == tree.nodes@.len(),
        all_below(children@, i as int),
        k <= children@.len(),
        children@.len() <= child_count(tree.nodes@[i as int]),
        dt >= 0,
    ensures
        final(state).entries@ == run_children(
            tree.nodes@,
            old(state).entries@,
            *old(world),
            i as int,
            children@,
            k as int,
            dt,
        ).entries,
        *final(world) == run_children(
            tree.nodes@,
            old(state).entries@,
            *old(world),
            i as int,
            children@,
            k as int,
            dt,
        ).world,
        r.0 == run_children(
            tree.nodes@,
            old(state).entries@,
            *old(world),
            i as int,
            children@,
            k as int,
            dt,
        ).status,
        r.1 == run_children(
            tree.nodes@,
            old(state).entries@,
            *old(world),
            i as int,
            children@,
            k as int,
            dt,
        ).consumed,
        final(state).entries@.len() == old(state).entries@.len(),
        0 <= r.1 <= dt,
        r.0 == Status::Running ==> r.1 == dt,
    decreases i, children@.len() - k,
{
    if k >= children.len() {
        let e: Entry = state.entries[i];
        state.entries.set(i, Entry { active: 0, elapsed: e.elapsed, retired: e.retired });
        return (Status::Success, 0);
    }
    let c: usize = children[k];
    let (status, spent): (Status, i64) = tick(tree, state, world, c, dt);
    match status {
        Status::Success => {
            let (rest_status, rest_spent): (Status, i64) = run_children_exec(
                tree,
                state,
                world,
                i,
                children,
                k + 1,
                dt - spent,
            );
            (rest_status, spent + rest_spent)
        },
        _ => {
            let e: Entry = state.entries[i];
            state.entries.set(i, Entry { active: k, elapsed: e.elapsed, retired: e.retired });
            (status, spent)
        },
    }
}

/// Runs the given children of node `i` side by side, from child `k` on.
fn run_any_exec<A, W: Actor<A>>(
    tree: &Behavior<A>,
    state: &mut State,
    world: &mut W,
    i: usize,
    children: &Vec<usize>,
    k: usize,
    dt: i64,
    longest: i64,
    running: bool,
) -> (r: (Status, i64))
    requires
        tree.wf(),
        i < tree.nodes@.len(),
        old(state).entries@.len() == tree.nodes@.len(),
        all_below(children@, i as int),
        k <= children@.len(),
        children@.len() <= child_count(tree.nodes@[i as int]),
        dt >= 0,
        0 <= longest <= dt,
    ensures
        final(state).entries@ == run_any(
            tree.nodes@,
            old(state).entries@,
            *old(world),
            i as int,
            children@,
            k as int,
            dt,
            longest,
            running,
        ).entries,
        *final(world) == run_any(
            tree.nodes@,
            old(state).entries@,
            *old(world),
            i as int,
            children@,
            k as int,
            dt,
            longest,
            running,
        ).world,
        r.0 == run_any(
            tree.nodes@,
            old(state).entries@,
            *old(world),
            i as int,
            children@,
            k as int,
            dt,
            longest,
            running,
        ).status,
        r.1 == run_any(
            tree.nodes@,
            old(state).entries@,
            *old(world),
            i as int,
            children@,
            k as int,
            dt,
            longest,
            running,
        ).consumed,
        final(state).entries@.len() == old(state).entries@.len(),
        0 <= r.1 <= dt,
        r.0 == Status::Running ==> r.1 == dt,
    decreases i, children@.len() - k,
{
    if k >= children.len() {
        if running {
            return (Status::Running, dt);
        } else {
            return (Status::Failure, longest);
        }
    }
    let c: usize = children[k];
    if state.entries[c].retired {
        return run_any_exec(tree, state, world, i, children, k + 1, dt, longest, running);
    }
    let (status, spent): (Status, i64) = tick(tree, state, world, c, dt);
    match status {
        Status::Success => {
            reset_node_exec(tree, state, i);
            (Status::Success, spent)
        },
        Status::Running => run_any_exec(tree, state, world, i, children, k + 1, dt, longest, true),
        Status::Failure => {
            let e: Entry = state.entries[c];
            state.entries.set(c, Entry { active: e.active, elapsed: e.elapsed, retired: true });
            let worst: i64 = if spent > longest {
                spent
            } else {
                longest
            };
            run_any_exec(tree, state, world, i, children, k + 1, dt, worst, running)
        },
    }
}

/// One tick of `dt` seconds at node `i`.
fn tick<A, W: Actor<A>>(
    tree: &Behavior<A>,
    state: &mut State,
    world: &mut W,
    i: usize,
    dt: i64,
) -> (r: (Status, i64))
    requires
        tree.wf(),
        i < tree.nodes@.len(),
        old(state).entries@.len() == tree.nodes@.len(),
        dt >= 0,
    ensures
        final(state).entries@ == ticked(tree.nodes@, old(state).entries@, *old(world), i as int, dt).entries,
        *final(world) == ticked(tree.nodes@, old(state).entries@, *old(world), i as int, dt).world,
        r.0 == ticked(tree.nodes@, old(state).entries@, *old(world), i as int, dt).status,
        r.1 == ticked(tree.nodes@, old(state).entries@, *old(world), i as int, dt).consumed,
        final(state).entries@.len() == old(state).entries@.len(),
        0 <= r.1 <= dt,
        r.0 == Status::Running ==> r.1 == dt,
    decreases i, child_count(tree.nodes@[i as int]) + 1,
{
    match &tree.nodes[i] {
        Node::Wait(secs) => {
            let e: Entry = state.entries[i];
            let total: i128 = e.elapsed as i128 + dt as i128;
            if total >= *secs as i128 {
                state.entries.set(i, Entry { active: e.active, elapsed: 0, retired: e.retired });
                (Status::Success, clamp_used(*secs as i128 - e.elapsed as i128, dt))
            } else {
                state.entries.set(
                    i,
                    Entry { active: e.active, elapsed: total as i64, retired: e.retired },
                );
                (Status::Running, dt)
            }
        },
        Node::WaitForever => (Status::Running, dt),
        Node::Action(a) => {
            let (status, claimed): (Status, i64) = world.act(a, dt);
            match status {
                Status::Running => (status, dt),
                _ => (status, clamp_used(claimed as i128, dt)),
            }
        },
        Node::Sequence(cs) => {
            let active: usize = state.entries[i].active;
            let k: usize = if active <= cs.len() {
                active
            } else {
                cs.len()
            };
            run_children_exec(tree, state, world, i, cs, k, dt)
        },
        Node::While(c, body) => {
            let (status, spent): (Status, i64) = tick(tree, state, world, *c, dt);
            match status {
                Status::Success => {
                    reset_node_exec(tree, state, i);
                    (Status::Success, spent)
                },
                Status::Failure => (Status::Failure, spent),
                Status::Running => {
                    let active: usize = state.entries[i].active;
                    let k: usize = if active <= body.len() {
                        active
                    } else {
                        body.len()
                    };
                    let (body_status, body_spent): (Status, i64) = run_children_exec(
                        tree,
                        state,
                        world,
                        i,
                        body,
                        k,
                        dt,
                    );
                    match body_status {
                        Status::Failure => (Status::Failure, body_spent),
                        _ => (Status::Running, dt),
                    }
                },
            }
        },
        Node::WhenAny(cs) => run_any_exec(tree, state, world, i, cs, 0, dt, 0, false),
    }
}

impl State {
    /// The place of an agent that has not yet run: a fresh entry for every
    /// node of the tree.
    pub fn new<A>(behavior: &Behavior<A>) -> (s: State)
        ensures
            s.entries@.len() == behavior.nodes@.len(),
            forall|i: int| 0 <= i < s.entries@.len() ==> #[trigger] s.entries@[i] == fresh(),
    {
        let n: usize = behavior.nodes.len();
        let mut entries: Vec<Entry> = Vec::new();
        let mut i: usize = 0;
        while i < n
            invariant
                i <= n,
                entries@.len() == i,
                forall|j: int| 0 <= j < i ==> #[trigger] entries@[j] == fresh(),
            decreases n - i,
        {
            entries.push(Entry { active: 0, elapsed: 0, retired: false });
            i = i + 1;
        }
        State { entries }
    }

    /// Whether the state has an entry for every node of the tree.
    pub open spec fn fits<A>(&self, behavior: &Behavior<A>) -> bool {
        self.entries@.len() == behavior.nodes@.len()
    }

    /// One tick of `dt` seconds at the root of the tree. Returns the root's
    /// status and how much of `dt` it used up. A tree without nodes fails
    /// at once.
    pub fn event<A, W: Actor<A>>(&mut self, behavior: &Behavior<A>, world: &mut W, dt: i64) -> (r: (
        Status,
        i64,
    ))
        requires
            behavior.wf(),
            old(self).fits(behavior),
            dt >= 0,
        ensures
            final(self).fits(behavior),
            final(self).entries@ == ticked(
                behavior.nodes@,
                old(self).entries@,
                *old(world),
                behavior.nodes@.len() - 1,
                dt,
            ).entries,
            *final(world) == ticked(
                behavior.nodes@,
                old(self).entries@,
                *old(world),
                behavior.nodes@.len() - 1,
                dt,
            ).world,
            r.0 == ticked(
                behavior.nodes@,
                old(self).entries@,
                *old(world),
                behavior.nodes@.len() - 1,
                dt,
            ).status,
            r.1 == ticked(
                behavior.nodes@,
                old(self).entries@,
                *old(world),
                behavior.nodes@.len() - 1,
                dt,
            ).consumed,
            0 <= r.1 <= dt,
            r.0 == Status::Running ==> r.1 == dt,
    {
        let n: usize = behavior.nodes.len();
        if n == 0 {
            return (Status::Failure, 0);
        }
        tick(behavior, self, world, n - 1, dt)
    }
}

} // verus!
