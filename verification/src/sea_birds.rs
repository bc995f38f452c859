//! Sea birds: each circles its target until the swimmer comes near, then
//! flies at the swimmer and bites, and gives up when the swimmer has got far
//! enough from the target. What a bird does next is read off a behaviour
//! tree that all birds share.

use vstd::prelude::*;
use crate::behavior::{
    Actor, Behavior, Entry, Node, State, Status, child_count, first_child, run_any, run_children,
    ticked,
};
use crate::blood_bar::{BloodBar, drained, decrease};
use crate::curves::{
    spec_cos_fine, spec_next_point, spec_sin_fine, spec_times_fine, cos_fine, next_point, sin_fine,
    times_fine,
};
use crate::fixed::{UNIT, spec_max, spec_times, max, times};
use crate::player;
use crate::player::Player;
use crate::settings::player::BITTEN_FADE_OUT_SECONDS;
use crate::settings::sea_birds::SPEEDUP;
use crate::settings::sea_birds::circling;
use crate::vector::Vec2;

verus! {

/// What a bird can be told to do.
#[derive(Clone, Copy, PartialEq, Eq, Debug, Structural)]
pub enum Action {
    /// Circles forever around the target.
    Circling,
    /// Waits until the swimmer is within the distance of the bird.
    PlayerWithinDistance(i64),
    /// Flies toward the swimmer.
    FlyTowardPlayer,
    /// Waits until the swimmer is farther than the distance from the target.
    PlayerFarAwayFromTarget(i64),
    /// Bites the swimmer, who loses this much blood.
    AttackPlayer(i64),
}

/// What an action of a bird sees and changes: the bird itself, where the
/// swimmer is and whether they are bitten, and the swimmer's blood.
#[derive(Clone, Copy, PartialEq, Eq, Debug, Structural)]
pub struct Scene {
    pub pos: Vec2,
    pub dir: Vec2,
    pub target: Vec2,
    /// The angle of the waypoint on the circle that the bird heads for, in
    /// turns.
    pub circling_angle: i64,
    pub player_pos: Vec2,
    pub player_state: player::State,
    pub blood_bar: BloodBar,
}

/// How far a bird flies in `dt` seconds.
pub open spec fn spec_flight(dt: i64) -> i64 {
    spec_times(spec_times(dt, SPEEDUP), circling::SPEED)
}

/// How far a bird flies in `dt` seconds.
#[verifier::when_used_as_spec(spec_flight)]
pub fn flight(dt: i64) -> (r: i64)
    ensures
        r == spec_flight(dt),
{
    times(times(dt, SPEEDUP), circling::SPEED)
}

impl Scene {
    /// The waypoint on the circle around the target that the bird heads for.
    pub open spec fn spec_waypoint(&self) -> Vec2 {
        self.target.spec_plus(
            Vec2 {
                x: spec_times_fine(circling::RADIUS, spec_cos_fine(self.circling_angle)),
                y: spec_times_fine(circling::RADIUS, spec_sin_fine(self.circling_angle)),
            },
        )
    }

    /// The waypoint on the circle around the target that the bird heads for.
    #[verifier::when_used_as_spec(spec_waypoint)]
    pub fn waypoint(&self) -> (r: Vec2)
        ensures
            r == self.spec_waypoint(),
    {
        let on_circle: Vec2 = Vec2 {
            x: times_fine(circling::RADIUS, cos_fine(self.circling_angle)),
            y: times_fine(circling::RADIUS, sin_fine(self.circling_angle)),
        };
        self.target.plus(on_circle)
    }

    /// The scene after the bird has flown toward `goal` for `dt` seconds: it
    /// faces the goal (or keeps its direction when it is there already) and
    /// moves along that direction.
    pub open spec fn flown_toward(&self, goal: Vec2, dt: i64) -> Scene {
        let dir = goal.spec_minus(self.pos).spec_normalized_or(self.dir);
        Scene {
            pos: self.pos.spec_plus(dir.spec_scaled(spec_flight(dt))),
            dir,
            target: self.target,
            circling_angle: self.circling_angle,
            player_pos: self.player_pos,
            player_state: self.player_state,
            blood_bar: self.blood_bar,
        }
    }

    /// The scene after `dt` seconds of circling: the bird has flown toward
    /// its waypoint, and if that brought it within the advance radius, the
    /// next of the waypoints, which divide the circle evenly, is up.
    pub open spec fn circled(&self, dt: i64) -> Scene {
        let goal = self.spec_waypoint();
        let moved = self.flown_toward(goal, dt);
        Scene {
            pos: moved.pos,
            dir: moved.dir,
            target: self.target,
            circling_angle: if goal.spec_minus(moved.pos).spec_shorter_than(circling::ADVANCE_RADIUS) {
                spec_next_point(self.circling_angle, circling::N)
            } else {
                self.circling_angle
            },
            player_pos: self.player_pos,
            player_state: self.player_state,
            blood_bar: self.blood_bar,
        }
    }

    /// The scene after the bird has bitten: the swimmer shows the bite for
    /// the whole fade-out time and has lost `amount` of blood. A bite never
    /// gives blood: an amount below zero takes nothing.
    pub open spec fn bitten(&self, amount: i64) -> Scene {
        Scene {
            pos: self.pos,
            dir: self.dir,
            target: self.target,
            circling_angle: self.circling_angle,
            player_pos: self.player_pos,
            player_state: player::State::Bitten(BITTEN_FADE_OUT_SECONDS),
            blood_bar: BloodBar(drained(self.blood_bar.0, spec_max(amount, 0))),
        }
    }

    /// Flies toward `goal` for `dt` seconds.
    fn fly_toward(&mut self, goal: Vec2, dt: i64)
        ensures
            *final(self) == old(self).flown_toward(goal, dt),
    {
        let dir: Vec2 = goal.minus(self.pos).normalized_or(self.dir);
        self.dir = dir;
        self.pos = self.pos.plus(dir.scaled(flight(dt)));
    }
}

impl Actor<Action> for Scene {
    /// Circling and flying go on forever. The two watches succeed, with all
    /// of the time used up, as soon as what they watch for holds. A
    /// bite succeeds at once, with all of the time used up.
    open spec fn acted(self, action: Action, dt: i64) -> (Self, Status, i64) {
        match action {
            Action::Circling => (self.circled(dt), Status::Running, dt),
            Action::PlayerWithinDistance(dist) => if self.pos.spec_minus(self.player_pos).spec_shorter_than(
                dist,
            ) {
                (self, Status::Success, dt)
            } else {
                (self, Status::Running, dt)
            },
            Action::PlayerFarAwayFromTarget(dist) => if self.target.spec_minus(
                self.player_pos,
            ).spec_longer_than(dist) {
                (self, Status::Success, dt)
            } else {
                (self, Status::Running, dt)
            },
            Action::FlyTowardPlayer => (self.flown_toward(self.player_pos, dt), Status::Running, dt),
            Action::AttackPlayer(amount) => (self.bitten(amount), Status::Success, dt),
        }
    }

    /// Carries out one action of a bird.
    fn act(&mut self, action: &Action, dt: i64) -> (r: (Status, i64)) {
        match *action {
            Action::Circling => {
                let goal: Vec2 = self.waypoint();
                self.fly_toward(goal, dt);
                if goal.minus(self.pos).shorter_than(circling::ADVANCE_RADIUS) {
                    self.circling_angle = next_point(self.circling_angle, circling::N);
                }
                (Status::Running, dt)
            },
            Action::PlayerWithinDistance(dist) => {
                if self.pos.minus(self.player_pos).shorter_than(dist) {
                    (Status::Success, dt)
                } else {
                    (Status::Running, dt)
                }
            },
            Action::PlayerFarAwayFromTarget(dist) => {
                if self.target.minus(self.player_pos).longer_than(dist) {
                    (Status::Success, dt)
                } else {
                    (Status::Running, dt)
                }
            },
            Action::FlyTowardPlayer => {
                let goal: Vec2 = self.player_pos;
                self.fly_toward(goal, dt);
                (Status::Running, dt)
            },
            Action::AttackPlayer(amount) => {
                self.player_state = player::State::Bitten(BITTEN_FADE_OUT_SECONDS);
                decrease(&mut self.blood_bar, max(amount, 0));
                (Status::Success, dt)
            },
        }
    }
}

/// Whether a scene can come after another in the course of a tick: the
/// swimmer and the target are where they were, and the blood is not negative
/// and no more than it was.
pub open spec fn follows(before: Scene, after: Scene) -> bool {
    &&& after.player_pos == before.player_pos
    &&& after.target == before.target
    &&& 0 <= after.blood_bar.0 <= before.blood_bar.0
}

/// No action of a bird moves the swimmer or the target, and none gives
/// blood.
pub proof fn lemma_action_takes_only(scene: Scene, action: Action, dt: i64)
    requires
        scene.blood_bar.0 >= 0,
    ensures
        follows(scene, scene.acted(action, dt).0),
{
}

/// No tick of a behaviour tree moves the swimmer or the target, and none
/// gives blood, whatever the tree.
pub proof fn lemma_tick_takes_only(
    nodes: Seq<Node<Action>>,
    entries: Seq<Entry>,
    scene: Scene,
    i: int,
    dt: i64,
)
    requires
        scene.blood_bar.0 >= 0,
    ensures
        follows(scene, ticked(nodes, entries, scene, i, dt).world),
    decreases i, child_count(nodes[i]) + 1,
{
    if 0 <= i < nodes.len() && i < entries.len() {
        match nodes[i] {
            Node::Action(a) => {
                lemma_action_takes_only(scene, a, dt);
            },
            Node::Sequence(cs) => {
                lemma_children_take_only(nodes, entries, scene, i, cs@, first_child(entries[i], cs@), dt);
            },
            Node::While(c, body) => {
                if c < i {
                    lemma_tick_takes_only(nodes, entries, scene, c as int, dt);
                    let rc = ticked(nodes, entries, scene, c as int, dt);
                    lemma_children_take_only(
                        nodes,
                        rc.entries,
                        rc.world,
                        i,
                        body@,
                        if i < rc.entries.len() {
                            first_child(rc.entries[i], body@)
                        } else {
                            0
                        },
                        dt,
                    );
                }
            },
            Node::WhenAny(cs) => {
                lemma_any_takes_only(nodes, entries, scene, i, cs@, 0, dt, 0, false);
            },
            _ => {},
        }
    }
}

/// Children that run one after the other give no blood.
pub proof fn lemma_children_take_only(
    nodes: Seq<Node<Action>>,
    entries: Seq<Entry>,
    scene: Scene,
    i: int,
    children: Seq<usize>,
    k: int,
    dt: i64,
)
    requires
        scene.blood_bar.0 >= 0,
    ensures
        follows(scene, run_children(nodes, entries, scene, i, children, k, dt).world),
    decreases i, children.len() - k,
{
    if 0 <= i < entries.len() && 0 <= k < children.len() && children[k] < i {
        lemma_tick_takes_only(nodes, entries, scene, children[k] as int, dt);
        let r = ticked(nodes, entries, scene, children[k] as int, dt);
        if r.status == Status::Success {
            lemma_children_take_only(
                nodes,
                r.entries,
                r.world,
                i,
                children,
                k + 1,
                (dt - r.consumed) as i64,
            );
        }
    }
}

/// Children that run side by side give no blood.
pub proof fn lemma_any_takes_only(
    nodes: Seq<Node<Action>>,
    entries: Seq<Entry>,
    scene: Scene,
    i: int,
    children: Seq<usize>,
    k: int,
    dt: i64,
    longest: i64,
    running: bool,
)
    requires
        scene.blood_bar.0 >= 0,
    ensures
        follows(scene, run_any(nodes, entries, scene, i, children, k, dt, longest, running).world),
    decreases i, children.len() - k,
{
    if 0 <= k < children.len() && children[k] < i && children[k] < entries.len() {
        let c = children[k] as int;
        if entries[c].retired {
            lemma_any_takes_only(nodes, entries, scene, i, children, k + 1, dt, longest, running);
        } else {
            lemma_tick_takes_only(nodes, entries, scene, c, dt);
            let r = ticked(nodes, entries, scene, c, dt);
            match r.status {
                Status::Success => {},
                Status::Running => {
                    lemma_any_takes_only(nodes, r.entries, r.world, i, children, k + 1, dt, longest, true);
                },
                Status::Failure => {
                    lemma_any_takes_only(
                        nodes,
                        if c < r.entries.len() {
                            r.entries.update(c, Entry { retired: true, ..r.entries[c] })
                        } else {
                            r.entries
                        },
                        r.world,
                        i,
                        children,
                        k + 1,
                        dt,
                        if r.consumed > longest {
                            r.consumed
                        } else {
                            longest
                        },
                        running,
                    );
                },
            }
        }
    }
}

/// A sea bird.
pub struct SeaBird {
    pub pos: Vec2,
    pub dir: Vec2,
    pub target: Vec2,
    /// The angle of the waypoint on the circle that the bird heads for, in
    /// turns.
    pub circling_angle: i64,
    /// The bird's place in the behaviour tree.
    pub state: State,
}

/// All sea birds and the behaviour tree they share.
pub struct SeaBirds {
    pub birds: Vec<SeaBird>,
    pub behavior: Behavior<Action>,
}

/// A bird as the contracts see it.
pub struct BirdView {
    pub pos: Vec2,
    pub dir: Vec2,
    pub target: Vec2,
    pub circling_angle: i64,
    pub entries: Seq<Entry>,
}

impl View for SeaBird {
    type V = BirdView;

    /// The bird's fields, with the entries of its state as a sequence.
    open spec fn view(&self) -> BirdView {
        BirdView {
            pos: self.pos,
            dir: self.dir,
            target: self.target,
            circling_angle: self.circling_angle,
            entries: self.state.entries@,
        }
    }
}

impl SeaBird {
    /// A bird at `pos` that faces along the `x` axis, will circle `target`
    /// from angle zero, and has not yet run the given behaviour.
    pub fn new(pos: Vec2, target: Vec2, behavior: &Behavior<Action>) -> (bird: SeaBird)
        ensures
            bird.pos == pos,
            bird.dir == (Vec2 { x: UNIT, y: 0 }),
            bird.target == target,
            bird.circling_angle == 0,
            bird.state.fits(behavior),
            forall|i: int| 0 <= i < bird.state.entries@.len() ==> #[trigger] bird.state.entries@[i]
                == crate::behavior::fresh(),
    {
        SeaBird {
            pos,
            dir: Vec2 { x: UNIT, y: 0 },
            target,
            circling_angle: 0,
            state: State::new(behavior),
        }
    }
}

/// Whether the nodes are those of the birds' behaviour: forever, circle for
/// five seconds and on until the swimmer is within 50 of the bird; then fly
/// at the swimmer until they are farther than 100 from the target or have
/// been bitten from within 10, at the cost of a tenth of their blood.
pub open spec fn is_bird_behavior(nodes: Seq<Node<Action>>) -> bool {
    &&& nodes.len() == 16
    &&& nodes[0] == Node::<Action>::Wait(5_000_000)
    &&& nodes[1] == Node::Action(Action::Circling)
    &&& nodes[2] matches Node::While(c, body) && c == 0 && body@ =~= seq![1usize]
    &&& nodes[3] == Node::Action(Action::PlayerWithinDistance(50_000_000))
    &&& nodes[4] == Node::Action(Action::Circling)
    &&& nodes[5] matches Node::While(c, body) && c == 3 && body@ =~= seq![4usize]
    &&& nodes[6] matches Node::Sequence(cs) && cs@ =~= seq![2usize, 5usize]
    &&& nodes[7] == Node::Action(Action::PlayerFarAwayFromTarget(100_000_000))
    &&& nodes[8] == Node::Action(Action::PlayerWithinDistance(10_000_000))
    &&& nodes[9] == Node::Action(Action::AttackPlayer(100_000))
    &&& nodes[10] matches Node::Sequence(cs) && cs@ =~= seq![8usize, 9usize]
    &&& nodes[11] matches Node::WhenAny(cs) && cs@ =~= seq![7usize, 10usize]
    &&& nodes[12] == Node::Action(Action::FlyTowardPlayer)
    &&& nodes[13] matches Node::While(c, body) && c == 11 && body@ =~= seq![12usize]
    &&& nodes[14] == Node::<Action>::WaitForever
    &&& nodes[15] matches Node::While(c, body) && c == 14 && body@ =~= seq![6usize, 13usize]
}

impl SeaBirds {
    /// The behaviour is well formed and every bird has a place in it.
    pub open spec fn wf(&self) -> bool {
        &&& self.behavior.wf()
        &&& forall|i: int| 0 <= i < self.birds@.len() ==> (#[trigger] self.birds@[i]).state.fits(&self.behavior)
    }

    /// No birds yet, and the behaviour that all birds will share.
    pub fn new() -> (r: SeaBirds)
        ensures
            r.wf(),
            r.birds@.len() == 0,
            is_bird_behavior(r.behavior.nodes@),
    {
        let mut b: Behavior<Action> = Behavior::new();
        let five_seconds: usize = b.wait(5_000_000);
        let circling_a: usize = b.action(Action::Circling);
        let warm_up: usize = b.while_loop(five_seconds, vec![circling_a]).unwrap();
        let player_near: usize = b.action(Action::PlayerWithinDistance(50_000_000));
        let circling_b: usize = b.action(Action::Circling);
        let patrol: usize = b.while_loop(player_near, vec![circling_b]).unwrap();
        let circle_until_player_within_distance: usize = b.sequence(vec![warm_up, patrol]).unwrap();
        let player_gone: usize = b.action(Action::PlayerFarAwayFromTarget(100_000_000));
        let player_in_reach: usize = b.action(Action::PlayerWithinDistance(10_000_000));
        let bite: usize = b.action(Action::AttackPlayer(100_000));
        let attack: usize = b.sequence(vec![player_in_reach, bite]).unwrap();
        let give_up_or_attack: usize = b.when_any(vec![player_gone, attack]).unwrap();
        let chase: usize = b.action(Action::FlyTowardPlayer);
        let attack_attempt: usize = b.while_loop(give_up_or_attack, vec![chase]).unwrap();
        let forever: usize = b.wait_forever();
        let _root: usize = b.while_loop(
            forever,
            vec![circle_until_player_within_distance, attack_attempt],
        ).unwrap();
        SeaBirds { birds: Vec::new(), behavior: b }
    }
}

/// The scene that a bird's actions see.
pub open spec fn scene_of(bird: BirdView, player_pos: Vec2, player_state: player::State, blood_bar: BloodBar) -> Scene {
    Scene {
        pos: bird.pos,
        dir: bird.dir,
        target: bird.target,
        circling_angle: bird.circling_angle,
        player_pos,
        player_state,
        blood_bar,
    }
}

/// The birds, the swimmer's bite and the blood after the first `n` birds
/// have each had a tick of `dt` seconds, one after the other: every bird
/// sees what the birds before it did to the swimmer.
pub open spec fn flown(
    nodes: Seq<Node<Action>>,
    birds: Seq<BirdView>,
    player_pos: Vec2,
    player_state: player::State,
    blood_bar: BloodBar,
    dt: i64,
    n: int,
) -> (Seq<BirdView>, player::State, BloodBar)
    decreases n,
{
    if n <= 0 || n > birds.len() {
        (birds, player_state, blood_bar)
    } else {
        let before = flown(nodes, birds, player_pos, player_state, blood_bar, dt, n - 1);
        let out = ticked(
            nodes,
            birds[n - 1].entries,
            scene_of(birds[n - 1], player_pos, before.1, before.2),
            nodes.len() - 1,
            dt,
        );
        (
            before.0.update(
                n - 1,
                BirdView {
                    pos: out.world.pos,
                    dir: out.world.dir,
                    target: out.world.target,
                    circling_angle: out.world.circling_angle,
                    entries: out.entries,
                },
            ),
            out.world.player_state,
            out.world.blood_bar,
        )
    }
}

/// However many birds have their turn, the swimmer's blood is not negative
/// afterwards and no more than before: birds only take.
pub proof fn lemma_flock_takes_only(
    nodes: Seq<Node<Action>>,
    birds: Seq<BirdView>,
    player_pos: Vec2,
    player_state: player::State,
    blood_bar: BloodBar,
    dt: i64,
    n: int,
)
    requires
        blood_bar.0 >= 0,
    ensures
        0 <= flown(nodes, birds, player_pos, player_state, blood_bar, dt, n).2.0 <= blood_bar.0,
    decreases n,
{
    if !(n <= 0 || n > birds.len()) {
        lemma_flock_takes_only(nodes, birds, player_pos, player_state, blood_bar, dt, n - 1);
        let before = flown(nodes, birds, player_pos, player_state, blood_bar, dt, n - 1);
        lemma_tick_takes_only(
            nodes,
            birds[n - 1].entries,
            scene_of(birds[n - 1], player_pos, before.1, before.2),
            nodes.len() - 1,
            dt,
        );
    }
}

/// The views of a list of birds.
pub open spec fn views(birds: Seq<SeaBird>) -> Seq<BirdView> {
    birds.map_values(|b: SeaBird| b@)
}

/// Gives every bird a tick of `dt` seconds, in the order of the list. A bird
/// may bite: that changes the swimmer's bite state and blood, and birds
/// later in the list see it. Nothing else of the swimmer changes.
pub fn update_sea_birds(sea_birds: &mut SeaBirds, player: &mut Player, blood_bar: &mut BloodBar, dt: i64)
    requires
        old(sea_birds).wf(),
        dt >= 0,
    ensures
        final(sea_birds).wf(),
        final(sea_birds).behavior == old(sea_birds).behavior,
        views(final(sea_birds).birds@) == flown(
            old(sea_birds).behavior.nodes@,
            views(old(sea_birds).birds@),
            old(player).pos,
            old(player).state,
            *old(blood_bar),
            dt,
            old(sea_birds).birds@.len() as int,
        ).0,
        final(player).state == flown(
            old(sea_birds).behavior.nodes@,
            views(old(sea_birds).birds@),
            old(player).pos,
            old(player).state,
            *old(blood_bar),
            dt,
            old(sea_birds).birds@.len() as int,
        ).1,
        *final(blood_bar) == flown(
            old(sea_birds).behavior.nodes@,
            views(old(sea_birds).birds@),
            old(player).pos,
            old(player).state,
            *old(blood_bar),
            dt,
            old(sea_birds).birds@.len() as int,
        ).2,
        final(player).pos == old(player).pos,
        final(player).vel == old(player).vel,
        final(player).key_state == old(player).key_state,
        final(player).frame == old(player).frame,
        final(player).time_since_last_frame_update == old(player).time_since_last_frame_update,
        old(blood_bar).0 >= 0 ==> 0 <= final(blood_bar).0 <= old(blood_bar).0,
{
    proof {
        if blood_bar.0 >= 0 {
            lemma_flock_takes_only(
                sea_birds.behavior.nodes@,
                views(sea_birds.birds@),
                player.pos,
                player.state,
                *blood_bar,
                dt,
                sea_birds.birds@.len() as int,
            );
        }
    }
    let n: usize = sea_birds.birds.len();
    let mut i: usize = 0;
    while i < n
        invariant
            i <= n,
            dt >= 0,
            n == sea_birds.birds@.len(),
            n == old(sea_birds).birds@.len(),
            sea_birds.wf(),
            sea_birds.behavior == old(sea_birds).behavior,
            player.pos == old(player).pos,
            player.vel == old(player).vel,
            player.key_state == old(player).key_state,
            player.frame == old(player).frame,
            player.time_since_last_frame_update == old(player).time_since_last_frame_update,
            forall|j: int| i <= j < n ==> (#[trigger] sea_birds.birds@[j])@ == old(sea_birds).birds@[j]@,
            views(sea_birds.birds@) =~= flown(
                old(sea_birds).behavior.nodes@,
                views(old(sea_birds).birds@),
                old(player).pos,
                old(player).state,
                *old(blood_bar),
                dt,
                i as int,
            ).0,
            player.state == flown(
                old(sea_birds).behavior.nodes@,
                views(old(sea_birds).birds@),
                old(player).pos,
                old(player).state,
                *old(blood_bar),
                dt,
                i as int,
            ).1,
            *blood_bar == flown(
                old(sea_birds).behavior.nodes@,
                views(old(sea_birds).birds@),
                old(player).pos,
                old(player).state,
                *old(blood_bar),
                dt,
                i as int,
            ).2,
        decreases n - i,
    {
        let mut scene: Scene = Scene {
            pos: sea_birds.birds[i].pos,
            dir: sea_birds.birds[i].dir,
            target: sea_birds.birds[i].target,
            circling_angle: sea_birds.birds[i].circling_angle,
            player_pos: player.pos,
            player_state: player.state,
            blood_bar: *blood_bar,
        };
        let bird: &mut SeaBird = &mut sea_birds.birds[i];
        let _status: (Status, i64) = bird.state.event(&sea_birds.behavior, &mut scene, dt);
        bird.pos = scene.pos;
        bird.dir = scene.dir;
        bird.target = scene.target;
        bird.circling_angle = scene.circling_angle;
        player.state = scene.player_state;
        *blood_bar = scene.blood_bar;
        i = i + 1;
    }
}

} // verus!
