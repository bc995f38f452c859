//! The swimmer: where they are, how fast they move, which keys are held, and
//! how a tick of the clock carries them through the current.

use vstd::prelude::*;
use crate::curves::{CAP, FINE, spec_growth, growth};
use crate::fixed::{
    HALF, UNIT, clamp, div_to_nearest, in_range, round_div, spec_minus, spec_over, spec_plus,
    spec_times, minus, over, plus, saturate, times,
};
use crate::rocks::{Rocks, hits_any};
use crate::settings::WATER_FRICTION;
use crate::settings::player::{
    ACC, BITTEN_FADE_OUT_SECONDS, FRAME_COUNT, FRAME_INTERVAL, SPEEDUP,
};
use crate::stream::{Stream, flow_at};
use crate::vector::Vec2;

verus! {

/// The set of movement keys that are held down, one bit per key: a union of
/// the masks `LEFT`, `RIGHT`, `UP` and `DOWN`.
#[derive(Clone, Copy, PartialEq, Eq, Debug, Structural)]
pub struct KeyState {
    pub bits: u8,
}

/// The key that moves left.
pub const LEFT: u8 = 1;

/// The key that moves right.
pub const RIGHT: u8 = 2;

/// The key that moves up.
pub const UP: u8 = 4;

/// The key that moves down.
pub const DOWN: u8 = 8;

impl KeyState {
    /// No key held.
    pub open spec fn spec_empty() -> KeyState {
        KeyState { bits: 0 }
    }

    /// No key held.
    #[verifier::when_used_as_spec(spec_empty)]
    pub fn empty() -> (r: KeyState)
        ensures
            r == KeyState::spec_empty(),
    {
        KeyState { bits: 0 }
    }

    /// Whether all keys of the mask are held.
    pub open spec fn spec_contains(&self, keys: u8) -> bool {
        self.bits & keys == keys
    }

    /// Whether all keys of the mask are held.
    #[verifier::when_used_as_spec(spec_contains)]
    pub fn contains(&self, keys: u8) -> (r: bool)
        ensures
            r == self.spec_contains(keys),
    {
        self.bits & keys == keys
    }

    /// Holds the keys of the mask down as well.
    pub fn insert(&mut self, keys: u8)
        ensures
            final(self).bits == old(self).bits | keys,
    {
        self.bits = self.bits | keys;
    }

    /// Lets the keys of the mask go.
    pub fn remove(&mut self, keys: u8)
        ensures
            final(self).bits == old(self).bits & !keys,
    {
        self.bits = self.bits & !keys;
    }

    /// The acceleration that the held keys ask for: `d` along each axis whose
    /// key is held, nothing along an axis whose two keys are both held or
    /// both free. Up is the negative `y` direction.
    pub open spec fn spec_acceleration(&self, d: i64) -> Vec2 {
        let c = clamp(d as int);
        Vec2 {
            x: ((if self.spec_contains(RIGHT) { c as int } else { 0 }) - (if self.spec_contains(LEFT) {
                c as int
            } else {
                0
            })) as i64,
            y: ((if self.spec_contains(DOWN) { c as int } else { 0 }) - (if self.spec_contains(UP) {
                c as int
            } else {
                0
            })) as i64,
        }
    }

    /// The acceleration that the held keys ask for.
    #[verifier::when_used_as_spec(spec_acceleration)]
    pub fn acceleration(&self, d: i64) -> (acc: Vec2)
        ensures
            acc == self.spec_acceleration(d),
    {
        let c: i64 = saturate(d as i128);
        let mut x: i64 = 0;
        let mut y: i64 = 0;
        if self.contains(LEFT) {
            x = x - c;
        }
        if self.contains(RIGHT) {
            x = x + c;
        }
        if self.contains(DOWN) {
            y = y + c;
        }
        if self.contains(UP) {
            y = y - c;
        }
        Vec2 { x, y }
    }
}

/// Whether the swimmer has been bitten of late.
#[derive(Clone, Copy, PartialEq, Eq, Debug, Structural)]
pub enum State {
    /// Bitten, and for how many more seconds it shows.
    Bitten(i64),
    Normal,
}

/// The swimmer.
pub struct Player {
    pub pos: Vec2,
    pub vel: Vec2,
    pub key_state: KeyState,
    pub time_since_last_frame_update: i64,
    /// The animation frame on show, below `FRAME_COUNT`.
    pub frame: usize,
    pub state: State,
}

/// A bite `dt` seconds later: it shows for that much less time, and is over
/// once the time left would fall below zero.
pub open spec fn faded(state: State, dt: i64) -> State {
    match state {
        State::Normal => State::Normal,
        State::Bitten(sec) => {
            let left = spec_minus(sec, dt);
            if left < 0 {
                State::Normal
            } else {
                State::Bitten(left)
            }
        },
    }
}

/// What the water divides the velocity `v` of a swimmer by: the growth of
/// the squared speed times the friction, in fine units. Both are taken
/// exactly, so it is above one for every swimmer who moves at all.
pub open spec fn drag(v: Vec2) -> int {
    spec_growth(v.spec_square_len() * WATER_FRICTION)
}

/// A scalar slowed by the water: divided by the drag, and rounded to the
/// nearest raw unit.
pub open spec fn slowed(x: i64, drag: int) -> i64 {
    clamp(round_div(x * FINE, drag))
}

/// The velocity after `dt` seconds: sped up by the held keys, then slowed by
/// the water.
pub open spec fn next_velocity(vel: Vec2, keys: KeyState, dt: i64) -> Vec2 {
    let pushed = vel.spec_plus(keys.spec_acceleration(ACC).spec_scaled(dt));
    Vec2 { x: slowed(pushed.x, drag(pushed)), y: slowed(pushed.y, drag(pushed)) }
}

/// Where `dt` seconds carry a swimmer: along the flow and along the mean of
/// the old and the new velocity.
pub open spec fn next_position(pos: Vec2, vel: Vec2, next_vel: Vec2, flow: Vec2, dt: i64) -> Vec2 {
    pos.spec_plus(flow.spec_plus(vel.spec_plus(next_vel).spec_scaled(HALF)).spec_scaled(dt))
}

/// The frame that follows `frame`: one back while the up key is held, else
/// one on, around the ring of frames.
pub open spec fn next_frame(frame: usize, keys: KeyState) -> usize {
    if keys.spec_contains(UP) {
        ((frame % FRAME_COUNT + FRAME_COUNT - 1) % (FRAME_COUNT as int)) as usize
    } else {
        ((frame % FRAME_COUNT + 1) % (FRAME_COUNT as int)) as usize
    }
}

impl Player {
    /// A swimmer at rest at `pos`, with no key held and unbitten.
    pub fn new(pos: Vec2) -> (p: Player)
        ensures
            p.pos == pos,
            p.vel == Vec2::spec_zero(),
            p.key_state == KeyState::spec_empty(),
            p.time_since_last_frame_update == 0,
            p.frame == 0,
            p.state == State::Normal,
    {
        Player {
            pos,
            vel: Vec2::zero(),
            key_state: KeyState::empty(),
            time_since_last_frame_update: 0,
            frame: 0,
            state: State::Normal,
        }
    }

    /// The swimmer `dt` seconds later, as far as the animation goes: once
    /// more than a frame interval has gathered, the next frame shows.
    pub open spec fn animated(&self, dt: i64) -> (i64, usize) {
        let gathered = spec_plus(self.time_since_last_frame_update, dt);
        if gathered > FRAME_INTERVAL {
            (spec_minus(gathered, FRAME_INTERVAL), next_frame(self.frame, self.key_state))
        } else {
            (gathered, self.frame)
        }
    }

    /// The swimmer after one step of `dt` seconds. A bite fades; the keys and
    /// the water give the new velocity; the flow at the swimmer's place and
    /// the mean velocity give the place to move to. If that place lies inside
    /// a rock the swimmer stays put, with the new velocity.
    pub open spec fn stepped(&self, dt: i64, stream: &Stream, rocks: &Rocks) -> Player {
        Player {
            pos: if hits_any(rocks.rocks@, self.projected(dt, stream)) {
                self.pos
            } else {
                self.projected(dt, stream)
            },
            vel: next_velocity(self.vel, self.key_state, dt),
            key_state: self.key_state,
            time_since_last_frame_update: self.time_since_last_frame_update,
            frame: self.frame,
            state: faded(self.state, dt),
        }
    }

    /// The swimmer after a tick of `dt` seconds: the animation moves on by
    /// its own clock, which runs faster by the speed-up, then the physics
    /// takes its step of `dt` seconds.
    pub open spec fn updated(&self, dt: i64, stream: &Stream, rocks: &Rocks) -> Player {
        let shown = spec_times(dt, SPEEDUP);
        (Player {
            pos: self.pos,
            vel: self.vel,
            key_state: self.key_state,
            time_since_last_frame_update: self.animated(shown).0,
            frame: self.animated(shown).1,
            state: self.state,
        }).stepped(dt, stream, rocks)
    }

    /// One step of the swimmer's physics over `dt` seconds.
    pub fn integrate(&mut self, dt: i64, stream: &Stream, rocks: &Rocks)
        requires
            stream.wf(),
        ensures
            *final(self) == old(self).stepped(dt, stream, rocks),
    {
        let acc: Vec2 = self.key_state.acceleration(ACC);
        self.state = match self.state {
            State::Normal => State::Normal,
            State::Bitten(sec) => {
                let left: i64 = minus(sec, dt);
                if left < 0 {
                    State::Normal
                } else {
                    State::Bitten(left)
                }
            },
        };
        let pushed: Vec2 = self.vel.plus(acc.scaled(dt));
        assert(pushed.x * pushed.x + pushed.y * pushed.y <= 2_000_000_000_000_000_000_000_000)
            by (nonlinear_arith)
            requires
                -1_000_000_000_000 <= pushed.x <= 1_000_000_000_000,
                -1_000_000_000_000 <= pushed.y <= 1_000_000_000_000,
        ;
        let drag: u128 = growth(pushed.square_len() * (WATER_FRICTION as u128));
        assert(-1_000_000_000_000_000_000_000_000 <= pushed.x * FINE <= 1_000_000_000_000_000_000_000_000
            && -1_000_000_000_000_000_000_000_000 <= pushed.y * FINE
            <= 1_000_000_000_000_000_000_000_000) by (nonlinear_arith)
            requires
                -1_000_000_000_000 <= pushed.x <= 1_000_000_000_000,
                -1_000_000_000_000 <= pushed.y <= 1_000_000_000_000,
                FINE == 1_000_000_000_000,
        ;
        let slowed: Vec2 = Vec2 {
            x: saturate(div_to_nearest((pushed.x as i128) * (FINE as i128), drag as i128)),
            y: saturate(div_to_nearest((pushed.y as i128) * (FINE as i128), drag as i128)),
        };
        let mean: Vec2 = self.vel.plus(slowed).scaled(HALF);
        let flow: Vec2 = stream.at(self.pos);
        let next_pos: Vec2 = self.pos.plus(flow.plus(mean).scaled(dt));
        self.vel = slowed;
        if !rocks.hits(next_pos) {
            self.pos = next_pos;
        }
    }

    /// How far a bite has faded, from zero for a fresh bite to one for a bite
    /// about to vanish; nothing for a swimmer who is not bitten.
    pub fn bite_fade(&self) -> (t: Option<i64>)
        ensures
            t == match self.state {
                State::Bitten(sec) => Some(spec_minus(UNIT, spec_over(sec, BITTEN_FADE_OUT_SECONDS))),
                State::Normal => None,
            },
    {
        match self.state {
            State::Bitten(sec) => Some(minus(UNIT, over(sec, BITTEN_FADE_OUT_SECONDS))),
            State::Normal => None,
        }
    }

    /// Where the next step of `dt` seconds would take the swimmer if no rock
    /// were in the way.
    pub open spec fn projected(&self, dt: i64, stream: &Stream) -> Vec2 {
        next_position(
            self.pos,
            self.vel,
            next_velocity(self.vel, self.key_state, dt),
            flow_at(stream.arrows@, stream.arrow_phases@, self.pos),
            dt,
        )
    }
}

/// Lets a tick of `dt` seconds pass for the swimmer: the animation moves on
/// by its own, faster clock, then the physics takes its step of `dt`
/// seconds.
pub fn update_player(player: &mut Player, stream: &Stream, rocks: &Rocks, dt: i64)
    requires
        stream.wf(),
    ensures
        *final(player) == old(player).updated(dt, stream, rocks),
{
    let gathered: i64 = plus(player.time_since_last_frame_update, times(dt, SPEEDUP));
    if gathered > FRAME_INTERVAL {
        let at: usize = player.frame % FRAME_COUNT;
        if player.key_state.contains(UP) {
            player.frame = (at + FRAME_COUNT - 1) % FRAME_COUNT;
        } else {
            player.frame = (at + 1) % FRAME_COUNT;
        }
        player.time_since_last_frame_update = minus(gathered, FRAME_INTERVAL);
    } else {
        player.time_since_last_frame_update = gathered;
    }
    player.integrate(dt, stream, rocks);
}

/// A key that has just been pressed is held.
pub proof fn lemma_insert_holds(bits: u8, keys: u8)
    ensures
        (KeyState { bits: bits | keys }).spec_contains(keys),
{
    assert((bits | keys) & keys == keys) by (bit_vector);
}

/// A key that has just been let go is not held.
pub proof fn lemma_remove_frees(bits: u8, keys: u8)
    requires
        keys != 0,
    ensures
        !(KeyState { bits: bits & !keys }).spec_contains(keys),
{
    assert(keys != 0 ==> (bits & !keys) & keys != keys) by (bit_vector);
}

/// Pressing or letting go of some keys does not change whether other keys
/// are held.
pub proof fn lemma_other_keys_untouched(bits: u8, keys: u8, other: u8)
    requires
        keys & other == 0,
    ensures
        (KeyState { bits: bits | keys }).spec_contains(other) == (KeyState { bits }).spec_contains(other),
        (KeyState { bits: bits & !keys }).spec_contains(other) == (KeyState { bits }).spec_contains(other),
{
    assert(keys & other == 0 ==> ((bits | keys) & other == other) == (bits & other == other))
        by (bit_vector);
    assert(keys & other == 0 ==> ((bits & !keys) & other == other) == (bits & other == other))
        by (bit_vector);
}

/// Two opposite keys held together cancel: no acceleration along their axis.
pub proof fn lemma_opposite_keys_cancel(keys: KeyState, d: i64)
    ensures
        keys.spec_contains(LEFT) && keys.spec_contains(RIGHT) ==> keys.spec_acceleration(d).x == 0,
        keys.spec_contains(UP) && keys.spec_contains(DOWN) ==> keys.spec_acceleration(d).y == 0,
        !keys.spec_contains(LEFT) && !keys.spec_contains(RIGHT) ==> keys.spec_acceleration(d).x == 0,
        !keys.spec_contains(UP) && !keys.spec_contains(DOWN) ==> keys.spec_acceleration(d).y == 0,
{
}

/// With no key held there is no acceleration.
pub proof fn lemma_no_keys_no_acceleration(d: i64)
    ensures
        KeyState::spec_empty().spec_acceleration(d) == Vec2::spec_zero(),
{
    assert(0u8 & 1u8 != 1u8) by (bit_vector);
    assert(0u8 & 2u8 != 2u8) by (bit_vector);
    assert(0u8 & 4u8 != 4u8) by (bit_vector);
    assert(0u8 & 8u8 != 8u8) by (bit_vector);
}

/// A quotient lies on the same side of a number as its dividend lies of
/// that number's product with the divisor.
proof fn lemma_quotient_sides(n: int, d: int, k: int)
    requires
        d > 0,
        n >= 0,
    ensures
        n < k * d ==> n / d < k,
        n >= k * d ==> n / d >= k,
{
    vstd::arithmetic::div_mod::lemma_fundamental_div_mod(n, d);
    vstd::arithmetic::div_mod::lemma_mod_bound(n, d);
    let q = n / d;
    let r = n % d;
    if n < k * d {
        assert(q < k) by (nonlinear_arith)
            requires
                n == d * q + r,
                0 <= r < d,
                n < k * d,
                d > 0,
        ;
    }
    if n >= k * d {
        assert(q >= k) by (nonlinear_arith)
            requires
                n == d * q + r,
                0 <= r < d,
                n >= k * d,
                d > 0,
        ;
    }
}

/// The water brings a scalar no farther from zero and never across it. It
/// leaves something of every scalar that is at least half the drag, and
/// takes something from every scalar that the drag outweighs.
pub proof fn lemma_slowed(x: i64, drag: int)
    requires
        in_range(x),
        FINE <= drag <= CAP,
    ensures
        x >= 0 ==> 0 <= slowed(x, drag) <= x,
        x <= 0 ==> x <= slowed(x, drag) <= 0,
        x > 0 && 2 * x * FINE >= drag ==> slowed(x, drag) > 0,
        x < 0 && 2 * (-x) * FINE >= drag ==> slowed(x, drag) < 0,
        x > 0 && drag * (2 * x - 1) > 2 * x * FINE ==> slowed(x, drag) < x,
        x < 0 && drag * (2 * (-x) - 1) > 2 * (-x) * FINE ==> slowed(x, drag) > x,
{
    let m: int = if x >= 0 { x as int } else { -x };
    let n = 2 * (m * FINE) + drag;
    let d = 2 * drag;
    assert(0 <= m * FINE <= m * drag) by (nonlinear_arith)
        requires
            0 <= m,
            0 <= FINE <= drag,
    ;
    assert((m + 1) * d == 2 * (m * drag) + 2 * drag) by (nonlinear_arith)
        requires
            d == 2 * drag,
    ;
    assert(m * d == 2 * (m * drag)) by (nonlinear_arith)
        requires
            d == 2 * drag,
    ;
    assert(drag * (2 * m - 1) == 2 * (m * drag) - drag) by (nonlinear_arith);
    assert(2 * m * FINE == 2 * (m * FINE)) by (nonlinear_arith);
    lemma_quotient_sides(n, d, m + 1);
    lemma_quotient_sides(n, d, m);
    lemma_quotient_sides(n, d, 1);
    lemma_quotient_sides(n, d, 0);
    if x >= 0 {
        assert(x * FINE == m * FINE);
        assert(round_div(x * FINE, drag) == n / d);
    } else {
        assert(x * FINE == -(m * FINE)) by (nonlinear_arith)
            requires
                m == -x,
        ;
        if m * FINE == 0 {
            assert(false) by (nonlinear_arith)
                requires
                    m * FINE == 0,
                    m > 0,
                    FINE > 0,
            ;
        }
        assert(round_div(x * FINE, drag) == -(n / d));
    }
}

/// A swimmer who holds no key (or keys that cancel) never gets faster and
/// is never turned round: the water only slows them.
pub proof fn lemma_drag_never_speeds_up(vel: Vec2, keys: KeyState, dt: i64)
    requires
        in_range(vel.x),
        in_range(vel.y),
        keys.spec_acceleration(ACC) == Vec2::spec_zero(),
    ensures
        next_velocity(vel, keys, dt) == (Vec2 { x: slowed(vel.x, drag(vel)), y: slowed(vel.y, drag(vel)) }),
        next_velocity(vel, keys, dt).spec_square_len() <= vel.spec_square_len(),
        vel.x >= 0 ==> 0 <= next_velocity(vel, keys, dt).x <= vel.x,
        vel.x <= 0 ==> vel.x <= next_velocity(vel, keys, dt).x <= 0,
        vel.y >= 0 ==> 0 <= next_velocity(vel, keys, dt).y <= vel.y,
        vel.y <= 0 ==> vel.y <= next_velocity(vel, keys, dt).y <= 0,
{
    let e = vel.spec_square_len() * WATER_FRICTION;
    crate::curves::lemma_growth(e, e);
    lemma_slowed(vel.x, drag(vel));
    lemma_slowed(vel.y, drag(vel));
    let next = next_velocity(vel, keys, dt);
    lemma_square_ordered(next.x, vel.x);
    lemma_square_ordered(next.y, vel.y);
}

/// The larger component of a velocity that is not zero, and what follows for
/// the drag: the exponent is the squared speed times the friction, and the
/// squared speed is at most twice the square of that component.
proof fn lemma_larger_component(vel: Vec2) -> (a: i64)
    requires
        vel != Vec2::spec_zero(),
    ensures
        a == vel.x || a == vel.y,
        a != 0,
        a * a <= vel.spec_square_len() <= 2 * (a * a),
        vel.spec_square_len() * WATER_FRICTION == 400 * vel.spec_square_len(),
{
    let a = if vel.x * vel.x >= vel.y * vel.y {
        vel.x
    } else {
        vel.y
    };
    assert(vel.x * vel.x >= 0 && vel.y * vel.y >= 0) by (nonlinear_arith);
    if a == 0 {
        assert(vel.x * vel.x > 0 || vel.y * vel.y > 0) by (nonlinear_arith)
            requires
                vel.x != 0 || vel.y != 0,
        ;
        assert(a * a == 0) by (nonlinear_arith)
            requires
                a == 0,
        ;
    }
    assert(vel.spec_square_len() * WATER_FRICTION == 400 * vel.spec_square_len()) by (nonlinear_arith)
        requires
            WATER_FRICTION == 400,
    ;
    a
}

/// A swimmer who holds no key (or keys that cancel) never comes to a full
/// stop: the water slows them, but something of their speed is always left.
pub proof fn lemma_drag_never_stops(vel: Vec2, keys: KeyState, dt: i64)
    requires
        in_range(vel.x),
        in_range(vel.y),
        keys.spec_acceleration(ACC) == Vec2::spec_zero(),
        vel != Vec2::spec_zero(),
    ensures
        next_velocity(vel, keys, dt) != Vec2::spec_zero(),
{
    lemma_drag_never_speeds_up(vel, keys, dt);
    let a = lemma_larger_component(vel);
    let sq = vel.spec_square_len();
    let e = sq * WATER_FRICTION;
    crate::curves::lemma_growth(e, e);
    let m: int = if a >= 0 { a as int } else { -a };
    assert(m * m == a * a) by (nonlinear_arith)
        requires
            m == a || m == -a,
    ;
    if m >= 1_000_000 {
        assert(2 * m * FINE >= CAP) by (nonlinear_arith)
            requires
                m >= 1_000_000,
                FINE == 1_000_000_000_000,
                CAP == 1_000_000_000_000_000_000,
        ;
    } else {
        assert(m * m < 1_000_000_000_000) by (nonlinear_arith)
            requires
                0 <= m < 1_000_000,
        ;
        crate::curves::lemma_growth(e, 800_000_000_000_000);
        crate::curves::lemma_growth_at_square_speed_two();
        assert(2 * m * FINE >= 2 * FINE) by (nonlinear_arith)
            requires
                m >= 1,
                FINE > 0,
        ;
    }
    lemma_slowed(a, drag(vel));
}

/// A swimmer who holds no key (or keys that cancel) and moves at a speed of
/// one or more gets strictly slower with every step.
pub proof fn lemma_drag_slows_down(vel: Vec2, keys: KeyState, dt: i64)
    requires
        in_range(vel.x),
        in_range(vel.y),
        keys.spec_acceleration(ACC) == Vec2::spec_zero(),
        vel.spec_square_len() >= UNIT * UNIT,
    ensures
        next_velocity(vel, keys, dt).spec_square_len() < vel.spec_square_len(),
{
    assert(vel != Vec2::spec_zero()) by (nonlinear_arith)
        requires
            vel.x * vel.x + vel.y * vel.y >= UNIT * UNIT,
            UNIT == 1_000_000,
    ;
    lemma_drag_never_speeds_up(vel, keys, dt);
    let a = lemma_larger_component(vel);
    let sq = vel.spec_square_len();
    let e = sq * WATER_FRICTION;
    let m: int = if a >= 0 { a as int } else { -a };
    assert(m * m == a * a) by (nonlinear_arith)
        requires
            m == a || m == -a,
    ;
    assert(sq >= 1_000_000_000_000) by (nonlinear_arith)
        requires
            sq >= UNIT * UNIT,
            UNIT == 1_000_000,
    ;
    assert(m >= 707_107) by (nonlinear_arith)
        requires
            m >= 0,
            2 * (m * m) >= 1_000_000_000_000,
    ;
    crate::curves::lemma_growth(400_000_000_000_000, e);
    crate::curves::lemma_growth_at_speed_one();
    let y = drag(vel);
    assert(y * (2 * m - 1) > 2 * m * FINE) by (nonlinear_arith)
        requires
            y >= 1_000_400_111_338,
            m >= 707_107,
            FINE == 1_000_000_000_000,
    ;
    lemma_slowed(a, y);
    lemma_slowed(vel.x, y);
    lemma_slowed(vel.y, y);
    let next = next_velocity(vel, keys, dt);
    lemma_square_ordered(next.x, vel.x);
    lemma_square_ordered(next.y, vel.y);
}

/// Of two scalars on the same side of zero, the one nearer to zero has the
/// smaller square.
pub proof fn lemma_square_ordered(a: i64, b: i64)
    requires
        (0 <= a <= b) || (b <= a <= 0),
    ensures
        a * a <= b * b,
        a != b ==> a * a < b * b,
{
    assert(a * a <= b * b) by (nonlinear_arith)
        requires
            (0 <= a <= b) || (b <= a <= 0),
    ;
    if a != b {
        assert(a * a < b * b) by (nonlinear_arith)
            requires
                (0 <= a < b) || (b < a <= 0),
        ;
    }
}

/// A rock that lies exactly where the step would take the swimmer stops
/// them: the position stays, the velocity still changes. This holds of the
/// bare step and of the whole tick alike.
pub proof fn lemma_collision_rejects_move(player: Player, dt: i64, stream: &Stream, rocks: &Rocks, i: int)
    requires
        0 <= i < rocks.rocks@.len(),
        rocks.rocks@[i].pos == player.projected(dt, stream),
    ensures
        player.stepped(dt, stream, rocks).pos == player.pos,
        player.stepped(dt, stream, rocks).vel == next_velocity(player.vel, player.key_state, dt),
        player.updated(dt, stream, rocks).pos == player.pos,
        player.updated(dt, stream, rocks).vel == next_velocity(player.vel, player.key_state, dt),
{
    crate::rocks::lemma_rock_at_point_is_hit(rocks.rocks@, i, player.projected(dt, stream));
}

} // verus!
