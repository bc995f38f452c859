//! The outcome of a game: play goes on until the swimmer reaches the beach or
//! runs out of blood, and what has ended stays ended.

use vstd::prelude::*;
use crate::blood_bar::BloodBar;
use crate::player::Player;
use crate::settings::{BEACH_HEIGHT, BEACH_WIDTH, BEACH_X, BEACH_Y};
use crate::vector::Vec2;

verus! {

/// Whether the game is on, lost or won.
#[derive(Clone, Copy, PartialEq, Eq, Debug, Structural)]
pub enum GameState {
    Play,
    Lose,
    Win,
}

/// Half the width of the beach.
pub open spec fn beach_rx() -> int {
    BEACH_WIDTH / 2
}

/// Half the height of the beach.
pub open spec fn beach_ry() -> int {
    BEACH_HEIGHT / 2
}

/// The centre of the beach.
pub open spec fn beach_center() -> Vec2 {
    Vec2 { x: (BEACH_X + beach_rx()) as i64, y: (BEACH_Y + beach_ry()) as i64 }
}

/// Whether `pos` lies strictly inside the beach ellipse:
/// `(dx/rx)^2 + (dy/ry)^2 < 1`, cleared of its fractions.
pub open spec fn on_beach(pos: Vec2) -> bool {
    let dx = pos.x - beach_center().x;
    let dy = pos.y - beach_center().y;
    dx * dx * (beach_ry() * beach_ry()) + dy * dy * (beach_rx() * beach_rx()) < beach_rx() * beach_rx()
        * (beach_ry() * beach_ry())
}

/// The state that follows `state` when the swimmer is or is not on the beach
/// and that much blood is left. Only a game in play can change: to won on the
/// beach, else to lost without blood.
pub open spec fn next_state(state: GameState, won: bool, blood: i64) -> GameState {
    match state {
        GameState::Play => if won {
            GameState::Win
        } else if blood == 0 {
            GameState::Lose
        } else {
            GameState::Play
        },
        GameState::Lose => GameState::Lose,
        GameState::Win => GameState::Win,
    }
}

/// The state after a run of checks, each with its own reading of the beach
/// and of the blood.
pub open spec fn state_after(state: GameState, readings: Seq<(bool, i64)>) -> GameState
    decreases readings.len(),
{
    if readings.len() == 0 {
        state
    } else {
        next_state(state_after(state, readings.drop_last()), readings.last().0, readings.last().1)
    }
}

/// Whether the world should move on: only while the game is in play.
pub fn should_update(state: GameState) -> (r: bool)
    ensures
        r == (state == GameState::Play),
{
    match state {
        GameState::Play => true,
        _ => false,
    }
}

/// Whether a finished game may be started over.
pub fn can_restart(state: GameState) -> (r: bool)
    ensures
        r == (state != GameState::Play),
{
    match state {
        GameState::Win | GameState::Lose => true,
        _ => false,
    }
}

/// Whether the swimmer has reached the beach.
pub fn won(player: &Player) -> (r: bool)
    ensures
        r == on_beach(player.pos),
{
    let rx: i128 = (BEACH_WIDTH / 2) as i128;
    let ry: i128 = (BEACH_HEIGHT / 2) as i128;
    let dx: i128 = player.pos.x as i128 - (BEACH_X as i128 + rx);
    let dy: i128 = player.pos.y as i128 - (BEACH_Y as i128 + ry);
    if dx <= -rx || dx >= rx || dy <= -ry || dy >= ry {
        proof {
            lemma_outside_box(dx as int, dy as int);
        }
        return false;
    }
    proof {
        lemma_inside_box(dx as int, dy as int);
    }
    let rx2: i128 = rx * rx;
    let ry2: i128 = ry * ry;
    dx * dx * ry2 + dy * dy * rx2 < rx2 * ry2
}

/// Outside the box around the ellipse the inequality of the ellipse fails.
proof fn lemma_outside_box(dx: int, dy: int)
    requires
        dx <= -beach_rx() || dx >= beach_rx() || dy <= -beach_ry() || dy >= beach_ry(),
    ensures
        dx * dx * (beach_ry() * beach_ry()) + dy * dy * (beach_rx() * beach_rx()) >= beach_rx()
            * beach_rx() * (beach_ry() * beach_ry()),
{
    let rx = beach_rx();
    let ry = beach_ry();
    assert(rx == 500_000_000 && ry == 750_000_000);
    assert(0 <= dx * dx && 0 <= dy * dy && 0 <= rx * rx && 0 <= ry * ry) by (nonlinear_arith);
    assert(0 <= dx * dx * (ry * ry) && 0 <= dy * dy * (rx * rx)) by (nonlinear_arith)
        requires
            0 <= dx * dx,
            0 <= dy * dy,
            0 <= rx * rx,
            0 <= ry * ry,
    ;
    if dx <= -rx || dx >= rx {
        assert(dx * dx >= rx * rx) by (nonlinear_arith)
            requires
                dx <= -rx || dx >= rx,
                rx >= 0,
        ;
        assert(dx * dx * (ry * ry) >= rx * rx * (ry * ry)) by (nonlinear_arith)
            requires
                dx * dx >= rx * rx,
                0 <= ry * ry,
        ;
    } else {
        assert(dy * dy >= ry * ry) by (nonlinear_arith)
            requires
                dy <= -ry || dy >= ry,
                ry >= 0,
        ;
        assert(dy * dy * (rx * rx) >= ry * ry * (rx * rx)) by (nonlinear_arith)
            requires
                dy * dy >= ry * ry,
                0 <= rx * rx,
        ;
        assert(ry * ry * (rx * rx) == rx * rx * (ry * ry)) by (nonlinear_arith);
    }
}

/// Inside the box around the ellipse every term of the inequality is small
/// enough to be computed in wide integers.
proof fn lemma_inside_box(dx: int, dy: int)
    requires
        -beach_rx() < dx < beach_rx(),
        -beach_ry() < dy < beach_ry(),
    ensures
        beach_rx() * beach_rx() == 250_000_000_000_000_000,
        beach_ry() * beach_ry() == 562_500_000_000_000_000,
        0 <= dx * dx <= 250_000_000_000_000_000,
        0 <= dy * dy <= 562_500_000_000_000_000,
        0 <= dx * dx * (beach_ry() * beach_ry()) <= 140_625_000_000_000_000_000_000_000_000_000_000,
        0 <= dy * dy * (beach_rx() * beach_rx()) <= 140_625_000_000_000_000_000_000_000_000_000_000,
        beach_rx() * beach_rx() * (beach_ry() * beach_ry())
            == 140_625_000_000_000_000_000_000_000_000_000_000,
{
    let rx = beach_rx();
    let ry = beach_ry();
    assert(rx == 500_000_000 && ry == 750_000_000);
    assert(rx * rx == 250_000_000_000_000_000) by (nonlinear_arith)
        requires
            rx == 500_000_000,
    ;
    assert(ry * ry == 562_500_000_000_000_000) by (nonlinear_arith)
        requires
            ry == 750_000_000,
    ;
    assert(0 <= dx * dx <= 250_000_000_000_000_000) by (nonlinear_arith)
        requires
            -500_000_000 < dx < 500_000_000,
    ;
    assert(0 <= dy * dy <= 562_500_000_000_000_000) by (nonlinear_arith)
        requires
            -750_000_000 < dy < 750_000_000,
    ;
    let a = dx * dx;
    let b = dy * dy;
    assert(0 <= a * 562_500_000_000_000_000 <= 140_625_000_000_000_000_000_000_000_000_000_000)
        by (nonlinear_arith)
        requires
            0 <= a <= 250_000_000_000_000_000,
    ;
    assert(0 <= b * 250_000_000_000_000_000 <= 140_625_000_000_000_000_000_000_000_000_000_000)
        by (nonlinear_arith)
        requires
            0 <= b <= 562_500_000_000_000_000,
    ;
    assert(250_000_000_000_000_000int * 562_500_000_000_000_000int
        == 140_625_000_000_000_000_000_000_000_000_000_000int) by (nonlinear_arith);
}

/// Checks the outcome once: a game in play is won on the beach, else lost
/// without blood; a game that has ended stays as it is.
pub fn update_game_state(state: &mut GameState, player: &Player, blood_bar: &BloodBar)
    ensures
        *final(state) == next_state(*old(state), on_beach(player.pos), blood_bar.0),
{
    let next: GameState = match *state {
        GameState::Play => {
            if won(player) {
                GameState::Win
            } else if blood_bar.0 == 0 {
                GameState::Lose
            } else {
                GameState::Play
            }
        },
        x => x,
    };
    *state = next;
}

/// The centre of the beach is on the beach.
pub proof fn lemma_beach_center_wins()
    ensures
        on_beach(beach_center()),
{
    lemma_inside_box(0, 0);
}

/// A game in play is won as soon as the swimmer is on the beach, whatever
/// blood is left.
pub proof fn lemma_play_to_win(blood: i64)
    ensures
        next_state(GameState::Play, true, blood) == GameState::Win,
{
}

/// A game in play is lost when the swimmer is off the beach with no blood
/// left, and only then.
pub proof fn lemma_play_to_lose(won: bool, blood: i64)
    ensures
        next_state(GameState::Play, won, blood) == GameState::Lose <==> !won && blood == 0,
{
}

/// A game that has ended stays ended through any run of checks.
pub proof fn lemma_outcome_is_final(state: GameState, readings: Seq<(bool, i64)>)
    requires
        state != GameState::Play,
    ensures
        state_after(state, readings) == state,
    decreases readings.len(),
{
    if readings.len() > 0 {
        lemma_outcome_is_final(state, readings.drop_last());
    }
}

} // verus!
