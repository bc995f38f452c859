use sea_birds_breakfast::blood_bar::{decrease, BloodBar};
use sea_birds_breakfast::fixed::UNIT;
use sea_birds_breakfast::game::{can_restart, should_update, update_game_state, won, GameState};
use sea_birds_breakfast::player::Player;
use sea_birds_breakfast::settings::blood_bar::START_VAL;
use sea_birds_breakfast::vector::Vec2;

fn at(x: i64, y: i64) -> Player {
    Player::new(Vec2 { x: x * UNIT, y: y * UNIT })
}

#[test]
fn the_beach_is_the_inside_of_its_ellipse() {
    // centre (1000, 250), half axes 500 and 750
    assert!(won(&at(1000, 250)));
    assert!(won(&at(501, 250)));
    assert!(won(&at(1499, 250)));
    assert!(won(&at(1000, -499)));
    assert!(won(&at(1000, 999)));
    assert!(!won(&at(500, 250)));
    assert!(!won(&at(1500, 250)));
    assert!(!won(&at(1000, -500)));
    assert!(!won(&at(1000, 1000)));
    assert!(!won(&at(100, 100)));
    // (0.6, 0.8) lies on the ellipse, just inside of it is on the beach
    assert!(!won(&at(1300, 850)));
    assert!(won(&Player::new(Vec2 { x: 1300 * UNIT - 1, y: 850 * UNIT })));
    assert!(!won(&Player::new(Vec2 { x: i64::MAX, y: i64::MIN })));
    assert!(!won(&Player::new(Vec2 { x: i64::MIN, y: 250 * UNIT })));
}

#[test]
fn reaching_the_beach_wins_and_the_win_stays() {
    let mut state = GameState::Play;
    let mut player = at(1000, 250);
    update_game_state(&mut state, &player, &BloodBar(START_VAL));
    assert_eq!(state, GameState::Win);
    player.pos = Vec2 { x: 0, y: 0 };
    for _ in 0..10 {
        update_game_state(&mut state, &player, &BloodBar(START_VAL));
        assert_eq!(state, GameState::Win);
    }
    update_game_state(&mut state, &player, &BloodBar(0));
    assert_eq!(state, GameState::Win);
}

#[test]
fn running_out_of_blood_loses_and_the_loss_stays() {
    let mut state = GameState::Play;
    let mut player = at(100, 100);
    let mut bar = BloodBar(START_VAL);
    update_game_state(&mut state, &player, &bar);
    assert_eq!(state, GameState::Play);
    decrease(&mut bar, START_VAL - 1);
    update_game_state(&mut state, &player, &bar);
    assert_eq!(state, GameState::Play);
    decrease(&mut bar, 1);
    assert_eq!(bar.0, 0);
    update_game_state(&mut state, &player, &bar);
    assert_eq!(state, GameState::Lose);
    for _ in 0..10 {
        update_game_state(&mut state, &player, &bar);
        assert_eq!(state, GameState::Lose);
    }
    player.pos = Vec2 { x: 1000 * UNIT, y: 250 * UNIT };
    update_game_state(&mut state, &player, &BloodBar(START_VAL));
    assert_eq!(state, GameState::Lose);
}

#[test]
fn the_beach_counts_before_the_blood() {
    let mut state = GameState::Play;
    update_game_state(&mut state, &at(1000, 250), &BloodBar(0));
    assert_eq!(state, GameState::Win);
}

#[test]
fn the_world_moves_only_while_the_game_is_on() {
    assert!(should_update(GameState::Play));
    assert!(!should_update(GameState::Win));
    assert!(!should_update(GameState::Lose));
    assert!(!can_restart(GameState::Play));
    assert!(can_restart(GameState::Win));
    assert!(can_restart(GameState::Lose));
}
