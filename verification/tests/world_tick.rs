use sea_birds_breakfast::behavior::Behavior;
use sea_birds_breakfast::blood::BloodDrop;
use sea_birds_breakfast::blood_bar::BloodBar;
use sea_birds_breakfast::game::GameState;
use sea_birds_breakfast::player;
use sea_birds_breakfast::player::{LEFT, RIGHT, UP};
use sea_birds_breakfast::rocks::Rock;
use sea_birds_breakfast::sea_birds::{Action, SeaBird};
use sea_birds_breakfast::settings::blood_bar::START_VAL;
use sea_birds_breakfast::settings::player::BITTEN_FADE_OUT_SECONDS;
use sea_birds_breakfast::settings::LoadError;
use sea_birds_breakfast::stream::{Arrow, SelectedArrow};
use sea_birds_breakfast::vector::Vec2;
use sea_birds_breakfast::world::{key_of, Command, World};

fn fx(x: f64) -> i64 {
    (x * 1_000_000.0).round() as i64
}

fn point(x: f64, y: f64) -> Vec2 {
    Vec2 { x: fx(x), y: fx(y) }
}

fn new_world() -> World {
    World::new([0, 0, fx(640.0), fx(480.0)])
}

fn biting_bird(world: &mut World) {
    let mut tree: Behavior<Action> = Behavior::new();
    let _bite = tree.action(Action::AttackPlayer(fx(0.1)));
    world.sea_birds.behavior = tree;
    world.sea_birds.birds.clear();
    let bird = SeaBird::new(point(0.0, 0.0), point(0.0, 0.0), &world.sea_birds.behavior);
    world.sea_birds.birds.push(bird);
}

#[test]
fn a_new_world_is_ready_to_play() {
    let world = new_world();
    assert_eq!(world.game_state, GameState::Play);
    assert_eq!(world.player.pos, point(100.0, 100.0));
    assert_eq!(world.blood_bar, BloodBar(START_VAL));
    assert_eq!(world.stream.rect, [0, 0, fx(640.0), fx(480.0)]);
    assert_eq!(world.stream.strength, [fx(10.0), fx(50.0)]);
    assert_eq!(world.stream.arrows.len(), 0);
    assert_eq!(world.moving_arrows.len(), 0);
    assert_eq!(world.rocks.rocks.len(), 0);
    assert_eq!(world.palm_trees.palms.len(), 0);
    assert_eq!(world.sea_birds.birds.len(), 0);
    assert_eq!(world.sea_birds.behavior.nodes.len(), 16);
    assert_eq!(world.blood.blood_drops.len(), 0);
    assert_eq!(world.selected_arrow, SelectedArrow(None));
    assert_eq!(world.cursor, point(0.0, 0.0));
}

#[test]
fn a_level_is_loaded_whole_or_not_at_all() {
    let mut world = new_world();
    let arrows = b"10, 20, 1, 0, 0,\n";
    let rocks = b"300, 300,\n";
    let palms = b"1, 2,\n3, 4,\n";
    let birds = b"400, 50,\n";
    assert_eq!(world.load(arrows, rocks, palms, b"1"), Err(LoadError::Incomplete));
    assert_eq!(world.load(arrows, rocks, b"1, 2, 3", birds), Err(LoadError::Incomplete));
    assert_eq!(world.load(arrows, b"1", palms, birds), Err(LoadError::Incomplete));
    assert_eq!(world.load(b"1, 2, 3, 4", rocks, palms, birds), Err(LoadError::Incomplete));
    assert_eq!(world.load(arrows, rocks, palms, b"1, b"), Err(LoadError::Malformed));
    assert_eq!(world.load(b"1, 2, 3, 4", rocks, b"palm", birds), Err(LoadError::Malformed));
    assert_eq!(world.stream.arrows.len(), 0);
    assert_eq!(world.rocks.rocks.len(), 0);
    assert_eq!(world.palm_trees.palms.len(), 0);
    assert_eq!(world.sea_birds.birds.len(), 0);
    assert_eq!(world.moving_arrows.len(), 0);

    assert_eq!(world.load(arrows, rocks, palms, birds), Ok(()));
    assert_eq!(world.stream.arrows, vec![Arrow { pos: point(10.0, 20.0), dir: point(1.0, 0.0) }]);
    assert_eq!(world.stream.arrow_phases, vec![0]);
    assert_eq!(world.rocks.rocks, vec![Rock { pos: point(300.0, 300.0) }]);
    assert_eq!(world.palm_trees.palms, vec![point(1.0, 2.0), point(3.0, 4.0)]);
    assert_eq!(world.sea_birds.birds.len(), 1);
    assert_eq!(world.sea_birds.birds[0].target, point(400.0, 50.0));
    assert_eq!(world.moving_arrows.len(), 25 * 19);
    assert_eq!(world.moving_arrows[0].arrow.dir, point(1.0, 0.0));
    assert_eq!(world.moving_arrows[20].start_pos, point(25.0, 25.0));
    assert_eq!(world.game_state, GameState::Play);
}

#[test]
fn a_tick_moves_every_part_of_the_world() {
    let mut world = new_world();
    world.load(b"10, 20, 1, 0, 0", b"", b"", b"400, 50").unwrap();
    world.press(Command::MoveRight);
    world.update(fx(0.25));
    assert_eq!(world.game_state, GameState::Play);
    assert_eq!(world.stream.arrow_phases, vec![35_714]);
    assert_eq!(world.blood_bar, BloodBar(START_VAL - 1_250));
    assert!(world.player.pos.x > fx(100.0));
    assert_eq!(world.player.pos.y, fx(100.0));
    assert!(world.player.vel.x > 0);
    assert_eq!(world.player.frame, 1);
    assert_eq!(world.sea_birds.birds[0].pos, point(405.0, 50.0));
    // the drop fell where the swimmer was before this tick's stroke, and has drifted since
    assert_eq!(world.blood.blood_drops.len(), 1);
    assert_eq!(world.blood.blood_drops[0].time, fx(0.25));
    assert_eq!(world.blood.blood_drops[0].pos.y, fx(100.0));
    assert!(world.blood.blood_drops[0].pos.x > fx(100.0) && world.blood.blood_drops[0].pos.x < fx(100.3));
    assert_eq!(world.moving_arrows[0].time, world.moving_arrows[0].arrow.pos.x);
}

#[test]
fn a_bite_counts_in_the_tick_in_which_it_lands() {
    let mut world = new_world();
    biting_bird(&mut world);
    world.blood_bar = BloodBar(fx(0.05));
    world.update(fx(0.016));
    assert_eq!(world.blood_bar, BloodBar(0));
    assert_eq!(world.player.state, player::State::Bitten(BITTEN_FADE_OUT_SECONDS));
    assert_eq!(world.game_state, GameState::Lose);
}

#[test]
fn a_fresh_bite_is_not_faded_in_its_own_tick() {
    let mut world = new_world();
    biting_bird(&mut world);
    world.update(fx(0.5));
    assert_eq!(world.player.state, player::State::Bitten(BITTEN_FADE_OUT_SECONDS));
    assert_eq!(world.blood_bar, BloodBar(START_VAL - 2_500 - fx(0.1)));
    world.sea_birds.birds.clear();
    world.update(fx(0.5));
    assert_eq!(world.player.state, player::State::Bitten(fx(1.5)));
}

#[test]
fn a_lost_world_stands_still() {
    let mut world = new_world();
    world.load(b"10, 20, 1, 0, 0", b"", b"", b"0, 0").unwrap();
    world.press(Command::MoveRight);
    world.blood_bar = BloodBar(1);
    world.update(fx(1.0));
    assert_eq!(world.blood_bar, BloodBar(0));
    assert_eq!(world.game_state, GameState::Lose);
    let pos = world.player.pos;
    let vel = world.player.vel;
    let phases = world.stream.arrow_phases.clone();
    let bird = world.sea_birds.birds[0].pos;
    let drops = world.blood.blood_drops.clone();
    let moving = world.moving_arrows.clone();
    for _ in 0..20 {
        world.update(fx(1.0));
        assert_eq!(world.game_state, GameState::Lose);
        assert_eq!(world.player.pos, pos);
        assert_eq!(world.player.vel, vel);
        assert_eq!(world.stream.arrow_phases, phases);
        assert_eq!(world.sea_birds.birds[0].pos, bird);
        assert_eq!(world.blood.blood_drops, drops);
        assert_eq!(world.moving_arrows, moving);
        assert_eq!(world.blood_bar, BloodBar(0));
    }
}

#[test]
fn the_beach_wins_and_the_world_stands_still() {
    let mut world = new_world();
    world.player.pos = point(1000.0, 250.0);
    world.update(0);
    assert_eq!(world.game_state, GameState::Win);
    world.player.pos = point(0.0, 0.0);
    world.blood_bar = BloodBar(0);
    world.update(fx(1.0));
    assert_eq!(world.game_state, GameState::Win);
    assert_eq!(world.player.pos, point(0.0, 0.0));
    assert_eq!(world.blood.blood_drops, Vec::<BloodDrop>::new());
}

#[test]
fn swimming_onto_the_beach_wins() {
    let mut world = new_world();
    world.player.pos = point(499.0, 250.0);
    world.press(Command::MoveRight);
    let mut ticks = 0;
    while world.game_state == GameState::Play && ticks < 2_000 {
        world.update(fx(0.016));
        ticks += 1;
    }
    assert_eq!(world.game_state, GameState::Win);
    assert!(world.player.pos.x > fx(500.0));
    assert!(world.blood_bar.0 > 0);
}

#[test]
fn a_swimmer_who_does_nothing_bleeds_out() {
    let mut world = new_world();
    let mut ticks = 0;
    let mut last = world.blood_bar.0;
    while world.game_state == GameState::Play && ticks < 1_000 {
        world.update(fx(1.0));
        assert!(world.blood_bar.0 >= 0 && world.blood_bar.0 < last);
        last = world.blood_bar.0;
        ticks += 1;
    }
    // a full bar at 0.005 a second lasts 200 seconds
    assert_eq!(ticks, 200);
    assert_eq!(world.game_state, GameState::Lose);
    assert_eq!(world.blood_bar, BloodBar(0));
}

#[test]
fn keys_steer_and_the_restart_key_waits_for_the_end() {
    let mut world = new_world();
    assert!(!world.press(Command::MoveLeft));
    assert!(!world.press(Command::MoveUp));
    assert_eq!(world.player.key_state.bits, LEFT | UP);
    world.release(Command::MoveLeft);
    assert_eq!(world.player.key_state.bits, UP);
    assert!(!world.press(Command::MoveRight));
    assert_eq!(world.player.key_state.bits, UP | RIGHT);
    world.release(Command::MoveDown);
    assert_eq!(world.player.key_state.bits, UP | RIGHT);
    assert!(!world.press(Command::RestartLevel));
    assert_eq!(world.player.key_state.bits, UP | RIGHT);
    world.game_state = GameState::Lose;
    assert!(world.press(Command::RestartLevel));
    assert!(!world.press(Command::MoveLeft));
    world.game_state = GameState::Win;
    assert!(world.press(Command::RestartLevel));
    assert_eq!(key_of(Command::MoveDown), 8);
    assert_eq!(key_of(Command::AddArrow), 0);
}

#[test]
fn the_editor_is_switched_off() {
    let mut world = new_world();
    world.selected_arrow = SelectedArrow(None);
    world.mouse_cursor(point(12.0, 34.0));
    assert_eq!(world.cursor, point(12.0, 34.0));
    assert!(!world.press(Command::AddArrow));
    assert_eq!(world.stream.arrows.len(), 0);
    assert_eq!(world.selected_arrow, SelectedArrow(None));
    world.release(Command::AddArrow);
    assert_eq!(world.selected_arrow, SelectedArrow(None));
}
