use sea_birds_breakfast::fixed::{LIMIT, UNIT};
use sea_birds_breakfast::player::{update_player, KeyState, Player, State, DOWN, LEFT, RIGHT, UP};
use sea_birds_breakfast::rocks::{Rock, Rocks};
use sea_birds_breakfast::settings::player::{ACC, BITTEN_FADE_OUT_SECONDS, FRAME_INTERVAL};
use sea_birds_breakfast::settings::rocks::RADIUS;
use sea_birds_breakfast::stream::{Arrow, Stream};
use sea_birds_breakfast::vector::Vec2;

fn fx(x: f64) -> i64 {
    (x * 1_000_000.0).round() as i64
}

fn point(x: f64, y: f64) -> Vec2 {
    Vec2 { x: fx(x), y: fx(y) }
}

fn still_water() -> Stream {
    Stream::new([0, 0, fx(640.0), fx(480.0)], [fx(10.0), fx(50.0)])
}

fn swimmer(vel: Vec2, keys: u8) -> Player {
    let mut player = Player::new(point(100.0, 100.0));
    player.vel = vel;
    player.key_state.insert(keys);
    player
}

fn square_speed(v: Vec2) -> i128 {
    (v.x as i128) * (v.x as i128) + (v.y as i128) * (v.y as i128)
}

#[test]
fn a_new_swimmer_rests_unbitten() {
    let player = Player::new(point(1.0, 2.0));
    assert_eq!(player.pos, point(1.0, 2.0));
    assert_eq!(player.vel, Vec2 { x: 0, y: 0 });
    assert_eq!(player.key_state, KeyState::empty());
    assert_eq!(player.key_state.bits, 0);
    assert_eq!(player.time_since_last_frame_update, 0);
    assert_eq!(player.frame, 0);
    assert_eq!(player.state, State::Normal);
    assert_eq!(player.bite_fade(), None);
}

#[test]
fn keys_are_held_and_let_go_one_by_one() {
    let mut keys = KeyState::empty();
    assert!(!keys.contains(LEFT));
    keys.insert(LEFT);
    keys.insert(UP);
    assert!(keys.contains(LEFT) && keys.contains(UP) && keys.contains(LEFT | UP));
    assert!(!keys.contains(RIGHT) && !keys.contains(DOWN) && !keys.contains(LEFT | RIGHT));
    keys.remove(LEFT);
    assert!(!keys.contains(LEFT) && keys.contains(UP));
    keys.remove(LEFT);
    assert_eq!(keys.bits, UP);
    keys.insert(UP);
    assert_eq!(keys.bits, UP);
    assert!(keys.contains(0));
}

#[test]
fn acceleration_follows_the_held_keys() {
    let acc = |bits: u8| KeyState { bits }.acceleration(ACC);
    assert_eq!(acc(0), Vec2 { x: 0, y: 0 });
    assert_eq!(acc(LEFT), Vec2 { x: -ACC, y: 0 });
    assert_eq!(acc(RIGHT), Vec2 { x: ACC, y: 0 });
    assert_eq!(acc(UP), Vec2 { x: 0, y: -ACC });
    assert_eq!(acc(DOWN), Vec2 { x: 0, y: ACC });
    assert_eq!(acc(RIGHT | DOWN), Vec2 { x: ACC, y: ACC });
    assert_eq!(acc(LEFT | UP), Vec2 { x: -ACC, y: -ACC });
}

#[test]
fn opposite_keys_cancel() {
    let acc = |bits: u8| KeyState { bits }.acceleration(ACC);
    assert_eq!(acc(LEFT | RIGHT), Vec2 { x: 0, y: 0 });
    assert_eq!(acc(UP | DOWN), Vec2 { x: 0, y: 0 });
    assert_eq!(acc(LEFT | RIGHT | UP), Vec2 { x: 0, y: -ACC });
    assert_eq!(acc(LEFT | RIGHT | UP | DOWN), Vec2 { x: 0, y: 0 });
    assert_eq!(KeyState { bits: LEFT | RIGHT }.acceleration(i64::MAX), Vec2 { x: 0, y: 0 });
    assert_eq!(KeyState { bits: RIGHT }.acceleration(i64::MAX), Vec2 { x: LIMIT, y: 0 });
}

#[test]
fn one_step_from_rest_with_a_key_held() {
    let mut player = swimmer(Vec2 { x: 0, y: 0 }, RIGHT);
    player.integrate(fx(0.1), &still_water(), &Rocks::new());
    // pushed to 5, slowed by exp(-25 * 0.0004), moved by the mean of 0 and that
    assert_eq!(player.vel, Vec2 { x: 4_950_249, y: 0 });
    assert_eq!(player.pos, Vec2 { x: 100_247_512, y: 100_000_000 });
    let exact_vel = 5.0 * (-25.0f64 * 0.0004).exp();
    assert!((player.vel.x as f64 / 1e6 - exact_vel).abs() < 1e-6);
    assert!((player.pos.x as f64 / 1e6 - (100.0 + 0.5 * exact_vel * 0.1)).abs() < 2e-6);
}

#[test]
fn one_step_diagonally() {
    let mut player = swimmer(Vec2 { x: 0, y: 0 }, LEFT | UP);
    player.integrate(fx(0.1), &still_water(), &Rocks::new());
    assert_eq!(player.vel, Vec2 { x: -4_900_993, y: -4_900_993 });
    assert_eq!(player.pos, Vec2 { x: 99_754_951, y: 99_754_951 });
}

#[test]
fn the_current_carries_the_swimmer() {
    let mut stream = still_water();
    stream.add_arrow(Arrow { pos: point(0.0, 0.0), dir: point(2.0, -1.0) }, 0);
    let mut player = swimmer(point(10.0, 0.0), 0);
    player.integrate(fx(0.1), &stream, &Rocks::new());
    assert_eq!(player.vel, Vec2 { x: 9_607_895, y: 0 });
    assert_eq!(player.pos, Vec2 { x: 101_180_394, y: 99_900_000 });
    assert!((player.vel.x as f64 / 1e6 - 10.0 * (-0.04f64).exp()).abs() < 1e-6);
    let mut coasting = swimmer(point(10.0, 0.0), 0);
    coasting.integrate(fx(0.1), &still_water(), &Rocks::new());
    assert_eq!(coasting.pos, Vec2 { x: 100_980_394, y: 100_000_000 });
}

#[test]
fn a_tick_steps_the_physics_by_the_tick_itself() {
    let mut player = swimmer(Vec2 { x: 0, y: 0 }, RIGHT);
    update_player(&mut player, &still_water(), &Rocks::new(), fx(0.1));
    let mut stepped = swimmer(Vec2 { x: 0, y: 0 }, RIGHT);
    stepped.integrate(fx(0.1), &still_water(), &Rocks::new());
    assert_eq!(player.vel, Vec2 { x: 4_950_249, y: 0 });
    assert_eq!(player.pos, Vec2 { x: 100_247_512, y: 100_000_000 });
    assert_eq!(player.vel, stepped.vel);
    assert_eq!(player.pos, stepped.pos);
    // only the animation has a faster clock
    assert_eq!(player.time_since_last_frame_update, fx(0.2));
    assert_eq!(player.frame, 0);
}

#[test]
fn a_swimmer_at_rest_is_carried_by_the_flow_alone() {
    let mut stream = still_water();
    stream.add_arrow(Arrow { pos: point(100.0, 0.0), dir: point(3.0, 4.0) }, 0);
    let mut player = Player::new(point(0.0, 0.0));
    update_player(&mut player, &stream, &Rocks::new(), fx(1.0));
    assert_eq!(player.pos, point(3.0, 4.0));
    assert_eq!(player.vel, Vec2 { x: 0, y: 0 });
    assert_eq!(player.state, State::Normal);

    let mut fast = still_water();
    fast.add_arrow(Arrow { pos: point(100.0, 0.0), dir: point(30.0, 40.0) }, 0);
    let mut carried = Player::new(point(0.0, 0.0));
    update_player(&mut carried, &fast, &Rocks::new(), fx(1.0));
    assert_eq!(carried.pos, point(30.0, 40.0));
    let mut rocks = Rocks::new();
    rocks.rocks.push(Rock { pos: point(30.0, 40.0) });
    let mut blocked = Player::new(point(0.0, 0.0));
    update_player(&mut blocked, &fast, &rocks, fx(1.0));
    assert_eq!(blocked.pos, point(0.0, 0.0));
}

#[test]
fn drag_slows_a_coasting_swimmer_step_by_step() {
    let mut player = swimmer(point(30.0, -40.0), 0);
    let expected = [
        Vec2 { x: 11_036_467, y: -14_715_290 },
        Vec2 { x: 9_639_485, y: -12_852_648 },
        Vec2 { x: 8_693_918, y: -11_591_892 },
        Vec2 { x: 7_993_601, y: -10_658_135 },
    ];
    let mut last = square_speed(player.vel);
    for want in expected {
        player.integrate(fx(0.016), &still_water(), &Rocks::new());
        assert_eq!(player.vel, want);
        assert!(square_speed(player.vel) < last);
        last = square_speed(player.vel);
    }
    for _ in 0..2_000 {
        player.integrate(fx(0.016), &still_water(), &Rocks::new());
        let now = square_speed(player.vel);
        assert!(now < last);
        assert!(now > 0);
        assert!(player.vel.x > 0 && player.vel.y < 0);
        last = now;
    }
}

fn after(x: i64, y: i64) -> Vec2 {
    let mut player = swimmer(Vec2 { x, y }, 0);
    player.integrate(UNIT, &still_water(), &Rocks::new());
    player.vel
}

#[test]
fn a_swimmer_of_speed_one_or_more_slows_with_every_tick() {
    assert_eq!(after(100_000_000, 0), Vec2 { x: 1_831_787, y: 0 });
    assert_eq!(after(1_000_000, 0), Vec2 { x: 999_600, y: 0 });
    assert_eq!(after(0, -1_000_000), Vec2 { x: 0, y: -999_600 });
    assert_eq!(after(707_107, 707_107), Vec2 { x: 706_824, y: 706_824 });
    assert!((0.9996f64 - (-0.0004f64).exp()).abs() < 1e-6);
    let mut player = swimmer(Vec2 { x: 600_000_000, y: -800_000_000 }, 0);
    let mut last = square_speed(player.vel);
    while last >= 1_000_000_000_000 {
        player.integrate(fx(0.016), &still_water(), &Rocks::new());
        let now = square_speed(player.vel);
        assert!(now < last && now > 0);
        assert!(player.vel.x > 0 && player.vel.y < 0);
        last = now;
    }
}

#[test]
fn no_swimmer_is_ever_brought_to_rest() {
    // the slowest keep what they have: less than half a raw unit would be taken
    assert_eq!(after(1, 0), Vec2 { x: 1, y: 0 });
    assert_eq!(after(1, -1), Vec2 { x: 1, y: -1 });
    assert_eq!(after(0, -3), Vec2 { x: 0, y: -3 });
    assert_eq!(after(800_000, 0), Vec2 { x: 799_795, y: 0 });
    assert_eq!(after(500_000, 0), Vec2 { x: 499_950, y: 0 });
    // the fastest are left with a millionth of their speed
    assert_eq!(after(1_000_000_000, 0), Vec2 { x: 1_000, y: 0 });
    assert_eq!(after(200_000_000, -200_000_000), Vec2 { x: 200, y: -200 });
    assert_eq!(after(1_000_000_000_000, 1_000_000_000_000), Vec2 { x: 1_000_000, y: 1_000_000 });
    // a swimmer at rest stays at rest
    assert_eq!(after(0, 0), Vec2 { x: 0, y: 0 });

    for start in [(40i64, -25i64), (1, 0), (0, 7), (123_456, -7), (999_999_999, 3)] {
        let mut player = swimmer(Vec2 { x: start.0, y: start.1 }, 0);
        let mut last = square_speed(player.vel);
        for _ in 0..3_000 {
            player.integrate(fx(0.016), &still_water(), &Rocks::new());
            let now = square_speed(player.vel);
            assert!(now > 0 && now <= last);
            assert!(player.vel.x * start.0 >= 0 && player.vel.y * start.1 >= 0);
            last = now;
        }
    }
}

#[test]
fn a_rock_at_the_next_position_stops_the_swimmer() {
    let mut free = swimmer(point(10.0, 0.0), RIGHT);
    free.integrate(fx(0.1), &still_water(), &Rocks::new());
    assert!(free.pos != point(100.0, 100.0));

    let mut rocks = Rocks::new();
    rocks.rocks.push(Rock { pos: free.pos });
    let mut blocked = swimmer(point(10.0, 0.0), RIGHT);
    blocked.integrate(fx(0.1), &still_water(), &rocks);
    assert_eq!(blocked.pos, point(100.0, 100.0));
    assert_eq!(blocked.vel, free.vel);
    assert!(blocked.vel != point(10.0, 0.0));
}

#[test]
fn only_the_inside_of_a_rock_stops_the_swimmer() {
    let mut free = swimmer(point(10.0, 0.0), 0);
    free.integrate(fx(0.1), &still_water(), &Rocks::new());

    let mut on_the_edge = Rocks::new();
    on_the_edge.rocks.push(Rock { pos: Vec2 { x: free.pos.x + RADIUS, y: free.pos.y } });
    assert!(!on_the_edge.hits(free.pos));
    let mut passing = swimmer(point(10.0, 0.0), 0);
    passing.integrate(fx(0.1), &still_water(), &on_the_edge);
    assert_eq!(passing.pos, free.pos);

    let mut just_inside = Rocks::new();
    just_inside.rocks.push(Rock { pos: point(500.0, 500.0) });
    just_inside.rocks.push(Rock { pos: Vec2 { x: free.pos.x + RADIUS - 1, y: free.pos.y } });
    assert!(just_inside.hits(free.pos));
    let mut stopped = swimmer(point(10.0, 0.0), 0);
    stopped.integrate(fx(0.1), &still_water(), &just_inside);
    assert_eq!(stopped.pos, point(100.0, 100.0));
    assert_eq!(stopped.vel, free.vel);
}

#[test]
fn a_bite_fades_and_ends_once_its_time_falls_below_zero() {
    let mut player = swimmer(Vec2 { x: 0, y: 0 }, 0);
    player.state = State::Bitten(BITTEN_FADE_OUT_SECONDS);
    assert_eq!(player.bite_fade(), Some(0));
    player.integrate(fx(0.5), &still_water(), &Rocks::new());
    assert_eq!(player.state, State::Bitten(fx(1.5)));
    assert_eq!(player.bite_fade(), Some(250_000));
    player.integrate(fx(1.5), &still_water(), &Rocks::new());
    assert_eq!(player.state, State::Bitten(0));
    assert_eq!(player.bite_fade(), Some(UNIT));
    player.integrate(1, &still_water(), &Rocks::new());
    assert_eq!(player.state, State::Normal);
    player.integrate(fx(1.0), &still_water(), &Rocks::new());
    assert_eq!(player.state, State::Normal);
}

#[test]
fn a_tick_fades_a_bite_by_the_tick_itself() {
    let mut player = swimmer(Vec2 { x: 0, y: 0 }, 0);
    player.state = State::Bitten(BITTEN_FADE_OUT_SECONDS);
    update_player(&mut player, &still_water(), &Rocks::new(), fx(0.5));
    assert_eq!(player.state, State::Bitten(fx(1.5)));
    update_player(&mut player, &still_water(), &Rocks::new(), fx(1.5));
    assert_eq!(player.state, State::Bitten(0));
    update_player(&mut player, &still_water(), &Rocks::new(), 1);
    assert_eq!(player.state, State::Normal);
}

#[test]
fn the_animation_moves_on_every_frame_interval() {
    let mut player = swimmer(Vec2 { x: 0, y: 0 }, 0);
    // 0.05 s of the world's clock are 0.1 s of the animation's
    update_player(&mut player, &still_water(), &Rocks::new(), fx(0.05));
    update_player(&mut player, &still_water(), &Rocks::new(), fx(0.05));
    assert_eq!(player.frame, 0);
    assert_eq!(player.time_since_last_frame_update, FRAME_INTERVAL);
    update_player(&mut player, &still_water(), &Rocks::new(), fx(0.05));
    assert_eq!(player.frame, 1);
    assert_eq!(player.time_since_last_frame_update, fx(0.1));
    for _ in 0..14 {
        update_player(&mut player, &still_water(), &Rocks::new(), fx(0.1));
    }
    assert_eq!(player.frame, 7);
    update_player(&mut player, &still_water(), &Rocks::new(), fx(0.1));
    assert_eq!(player.frame, 0);
}

#[test]
fn the_animation_runs_backwards_while_swimming_up() {
    let mut player = swimmer(Vec2 { x: 0, y: 0 }, UP);
    update_player(&mut player, &still_water(), &Rocks::new(), fx(0.15));
    assert_eq!(player.frame, 7);
    update_player(&mut player, &still_water(), &Rocks::new(), fx(0.1));
    assert_eq!(player.frame, 6);
    player.frame = usize::MAX;
    update_player(&mut player, &still_water(), &Rocks::new(), fx(0.1));
    assert_eq!(player.frame, (usize::MAX % 8 + 7) % 8);
}
