use sea_birds_breakfast::fixed::UNIT;
use sea_birds_breakfast::settings::stream::{MOVING_ARROW_TIME_SPAN, PHASE_VEL, SAMPLE_SIZE};
use sea_birds_breakfast::stream::{
    add_arrow, add_arrow_with_phase, cells, deselect_arrow, edit_selected_arrow, grid_coord,
    refresh_moving_arrows, update_moving_arrows, update_stream, Arrow, MovingArrow, SelectedArrow,
    Stream,
};
use sea_birds_breakfast::vector::Vec2;

fn fx(x: f64) -> i64 {
    (x * 1_000_000.0).round() as i64
}

fn as_float(x: i64) -> f64 {
    x as f64 / 1_000_000.0
}

fn point(x: f64, y: f64) -> Vec2 {
    Vec2 { x: fx(x), y: fx(y) }
}

fn sea() -> Stream {
    Stream::new([0, 0, fx(640.0), fx(480.0)], [fx(10.0), fx(50.0)])
}

fn two_arrows() -> Stream {
    let mut stream = sea();
    stream.add_arrow(Arrow { pos: point(0.0, 0.0), dir: point(1.0, 0.0) }, 0);
    stream.add_arrow(Arrow { pos: point(10.0, 0.0), dir: point(0.0, 1.0) }, 0);
    stream
}

#[test]
fn an_empty_field_is_still_everywhere() {
    let stream = sea();
    for p in [point(0.0, 0.0), point(5.0, -3.0), point(1e5, 1e5), Vec2 { x: i64::MAX, y: i64::MIN }] {
        assert_eq!(stream.at(p), Vec2 { x: 0, y: 0 });
    }
}

#[test]
fn two_equidistant_arrows_average_evenly() {
    let stream = two_arrows();
    let flow = stream.at(point(5.0, 0.0));
    assert_eq!(flow, Vec2 { x: 500_000, y: 500_000 });
    // the closed form: both weights are 1/25
    let w = 1.0 / 25.0;
    let expect_x = (1.0 * w + 0.0 * w) / (w + w);
    let expect_y = (0.0 * w + 1.0 * w) / (w + w);
    assert!((as_float(flow.x) - expect_x).abs() < 1e-6);
    assert!((as_float(flow.y) - expect_y).abs() < 1e-6);
}

#[test]
fn the_nearer_arrow_weighs_more_by_the_inverse_square() {
    let stream = two_arrows();
    let flow = stream.at(point(2.0, 0.0));
    assert_eq!(flow, Vec2 { x: 941_176, y: 58_824 });
    let (w1, w2) = (1.0 / 4.0, 1.0 / 64.0);
    assert!((as_float(flow.x) - w1 / (w1 + w2)).abs() < 1e-6);
    assert!((as_float(flow.y) - w2 / (w1 + w2)).abs() < 1e-6);
}

#[test]
fn a_single_arrow_rules_the_whole_sea() {
    let mut stream = sea();
    stream.add_arrow(Arrow { pos: point(3.0, 4.0), dir: point(-2.5, 7.0) }, 0);
    for p in [point(3.0, 4.0), point(0.0, 0.0), point(600.0, -200.0)] {
        assert_eq!(stream.at(p), point(-2.5, 7.0));
    }
}

#[test]
fn a_single_arrow_pulls_by_the_cosine_of_its_phase_at_every_point() {
    for (phase, turns) in [(125_000i64, 0.125f64), (300_000, 0.3), (-41_000, -0.041), (7_650_000, 7.65)] {
        let mut stream = sea();
        stream.add_arrow(Arrow { pos: point(3.0, 4.0), dir: point(1.0, -2.0) }, phase);
        let cosine = (turns * std::f64::consts::TAU).cos();
        let first = stream.at(point(3.0, 4.0));
        for p in [point(0.0, 0.0), point(600.0, -200.0), point(3.0, 4.01)] {
            assert_eq!(stream.at(p), first);
        }
        assert!((as_float(first.x) - cosine).abs() < 0.51e-6, "phase {}", turns);
        assert!((as_float(first.y) + 2.0 * cosine).abs() < 0.51e-6, "phase {}", turns);
    }
    let mut eighth = sea();
    eighth.add_arrow(Arrow { pos: point(0.0, 0.0), dir: point(1.0, 0.0) }, 125_000);
    assert_eq!(eighth.at(point(3.0, 4.0)), Vec2 { x: 707_107, y: 0 });
}

#[test]
fn the_flow_is_the_weighted_average_to_a_raw_unit() {
    // a small generator of numbers, the same on every run
    let mut seed: u64 = 0x9E37_79B9_7F4A_7C15;
    let mut draw = |low: i64, high: i64| -> i64 {
        seed = seed.wrapping_mul(6_364_136_223_846_793_005).wrapping_add(1_442_695_040_888_963_407);
        low + ((seed >> 33) as i64) % (high - low + 1)
    };
    for round in 0..500 {
        let count = draw(1, 6);
        let mut stream = sea();
        for _ in 0..count {
            let pos = Vec2 { x: draw(-500, 500) * UNIT, y: draw(-500, 500) * UNIT };
            let dir = Vec2 { x: draw(-50_000_000, 50_000_000), y: draw(-50_000_000, 50_000_000) };
            stream.add_arrow(Arrow { pos, dir }, draw(-3_000_000, 3_000_000));
        }
        let p = Vec2 { x: draw(-500_000_000, 500_000_000), y: draw(-500_000_000, 500_000_000) };
        let flow = stream.at(p);
        let (mut sum_x, mut sum_y, mut sum_w) = (0.0f64, 0.0f64, 0.0f64);
        for (arrow, phase) in stream.arrows.iter().zip(stream.arrow_phases.iter()) {
            let dx = as_float(arrow.pos.x - p.x);
            let dy = as_float(arrow.pos.y - p.y);
            let d = (dx * dx + dy * dy).sqrt().max(0.01);
            let w = 1.0 / (d * d);
            let pw = (as_float(*phase) * std::f64::consts::TAU).cos();
            sum_x += as_float(arrow.dir.x) * (w * pw);
            sum_y += as_float(arrow.dir.y) * (w * pw);
            sum_w += w;
        }
        assert!((as_float(flow.x) - sum_x / sum_w).abs() < 1.01e-6, "round {}", round);
        assert!((as_float(flow.y) - sum_y / sum_w).abs() < 1.01e-6, "round {}", round);
    }
}

#[test]
fn sampling_on_top_of_an_arrow_uses_the_distance_floor() {
    let stream = two_arrows();
    // at the first arrow the floor 0.01 stands in for the distance 0
    let flow = stream.at(point(0.0, 0.0));
    let (w1, w2) = (1.0 / (0.01f64 * 0.01), 1.0 / 100.0);
    assert!((as_float(flow.x) - w1 / (w1 + w2)).abs() < 1e-6);
    assert!((as_float(flow.y) - w2 / (w1 + w2)).abs() < 1e-6);
    assert_eq!(flow, Vec2 { x: 999_999, y: 1 });
}

#[test]
fn the_phase_scales_an_arrows_pull_by_its_cosine() {
    let mut stream = sea();
    stream.add_arrow(Arrow { pos: point(0.0, 0.0), dir: point(1.0, 0.0) }, 250_000);
    stream.add_arrow(Arrow { pos: point(10.0, 0.0), dir: point(0.0, 1.0) }, 0);
    assert_eq!(stream.at(point(2.0, 0.0)), Vec2 { x: 0, y: 58_824 });
    let mut back = sea();
    back.add_arrow(Arrow { pos: point(0.0, 0.0), dir: point(1.0, 0.0) }, 500_000);
    assert_eq!(back.at(point(2.0, 0.0)), point(-1.0, 0.0));
}

#[test]
fn appending_keeps_arrows_and_phases_in_step() {
    let mut stream = sea();
    assert_eq!(stream.add_arrow(Arrow { pos: point(1.0, 2.0), dir: point(3.0, 4.0) }, 5), 0);
    assert_eq!(stream.add_arrow(Arrow { pos: point(5.0, 6.0), dir: point(7.0, 8.0) }, 9), 1);
    assert_eq!(stream.arrows.len(), 2);
    assert_eq!(stream.arrow_phases, vec![5, 9]);
    assert_eq!(stream.arrows[1], Arrow { pos: point(5.0, 6.0), dir: point(7.0, 8.0) });
    assert_eq!(stream.rect, [0, 0, fx(640.0), fx(480.0)]);
}

#[test]
fn every_phase_turns_by_a_seventh_of_a_turn_per_second() {
    let mut stream = sea();
    stream.add_arrow(Arrow { pos: point(0.0, 0.0), dir: point(1.0, 0.0) }, 0);
    stream.add_arrow(Arrow { pos: point(1.0, 0.0), dir: point(1.0, 0.0) }, 900_000);
    stream.update(UNIT);
    // phases are not brought back into one turn
    assert_eq!(stream.arrow_phases, vec![PHASE_VEL, 900_000 + PHASE_VEL]);
    assert_eq!(stream.arrow_phases, vec![142_857, 1_042_857]);
    update_stream(&mut stream, 500_000);
    assert_eq!(stream.arrow_phases, vec![142_857 + 71_428, 1_042_857 + 71_428]);
    assert_eq!(stream.arrows.len(), 2);
}

#[test]
fn a_phase_beyond_one_turn_is_added_to_like_any_other() {
    let mut stream = sea();
    stream.add_arrow(Arrow { pos: point(0.0, 0.0), dir: point(1.0, 0.0) }, 900_000);
    stream.add_arrow(Arrow { pos: point(1.0, 0.0), dir: point(1.0, 0.0) }, -2_500_000);
    stream.add_arrow(Arrow { pos: point(2.0, 0.0), dir: point(1.0, 0.0) }, 7_250_000);
    // 1.4 s are a fifth of a turn
    stream.update(fx(1.4));
    assert_eq!(stream.arrow_phases, vec![1_099_999, -2_300_001, 7_449_999]);
}

#[test]
fn phases_run_on_beyond_a_million_turns() {
    let mut stream = sea();
    stream.add_arrow(Arrow { pos: point(0.0, 0.0), dir: point(1.0, 0.0) }, 1_000_000_000_000);
    stream.add_arrow(Arrow { pos: point(1.0, 0.0), dir: point(1.0, 0.0) }, 5_000_000_000_000_000);
    stream.update(fx(7.0));
    assert_eq!(stream.arrow_phases, vec![1_000_000_999_999, 5_000_000_000_999_999]);
    let mut plain = sea();
    plain.add_arrow(Arrow { pos: point(0.0, 0.0), dir: point(1.0, 0.0) }, 999_999);
    assert_eq!(stream.at(point(0.0, 0.0)), plain.at(point(0.0, 0.0)));
}

#[test]
fn a_tick_of_no_time_turns_no_phase() {
    let mut stream = sea();
    for phase in [0i64, 900_000, -2_500_000, 7_250_000, UNIT, -1] {
        stream.add_arrow(Arrow { pos: point(0.0, 0.0), dir: point(1.0, 0.0) }, phase);
    }
    let before = stream.arrow_phases.clone();
    stream.update(0);
    assert_eq!(stream.arrow_phases, before);
}

#[test]
fn whole_turns_of_phase_do_not_change_the_flow() {
    let mut plain = sea();
    plain.add_arrow(Arrow { pos: point(0.0, 0.0), dir: point(1.0, 2.0) }, 300_000);
    let mut turned = sea();
    turned.add_arrow(Arrow { pos: point(0.0, 0.0), dir: point(1.0, 2.0) }, 300_000 + 5 * UNIT);
    let mut back = sea();
    back.add_arrow(Arrow { pos: point(0.0, 0.0), dir: point(1.0, 2.0) }, 300_000 - 3 * UNIT);
    for p in [point(0.0, 0.0), point(3.0, 4.0), point(-100.0, 7.0)] {
        assert_eq!(turned.at(p), plain.at(p));
        assert_eq!(back.at(p), plain.at(p));
    }
}

#[test]
fn an_arrow_line_runs_along_its_direction() {
    let arrow = Arrow { pos: point(1.0, 2.0), dir: point(3.0, -4.0) };
    assert_eq!(arrow.line(UNIT), [fx(1.0), fx(2.0), fx(4.0), fx(-2.0)]);
    assert_eq!(arrow.line(2 * UNIT), [fx(1.0), fx(2.0), fx(7.0), fx(-6.0)]);
}

#[test]
fn the_grid_counts_whole_cells() {
    let stream = sea();
    assert_eq!(stream.nm(SAMPLE_SIZE), [25, 19]);
    assert_eq!(stream.nm(fx(640.0)), [1, 0]);
    assert_eq!(stream.nm(0), [0, 0]);
    assert_eq!(stream.nm(-UNIT), [0, 0]);
    assert_eq!(cells(-UNIT, UNIT), 0);
    assert_eq!(cells(i64::MAX, 1), u32::MAX);
    assert_eq!(grid_coord(fx(3.0), 4, fx(25.0)), fx(103.0));
}

#[test]
fn adding_an_arrow_selects_it() {
    let mut stream = sea();
    let mut selected = SelectedArrow(None);
    add_arrow_with_phase(&mut stream, &mut selected, point(7.0, 8.0), 123);
    assert_eq!(selected, SelectedArrow(Some(0)));
    assert_eq!(stream.arrows[0], Arrow { pos: point(7.0, 8.0), dir: Vec2 { x: 0, y: 0 } });
    assert_eq!(stream.arrow_phases, vec![123]);
}

#[test]
fn an_arrow_added_by_chance_has_a_phase_within_one_turn() {
    let mut stream = sea();
    let mut selected = SelectedArrow(None);
    let mut seen_different = false;
    for i in 0..200usize {
        add_arrow(&mut stream, &mut selected, point(i as f64, 0.0));
        assert_eq!(selected, SelectedArrow(Some(i)));
        let phase = stream.arrow_phases[i];
        assert!(phase >= 0 && phase < UNIT, "phase {}", phase);
        if phase != stream.arrow_phases[0] {
            seen_different = true;
        }
        assert_eq!(stream.arrows[i], Arrow { pos: point(i as f64, 0.0), dir: Vec2 { x: 0, y: 0 } });
    }
    assert_eq!(stream.arrows.len(), 200);
    assert_eq!(stream.arrow_phases.len(), 200);
    assert!(seen_different);
}

#[test]
fn editing_points_the_selected_arrow_at_the_cursor() {
    let mut stream = two_arrows();
    let selected = SelectedArrow(Some(1));
    edit_selected_arrow(&mut stream, &selected, point(13.0, -4.0));
    assert_eq!(stream.arrows[1], Arrow { pos: point(10.0, 0.0), dir: point(3.0, -4.0) });
    assert_eq!(stream.arrows[0], Arrow { pos: point(0.0, 0.0), dir: point(1.0, 0.0) });
    assert_eq!(stream.arrow_phases, vec![0, 0]);
}

#[test]
fn editing_without_a_selection_changes_nothing() {
    let mut stream = two_arrows();
    let mut selected = SelectedArrow(Some(0));
    deselect_arrow(&mut selected);
    assert_eq!(selected, SelectedArrow(None));
    edit_selected_arrow(&mut stream, &selected, point(13.0, -4.0));
    assert_eq!(stream.arrows[0], Arrow { pos: point(0.0, 0.0), dir: point(1.0, 0.0) });
    assert_eq!(stream.arrows[1], Arrow { pos: point(10.0, 0.0), dir: point(0.0, 1.0) });
}

#[test]
fn refreshing_lays_out_one_drifting_arrow_per_grid_crossing() {
    let mut stream = Stream::new([fx(10.0), fx(20.0), fx(50.0), fx(75.0)], [0, 0]);
    stream.add_arrow(Arrow { pos: point(0.0, 0.0), dir: point(1.0, 2.0) }, 0);
    let mut moving = vec![MovingArrow {
        arrow: Arrow { pos: point(9.0, 9.0), dir: point(9.0, 9.0) },
        start_pos: point(9.0, 9.0),
        time: 9,
    }];
    refresh_moving_arrows(&stream, &mut moving);
    assert_eq!(moving.len(), 6);
    for i in 0..2usize {
        for j in 0..3usize {
            let start = point(10.0 + 25.0 * i as f64, 20.0 + 25.0 * j as f64);
            assert_eq!(
                moving[i * 3 + j],
                MovingArrow { arrow: Arrow { pos: start, dir: point(1.0, 2.0) }, start_pos: start, time: 0 }
            );
        }
    }
}

#[test]
fn drifting_arrows_follow_the_flow_and_start_over() {
    let mut stream = sea();
    stream.add_arrow(Arrow { pos: point(0.0, 0.0), dir: point(3.0, 4.0) }, 0);
    let start = point(100.0, 100.0);
    let mut moving =
        vec![MovingArrow { arrow: Arrow { pos: start, dir: point(3.0, 4.0) }, start_pos: start, time: 0 }];
    update_moving_arrows(&stream, &mut moving, UNIT);
    assert_eq!(
        moving[0],
        MovingArrow {
            arrow: Arrow { pos: point(103.0, 104.0), dir: point(3.0, 4.0) },
            start_pos: start,
            time: fx(5.0)
        }
    );
    for _ in 0..7 {
        update_moving_arrows(&stream, &mut moving, UNIT);
    }
    assert_eq!(moving[0].time, MOVING_ARROW_TIME_SPAN);
    assert_eq!(moving[0].arrow.pos, point(124.0, 132.0));
    update_moving_arrows(&stream, &mut moving, UNIT);
    assert_eq!(
        moving[0],
        MovingArrow { arrow: Arrow { pos: start, dir: point(3.0, 4.0) }, start_pos: start, time: 0 }
    );
}
