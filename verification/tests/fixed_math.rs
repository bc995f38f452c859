use sea_birds_breakfast::curves::{
    cos_fine, growth, next_point, sin_fine, times_fine, turned, wrap_turn, CAP, FINE, QUARTER, WHOLE,
};
use sea_birds_breakfast::fixed::{
    div_toward_zero, isqrt, max, minus, over, plus, saturate, times, wide_product, HALF, LIMIT, UNIT,
};
use sea_birds_breakfast::vector::Vec2;

fn fx(x: f64) -> i64 {
    (x * 1_000_000.0).round() as i64
}

fn as_float(x: i64) -> f64 {
    x as f64 / 1_000_000.0
}

#[test]
fn plus_and_minus_are_exact_within_the_limit() {
    assert_eq!(plus(UNIT, UNIT), 2 * UNIT);
    assert_eq!(plus(-3, 5), 2);
    assert_eq!(minus(UNIT, 3 * UNIT), -2 * UNIT);
    assert_eq!(minus(0, 0), 0);
}

#[test]
fn plus_and_minus_saturate_at_the_limit() {
    assert_eq!(plus(LIMIT, LIMIT), LIMIT);
    assert_eq!(plus(LIMIT, 1), LIMIT);
    assert_eq!(minus(-LIMIT, 1), -LIMIT);
    assert_eq!(plus(i64::MAX, i64::MAX), LIMIT);
    assert_eq!(minus(i64::MIN, i64::MAX), -LIMIT);
    assert_eq!(saturate(i128::MAX), LIMIT);
    assert_eq!(saturate(i128::MIN), -LIMIT);
    assert_eq!(saturate(-7), -7);
}

#[test]
fn times_rounds_toward_zero() {
    assert_eq!(times(2 * UNIT, 3 * UNIT), 6 * UNIT);
    assert_eq!(times(-1_500_000, HALF), -750_000);
    assert_eq!(times(1, 1), 0);
    assert_eq!(times(-1, 1), 0);
    assert_eq!(times(3, HALF), 1);
    assert_eq!(times(-3, HALF), -1);
    assert_eq!(times(i64::MAX, i64::MAX), LIMIT);
    assert_eq!(times(i64::MIN, i64::MAX), -LIMIT);
}

#[test]
fn over_rounds_toward_zero_for_every_sign() {
    assert_eq!(over(UNIT, 3 * UNIT), 333_333);
    assert_eq!(over(-UNIT, 3 * UNIT), -333_333);
    assert_eq!(over(UNIT, -3 * UNIT), -333_333);
    assert_eq!(over(-UNIT, -3 * UNIT), 333_333);
    assert_eq!(over(6 * UNIT, 2 * UNIT), 3 * UNIT);
    assert_eq!(over(LIMIT, 1), LIMIT);
}

#[test]
fn wide_helpers_are_exact() {
    assert_eq!(wide_product(i64::MAX, i64::MAX), (i64::MAX as i128) * (i64::MAX as i128));
    assert_eq!(wide_product(-3, 4), -12);
    assert_eq!(div_toward_zero(-7, 2), -3);
    assert_eq!(div_toward_zero(7, 2), 3);
    assert_eq!(max(-1, 0), 0);
    assert_eq!(max(5, 2), 5);
}

#[test]
fn isqrt_rounds_down() {
    assert_eq!(isqrt(0), 0);
    assert_eq!(isqrt(1), 1);
    assert_eq!(isqrt(15), 3);
    assert_eq!(isqrt(16), 4);
    assert_eq!(isqrt(17), 4);
    assert_eq!(isqrt(25_000_000_000_000), 5_000_000);
    assert_eq!(isqrt(u128::MAX), u64::MAX);
    let n: u128 = 123_456_789_012_345_678_901_234_567_890;
    let r: u128 = isqrt(n) as u128;
    assert!(r * r <= n && n < (r + 1) * (r + 1));
}

/// The raw unit nearest to a cosine or sine in parts in `10^18`.
fn raw(c: i128) -> i64 {
    times_fine(UNIT, c)
}

#[test]
fn cosine_is_exact_at_the_cardinal_angles() {
    assert_eq!(cos_fine(0), WHOLE);
    assert_eq!(cos_fine(QUARTER), 0);
    assert_eq!(cos_fine(2 * QUARTER), -WHOLE);
    assert_eq!(cos_fine(3 * QUARTER), 0);
    assert_eq!(sin_fine(0), 0);
    assert_eq!(sin_fine(QUARTER), WHOLE);
    assert_eq!(sin_fine(2 * QUARTER), 0);
    assert_eq!(sin_fine(3 * QUARTER), -WHOLE);
}

#[test]
fn cosine_and_sine_are_right_to_the_nearest_raw_unit() {
    assert_eq!(raw(cos_fine(125_000)), 707_107);
    assert_eq!(raw(sin_fine(125_000)), 707_107);
    assert_eq!(raw(cos_fine(300_000)), -309_017);
    assert_eq!(raw(cos_fine(166_667)), 499_998);
    assert_eq!(raw(cos_fine(333_333)), -499_998);
    assert_eq!(raw(cos_fine(1)), UNIT);
    assert_eq!(raw(sin_fine(1)), 6);
    assert_eq!(raw(sin_fine(-1)), -6);
    assert_eq!(raw(sin_fine(83_333)), 499_998);
}

#[test]
fn a_product_with_the_cosine_is_rounded_once() {
    assert_eq!(times_fine(50_000_000, cos_fine(125_000)), 35_355_339);
    assert_eq!(times_fine(-50_000_000, cos_fine(125_000)), -35_355_339);
    assert_eq!(times_fine(3, WHOLE / 2), 2);
    assert_eq!(times_fine(-3, WHOLE / 2), -2);
    assert_eq!(times_fine(1, WHOLE / 2 - 1), 0);
    assert_eq!(times_fine(i64::MAX, WHOLE), LIMIT);
    assert_eq!(times_fine(i64::MIN, WHOLE), -LIMIT);
    assert_eq!(times_fine(i64::MIN, -WHOLE), LIMIT);
    assert_eq!(times_fine(123_456, 0), 0);
}

#[test]
fn cosine_is_periodic_and_even() {
    for t in [0i64, 1, 17, 125_000, 250_001, 499_999, 777_777, 999_999] {
        assert_eq!(cos_fine(t + UNIT), cos_fine(t));
        assert_eq!(cos_fine(t - 5 * UNIT), cos_fine(t));
        assert_eq!(cos_fine(-t), cos_fine(t));
        assert!((sin_fine(-t) + sin_fine(t)).abs() <= 4_000_000);
    }
    assert_eq!(cos_fine(i64::MAX), cos_fine(i64::MAX % UNIT));
    assert_eq!(cos_fine(i64::MIN), cos_fine(i64::MIN.rem_euclid(UNIT)));
}

#[test]
fn cosine_stays_close_to_the_true_cosine() {
    let mut t: i64 = -2 * UNIT;
    while t <= 2 * UNIT {
        let exact = (as_float(t) * std::f64::consts::TAU).cos();
        assert!((cos_fine(t) as f64 / 1e18 - exact).abs() < 1e-11, "cos at {} turns", as_float(t));
        assert!((as_float(raw(cos_fine(t))) - exact).abs() < 0.000_000_500_1, "cos at {} turns", as_float(t));
        let exact_sin = (as_float(t) * std::f64::consts::TAU).sin();
        assert!((sin_fine(t) as f64 / 1e18 - exact_sin).abs() < 1e-11, "sin at {} turns", as_float(t));
        assert!(cos_fine(t) >= -WHOLE && cos_fine(t) <= WHOLE);
        t += 137;
    }
}

#[test]
fn wrap_turn_brings_angles_into_one_turn() {
    assert_eq!(wrap_turn(0), 0);
    assert_eq!(wrap_turn(UNIT), 0);
    assert_eq!(wrap_turn(UNIT + 5), 5);
    assert_eq!(wrap_turn(-1), UNIT - 1);
    assert_eq!(wrap_turn(-UNIT), 0);
    assert_eq!(wrap_turn(i64::MAX), i64::MAX % UNIT);
    assert_eq!(wrap_turn(i64::MIN), i64::MIN.rem_euclid(UNIT));
}

/// An exponent in the unit that `growth` takes: parts in `10^18`.
fn exponent(x: f64) -> u128 {
    (x * 1e18).round() as u128
}

#[test]
fn growth_follows_its_closed_formula() {
    assert_eq!(growth(0), FINE);
    assert_eq!(growth(1), 1_000_000_065_536);
    assert_eq!(growth(400_000_000_000_000), 1_000_400_111_338);
    assert_eq!(growth(800_000_000_000_000), 1_000_800_382_765);
    assert_eq!(growth(exponent(0.04)), 1_040_810_756_231);
    assert_eq!(growth(exponent(1.0)), 2_718_261_145_421);
    assert_eq!(growth(exponent(4.0)), 54_591_487_470_298);
    assert_eq!(growth(exponent(14.0)), CAP);
    assert_eq!(growth(exponent(1000.0)), CAP);
    assert_eq!(growth(u128::MAX), CAP);
}

#[test]
fn growth_stays_close_to_the_exponential_and_never_falls() {
    let mut x: f64 = 0.0;
    let mut last: u128 = FINE;
    while x <= 13.5 {
        let g = growth(exponent(x));
        let exact = x.exp() * 1e12;
        // the compound-interest form with 2^16 factors is low by x^2 / 2^17
        assert!((g as f64 - exact).abs() <= exact * (x * x / 131_072.0 + 1e-7), "growth at {}", x);
        assert!(g >= last && g >= FINE && g <= CAP);
        if x > 0.0 {
            assert!(g > FINE);
        }
        last = g;
        x += 0.004_321;
    }
}

#[test]
fn angles_run_on() {
    assert_eq!(turned(900_000, 200_000), 1_100_000);
    assert_eq!(turned(100_000, -200_000), -100_000);
    assert_eq!(turned(2_000_000_000_000, 5), 2_000_000_000_005);
    assert_eq!(turned(i64::MAX, 1), i64::MAX);
    assert_eq!(turned(i64::MIN, -1), i64::MIN);
    assert_eq!(turned(i64::MAX, i64::MIN), -1);
}

#[test]
fn the_points_of_the_circle_close_it_exactly() {
    let mut angle: i64 = 0;
    for k in 1..=1_280i64 {
        angle = next_point(angle, 128);
        assert_eq!(angle, k * UNIT / 128);
    }
    assert_eq!(angle, 10 * UNIT);
    assert_eq!(next_point(0, 128), 7_812);
    assert_eq!(next_point(7_812, 128), 15_625);
    assert_eq!(next_point(7_811, 128), 7_812);
    assert_eq!(next_point(999_000, 128), UNIT);
    assert_eq!(next_point(-1, 128), 0);
    assert_eq!(next_point(0, 1), UNIT);
    assert_eq!(next_point(0, 3), 333_333);
    assert_eq!(next_point(333_333, 3), 666_666);
    assert_eq!(next_point(666_666, 3), UNIT);
    assert_eq!(next_point(i64::MAX, 128), LIMIT);
    assert_eq!(next_point(i64::MIN, 128), -LIMIT);
}

#[test]
fn vector_sum_difference_and_scaling() {
    let a = Vec2::new(fx(1.0), fx(2.0));
    let b = Vec2::new(fx(3.0), fx(4.5));
    assert_eq!(a.plus(b), Vec2 { x: fx(4.0), y: fx(6.5) });
    assert_eq!(a.minus(b), Vec2 { x: fx(-2.0), y: fx(-2.5) });
    assert_eq!(b.minus(a), Vec2 { x: fx(2.0), y: fx(2.5) });
    assert_eq!(Vec2::new(fx(2.0), fx(-3.0)).scaled(fx(2.0)), Vec2 { x: fx(4.0), y: fx(-6.0) });
    assert_eq!(Vec2::new(fx(2.0), fx(-3.0)).scaled(HALF), Vec2 { x: fx(1.0), y: fx(-1.5) });
    assert_eq!(Vec2::new(fx(2.0), fx(-3.0)).divided(fx(2.0)), Vec2 { x: fx(1.0), y: fx(-1.5) });
    assert_eq!(Vec2::zero(), Vec2 { x: 0, y: 0 });
}

#[test]
fn vector_operations_saturate() {
    let far = Vec2::new(i64::MAX, i64::MIN);
    assert_eq!(far.plus(far), Vec2 { x: LIMIT, y: -LIMIT });
    assert_eq!(far.minus(Vec2::new(i64::MIN, i64::MAX)), Vec2 { x: LIMIT, y: -LIMIT });
    assert_eq!(far.scaled(i64::MAX), Vec2 { x: LIMIT, y: -LIMIT });
}

#[test]
fn vector_lengths() {
    let v = Vec2::new(fx(3.0), fx(-4.0));
    assert_eq!(v.square_len(), 25_000_000_000_000);
    assert_eq!(v.len(), fx(5.0));
    assert_eq!(Vec2::new(i64::MIN, i64::MIN).square_len(), 1u128 << 127);
    assert_eq!(Vec2::new(i64::MIN, i64::MIN).len(), LIMIT);
    assert_eq!(Vec2::zero().len(), 0);
}

#[test]
fn vector_length_comparisons_are_strict_and_exact() {
    let v = Vec2::new(fx(3.0), fx(4.0));
    assert!(v.shorter_than(fx(5.0) + 1));
    assert!(!v.shorter_than(fx(5.0)));
    assert!(!v.shorter_than(0));
    assert!(!v.shorter_than(-1));
    assert!(!Vec2::zero().shorter_than(0));
    assert!(Vec2::zero().shorter_than(1));
    assert!(v.longer_than(fx(5.0) - 1));
    assert!(!v.longer_than(fx(5.0)));
    assert!(v.longer_than(-1));
    assert!(Vec2::zero().longer_than(-1));
    assert!(!Vec2::zero().longer_than(0));
}

#[test]
fn normalizing_gives_length_one_or_the_fallback() {
    let fallback = Vec2::new(7, 9);
    assert_eq!(Vec2::new(fx(3.0), fx(4.0)).normalized_or(fallback), Vec2 { x: 600_000, y: 800_000 });
    assert_eq!(Vec2::new(fx(-50.0), 0).normalized_or(fallback), Vec2 { x: -UNIT, y: 0 });
    assert_eq!(Vec2::zero().normalized_or(fallback), fallback);
    let n = Vec2::new(123_456, -654_321).normalized_or(fallback);
    assert!(n.x.abs() <= UNIT && n.y.abs() <= UNIT);
    let len = ((as_float(n.x)).powi(2) + (as_float(n.y)).powi(2)).sqrt();
    assert!((len - 1.0).abs() < 1e-5);
}
