//! The two curves the simulation needs: the cosine of an angle and the
//! exponential of a drag, both in whole numbers.
//!
//! Angles count turns: `UNIT` is a full circle, so bringing an angle into
//! one turn, or into an eighth of a turn, is exact. On an eighth of a turn
//! the cosine and the sine are taken from their power series, with every
//! rounding outward, so that two bounds come out between which the true
//! value lies; the bounds are a few parts in `10^12` apart, and a product
//! with the cosine is rounded to the nearest raw unit only once. The drag divides by `(1 + x/n)^n` with
//! `n = 2^16`, the compound-interest form of `e^x`, raised by sixteen
//! squarings and worked out to twelve decimal places.

use vstd::prelude::*;
use crate::fixed::UNIT;

verus! {

/// A quarter turn.
pub const QUARTER: i64 = 250_000;

/// A full turn in radians.
pub const TAU: i64 = 6_283_185;

/// The angle `t` brought into `[0, UNIT)`: the same direction on the circle.
pub open spec fn spec_wrap_turn(t: i64) -> i64 {
    (t as int % UNIT as int) as i64
}

/// An eighth of a turn.
pub const EIGHTH: i64 = 125_000;

/// One, in the parts in `10^18` in which cosine and sine are worked out.
pub const WHOLE: i128 = 1_000_000_000_000_000_000;

/// The lower bound of the `k`-th coefficient of the power series of the
/// cosine, or of the sine divided by its angle, for an angle in turns:
/// `tau^(2k) / (2k)!` and `tau^(2k+1) / (2k+1)!`, in parts in `10^18`,
/// rounded down.
pub open spec fn coef_lo(k: int, sine: bool) -> int {
    if k <= 0 {
        if sine {
            6283185307179586476
        } else {
            1000000000000000000
        }
    } else if k == 1 {
        if sine {
            41341702240399760233
        } else {
            19739208802178717237
        }
    } else if k == 2 {
        if sine {
            81605249276075054203
        } else {
            64939394022668291490
        }
    } else if k == 3 {
        if sine {
            76705859753061385841
        } else {
            85456817206693727736
        }
    } else if k == 4 {
        if sine {
            42058693944897653144
        } else {
            60244641371876660362
        }
    } else if k == 5 {
        if sine {
            15094642576822990391
        } else {
            26426256783374397452
        }
    } else if k == 6 {
        if sine {
            3819952584848282127
        } else {
            7903536371318468804
        }
    } else {
        if sine {
            718122301778500512
        } else {
            1714390711088672065
        }
    }
}

/// The upper bound of the `k`-th coefficient, rounded up.
pub open spec fn coef_hi(k: int, sine: bool) -> int {
    if k <= 0 {
        if sine {
            6283185307179586477
        } else {
            1000000000000000000
        }
    } else if k == 1 {
        if sine {
            41341702240399760234
        } else {
            19739208802178717238
        }
    } else if k == 2 {
        if sine {
            81605249276075054204
        } else {
            64939394022668291491
        }
    } else if k == 3 {
        if sine {
            76705859753061385842
        } else {
            85456817206693727737
        }
    } else if k == 4 {
        if sine {
            42058693944897653145
        } else {
            60244641371876660363
        }
    } else if k == 5 {
        if sine {
            15094642576822990392
        } else {
            26426256783374397453
        }
    } else if k == 6 {
        if sine {
            3819952584848282128
        } else {
            7903536371318468805
        }
    } else {
        if sine {
            718122301778500513
        } else {
            1714390711088672066
        }
    }
}

/// How far apart the two bounds of the series can lie at level `k`.
pub open spec fn width(k: int) -> int {
    if k <= 0 {
        4000000
    } else if k == 1 {
        200000000
    } else if k == 2 {
        10000000000
    } else if k == 3 {
        400000000000
    } else if k == 4 {
        20000000000000
    } else if k == 5 {
        1000000000000000
    } else if k == 6 {
        40000000000000000
    } else {
        2000000000000000000
    }
}

/// Bounds, in parts in `10^18`, of the power series from its `k`-th term on,
/// taken by Horner's scheme for the square `y` of an angle of up to an
/// eighth of a turn, in squared raw units. The series alternates and its
/// terms fall, so what is left after seven terms lies between nothing and
/// the eighth coefficient; every level below takes its upper bound from the
/// lower bound above it and the other way round, and rounds outward. The true
/// value of the series therefore lies between the two.
pub open spec fn series_bounds(y: int, k: int, sine: bool) -> (int, int)
    decreases 7 - k,
{
    if k >= 7 {
        (0, coef_hi(7, sine))
    } else {
        let above = series_bounds(y, k + 1, sine);
        (
            coef_lo(k, sine) - (y * above.1 + FINE - 1) / (FINE as int),
            coef_hi(k, sine) - (y * above.0) / (FINE as int),
        )
    }
}

/// Bounds, in parts in `10^18`, of the cosine (or, for `sine`, of the sine)
/// of `v` raw units of a turn, for `v` up to an eighth of a turn. The sine
/// is its series times the angle.
pub open spec fn wave_bounds(v: int, sine: bool) -> (int, int) {
    let series = series_bounds(v * v, 0, sine);
    if sine {
        ((v * series.0) / (UNIT as int), (v * series.1 + UNIT - 1) / (UNIT as int))
    } else {
        series
    }
}

/// Where on the circle an angle lies: whether its cosine is negative,
/// whether that cosine is the sine of the reduced angle, and the reduced
/// angle, which is at most an eighth of a turn.
pub open spec fn octant(t: i64) -> (bool, bool, int) {
    let u = spec_wrap_turn(t);
    let h = if u > 2 * QUARTER {
        UNIT - u
    } else {
        u as int
    };
    if h <= EIGHTH {
        (false, false, h)
    } else if h <= QUARTER {
        (false, true, QUARTER - h)
    } else if h <= QUARTER + EIGHTH {
        (true, true, h - QUARTER)
    } else {
        (true, false, 2 * QUARTER - h)
    }
}

/// Two bounds, in parts in `10^18`, between which the true cosine of `t`
/// turns lies.
pub open spec fn cos_bracket(t: i64) -> (int, int) {
    let place = octant(t);
    let bounds = wave_bounds(place.2, place.1);
    if place.0 {
        (-bounds.1, -bounds.0)
    } else {
        bounds
    }
}

/// The cosine of `t` turns in parts in `10^18`: the end of its bracket that
/// is nearer to zero.
pub open spec fn spec_cos_fine(t: i64) -> int {
    let place = octant(t);
    let bounds = wave_bounds(place.2, place.1);
    if place.0 {
        -bounds.0
    } else {
        bounds.0
    }
}

/// The sine of `t` turns in parts in `10^18`: the cosine a quarter turn
/// earlier.
pub open spec fn spec_sin_fine(t: i64) -> int {
    spec_cos_fine((spec_wrap_turn(t) - QUARTER) as i64)
}

/// A scalar times a cosine or sine in parts in `10^18`, rounded to the
/// nearest raw unit and saturated.
pub open spec fn spec_times_fine(x: i64, c: int) -> i64 {
    crate::fixed::clamp(crate::fixed::round_div(x * c, WHOLE as int))
}

/// At every level the bounds of the series are in order, not negative, no
/// more than the level's coefficient, and no farther apart than the level's
/// width. For the angle zero they are the coefficient itself.
pub proof fn lemma_series(y: int, k: int, sine: bool)
    requires
        0 <= y <= 15_625_000_000,
        0 <= k <= 7,
    ensures
        0 <= series_bounds(y, k, sine).0 <= series_bounds(y, k, sine).1 <= coef_hi(k, sine),
        series_bounds(y, k, sine).1 - series_bounds(y, k, sine).0 <= width(k),
        y == 0 && k < 7 ==> series_bounds(y, k, sine) == (coef_lo(k, sine), coef_hi(k, sine)),
    decreases 7 - k,
{
    if k < 7 {
        lemma_series(y, k + 1, sine);
        let above = series_bounds(y, k + 1, sine);
        let down = y * above.1;
        let up = y * above.0;
        assert(0 <= up <= down <= 15_625_000_000 * above.1) by (nonlinear_arith)
            requires
                0 <= y <= 15_625_000_000,
                0 <= above.0 <= above.1,
                down == y * above.1,
                up == y * above.0,
        ;
        assert(down - up <= 15_625_000_000 * (above.1 - above.0)) by (nonlinear_arith)
            requires
                0 <= y <= 15_625_000_000,
                0 <= above.0 <= above.1,
                down == y * above.1,
                up == y * above.0,
        ;
        if y == 0 {
            assert(down == 0 && up == 0) by (nonlinear_arith)
                requires
                    y == 0,
                    down == y * above.1,
                    up == y * above.0,
            ;
        }
    }
}

/// The two bounds of a wave are in order, between nothing and one, and no
/// farther apart than four parts in `10^12`.
pub proof fn lemma_wave(v: int, sine: bool)
    requires
        0 <= v <= EIGHTH,
    ensures
        0 <= wave_bounds(v, sine).0 <= wave_bounds(v, sine).1 <= 1_000_000_000_000_000_000,
        wave_bounds(v, sine).1 - wave_bounds(v, sine).0 <= 4_000_000,
        v == 0 ==> wave_bounds(v, sine) == (if sine {
            (0int, 0int)
        } else {
            (1_000_000_000_000_000_000int, 1_000_000_000_000_000_000int)
        }),
{
    assert(0 <= v * v <= 15_625_000_000) by (nonlinear_arith)
        requires
            0 <= v <= 125_000,
    ;
    lemma_series(v * v, 0, sine);
    let series = series_bounds(v * v, 0, sine);
    if sine {
        let low = v * series.0;
        let high = v * series.1;
        assert(0 <= low <= high <= 125_000 * series.1) by (nonlinear_arith)
            requires
                0 <= v <= 125_000,
                0 <= series.0 <= series.1,
                low == v * series.0,
                high == v * series.1,
        ;
        assert(high - low <= 125_000 * (series.1 - series.0)) by (nonlinear_arith)
            requires
                0 <= v <= 125_000,
                0 <= series.0 <= series.1,
                low == v * series.0,
                high == v * series.1,
        ;
        if v == 0 {
            assert(low == 0 && high == 0) by (nonlinear_arith)
                requires
                    v == 0,
                    low == v * series.0,
                    high == v * series.1,
            ;
        }
    } else if v == 0 {
        assert(v * v == 0) by (nonlinear_arith)
            requires
                v == 0,
        ;
    }
}

/// The cosine lies within its bracket, which is no wider than four parts in
/// `10^12`, and never leaves the range from minus one to one.
pub proof fn lemma_cos_bracket(t: i64)
    ensures
        cos_bracket(t).0 <= spec_cos_fine(t) <= cos_bracket(t).1,
        0 <= cos_bracket(t).1 - cos_bracket(t).0 <= 4_000_000,
        -WHOLE <= spec_cos_fine(t) <= WHOLE,
{
    let place = octant(t);
    lemma_wave(place.2, place.1);
}

/// The cosine at the four cardinal angles is exact.
pub proof fn lemma_cos_cardinal()
    ensures
        spec_cos_fine(0) == WHOLE,
        spec_cos_fine(QUARTER) == 0,
        spec_cos_fine((2 * QUARTER) as i64) == -WHOLE,
        spec_cos_fine((3 * QUARTER) as i64) == 0,
{
    lemma_wave(0, false);
    lemma_wave(0, true);
}

/// The cosine of an eighth of a turn is the square root of a half, to
/// eighteen places.
pub proof fn lemma_cos_of_an_eighth()
    ensures
        spec_cos_fine(EIGHTH) == 707106781186546524,
        cos_bracket(EIGHTH) == (707106781186546524int, 707106781186936332int),
        spec_times_fine(UNIT, spec_cos_fine(EIGHTH)) == 707_107,
{
    let y: int = 15625000000;
    assert(series_bounds(y, 7, false) == (0int, 1714390711088672066int));
    assert(y * 1714390711088672066 == 26787354860760501031250000000) by (nonlinear_arith)
        requires
            y == 15625000000,
    ;
    assert(y * 0 == 0) by (nonlinear_arith)
        requires
            y == 15625000000,
    ;
    assert(series_bounds(y, 6, false) == (7876749016457708302int, 7903536371318468805int));
    assert(y * 7903536371318468805 == 123492755801851075078125000000) by (nonlinear_arith)
        requires
            y == 15625000000,
    ;
    assert(y * 7876749016457708302 == 123074203382151692218750000000) by (nonlinear_arith)
        requires
            y == 15625000000,
    ;
    assert(series_bounds(y, 5, false) == (26302764027572546376int, 26303182579992245761int));
    assert(y * 26303182579992245761 == 410987227812378840015625000000) by (nonlinear_arith)
        requires
            y == 15625000000,
    ;
    assert(y * 26302764027572546376 == 410980687930821037125000000000) by (nonlinear_arith)
        requires
            y == 15625000000,
    ;
    assert(series_bounds(y, 4, false) == (59833654144064281521int, 59833660683945839326int));
    assert(y * 59833660683945839326 == 934900948186653739468750000000) by (nonlinear_arith)
        requires
            y == 15625000000,
    ;
    assert(y * 59833654144064281521 == 934900846001004398765625000000) by (nonlinear_arith)
        requires
            y == 15625000000,
    ;
    assert(series_bounds(y, 3, false) == (84521916258507073996int, 84521916360692723339int));
    assert(y * 84521916360692723339 == 1320654943135823802171875000000) by (nonlinear_arith)
        requires
            y == 15625000000,
    ;
    assert(y * 84521916258507073996 == 1320654941539173031187500000000) by (nonlinear_arith)
        requires
            y == 15625000000,
    ;
    assert(series_bounds(y, 2, false) == (63618739079532467687int, 63618739081129118460int));
    assert(y * 63618739081129118460 == 994042798142642475937500000000) by (nonlinear_arith)
        requires
            y == 15625000000,
    ;
    assert(y * 63618739079532467687 == 994042798117694807609375000000) by (nonlinear_arith)
        requires
            y == 15625000000,
    ;
    assert(series_bounds(y, 1, false) == (18745166004036074761int, 18745166004061022431int));
    assert(y * 18745166004061022431 == 292893218813453475484375000000) by (nonlinear_arith)
        requires
            y == 15625000000,
    ;
    assert(y * 18745166004036074761 == 292893218813063668140625000000) by (nonlinear_arith)
        requires
            y == 15625000000,
    ;
    assert(series_bounds(y, 0, false) == (707106781186546524int, 707106781186936332int));
    assert(125_000int * 125_000int == y) by (nonlinear_arith)
        requires
            y == 15625000000,
    ;
    assert(UNIT * 707106781186546524 == 707106781186546524000000) by (nonlinear_arith)
        requires
            UNIT == 1_000_000,
    ;
}

/// Brings an angle into `[0, UNIT)`.
#[verifier::when_used_as_spec(spec_wrap_turn)]
pub fn wrap_turn(t: i64) -> (u: i64)
    ensures
        u == spec_wrap_turn(t),
        0 <= u < UNIT,
{
    let r: i64 = t % UNIT;
    if r < 0 {
        r + UNIT
    } else {
        r
    }
}

/// The two bounds of the `k`-th coefficient.
fn coef(k: u8, sine: bool) -> (r: (u128, u128))
    requires
        k <= 7,
    ensures
        r.0 == coef_lo(k as int, sine),
        r.1 == coef_hi(k as int, sine),
{
    let cosine: [(u128, u128); 8] = [
        (1000000000000000000, 1000000000000000000),
        (19739208802178717237, 19739208802178717238),
        (64939394022668291490, 64939394022668291491),
        (85456817206693727736, 85456817206693727737),
        (60244641371876660362, 60244641371876660363),
        (26426256783374397452, 26426256783374397453),
        (7903536371318468804, 7903536371318468805),
        (1714390711088672065, 1714390711088672066),
    ];
    let sines: [(u128, u128); 8] = [
        (6283185307179586476, 6283185307179586477),
        (41341702240399760233, 41341702240399760234),
        (81605249276075054203, 81605249276075054204),
        (76705859753061385841, 76705859753061385842),
        (42058693944897653144, 42058693944897653145),
        (15094642576822990391, 15094642576822990392),
        (3819952584848282127, 3819952584848282128),
        (718122301778500512, 718122301778500513),
    ];
    if sine {
        sines[k as usize]
    } else {
        cosine[k as usize]
    }
}

/// The bounds of a wave of `v` raw units of a turn, for `v` up to an eighth
/// of a turn.
fn wave(v: i64, sine: bool) -> (r: (u128, u128))
    requires
        0 <= v <= EIGHTH,
    ensures
        r.0 == wave_bounds(v as int, sine).0,
        r.1 == wave_bounds(v as int, sine).1,
        r.0 <= r.1 <= 1_000_000_000_000_000_000,
{
    assert(0 <= v * v <= 15_625_000_000) by (nonlinear_arith)
        requires
            0 <= v <= 125_000,
    ;
    let y: u128 = (v as u128) * (v as u128);
    let top: (u128, u128) = coef(7, sine);
    let mut lo: u128 = 0;
    let mut hi: u128 = top.1;
    let mut k: u8 = 7;
    while k > 0
        invariant
            k <= 7,
            y <= 15_625_000_000,
            (lo as int, hi as int) == series_bounds(y as int, k as int, sine),
        decreases k,
    {
        proof {
            lemma_series(y as int, k as int, sine);
            lemma_series(y as int, k - 1, sine);
            assert(y * hi <= 15_625_000_000 * 100_000_000_000_000_000_000 && y * lo <= y * hi)
                by (nonlinear_arith)
                requires
                    0 <= y <= 15_625_000_000,
                    0 <= lo <= hi <= 100_000_000_000_000_000_000,
            ;
        }
        let c: (u128, u128) = coef(k - 1, sine);
        let next_lo: u128 = c.0 - (y * hi + FINE - 1) / FINE;
        let next_hi: u128 = c.1 - (y * lo) / FINE;
        lo = next_lo;
        hi = next_hi;
        k = k - 1;
    }
    proof {
        lemma_series(y as int, 0, sine);
        lemma_wave(v as int, sine);
        assert(v * lo <= v * hi <= 125_000 * 100_000_000_000_000_000_000) by (nonlinear_arith)
            requires
                0 <= v <= 125_000,
                0 <= lo <= hi <= 100_000_000_000_000_000_000,
        ;
    }
    if sine {
        (((v as u128) * lo) / (UNIT as u128), ((v as u128) * hi + (UNIT as u128) - 1) / (UNIT as u128))
    } else {
        (lo, hi)
    }
}

/// The cosine of `t` turns in parts in `10^18`: one end of a bracket that
/// encloses the true cosine and is no wider than four parts in `10^12`.
pub fn cos_fine(t: i64) -> (r: i128)
    ensures
        r == spec_cos_fine(t),
        -WHOLE <= r <= WHOLE,
        cos_bracket(t).0 <= r <= cos_bracket(t).1,
        cos_bracket(t).1 - cos_bracket(t).0 <= 4_000_000,
{
    proof {
        lemma_cos_bracket(t);
    }
    let u: i64 = wrap_turn(t);
    let h: i64 = if u > 2 * QUARTER {
        UNIT - u
    } else {
        u
    };
    if h <= EIGHTH {
        wave(h, false).0 as i128
    } else if h <= QUARTER {
        wave(QUARTER - h, true).0 as i128
    } else if h <= QUARTER + EIGHTH {
        -(wave(h - QUARTER, true).0 as i128)
    } else {
        -(wave(2 * QUARTER - h, false).0 as i128)
    }
}

/// The sine of `t` turns in parts in `10^18`.
pub fn sin_fine(t: i64) -> (r: i128)
    ensures
        r == spec_sin_fine(t),
        -WHOLE <= r <= WHOLE,
{
    cos_fine(wrap_turn(t) - QUARTER)
}

/// A scalar times a cosine or sine in parts in `10^18`, rounded to the
/// nearest raw unit and saturated.
pub fn times_fine(x: i64, c: i128) -> (r: i64)
    requires
        -WHOLE <= c <= WHOLE,
    ensures
        r == spec_times_fine(x, c as int),
{
    assert(-0x8000_0000_0000_0000 * 1_000_000_000_000_000_000 <= x * c <= 0x8000_0000_0000_0000
        * 1_000_000_000_000_000_000) by (nonlinear_arith)
        requires
            -0x8000_0000_0000_0000 <= x <= 0x7fff_ffff_ffff_ffff,
            -1_000_000_000_000_000_000 <= c <= 1_000_000_000_000_000_000,
    ;
    crate::fixed::saturate(crate::fixed::div_to_nearest((x as i128) * c, WHOLE))
}

/// An angle after it has turned on by `shift`. Angles are not brought back
/// into one turn: they run on through the whole range of their type, and
/// stop only at its ends.
pub open spec fn spec_turned(angle: i64, shift: i64) -> i64 {
    if angle + shift > i64::MAX {
        i64::MAX
    } else if angle + shift < i64::MIN {
        i64::MIN
    } else {
        (angle + shift) as i64
    }
}

/// An angle after it has turned on by `shift`.
#[verifier::when_used_as_spec(spec_turned)]
pub fn turned(angle: i64, shift: i64) -> (r: i64)
    ensures
        r == spec_turned(angle, shift),
{
    let sum: i128 = angle as i128 + shift as i128;
    if sum > i64::MAX as i128 {
        i64::MAX
    } else if sum < i64::MIN as i128 {
        i64::MIN
    } else {
        sum as i64
    }
}

/// The angle of the `k`-th of `n` points that divide the circle evenly,
/// rounded down to a raw unit. The points run on past the full turn.
pub open spec fn point_angle(k: int, n: int) -> int
    recommends
        n > 0,
{
    (k * UNIT) / n
}

/// The angle of the point that follows the last point at or before `angle`,
/// of the `n` points that divide the circle evenly. It is worked out from the
/// number of the point, not by adding a rounded step, so that `n` steps make
/// exactly one turn.
pub open spec fn spec_next_point(angle: i64, n: i64) -> i64
    recommends
        0 < n <= UNIT,
{
    let k = (angle * n + n - 1) / (UNIT as int);
    crate::fixed::clamp(point_angle(k + 1, n as int))
}

/// The quotient of `a` by a positive `d`, rounded down.
fn floor_div(a: i128, d: i128) -> (q: i128)
    requires
        0 < d <= 1_000_000,
        -0x4000_0000_0000_0000_0000_0000 <= a <= 0x4000_0000_0000_0000_0000_0000,
    ensures
        q == a / d,
{
    let q: i128 = a / d;
    proof {
        vstd::arithmetic::div_mod::lemma_fundamental_div_mod(a as int, d as int);
        vstd::arithmetic::div_mod::lemma_mod_bound(a as int, d as int);
        if a < 0 {
            vstd::arithmetic::div_mod::lemma_fundamental_div_mod(-(a as int), d as int);
            vstd::arithmetic::div_mod::lemma_mod_bound(-(a as int), d as int);
            let e = (a as int) / (d as int);
            let r = (a as int) % (d as int);
            let t = (-(a as int)) / (d as int);
            let u = (-(a as int)) % (d as int);
            assert(r == 0 ==> e == -t) by (nonlinear_arith)
                requires
                    a == d * e + r,
                    -a == d * t + u,
                    0 <= r < d,
                    0 <= u < d,
            ;
            assert(r != 0 ==> e == -t - 1) by (nonlinear_arith)
                requires
                    a == d * e + r,
                    -a == d * t + u,
                    0 <= r < d,
                    0 <= u < d,
            ;
            assert((r == 0) == ((-t) * d == a)) by (nonlinear_arith)
                requires
                    a == d * e + r,
                    -a == d * t + u,
                    0 <= r < d,
                    0 <= u < d,
                    r == 0 ==> e == -t,
                    r != 0 ==> e == -t - 1,
            ;
            assert(-0x4000_0000_0000_0000_0000_0000 <= (-t) * d <= 0) by (nonlinear_arith)
                requires
                    -a == d * t + u,
                    0 <= u < d,
                    a < 0,
                    -0x4000_0000_0000_0000_0000_0000 <= a,
                    t >= 0,
            ;
        }
    }
    if a < 0 && q * d != a {
        q - 1
    } else {
        q
    }
}

/// The angle of the point that follows the last point at or before `angle`.
#[verifier::when_used_as_spec(spec_next_point)]
pub fn next_point(angle: i64, n: i64) -> (r: i64)
    requires
        0 < n <= UNIT,
    ensures
        r == spec_next_point(angle, n),
{
    assert(-0x8000_0000_0000_0000 * 1_000_000 <= angle * n <= 0x8000_0000_0000_0000 * 1_000_000)
        by (nonlinear_arith)
        requires
            -0x8000_0000_0000_0000 <= angle <= 0x7fff_ffff_ffff_ffff,
            0 < n <= 1_000_000,
    ;
    let k: i128 = floor_div((angle as i128) * (n as i128) + (n as i128) - 1, UNIT as i128);
    assert(-0x8000_0000_0000_0000 * 1_000_000 <= (k + 1) * UNIT <= 0x8000_0000_0000_0000 * 1_000_000
        + 2_000_000) by (nonlinear_arith)
        requires
            k == (angle * n + n - 1) / (UNIT as int),
            -0x8000_0000_0000_0000 * 1_000_000 <= angle * n <= 0x8000_0000_0000_0000 * 1_000_000,
            0 < n <= 1_000_000,
            UNIT == 1_000_000,
    ;
    crate::fixed::saturate(floor_div((k + 1) * (UNIT as i128), n as i128))
}

/// From one point of the circle the next is reached exactly, however far the
/// points have run on: the roundings do not add up.
pub proof fn lemma_points_follow(k: int, n: i64)
    requires
        0 < n <= UNIT,
        0 <= k,
        point_angle(k + 1, n as int) <= crate::fixed::LIMIT,
    ensures
        spec_next_point(point_angle(k, n as int) as i64, n) == point_angle(k + 1, n as int),
{
    let angle = point_angle(k, n as int);
    vstd::arithmetic::div_mod::lemma_fundamental_div_mod(k * UNIT, n as int);
    vstd::arithmetic::div_mod::lemma_mod_bound(k * UNIT, n as int);
    let r = (k * UNIT) % (n as int);
    assert(0 <= angle) by {
        assert(k * UNIT >= 0) by (nonlinear_arith)
            requires
                k >= 0,
                UNIT == 1_000_000,
        ;
        vstd::arithmetic::div_mod::lemma_div_pos_is_pos(k * UNIT, n as int);
    }
    vstd::arithmetic::div_mod::lemma_div_is_ordered(k * UNIT, (k + 1) * UNIT, n as int);
    assert(k * UNIT <= (k + 1) * UNIT) by (nonlinear_arith)
        requires
            UNIT == 1_000_000,
    ;
    // angle * n lies in (k * UNIT - n, k * UNIT]
    assert(angle * n == k * UNIT - r) by (nonlinear_arith)
        requires
            k * UNIT == n * angle + r,
    ;
    let top = angle * n + n - 1;
    assert((k - 1) * UNIT + UNIT == k * UNIT) by (nonlinear_arith);
    assert(k * UNIT <= top < k * UNIT + UNIT) by {
        assert(0 <= r < n <= UNIT);
    }
    vstd::arithmetic::div_mod::lemma_fundamental_div_mod(top, UNIT as int);
    vstd::arithmetic::div_mod::lemma_mod_bound(top, UNIT as int);
    let q = top / (UNIT as int);
    let m = top % (UNIT as int);
    assert(q == k) by (nonlinear_arith)
        requires
            top == UNIT * q + m,
            0 <= m < UNIT,
            k * UNIT <= top < k * UNIT + UNIT,
            UNIT == 1_000_000,
    ;
}

/// One, in the fine units in which the curves are worked out: a millionth
/// of a raw unit.
pub const FINE: u128 = 1_000_000_000_000;

/// The largest value that the growth can take, in fine units: a million.
pub const CAP: u128 = 1_000_000_000_000_000_000;

/// How many fine units of the base one unit of the exponent is worth,
/// inverted: a raw unit squared times a raw unit, shared out over `2^16`
/// factors.
pub const SHARE: u128 = 65_536_000_000;

/// The base of the growth, in fine units: one plus the `2^16`-th part of the
/// exponent, rounded up, so that every exponent above zero moves it.
pub open spec fn growth_base(e: int) -> int {
    let base = FINE + (e + SHARE - 1) / (SHARE as int);
    if base > CAP {
        CAP as int
    } else {
        base
    }
}

/// The square of `y` in fine units, no more than the cap.
pub open spec fn fine_square(y: int) -> int {
    let square = (y * y) / (FINE as int);
    if square > CAP {
        CAP as int
    } else {
        square
    }
}

/// `y` squared `k` times over.
pub open spec fn squared_times(y: int, k: nat) -> int
    decreases k,
{
    if k == 0 {
        y
    } else {
        fine_square(squared_times(y, (k - 1) as nat))
    }
}

/// The approximate value of `e^x`, in fine units and no more than the cap,
/// for an exponent `x` of `e` parts in `10^18` (the unit of a squared raw
/// length times a raw factor). It is `(1 + x/n)^n` with `n = 2^16`, raised
/// by sixteen squarings; one for every exponent that is not positive. Drag
/// divides a velocity by it.
pub open spec fn spec_growth(e: int) -> int {
    if e <= 0 {
        FINE as int
    } else {
        squared_times(growth_base(e), 16)
    }
}

/// Squaring keeps a value of at least one between itself and the cap, and
/// keeps the order of two such values.
pub proof fn lemma_square_monotone(a: int, b: int)
    requires
        FINE <= a <= b <= CAP,
    ensures
        a <= fine_square(a) <= fine_square(b) <= CAP,
        b <= fine_square(b),
{
    assert(a * FINE <= a * a <= b * b && b * FINE <= b * b) by (nonlinear_arith)
        requires
            FINE <= a <= b,
    ;
    assert((a * FINE) / (FINE as int) == a) by (nonlinear_arith)
        requires
            FINE == 1_000_000_000_000,
    ;
    assert((b * FINE) / (FINE as int) == b) by (nonlinear_arith)
        requires
            FINE == 1_000_000_000_000,
    ;
    vstd::arithmetic::div_mod::lemma_div_is_ordered(a * FINE, a * a, FINE as int);
    vstd::arithmetic::div_mod::lemma_div_is_ordered(a * a, b * b, FINE as int);
    vstd::arithmetic::div_mod::lemma_div_is_ordered(b * FINE, b * b, FINE as int);
}

/// Repeated squaring keeps a value of at least one between itself and the
/// cap, and keeps the order of two such values.
pub proof fn lemma_squared_times_monotone(a: int, b: int, k: nat)
    requires
        FINE <= a <= b <= CAP,
    ensures
        a <= squared_times(a, k) <= squared_times(b, k) <= CAP,
    decreases k,
{
    if k > 0 {
        lemma_squared_times_monotone(a, b, (k - 1) as nat);
        lemma_square_monotone(squared_times(a, (k - 1) as nat), squared_times(b, (k - 1) as nat));
    }
}

/// The base lies between one and the cap, is above one for every exponent
/// above zero, and grows with the exponent.
pub proof fn lemma_growth_base(e1: int, e2: int)
    requires
        0 < e1 <= e2,
    ensures
        FINE < growth_base(e1) <= growth_base(e2) <= CAP,
{
    vstd::arithmetic::div_mod::lemma_div_is_ordered(e1 + SHARE - 1, e2 + SHARE - 1, SHARE as int);
    vstd::arithmetic::div_mod::lemma_div_is_ordered(SHARE as int, e1 + SHARE - 1, SHARE as int);
    vstd::arithmetic::div_mod::lemma_div_by_self(SHARE as int);
}

/// The growth lies between one and the cap; it is one only where the
/// exponent is not above zero, and a larger exponent never gives a smaller
/// growth.
pub proof fn lemma_growth(e1: int, e2: int)
    requires
        e1 <= e2,
    ensures
        FINE <= spec_growth(e1) <= spec_growth(e2) <= CAP,
        e1 <= 0 ==> spec_growth(e1) == FINE,
        e1 > 0 ==> spec_growth(e1) > FINE,
{
    if e2 > 0 {
        lemma_growth_base(e2, e2);
        lemma_squared_times_monotone(growth_base(e2), growth_base(e2), 16);
    }
    if e1 > 0 {
        lemma_growth_base(e1, e2);
        lemma_squared_times_monotone(growth_base(e1), growth_base(e2), 16);
        lemma_squared_times_monotone(growth_base(e1), growth_base(e1), 16);
    }
}

/// The growth at an exponent of 0.0004, the drag on a swimmer of speed one.
pub proof fn lemma_growth_at_speed_one()
    ensures
        spec_growth(400_000_000_000_000) == 1000400111338,
{
    assert(growth_base(400_000_000_000_000) == 1000000006104);
    assert(squared_times(1000000006104, 0) == 1000000006104);
    assert(1000000006104int * 1000000006104int == 1000000012208000037258816int) by (nonlinear_arith);
    assert(squared_times(1000000006104, 1) == 1000000012208);
    assert(1000000012208int * 1000000012208int == 1000000024416000149035264int) by (nonlinear_arith);
    assert(squared_times(1000000006104, 2) == 1000000024416);
    assert(1000000024416int * 1000000024416int == 1000000048832000596141056int) by (nonlinear_arith);
    assert(squared_times(1000000006104, 3) == 1000000048832);
    assert(1000000048832int * 1000000048832int == 1000000097664002384564224int) by (nonlinear_arith);
    assert(squared_times(1000000006104, 4) == 1000000097664);
    assert(1000000097664int * 1000000097664int == 1000000195328009538256896int) by (nonlinear_arith);
    assert(squared_times(1000000006104, 5) == 1000000195328);
    assert(1000000195328int * 1000000195328int == 1000000390656038153027584int) by (nonlinear_arith);
    assert(squared_times(1000000006104, 6) == 1000000390656);
    assert(1000000390656int * 1000000390656int == 1000000781312152612110336int) by (nonlinear_arith);
    assert(squared_times(1000000006104, 7) == 1000000781312);
    assert(1000000781312int * 1000000781312int == 1000001562624610448441344int) by (nonlinear_arith);
    assert(squared_times(1000000006104, 8) == 1000001562624);
    assert(1000001562624int * 1000001562624int == 1000003125250441793765376int) by (nonlinear_arith);
    assert(squared_times(1000000006104, 9) == 1000003125250);
    assert(1000003125250int * 1000003125250int == 1000006250509767187562500int) by (nonlinear_arith);
    assert(squared_times(1000000006104, 10) == 1000006250509);
    assert(1000006250509int * 1000006250509int == 1000012501057068862759081int) by (nonlinear_arith);
    assert(squared_times(1000000006104, 11) == 1000012501057);
    assert(1000012501057int * 1000012501057int == 1000025002270276426117249int) by (nonlinear_arith);
    assert(squared_times(1000000006104, 12) == 1000025002270);
    assert(1000025002270int * 1000025002270int == 1000050005165113505152900int) by (nonlinear_arith);
    assert(squared_times(1000000006104, 13) == 1000050005165);
    assert(1000050005165int * 1000050005165int == 1000100012830516526677225int) by (nonlinear_arith);
    assert(squared_times(1000000006104, 14) == 1000100012830);
    assert(1000100012830int * 1000100012830int == 1000200035662566164608900int) by (nonlinear_arith);
    assert(squared_times(1000000006104, 15) == 1000200035662);
    assert(1000200035662int * 1000200035662int == 1000400111338266071778244int) by (nonlinear_arith);
    assert(squared_times(1000000006104, 16) == 1000400111338);
}

/// The growth at an exponent of 0.0008, the drag on a swimmer whose squared
/// speed is two.
pub proof fn lemma_growth_at_square_speed_two()
    ensures
        spec_growth(800_000_000_000_000) == 1000800382765,
{
    assert(growth_base(800_000_000_000_000) == 1000000012208);
    assert(squared_times(1000000012208, 0) == 1000000012208);
    assert(1000000012208int * 1000000012208int == 1000000024416000149035264int) by (nonlinear_arith);
    assert(squared_times(1000000012208, 1) == 1000000024416);
    assert(1000000024416int * 1000000024416int == 1000000048832000596141056int) by (nonlinear_arith);
    assert(squared_times(1000000012208, 2) == 1000000048832);
    assert(1000000048832int * 1000000048832int == 1000000097664002384564224int) by (nonlinear_arith);
    assert(squared_times(1000000012208, 3) == 1000000097664);
    assert(1000000097664int * 1000000097664int == 1000000195328009538256896int) by (nonlinear_arith);
    assert(squared_times(1000000012208, 4) == 1000000195328);
    assert(1000000195328int * 1000000195328int == 1000000390656038153027584int) by (nonlinear_arith);
    assert(squared_times(1000000012208, 5) == 1000000390656);
    assert(1000000390656int * 1000000390656int == 1000000781312152612110336int) by (nonlinear_arith);
    assert(squared_times(1000000012208, 6) == 1000000781312);
    assert(1000000781312int * 1000000781312int == 1000001562624610448441344int) by (nonlinear_arith);
    assert(squared_times(1000000012208, 7) == 1000001562624);
    assert(1000001562624int * 1000001562624int == 1000003125250441793765376int) by (nonlinear_arith);
    assert(squared_times(1000000012208, 8) == 1000003125250);
    assert(1000003125250int * 1000003125250int == 1000006250509767187562500int) by (nonlinear_arith);
    assert(squared_times(1000000012208, 9) == 1000006250509);
    assert(1000006250509int * 1000006250509int == 1000012501057068862759081int) by (nonlinear_arith);
    assert(squared_times(1000000012208, 10) == 1000012501057);
    assert(1000012501057int * 1000012501057int == 1000025002270276426117249int) by (nonlinear_arith);
    assert(squared_times(1000000012208, 11) == 1000025002270);
    assert(1000025002270int * 1000025002270int == 1000050005165113505152900int) by (nonlinear_arith);
    assert(squared_times(1000000012208, 12) == 1000050005165);
    assert(1000050005165int * 1000050005165int == 1000100012830516526677225int) by (nonlinear_arith);
    assert(squared_times(1000000012208, 13) == 1000100012830);
    assert(1000100012830int * 1000100012830int == 1000200035662566164608900int) by (nonlinear_arith);
    assert(squared_times(1000000012208, 14) == 1000200035662);
    assert(1000200035662int * 1000200035662int == 1000400111338266071778244int) by (nonlinear_arith);
    assert(squared_times(1000000012208, 15) == 1000400111338);
    assert(1000400111338int * 1000400111338int == 1000800382765082796150244int) by (nonlinear_arith);
    assert(squared_times(1000000012208, 16) == 1000800382765);
}

/// The approximate value of `e^x` in fine units, by which drag divides a
/// velocity, for an exponent `x` of `e` parts in `10^18`.
pub fn growth(e: u128) -> (r: u128)
    ensures
        r == spec_growth(e as int),
        FINE <= r <= CAP,
{
    if e == 0 {
        return FINE;
    }
    proof {
        lemma_growth_base(e as int, e as int);
    }
    let mut y: u128 = if e >= 1_000_000_000_000_000_000_000_000_000_000 {
        CAP
    } else {
        let base: u128 = FINE + (e + SHARE - 1) / SHARE;
        if base > CAP {
            CAP
        } else {
            base
        }
    };
    let ghost base = y as int;
    let mut k: u8 = 0;
    while k < 16
        invariant
            k <= 16,
            FINE <= base <= CAP,
            y == squared_times(base, k as nat),
        decreases 16 - k,
    {
        proof {
            lemma_squared_times_monotone(base, base, k as nat);
            assert(y * y <= 1_000_000_000_000_000_000_000_000_000_000_000_000) by (nonlinear_arith)
                requires
                    0 <= y <= 1_000_000_000_000_000_000,
            ;
        }
        let square: u128 = y * y / FINE;
        y = if square > CAP {
            CAP
        } else {
            square
        };
        k = k + 1;
    }
    proof {
        lemma_squared_times_monotone(base, base, 16);
    }
    y
}

} // verus!
