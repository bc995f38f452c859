//! Fixed-point scalars.
//!
//! Every quantity of the simulation (a coordinate, a speed, a span of time, a
//! share of health) is an `i64` that counts millionths: `UNIT` stands for one.
//! Arithmetic is exact up to truncation toward zero and saturates at
//! `LIMIT`, one million whole units, so no operation can overflow or panic.

use vstd::prelude::*;

verus! {

/// The raw value that stands for one.
pub const UNIT: i64 = 1_000_000;

/// The magnitude at which results saturate: one million whole units.
pub const LIMIT: i64 = 1_000_000_000_000;

/// One half.
pub const HALF: i64 = 500_000;

/// `x` brought into `[-LIMIT, LIMIT]`.
pub open spec fn clamp(x: int) -> i64 {
    if x < -LIMIT {
        (-LIMIT) as i64
    } else if x > LIMIT {
        LIMIT
    } else {
        x as i64
    }
}

/// The quotient of `n` by a positive `d`, rounded toward zero.
pub open spec fn trunc_div(n: int, d: int) -> int
    recommends
        d > 0,
{
    if n >= 0 {
        n / d
    } else {
        -((-n) / d)
    }
}

/// Whether a raw value lies within the saturation bounds.
pub open spec fn in_range(x: i64) -> bool {
    -LIMIT <= x <= LIMIT
}

/// The sum, saturated.
pub open spec fn spec_plus(a: i64, b: i64) -> i64 {
    clamp(a + b)
}

/// The difference, saturated.
pub open spec fn spec_minus(a: i64, b: i64) -> i64 {
    clamp(a - b)
}

/// The fixed-point product `a * b / UNIT`, rounded toward zero and saturated.
pub open spec fn spec_times(a: i64, b: i64) -> i64 {
    clamp(trunc_div(a * b, UNIT as int))
}

/// The larger of two scalars.
pub open spec fn spec_max(a: i64, b: i64) -> i64 {
    if a >= b {
        a
    } else {
        b
    }
}

/// Narrows a wide intermediate result to a scalar, saturating.
pub fn saturate(x: i128) -> (r: i64)
    ensures
        r == clamp(x as int),
{
    if x < -(LIMIT as i128) {
        -LIMIT
    } else if x > LIMIT as i128 {
        LIMIT
    } else {
        x as i64
    }
}

/// Rounds a wide quotient toward zero.
pub fn div_toward_zero(n: i128, d: i128) -> (q: i128)
    requires
        d > 0,
        n > i128::MIN,
    ensures
        q == trunc_div(n as int, d as int),
{
    n / d
}

/// The quotient of `n` by a positive `d`, rounded to the nearest whole
/// number, a half away from zero.
pub open spec fn round_div(n: int, d: int) -> int
    recommends
        d > 0,
{
    trunc_div(2 * n + (if n >= 0 { d } else { -d }), 2 * d)
}

/// Rounds a wide quotient to the nearest whole number.
pub fn div_to_nearest(n: i128, d: i128) -> (q: i128)
    requires
        0 < d <= 0x2000_0000_0000_0000_0000_0000_0000_0000,
        -0x2000_0000_0000_0000_0000_0000_0000_0000 <= n <= 0x2000_0000_0000_0000_0000_0000_0000_0000,
    ensures
        q == round_div(n as int, d as int),
{
    if n >= 0 {
        (2 * n + d) / (2 * d)
    } else {
        (2 * n - d) / (2 * d)
    }
}

/// The saturating sum.
#[verifier::when_used_as_spec(spec_plus)]
pub fn plus(a: i64, b: i64) -> (r: i64)
    ensures
        r == spec_plus(a, b),
{
    saturate(a as i128 + b as i128)
}

/// The saturating difference.
#[verifier::when_used_as_spec(spec_minus)]
pub fn minus(a: i64, b: i64) -> (r: i64)
    ensures
        r == spec_minus(a, b),
{
    saturate(a as i128 - b as i128)
}

/// The saturating fixed-point product: `a * b / UNIT`, rounded toward zero.
#[verifier::when_used_as_spec(spec_times)]
pub fn times(a: i64, b: i64) -> (r: i64)
    ensures
        r == spec_times(a, b),
{
    let wide: i128 = wide_product(a, b);
    saturate(div_toward_zero(wide, UNIT as i128))
}

/// The product of two scalars fits a wide integer with room to spare.
pub proof fn lemma_product_fits(a: i64, b: i64)
    ensures
        -0x4000_0000_0000_0000_0000_0000_0000_0000 <= a * b
            <= 0x4000_0000_0000_0000_0000_0000_0000_0000,
{
    assert(-0x4000_0000_0000_0000_0000_0000_0000_0000 <= a * b
        <= 0x4000_0000_0000_0000_0000_0000_0000_0000) by (nonlinear_arith)
        requires
            -0x8000_0000_0000_0000 <= a <= 0x7fff_ffff_ffff_ffff,
            -0x8000_0000_0000_0000 <= b <= 0x7fff_ffff_ffff_ffff,
    ;
}

/// The exact product of two scalars, in squared raw units.
pub fn wide_product(a: i64, b: i64) -> (r: i128)
    ensures
        r == a * b,
        -0x4000_0000_0000_0000_0000_0000_0000_0000 <= r <= 0x4000_0000_0000_0000_0000_0000_0000_0000,
{
    proof {
        lemma_product_fits(a, b);
    }
    (a as i128) * (b as i128)
}

/// The fixed-point quotient `a * UNIT / b`, rounded toward zero and
/// saturated.
pub open spec fn spec_over(a: i64, b: i64) -> i64
    recommends
        b != 0,
{
    if b > 0 {
        clamp(trunc_div(a * UNIT, b as int))
    } else {
        clamp(trunc_div(-(a * UNIT), -b))
    }
}

/// The saturating fixed-point quotient: `a * UNIT / b`, rounded toward zero.
#[verifier::when_used_as_spec(spec_over)]
pub fn over(a: i64, b: i64) -> (r: i64)
    requires
        b != 0,
    ensures
        r == spec_over(a, b),
{
    let n: i128 = wide_product(a, UNIT);
    if b > 0 {
        saturate(div_toward_zero(n, b as i128))
    } else {
        saturate(div_toward_zero(-n, -(b as i128)))
    }
}

/// The larger of two scalars.
#[verifier::when_used_as_spec(spec_max)]
pub fn max(a: i64, b: i64) -> (r: i64)
    ensures
        r == spec_max(a, b),
{
    if a >= b {
        a
    } else {
        b
    }
}

/// Whether `r` is the square root of `n`, rounded down.
pub open spec fn is_sqrt(n: int, r: int) -> bool {
    r >= 0 && r * r <= n < (r + 1) * (r + 1)
}

/// The square root of `n`, rounded down.
pub open spec fn spec_isqrt(n: int) -> int {
    choose|r: int| is_sqrt(n, r)
}

/// At most one number is the rounded-down root of `n`.
pub proof fn lemma_sqrt_unique(n: int, r1: int, r2: int)
    requires
        is_sqrt(n, r1),
        is_sqrt(n, r2),
    ensures
        r1 == r2,
{
    if r1 < r2 {
        assert((r1 + 1) * (r1 + 1) <= r2 * r2) by (nonlinear_arith)
            requires
                0 <= r1 + 1 <= r2,
        ;
    } else if r2 < r1 {
        assert((r2 + 1) * (r2 + 1) <= r1 * r1) by (nonlinear_arith)
            requires
                0 <= r2 + 1 <= r1,
        ;
    }
}

/// The square root of an unsigned wide value, rounded down.
pub fn isqrt(n: u128) -> (r: u64)
    ensures
        is_sqrt(n as int, r as int),
        r == spec_isqrt(n as int),
{
    let mut lo: u128 = 0;
    let mut hi: u128 = 0x1_0000_0000_0000_0000;
    assert(n < hi * hi) by (nonlinear_arith)
        requires
            hi == 0x1_0000_0000_0000_0000,
            n <= 0xffff_ffff_ffff_ffff_ffff_ffff_ffff_ffff,
    ;
    while hi - lo > 1
        invariant
            lo < hi <= 0x1_0000_0000_0000_0000,
            lo * lo <= n < hi * hi,
        decreases hi - lo,
    {
        let mid: u128 = lo + (hi - lo) / 2;
        assert(mid * mid <= 0xffff_ffff_ffff_ffff * 0xffff_ffff_ffff_ffff) by (nonlinear_arith)
            requires
                0 <= mid <= 0xffff_ffff_ffff_ffff,
        ;
        if mid * mid <= n {
            lo = mid;
        } else {
            hi = mid;
        }
    }
    proof {
        assert(hi == lo + 1);
        assert(is_sqrt(n as int, lo as int));
        lemma_sqrt_unique(n as int, lo as int, spec_isqrt(n as int));
    }
    lo as u64
}

} // verus!
