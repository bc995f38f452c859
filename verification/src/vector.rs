//! Points and displacements in the plane, in fixed-point coordinates.
//!
//! Sums, differences, scalings and squared lengths are computed by `vecmath`
//! on wide integers, where they are exact, and then narrowed by the rules of
//! `fixed`.

use vstd::prelude::*;
use crate::fixed::{
    UNIT, clamp, trunc_div, spec_plus, spec_minus, spec_times, saturate, div_toward_zero,
    spec_isqrt, isqrt, spec_over, over, lemma_product_fits,
};

verus! {

/// A point or a displacement.
#[derive(Clone, Copy, PartialEq, Eq, Debug, Structural)]
pub struct Vec2 {
    pub x: i64,
    pub y: i64,
}

/// `vecmath::vec2_add` on wide integers: the sum, component by component.
/// The caller rules out overflow.
#[verifier::external_body]
fn vec2_add(a: [i128; 2], b: [i128; 2]) -> (r: [i128; 2])
    requires
        i128::MIN <= a[0] + b[0] <= i128::MAX,
        i128::MIN <= a[1] + b[1] <= i128::MAX,
    ensures
        r[0] == a[0] + b[0],
        r[1] == a[1] + b[1],
{
    vecmath::vec2_add(a, b)
}

/// `vecmath::vec2_sub` on wide integers: the difference `a - b`, component by
/// component. The caller rules out overflow.
#[verifier::external_body]
fn vec2_sub(a: [i128; 2], b: [i128; 2]) -> (r: [i128; 2])
    requires
        i128::MIN <= a[0] - b[0] <= i128::MAX,
        i128::MIN <= a[1] - b[1] <= i128::MAX,
    ensures
        r[0] == a[0] - b[0],
        r[1] == a[1] - b[1],
{
    vecmath::vec2_sub(a, b)
}

/// `vecmath::vec2_scale` on wide integers: each component times `s`.
/// The caller rules out overflow.
#[verifier::external_body]
fn vec2_scale(a: [i128; 2], s: i128) -> (r: [i128; 2])
    requires
        i128::MIN <= a[0] * s <= i128::MAX,
        i128::MIN <= a[1] * s <= i128::MAX,
    ensures
        r[0] == a[0] * s,
        r[1] == a[1] * s,
{
    vecmath::vec2_scale(a, s)
}

/// `vecmath::vec2_square_len` on wide unsigned integers: the sum of the two
/// squares. The caller rules out overflow.
#[verifier::external_body]
fn vec2_square_len(a: [u128; 2]) -> (r: u128)
    requires
        a[0] * a[0] + a[1] * a[1] <= u128::MAX,
    ensures
        r == a[0] * a[0] + a[1] * a[1],
{
    vecmath::vec2_square_len(a)
}

/// The absolute value, which always fits the unsigned wide type.
fn magnitude(x: i64) -> (m: u128)
    ensures
        m == if x >= 0 { x as int } else { -x },
        m <= 0x8000_0000_0000_0000,
{
    if x >= 0 {
        x as u128
    } else {
        (-(x as i128)) as u128
    }
}

impl Vec2 {
    /// The vector with the given components.
    pub fn new(x: i64, y: i64) -> (r: Vec2)
        ensures
            r == (Vec2 { x, y }),
    {
        Vec2 { x, y }
    }

    /// The zero vector.
    pub open spec fn spec_zero() -> Vec2 {
        Vec2 { x: 0, y: 0 }
    }

    /// The zero vector.
    #[verifier::when_used_as_spec(spec_zero)]
    pub fn zero() -> (r: Vec2)
        ensures
            r == Vec2::spec_zero(),
    {
        Vec2 { x: 0, y: 0 }
    }

    /// The sum, component by component, saturated.
    pub open spec fn spec_plus(self, other: Vec2) -> Vec2 {
        Vec2 { x: spec_plus(self.x, other.x), y: spec_plus(self.y, other.y) }
    }

    /// The saturating sum of two vectors.
    #[verifier::when_used_as_spec(spec_plus)]
    pub fn plus(self, other: Vec2) -> (r: Vec2)
        ensures
            r == self.spec_plus(other),
    {
        let wide: [i128; 2] = vec2_add(
            [self.x as i128, self.y as i128],
            [other.x as i128, other.y as i128],
        );
        Vec2 { x: saturate(wide[0]), y: saturate(wide[1]) }
    }

    /// The difference, component by component, saturated.
    pub open spec fn spec_minus(self, other: Vec2) -> Vec2 {
        Vec2 { x: spec_minus(self.x, other.x), y: spec_minus(self.y, other.y) }
    }

    /// The saturating difference of two vectors: the displacement from `other`
    /// to `self`.
    #[verifier::when_used_as_spec(spec_minus)]
    pub fn minus(self, other: Vec2) -> (r: Vec2)
        ensures
            r == self.spec_minus(other),
    {
        let wide: [i128; 2] = vec2_sub(
            [self.x as i128, self.y as i128],
            [other.x as i128, other.y as i128],
        );
        Vec2 { x: saturate(wide[0]), y: saturate(wide[1]) }
    }

    /// Each component times the fixed-point factor `s`.
    pub open spec fn spec_scaled(self, s: i64) -> Vec2 {
        Vec2 { x: spec_times(self.x, s), y: spec_times(self.y, s) }
    }

    /// The vector stretched by the fixed-point factor `s`.
    #[verifier::when_used_as_spec(spec_scaled)]
    pub fn scaled(self, s: i64) -> (r: Vec2)
        ensures
            r == self.spec_scaled(s),
    {
        proof {
            lemma_product_fits(self.x, s);
            lemma_product_fits(self.y, s);
        }
        let wide: [i128; 2] = vec2_scale([self.x as i128, self.y as i128], s as i128);
        Vec2 {
            x: saturate(div_toward_zero(wide[0], UNIT as i128)),
            y: saturate(div_toward_zero(wide[1], UNIT as i128)),
        }
    }

    /// Each component over the fixed-point divisor `s`.
    pub open spec fn spec_divided(self, s: i64) -> Vec2
        recommends
            s != 0,
    {
        Vec2 { x: spec_over(self.x, s), y: spec_over(self.y, s) }
    }

    /// The vector shrunk by the fixed-point divisor `s`.
    #[verifier::when_used_as_spec(spec_divided)]
    pub fn divided(self, s: i64) -> (r: Vec2)
        requires
            s != 0,
        ensures
            r == self.spec_divided(s),
    {
        Vec2 { x: over(self.x, s), y: over(self.y, s) }
    }

    /// The squared length, exactly, in squared raw units.
    pub open spec fn spec_square_len(self) -> int {
        self.x * self.x + self.y * self.y
    }

    /// The squared length, exactly, in squared raw units.
    pub fn square_len(self) -> (r: u128)
        ensures
            r == self.spec_square_len(),
    {
        let mx: u128 = magnitude(self.x);
        let my: u128 = magnitude(self.y);
        proof {
            lemma_square_fits(mx as int);
            lemma_square_fits(my as int);
            assert(mx * mx == self.x * self.x) by (nonlinear_arith)
                requires
                    mx == self.x || mx == -self.x,
            ;
            assert(my * my == self.y * self.y) by (nonlinear_arith)
                requires
                    my == self.y || my == -self.y,
            ;
        }
        vec2_square_len([mx, my])
    }

    /// The length, rounded down to a raw unit and saturated.
    pub open spec fn spec_len(self) -> i64 {
        clamp(spec_isqrt(self.spec_square_len()))
    }

    /// The length, rounded down to a raw unit and saturated.
    #[verifier::when_used_as_spec(spec_len)]
    pub fn len(self) -> (r: i64)
        ensures
            r == self.spec_len(),
            r >= 0,
    {
        let root: u64 = isqrt(self.square_len());
        saturate(root as i128)
    }

    /// Whether the vector is shorter than `r`.
    pub open spec fn spec_shorter_than(self, r: i64) -> bool {
        r > 0 && self.spec_square_len() < r * r
    }

    /// Whether the vector is shorter than `r`, decided exactly on the
    /// squares.
    #[verifier::when_used_as_spec(spec_shorter_than)]
    pub fn shorter_than(self, r: i64) -> (b: bool)
        ensures
            b == self.spec_shorter_than(r),
    {
        if r <= 0 {
            return false;
        }
        let mr: u128 = magnitude(r);
        proof {
            lemma_square_fits(mr as int);
            assert(mr * mr == r * r) by (nonlinear_arith)
                requires
                    mr == r,
            ;
        }
        self.square_len() < mr * mr
    }

    /// Whether the vector is longer than `r`.
    pub open spec fn spec_longer_than(self, r: i64) -> bool {
        r < 0 || self.spec_square_len() > r * r
    }

    /// Whether the vector is longer than `r`, decided exactly on the squares.
    #[verifier::when_used_as_spec(spec_longer_than)]
    pub fn longer_than(self, r: i64) -> (b: bool)
        ensures
            b == self.spec_longer_than(r),
    {
        if r < 0 {
            return true;
        }
        let mr: u128 = magnitude(r);
        proof {
            lemma_square_fits(mr as int);
            assert(mr * mr == r * r) by (nonlinear_arith)
                requires
                    mr == r,
            ;
        }
        self.square_len() > mr * mr
    }

    /// The vector of length one in the same direction, or `fallback` where
    /// the length rounds down to zero.
    pub open spec fn spec_normalized_or(self, fallback: Vec2) -> Vec2 {
        let l = spec_isqrt(self.spec_square_len());
        if l == 0 {
            fallback
        } else {
            Vec2 {
                x: clamp(trunc_div(self.x * UNIT, l)),
                y: clamp(trunc_div(self.y * UNIT, l)),
            }
        }
    }

    /// The vector of length one in the same direction, or `fallback` where
    /// the length rounds down to zero.
    #[verifier::when_used_as_spec(spec_normalized_or)]
    pub fn normalized_or(self, fallback: Vec2) -> (r: Vec2)
        ensures
            r == self.spec_normalized_or(fallback),
    {
        let root: u64 = isqrt(self.square_len());
        if root == 0 {
            return fallback;
        }
        proof {
            lemma_product_fits(self.x, UNIT);
            lemma_product_fits(self.y, UNIT);
        }
        let wide: [i128; 2] = vec2_scale([self.x as i128, self.y as i128], UNIT as i128);
        Vec2 {
            x: saturate(div_toward_zero(wide[0], root as i128)),
            y: saturate(div_toward_zero(wide[1], root as i128)),
        }
    }
}

/// The square of a scalar's magnitude is at most a quarter of the unsigned
/// wide range.
pub proof fn lemma_square_fits(m: int)
    requires
        0 <= m <= 0x8000_0000_0000_0000,
    ensures
        0 <= m * m <= 0x4000_0000_0000_0000_0000_0000_0000_0000,
{
    assert(0 <= m * m <= 0x4000_0000_0000_0000_0000_0000_0000_0000) by (nonlinear_arith)
        requires
            0 <= m <= 0x8000_0000_0000_0000,
    ;
}

} // verus!
