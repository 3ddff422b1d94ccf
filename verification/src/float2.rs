//! Two-component vectors.

use vstd::prelude::*;
use crate::arith::{
    divide, isqrt, lemma_product_bound, lemma_sqrt_exists, lemma_squares_keep_order,
    lemma_square_between, lemma_trunc_div_below, lemma_trunc_div_bounds, magnitude, ratio, sqrt,
    trunc_div, UNIT,
};

verus! {

/// A point or a vector of the plane with integer coordinates: what a [`Float2`]
/// stands for in contracts.
pub struct Point {
    pub x: int,
    pub y: int,
}

/// A pair of fixed-point numbers: a position in micrometres, or a direction
/// whose components are counted in millionths.
#[derive(Debug, Clone, Copy, PartialEq, Eq, Structural)]
pub struct Float2(i32, i32);

/// A component of a [`Float2`] can hold the number.
pub open spec fn fits(a: int) -> bool {
    i32::MIN <= a <= i32::MAX
}

/// The square of the length of `v`.
pub open spec fn norm_squared(v: Point) -> int {
    v.x * v.x + v.y * v.y
}

/// The length of `v` in millionths of its unit, rounded down.
pub open spec fn fine_length(v: Point) -> int {
    sqrt(norm_squared(v) * (UNIT * UNIT))
}

/// The vector of length one that points where `v` points, its components
/// counted in millionths and rounded toward zero.
pub open spec fn unit_of(v: Point) -> Point {
    Point {
        x: trunc_div(v.x * (UNIT * UNIT), fine_length(v)),
        y: trunc_div(v.y * (UNIT * UNIT), fine_length(v)),
    }
}

/// The vector, its components counted in millionths, has length one within a
/// hundred-thousandth.
pub open spec fn is_unit_length(v: Point) -> bool {
    (UNIT - 10) * (UNIT - 10) <= norm_squared(v) <= (UNIT + 10) * (UNIT + 10)
}

/// The square of a number counted in millionths.
proof fn lemma_scaled_square(a: int, b: int)
    by (nonlinear_arith)
    ensures
        (UNIT * magnitude(a)) * (UNIT * magnitude(a)) <= (a * a + b * b) * (UNIT * UNIT),
        (UNIT * magnitude(b)) * (UNIT * magnitude(b)) <= (a * a + b * b) * (UNIT * UNIT),
        a * a >= 0,
        b * b >= 0,
{
}

/// A component over a length that covers it is at most one.
proof fn lemma_unit_component(a: int, length: int)
    requires
        UNIT * magnitude(a) <= length,
        length > 0,
    ensures
        -UNIT <= trunc_div(a * (UNIT * UNIT), length) <= UNIT,
{
    assert(magnitude(a * (UNIT * UNIT)) <= UNIT * length) by (nonlinear_arith)
        requires
            UNIT * magnitude(a) <= length,
    ;
    lemma_trunc_div_below(a * (UNIT * UNIT), UNIT * length, length);
    assert((UNIT * length) / length == UNIT) by (nonlinear_arith)
        requires
            length > 0,
    ;
}

/// A vector is no shorter than either of its components is long.
pub proof fn lemma_length_covers_components(v: Point)
    ensures
        UNIT * magnitude(v.x) <= fine_length(v),
        UNIT * magnitude(v.y) <= fine_length(v),
        0 <= fine_length(v),
{
    lemma_scaled_square(v.x, v.y);
    let n = norm_squared(v) * (UNIT * UNIT);
    assert(n >= 0) by (nonlinear_arith)
        requires
            n == norm_squared(v) * (UNIT * UNIT),
            norm_squared(v) >= 0,
    ;
    lemma_sqrt_exists(n);
    let root = fine_length(v);
    lemma_squares_keep_order(root + 1, UNIT * magnitude(v.x));
    lemma_squares_keep_order(root + 1, UNIT * magnitude(v.y));
}

/// A unit vector is no longer than one and a millionth.
proof fn lemma_unit_is_not_long(s: int, l: int, n: int, u: int)
    by (nonlinear_arith)
    requires
        0 < u <= l,
        0 <= s,
        s * (l * l) <= n * (u * u),
        n < (l + 1) * (l + 1),
    ensures
        s < (u + 1) * (u + 1),
{
    if s >= (u + 1) * (u + 1) {
        assert((u + 1) * l >= (l + 1) * u);
        assert(((u + 1) * l) * ((u + 1) * l) >= ((l + 1) * u) * ((l + 1) * u));
        assert(s * (l * l) >= ((u + 1) * (u + 1)) * (l * l));
        assert(((u + 1) * (u + 1)) * (l * l) == ((u + 1) * l) * ((u + 1) * l));
        assert(((l + 1) * u) * ((l + 1) * u) == ((l + 1) * (l + 1)) * (u * u));
        assert(((l + 1) * (l + 1)) * (u * u) > n * (u * u));
    }
}

/// A unit vector is no shorter than one less three millionths.
proof fn lemma_unit_is_not_short(a: int, b: int, l: int, n: int, u: int)
    by (nonlinear_arith)
    requires
        5 <= u,
        0 < l,
        0 <= a <= u,
        0 <= b <= u,
        l * l <= n,
        n * (u * u) < ((a + 1) * (a + 1) + (b + 1) * (b + 1)) * (l * l),
    ensures
        (u - 3) * (u - 3) <= a * a + b * b,
{
    let t = (a + 1) * (a + 1) + (b + 1) * (b + 1);
    assert((l * l) * (u * u) <= n * (u * u));
    assert((l * l) * (u * u) < t * (l * l));
    assert(u * u < t);
    assert(t == a * a + b * b + 2 * a + 2 * b + 2);
}

/// The vector that [`unit_of`] gives has length one, within three millionths.
pub proof fn lemma_unit_has_length_one(v: Point)
    requires
        v.x != 0 || v.y != 0,
    ensures
        (UNIT - 3) * (UNIT - 3) <= norm_squared(unit_of(v)) < (UNIT + 1) * (UNIT + 1),
{
    let one = UNIT * UNIT;
    let n = norm_squared(v) * one;
    let l = fine_length(v);
    let unit = unit_of(v);
    lemma_scaled_square(v.x, v.y);
    assert(n >= 0) by (nonlinear_arith)
        requires
            n == norm_squared(v) * one,
            norm_squared(v) >= 0,
            one == UNIT * UNIT,
    ;
    lemma_sqrt_exists(n);
    lemma_length_covers_components(v);
    assert(l >= UNIT) by {
        if v.x != 0 {
            assert(UNIT * magnitude(v.x) >= UNIT) by (nonlinear_arith)
                requires
                    magnitude(v.x) >= 1,
            ;
        } else {
            assert(UNIT * magnitude(v.y) >= UNIT) by (nonlinear_arith)
                requires
                    magnitude(v.y) >= 1,
            ;
        }
    }
    let a = magnitude(unit.x);
    let b = magnitude(unit.y);
    let x = magnitude(v.x * one);
    let y = magnitude(v.y * one);
    lemma_trunc_div_bounds(v.x * one, l);
    lemma_trunc_div_bounds(v.y * one, l);
    lemma_unit_component(v.x, l);
    lemma_unit_component(v.y, l);
    lemma_square_between(a, l, x);
    lemma_square_between(b, l, y);
    assert(x * x + y * y == n * one) by (nonlinear_arith)
        requires
            x == magnitude(v.x * one),
            y == magnitude(v.y * one),
            n == (v.x * v.x + v.y * v.y) * one,
    ;
    assert(a * a == unit.x * unit.x && b * b == unit.y * unit.y) by (nonlinear_arith)
        requires
            a == magnitude(unit.x),
            b == magnitude(unit.y),
    ;
    let s = a * a + b * b;
    assert(s * (l * l) == (a * a) * (l * l) + (b * b) * (l * l)) by (nonlinear_arith)
        requires
            s == a * a + b * b,
    ;
    let t = (a + 1) * (a + 1) + (b + 1) * (b + 1);
    assert(t * (l * l) == ((a + 1) * (a + 1)) * (l * l) + ((b + 1) * (b + 1)) * (l * l))
        by (nonlinear_arith)
        requires
            t == (a + 1) * (a + 1) + (b + 1) * (b + 1),
    ;
    lemma_unit_is_not_long(s, l, n, UNIT as int);
    lemma_unit_is_not_short(a, b, l, n, UNIT as int);
}

impl View for Float2 {
    type V = Point;

    closed spec fn view(&self) -> Point {
        Point { x: self.0 as int, y: self.1 as int }
    }
}

impl core::ops::Add for Float2 {
    type Output = Self;

    /// The sum, component by component.
    fn add(self, other: Self) -> (sum: Self)
        ensures
            sum@ == (Point { x: self@.x + other@.x, y: self@.y + other@.y }),
    {
        Self(self.0 + other.0, self.1 + other.1)
    }
}

impl vstd::std_specs::ops::AddSpecImpl for Float2 {
    open spec fn obeys_add_spec() -> bool {
        true
    }

    open spec fn add_req(self, other: Self) -> bool {
        fits(self@.x + other@.x) && fits(self@.y + other@.y)
    }

    open spec fn add_spec(self, other: Self) -> Self {
        Float2::at(Point { x: self@.x + other@.x, y: self@.y + other@.y })
    }
}

impl core::ops::Sub for Float2 {
    type Output = Self;

    /// The difference, component by component.
    fn sub(self, other: Self) -> (difference: Self)
        ensures
            difference@ == (Point { x: self@.x - other@.x, y: self@.y - other@.y }),
    {
        Self(self.0 - other.0, self.1 - other.1)
    }
}

impl vstd::std_specs::ops::SubSpecImpl for Float2 {
    open spec fn obeys_sub_spec() -> bool {
        true
    }

    open spec fn sub_req(self, other: Self) -> bool {
        fits(self@.x - other@.x) && fits(self@.y - other@.y)
    }

    open spec fn sub_spec(self, other: Self) -> Self {
        Float2::at(Point { x: self@.x - other@.x, y: self@.y - other@.y })
    }
}

impl core::ops::Mul<Float2> for Float2 {
    type Output = Self;

    /// The product, component by component, of numbers counted in millionths.
    fn mul(self, other: Self) -> (product: Self)
        ensures
            product@ == (Point {
                x: trunc_div(self@.x * other@.x, UNIT as int),
                y: trunc_div(self@.y * other@.y, UNIT as int),
            }),
    {
        proof {
            lemma_product_bound(self@.x, other@.x, 0x8000_0000, 0x8000_0000);
            lemma_product_bound(self@.y, other@.y, 0x8000_0000, 0x8000_0000);
        }
        Self(
            ((self.0 as i64 * other.0 as i64) / UNIT) as i32,
            ((self.1 as i64 * other.1 as i64) / UNIT) as i32,
        )
    }
}

impl vstd::std_specs::ops::MulSpecImpl<Float2> for Float2 {
    open spec fn obeys_mul_spec() -> bool {
        true
    }

    open spec fn mul_req(self, other: Self) -> bool {
        fits(trunc_div(self@.x * other@.x, UNIT as int)) && fits(
            trunc_div(self@.y * other@.y, UNIT as int),
        )
    }

    open spec fn mul_spec(self, other: Self) -> Self {
        Float2::at(
            Point {
                x: trunc_div(self@.x * other@.x, UNIT as int),
                y: trunc_div(self@.y * other@.y, UNIT as int),
            },
        )
    }
}

impl core::ops::Mul<i64> for Float2 {
    type Output = Self;

    /// Both components times `other`, the numbers counted in millionths.
    fn mul(self, other: i64) -> (product: Self)
        ensures
            product@ == (Point {
                x: trunc_div(self@.x * other, UNIT as int),
                y: trunc_div(self@.y * other, UNIT as int),
            }),
    {
        proof {
            lemma_product_bound(self@.x, other as int, 0x8000_0000, 0x8000_0000_0000_0000);
            lemma_product_bound(self@.y, other as int, 0x8000_0000, 0x8000_0000_0000_0000);
        }
        Self(
            ((self.0 as i128 * other as i128) / (UNIT as i128)) as i32,
            ((self.1 as i128 * other as i128) / (UNIT as i128)) as i32,
        )
    }
}

impl vstd::std_specs::ops::MulSpecImpl<i64> for Float2 {
    open spec fn obeys_mul_spec() -> bool {
        true
    }

    open spec fn mul_req(self, other: i64) -> bool {
        fits(trunc_div(self@.x * other, UNIT as int)) && fits(
            trunc_div(self@.y * other, UNIT as int),
        )
    }

    open spec fn mul_spec(self, other: i64) -> Self {
        Float2::at(
            Point {
                x: trunc_div(self@.x * other, UNIT as int),
                y: trunc_div(self@.y * other, UNIT as int),
            },
        )
    }
}

impl core::ops::Div<Float2> for Float2 {
    type Output = Self;

    /// The quotient, component by component, of numbers counted in millionths.
    fn div(self, other: Self) -> (quotient: Self)
        ensures
            quotient@ == (Point {
                x: ratio(self@.x * UNIT, other@.x),
                y: ratio(self@.y * UNIT, other@.y),
            }),
    {
        Self(
            divide(self.0 as i128 * UNIT as i128, other.0 as i128) as i32,
            divide(self.1 as i128 * UNIT as i128, other.1 as i128) as i32,
        )
    }
}

impl vstd::std_specs::ops::DivSpecImpl<Float2> for Float2 {
    open spec fn obeys_div_spec() -> bool {
        true
    }

    open spec fn div_req(self, other: Self) -> bool {
        &&& other@.x != 0
        &&& other@.y != 0
        &&& fits(ratio(self@.x * UNIT, other@.x))
        &&& fits(ratio(self@.y * UNIT, other@.y))
    }

    open spec fn div_spec(self, other: Self) -> Self {
        Float2::at(
            Point { x: ratio(self@.x * UNIT, other@.x), y: ratio(self@.y * UNIT, other@.y) },
        )
    }
}

impl core::ops::Div<i64> for Float2 {
    type Output = Self;

    /// Both components over `other`, the numbers counted in millionths.
    fn div(self, other: i64) -> (quotient: Self)
        ensures
            quotient@ == (Point {
                x: ratio(self@.x * UNIT, other as int),
                y: ratio(self@.y * UNIT, other as int),
            }),
    {
        Self(
            divide(self.0 as i128 * UNIT as i128, other as i128) as i32,
            divide(self.1 as i128 * UNIT as i128, other as i128) as i32,
        )
    }
}

impl vstd::std_specs::ops::DivSpecImpl<i64> for Float2 {
    open spec fn obeys_div_spec() -> bool {
        true
    }

    open spec fn div_req(self, other: i64) -> bool {
        &&& other != 0
        &&& fits(ratio(self@.x * UNIT, other as int))
        &&& fits(ratio(self@.y * UNIT, other as int))
    }

    open spec fn div_spec(self, other: i64) -> Self {
        Float2::at(
            Point {
                x: ratio(self@.x * UNIT, other as int),
                y: ratio(self@.y * UNIT, other as int),
            },
        )
    }
}

impl Float2 {
    /// The vector that stands for `p`, where its coordinates fit.
    pub closed spec fn at(p: Point) -> Float2 {
        Float2(p.x as i32, p.y as i32)
    }

    /// A vector stands for a point whose coordinates fit, and for each such
    /// point there is one vector.
    pub proof fn lemma_stands_for_a_point(self)
        ensures
            fits(self@.x),
            fits(self@.y),
            Float2::at(self@) == self,
    {
    }

    /// The vector that stands for a point whose coordinates fit stands for
    /// that point.
    pub proof fn lemma_point_has_a_vector(p: Point)
        requires
            fits(p.x),
            fits(p.y),
        ensures
            Float2::at(p)@ == p,
    {
    }

    /// Adds `rhs` to the vector, component by component.
    pub fn add_assign(&mut self, rhs: Float2)
        requires
            fits(old(self)@.x + rhs@.x),
            fits(old(self)@.y + rhs@.y),
        ensures
            final(self)@ == (Point { x: old(self)@.x + rhs@.x, y: old(self)@.y + rhs@.y }),
    {
        *self = Self(self.0 + rhs.0, self.1 + rhs.1)
    }

    /// The vector with the components `a` along x and `b` along y.
    pub fn new(a: i32, b: i32) -> (v: Self)
        ensures
            v@ == (Point { x: a as int, y: b as int }),
    {
        Float2(a, b)
    }

    /// The component along x.
    pub fn get_x(&self) -> (x: i32)
        ensures
            x == self@.x,
    {
        self.0
    }

    /// The component along y.
    pub fn get_y(&self) -> (y: i32)
        ensures
            y == self@.y,
    {
        self.1
    }

    /// Changes the component along x.
    pub fn set_x(&mut self, x: i32)
        ensures
            final(self)@ == (Point { x: x as int, y: old(self)@.y }),
    {
        self.0 = x;
    }

    /// Changes the component along y.
    pub fn set_y(&mut self, y: i32)
        ensures
            final(self)@ == (Point { x: old(self)@.x, y: y as int }),
    {
        self.1 = y;
    }

    /// Whether the vector, its components counted in millionths, has length
    /// one within a hundred-thousandth.
    pub fn is_unit(&self) -> (unit: bool)
        ensures
            unit == is_unit_length(self@),
    {
        let x = self.0 as i128;
        let y = self.1 as i128;
        proof {
            lemma_product_bound(x as int, x as int, 0x8000_0000, 0x8000_0000);
            lemma_product_bound(y as int, y as int, 0x8000_0000, 0x8000_0000);
        }
        let square = x * x + y * y;
        let least: i128 = 999_980_000_100;
        let most: i128 = 1_000_020_000_100;
        assert(least == (UNIT - 10) * (UNIT - 10) && most == (UNIT + 10) * (UNIT + 10))
            by (nonlinear_arith)
            requires
                UNIT == 1_000_000,
                least == 999_980_000_100,
                most == 1_000_020_000_100,
        ;
        least <= square && square <= most
    }

    /// The length of the vector, rounded down.
    pub fn length(self) -> (length: i64)
        ensures
            length == sqrt(norm_squared(self@)),
    {
        let x = self.0 as i128;
        let y = self.1 as i128;
        proof {
            lemma_product_bound(x as int, x as int, 0x8000_0000, 0x8000_0000);
            lemma_product_bound(y as int, y as int, 0x8000_0000, 0x8000_0000);
            lemma_scaled_square(x as int, y as int);
        }
        let square = (x * x + y * y) as u128;
        let root = isqrt(square);
        proof {
            lemma_squares_keep_order(0x1_0000_0000, root as int);
        }
        root as i64
    }

    /// The vector of length one that points the same way. A vector without
    /// length points nowhere and has none.
    pub fn make_unit(self) -> (unit: Self)
        requires
            self@.x != 0 || self@.y != 0,
        ensures
            unit@ == unit_of(self@),
            -UNIT <= unit@.x <= UNIT,
            -UNIT <= unit@.y <= UNIT,
            (UNIT - 3) * (UNIT - 3) <= norm_squared(unit@) < (UNIT + 1) * (UNIT + 1),
            is_unit_length(unit@),
    {
        let x = self.0 as i128;
        let y = self.1 as i128;
        let one = UNIT as i128 * UNIT as i128;
        assert(one == 1_000_000_000_000) by (nonlinear_arith)
            requires
                one == UNIT * UNIT,
                UNIT == 1_000_000,
        ;
        proof {
            lemma_product_bound(x as int, x as int, 0x8000_0000, 0x8000_0000);
            lemma_product_bound(y as int, y as int, 0x8000_0000, 0x8000_0000);
            lemma_scaled_square(x as int, y as int);
            lemma_product_bound(x * x + y * y, one as int, 0x8000_0000_0000_0000, 1_000_000_000_000);
            lemma_product_bound(x as int, one as int, 0x8000_0000, 1_000_000_000_000);
            lemma_product_bound(y as int, one as int, 0x8000_0000, 1_000_000_000_000);
            lemma_length_covers_components(self@);
        }
        let length = isqrt(((x * x + y * y) * one) as u128) as i128;
        proof {
            assert(length == fine_length(self@));
            lemma_unit_component(x as int, length as int);
            lemma_unit_component(y as int, length as int);
            lemma_unit_has_length_one(self@);
            assert(is_unit_length(unit_of(self@))) by (nonlinear_arith)
                requires
                    (UNIT - 3) * (UNIT - 3) <= norm_squared(unit_of(self@)) < (UNIT + 1) * (UNIT
                        + 1),
                    UNIT == 1_000_000,
            ;
        }
        Float2((x * one / length) as i32, (y * one / length) as i32)
    }
}

} // verus!
