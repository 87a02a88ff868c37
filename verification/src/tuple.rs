//! Homogeneous four-component tuples over the integers.

use vstd::prelude::*;

verus! {

/// Largest magnitude a number may have so that four pairwise products of such
/// numbers can be summed in 64 bits.
pub const PRODUCT_LIMIT: i64 = 1_000_000_000;

/// The square of [`PRODUCT_LIMIT`]: the largest magnitude of one such product.
pub const PRODUCT_BOUND: i64 = 1_000_000_000_000_000_000;

/// Whether `v` can be held in a signed 64-bit word.
pub open spec fn fits(v: int) -> bool {
    i64::MIN <= v <= i64::MAX
}

/// Whether `v` lies between `-limit` and `limit`.
pub open spec fn bounded(v: int, limit: int) -> bool {
    -limit <= v <= limit
}

/// The mathematical value of a [`Tuple`]: four unbounded integers.
pub struct Vec4 {
    pub x: int,
    pub y: int,
    pub z: int,
    pub w: int,
}

impl Vec4 {
    pub open spec fn neg(self) -> Vec4 {
        Vec4 { x: -self.x, y: -self.y, z: -self.z, w: -self.w }
    }

    pub open spec fn add(self, rhs: Vec4) -> Vec4 {
        Vec4 { x: self.x + rhs.x, y: self.y + rhs.y, z: self.z + rhs.z, w: self.w + rhs.w }
    }

    pub open spec fn sub(self, rhs: Vec4) -> Vec4 {
        Vec4 { x: self.x - rhs.x, y: self.y - rhs.y, z: self.z - rhs.z, w: self.w - rhs.w }
    }

    pub open spec fn scale(self, k: int) -> Vec4 {
        Vec4 { x: self.x * k, y: self.y * k, z: self.z * k, w: self.w * k }
    }

    pub open spec fn dot(self, rhs: Vec4) -> int {
        self.x * rhs.x + self.y * rhs.y + self.z * rhs.z + self.w * rhs.w
    }

    /// The three-dimensional cross product; `w` of both operands is ignored
    /// and the result is a vector.
    pub open spec fn cross(self, rhs: Vec4) -> Vec4 {
        Vec4 {
            x: self.y * rhs.z - self.z * rhs.y,
            y: self.z * rhs.x - self.x * rhs.z,
            z: self.x * rhs.y - self.y * rhs.x,
            w: 0,
        }
    }

    /// The tuple of four zeros.
    pub open spec fn zero() -> Vec4 {
        Vec4 { x: 0, y: 0, z: 0, w: 0 }
    }

    /// A point has `w == 1`.
    pub open spec fn is_point(self) -> bool {
        self.w == 1
    }

    /// A vector has `w == 0`.
    pub open spec fn is_vector(self) -> bool {
        self.w == 0
    }

    /// Every component fits in 64 bits.
    pub open spec fn representable(self) -> bool {
        fits(self.x) && fits(self.y) && fits(self.z) && fits(self.w)
    }

    /// Every component lies between `-limit` and `limit`.
    pub open spec fn within(self, limit: int) -> bool {
        bounded(self.x, limit) && bounded(self.y, limit) && bounded(self.z, limit) && bounded(
            self.w,
            limit,
        )
    }
}

/// A point (`w == 1`) or a vector (`w == 0`) in homogeneous coordinates.
#[derive(Clone, Copy, Debug, PartialEq, Eq, Structural)]
pub struct Tuple {
    pub x: i64,
    pub y: i64,
    pub z: i64,
    pub w: i64,
}

impl View for Tuple {
    type V = Vec4;

    open spec fn view(&self) -> Vec4 {
        Vec4 { x: self.x as int, y: self.y as int, z: self.z as int, w: self.w as int }
    }
}

/// The non-negative square root of `radicand`, held exactly.
#[derive(Clone, Copy, Debug, PartialEq, Eq, Structural)]
pub struct SquareRoot {
    pub radicand: i64,
}

/// A tuple or a matrix divided by a whole number, held exactly: each
/// component or entry of `numerators` stands for itself over `denominator`.
#[derive(Debug, PartialEq, Eq)]
pub struct Quotient<T> {
    pub numerators: T,
    pub denominator: i64,
}

/// A tuple divided by its length, held exactly: each component of
/// `numerators` over the square root `length`.
#[derive(Clone, Copy, Debug, PartialEq, Eq, Structural)]
pub struct Normalized {
    pub numerators: Tuple,
    pub length: SquareRoot,
}

impl Normalized {
    /// The squared length is one: the squares of the numerators sum to the
    /// number under the root, and that number is not zero.
    pub open spec fn has_unit_length(self) -> bool {
        self.length.radicand > 0 && self.numerators@.dot(self.numerators@) == self.length.radicand
    }
}

/// The product of two numbers is bounded by the product of their bounds.
pub proof fn lemma_product_bounded(a: int, b: int, la: int, lb: int)
    by (nonlinear_arith)
    requires
        -la <= a <= la,
        -lb <= b <= lb,
    ensures
        -(la * lb) <= a * b <= la * lb,
{
}

/// The square of the limit is the bound.
pub proof fn lemma_limit_squared(l: int)
    by (nonlinear_arith)
    requires
        l == 1_000_000_000,
    ensures
        l * l == 1_000_000_000_000_000_000,
{
}

impl Tuple {
    pub fn tuple(x: i64, y: i64, z: i64, w: i64) -> (t: Tuple)
        ensures
            t@ == (Vec4 { x: x as int, y: y as int, z: z as int, w: w as int }),
    {
        Tuple { x, y, z, w }
    }

    pub fn point(x: i64, y: i64, z: i64) -> (t: Tuple)
        ensures
            t@ == (Vec4 { x: x as int, y: y as int, z: z as int, w: 1 }),
            t@.is_point(),
    {
        Tuple { x, y, z, w: 1 }
    }

    pub fn vector(x: i64, y: i64, z: i64) -> (t: Tuple)
        ensures
            t@ == (Vec4 { x: x as int, y: y as int, z: z as int, w: 0 }),
            t@.is_vector(),
    {
        Tuple { x, y, z, w: 0 }
    }

    /// Whether every component lies between `-limit` and `limit`.
    pub fn within(self, limit: i64) -> (b: bool)
        requires
            limit >= 0,
        ensures
            b == self@.within(limit as int),
    {
        -limit <= self.x && self.x <= limit && -limit <= self.y && self.y <= limit && -limit
            <= self.z && self.z <= limit && -limit <= self.w && self.w <= limit
    }

    pub fn neg(self) -> (t: Tuple)
        requires
            self@.neg().representable(),
        ensures
            t@ == self@.neg(),
    {
        Tuple { x: -self.x, y: -self.y, z: -self.z, w: -self.w }
    }

    pub fn add(self, rhs: Tuple) -> (t: Tuple)
        requires
            self@.add(rhs@).representable(),
        ensures
            t@ == self@.add(rhs@),
    {
        Tuple { x: self.x + rhs.x, y: self.y + rhs.y, z: self.z + rhs.z, w: self.w + rhs.w }
    }

    pub fn sub(self, rhs: Tuple) -> (t: Tuple)
        requires
            self@.sub(rhs@).representable(),
        ensures
            t@ == self@.sub(rhs@),
    {
        Tuple { x: self.x - rhs.x, y: self.y - rhs.y, z: self.z - rhs.z, w: self.w - rhs.w }
    }

    /// Multiplies every component by `rhs`.
    pub fn mul(self, rhs: i64) -> (t: Tuple)
        requires
            self@.scale(rhs as int).representable(),
        ensures
            t@ == self@.scale(rhs as int),
    {
        Tuple { x: self.x * rhs, y: self.y * rhs, z: self.z * rhs, w: self.w * rhs }
    }

    pub fn dot(a: Tuple, b: Tuple) -> (d: i64)
        requires
            a@.within(PRODUCT_LIMIT as int),
            b@.within(PRODUCT_LIMIT as int),
        ensures
            d == a@.dot(b@),
            bounded(d as int, 4 * PRODUCT_LIMIT * PRODUCT_LIMIT),
    {
        proof {
            let l = PRODUCT_LIMIT as int;
            lemma_product_bounded(a.x as int, b.x as int, l, l);
            lemma_product_bounded(a.y as int, b.y as int, l, l);
            lemma_product_bounded(a.z as int, b.z as int, l, l);
            lemma_product_bounded(a.w as int, b.w as int, l, l);
            lemma_limit_squared(l);
        }
        a.x * b.x + a.y * b.y + a.z * b.z + a.w * b.w
    }

    /// The squared Euclidean length over all four components.
    pub fn length_squared(self) -> (d: i64)
        requires
            self@.within(PRODUCT_LIMIT as int),
        ensures
            d == self@.dot(self@),
            d >= 0,
    {
        let d = Tuple::dot(self, self);
        proof {
            lemma_zero_length(self@);
        }
        d
    }

    /// The Euclidean length over all four components, as the square root of
    /// the sum of their squares.
    pub fn length(self) -> (l: SquareRoot)
        requires
            self@.within(PRODUCT_LIMIT as int),
        ensures
            l.radicand == self@.dot(self@),
            l.radicand >= 0,
    {
        SquareRoot { radicand: self.length_squared() }
    }

    /// The tuple over its length. Of a tuple that is not zero the result has
    /// length one; of the zero tuple it is zero over zero.
    pub fn normalize(self) -> (n: Normalized)
        requires
            self@.within(PRODUCT_LIMIT as int),
        ensures
            n.numerators == self,
            n.length.radicand == self@.dot(self@),
            self@ != Vec4::zero() ==> n.has_unit_length(),
            self@ == Vec4::zero() ==> n.length.radicand == 0,
    {
        proof {
            lemma_zero_length(self@);
        }
        Normalized { numerators: self, length: self.length() }
    }

    /// The tuple over `rhs`; over zero where `rhs` is zero.
    pub fn div(self, rhs: i64) -> (q: Quotient<Tuple>)
        ensures
            q.numerators == self,
            q.denominator == rhs,
    {
        Quotient { numerators: self, denominator: rhs }
    }

    pub fn cross(a: Tuple, b: Tuple) -> (t: Tuple)
        requires
            a@.within(PRODUCT_LIMIT as int),
            b@.within(PRODUCT_LIMIT as int),
        ensures
            t@ == a@.cross(b@),
            t@.is_vector(),
    {
        proof {
            let l = PRODUCT_LIMIT as int;
            lemma_product_bounded(a.y as int, b.z as int, l, l);
            lemma_product_bounded(a.z as int, b.y as int, l, l);
            lemma_product_bounded(a.z as int, b.x as int, l, l);
            lemma_product_bounded(a.x as int, b.z as int, l, l);
            lemma_product_bounded(a.x as int, b.y as int, l, l);
            lemma_product_bounded(a.y as int, b.x as int, l, l);
            lemma_limit_squared(l);
        }
        Tuple::vector(
            a.y * b.z - a.z * b.y,
            a.z * b.x - a.x * b.z,
            a.x * b.y - a.y * b.x,
        )
    }
}

/// Only the zero tuple has length zero.
pub proof fn lemma_zero_length(v: Vec4)
    ensures
        v.dot(v) >= 0,
        v.dot(v) == 0 <==> v == Vec4::zero(),
{
    assert(v.x * v.x >= 0 && v.y * v.y >= 0 && v.z * v.z >= 0 && v.w * v.w >= 0)
        by (nonlinear_arith);
    assert(v.x != 0 ==> v.x * v.x > 0) by (nonlinear_arith);
    assert(v.y != 0 ==> v.y * v.y > 0) by (nonlinear_arith);
    assert(v.z != 0 ==> v.z * v.z > 0) by (nonlinear_arith);
    assert(v.w != 0 ==> v.w * v.w > 0) by (nonlinear_arith);
}

/// The dot product does not depend on the order of its operands.
pub proof fn lemma_dot_commutes(a: Vec4, b: Vec4)
    ensures
        a.dot(b) == b.dot(a),
{
    assert(a.x * b.x == b.x * a.x && a.y * b.y == b.y * a.y && a.z * b.z == b.z * a.z && a.w
        * b.w == b.w * a.w) by (nonlinear_arith);
}

/// Swapping the operands of the cross product negates every component of the
/// result.
pub proof fn lemma_cross_anticommutes(a: Vec4, b: Vec4)
    ensures
        a.cross(b) == b.cross(a).neg(),
{
    assert(a.y * b.z - a.z * b.y == -(b.y * a.z - b.z * a.y)) by (nonlinear_arith);
    assert(a.z * b.x - a.x * b.z == -(b.z * a.x - b.x * a.z)) by (nonlinear_arith);
    assert(a.x * b.y - a.y * b.x == -(b.x * a.y - b.y * a.x)) by (nonlinear_arith);
}

/// Subtraction keeps the point/vector reading of `w`: point minus point is a
/// vector, point minus vector is a point, vector minus vector is a vector.
pub proof fn lemma_sub_kinds(a: Vec4, b: Vec4)
    ensures
        a.is_point() && b.is_point() ==> a.sub(b).is_vector(),
        a.is_point() && b.is_vector() ==> a.sub(b).is_point(),
        a.is_vector() && b.is_vector() ==> a.sub(b).is_vector(),
{
}

/// Adding a vector to a point gives a point, and to a vector a vector.
pub proof fn lemma_add_kinds(a: Vec4, b: Vec4)
    ensures
        a.is_point() && b.is_vector() ==> a.add(b).is_point(),
        a.is_vector() && b.is_vector() ==> a.add(b).is_vector(),
{
}

/// Largest magnitude of a numerator for which two quotients are compared.
pub const NUMERATOR_LIMIT: i64 = 10_000_000_000_000;

/// Largest magnitude of a denominator for which two quotients are compared.
pub const DENOMINATOR_LIMIT: i64 = 1_000_000_000_000_000_000;

/// Whether the fractions `a / b` and `c / d` differ by less than one part in
/// a hundred thousand.
pub open spec fn fractions_close(a: int, b: int, c: int, d: int) -> bool {
    100_000 * vstd::math::abs(a * d - c * b) < vstd::math::abs(b * d)
}

/// The products that a comparison of two fractions needs, in numbers.
proof fn lemma_comparison_fits(n: int, d: int)
    by (nonlinear_arith)
    requires
        n == 10_000_000_000_000,
        d == 1_000_000_000_000_000_000,
    ensures
        n * d == 10_000_000_000_000_000_000_000_000_000_000,
        d * d == 1_000_000_000_000_000_000_000_000_000_000_000_000,
{
}

/// Whether `a / b` and `c / d` differ by less than 0.00001.
pub fn fraction_close(a: i64, b: i64, c: i64, d: i64) -> (r: bool)
    requires
        bounded(a as int, NUMERATOR_LIMIT as int),
        bounded(c as int, NUMERATOR_LIMIT as int),
        bounded(b as int, DENOMINATOR_LIMIT as int),
        bounded(d as int, DENOMINATOR_LIMIT as int),
    ensures
        r == fractions_close(a as int, b as int, c as int, d as int),
{
    proof {
        let n = NUMERATOR_LIMIT as int;
        let l = DENOMINATOR_LIMIT as int;
        lemma_product_bounded(a as int, d as int, n, l);
        lemma_product_bounded(c as int, b as int, n, l);
        lemma_product_bounded(b as int, d as int, l, l);
        lemma_comparison_fits(n, l);
    }
    let cross = (a as i128) * (d as i128) - (c as i128) * (b as i128);
    let whole = (b as i128) * (d as i128);
    let gap: i128 = if cross < 0 {
        -cross
    } else {
        cross
    };
    let size: i128 = if whole < 0 {
        -whole
    } else {
        whole
    };
    100_000 * gap < size
}

impl Quotient<Tuple> {
    /// The denominator is not zero, and numerators and denominator are small
    /// enough to be compared.
    pub open spec fn comparable(self) -> bool {
        &&& self.denominator != 0
        &&& bounded(self.denominator as int, DENOMINATOR_LIMIT as int)
        &&& self.numerators@.within(NUMERATOR_LIMIT as int)
    }

    /// Whether every component differs from the same component of `other` by
    /// less than 0.00001.
    pub fn close_to(&self, other: &Self) -> (b: bool)
        requires
            self.comparable(),
            other.comparable(),
        ensures
            b == (fractions_close(
                self.numerators.x as int,
                self.denominator as int,
                other.numerators.x as int,
                other.denominator as int,
            ) && fractions_close(
                self.numerators.y as int,
                self.denominator as int,
                other.numerators.y as int,
                other.denominator as int,
            ) && fractions_close(
                self.numerators.z as int,
                self.denominator as int,
                other.numerators.z as int,
                other.denominator as int,
            ) && fractions_close(
                self.numerators.w as int,
                self.denominator as int,
                other.numerators.w as int,
                other.denominator as int,
            )),
    {
        fraction_close(self.numerators.x, self.denominator, other.numerators.x, other.denominator)
            && fraction_close(
            self.numerators.y,
            self.denominator,
            other.numerators.y,
            other.denominator,
        ) && fraction_close(
            self.numerators.z,
            self.denominator,
            other.numerators.z,
            other.denominator,
        ) && fraction_close(
            self.numerators.w,
            self.denominator,
            other.numerators.w,
            other.denominator,
        )
    }
}

} // verus!
