//! Identities between products of integers, by which a factor times a
//! determinant is written as a sum of plain products.

use vstd::prelude::*;

verus! {

/// A 2x2 determinant of four numbers.
pub open spec fn det2_flat(s00: int, s01: int, s10: int, s11: int) -> int {
    s00 * s11 - s01 * s10
}

/// A 3x3 determinant of nine numbers, as six products of one number from
/// each row, rows in order.
pub open spec fn det3_flat(
    s00: int,
    s01: int,
    s02: int,
    s10: int,
    s11: int,
    s12: int,
    s20: int,
    s21: int,
    s22: int,
) -> int {
    (s00 * s11) * s22 + (s01 * s12) * s20 + (s02 * s10) * s21 - (s00 * s12) * s21 - (s01 * s10)
        * s22 - (s02 * s11) * s20
}

/// `x` times the product of `a` and `b` is the same number wherever `x` is
/// put among the factors.
pub open spec fn movable2(x: int, a: int, b: int) -> bool {
    &&& x * (a * b) == (x * a) * b
    &&& x * (a * b) == (a * x) * b
    &&& x * (a * b) == (a * b) * x
}

/// `x` times the product of `a`, `b` and `c` is the same number wherever `x`
/// is put among the factors.
pub open spec fn movable3(x: int, a: int, b: int, c: int) -> bool {
    &&& x * ((a * b) * c) == ((x * a) * b) * c
    &&& x * ((a * b) * c) == ((a * x) * b) * c
    &&& x * ((a * b) * c) == ((a * b) * x) * c
    &&& x * ((a * b) * c) == ((a * b) * c) * x
}

pub proof fn lemma_movable2(x: int, a: int, b: int)
    by (nonlinear_arith)
    ensures
        movable2(x, a, b),
{
}

pub proof fn lemma_movable3(x: int, a: int, b: int, c: int)
    ensures
        movable3(x, a, b, c),
{
    lemma_movable2(x, a * b, c);
    lemma_movable2(x, a, b);
}

/// Multiplication distributes over a difference.
pub proof fn lemma_scale2(x: int, p: int, n: int)
    by (nonlinear_arith)
    ensures
        x * (p - n) == x * p - x * n,
        x * (-(p - n)) == x * n - x * p,
{
}

/// Multiplication distributes over three terms added and three subtracted.
pub proof fn lemma_scale6(x: int, p1: int, p2: int, p3: int, n1: int, n2: int, n3: int)
    by (nonlinear_arith)
    ensures
        x * (p1 + p2 + p3 - n1 - n2 - n3) == x * p1 + x * p2 + x * p3 - x * n1 - x * n2 - x * n3,
{
}

/// Multiplication distributes over a sum.
pub proof fn lemma_sum_scaled(x: int, p: int, q: int)
    by (nonlinear_arith)
    ensures
        x * (p + q) == x * p + x * q,
{
}

/// A product changes sign with a factor and does not depend on the order of
/// its factors.
pub proof fn lemma_signed(x: int, y: int)
    by (nonlinear_arith)
    ensures
        x * (-y) == -(x * y),
        y * x == x * y,
        (-y) * x == -(x * y),
{
}

/// `x` times a 2x2 determinant, as two products in which `x` may stand at any
/// place.
pub proof fn lemma_times_det2(x: int, s00: int, s01: int, s10: int, s11: int)
    ensures
        x * det2_flat(s00, s01, s10, s11) == x * (s00 * s11) - x * (s01 * s10),
        movable2(x, s00, s11),
        movable2(x, s01, s10),
{
    lemma_scale2(x, s00 * s11, s01 * s10);
    lemma_movable2(x, s00, s11);
    lemma_movable2(x, s01, s10);
}

/// `x` times a 3x3 determinant, as six products in which `x` may stand at any
/// place.
pub proof fn lemma_times_det3(
    x: int,
    s00: int,
    s01: int,
    s02: int,
    s10: int,
    s11: int,
    s12: int,
    s20: int,
    s21: int,
    s22: int,
)
    ensures
        x * det3_flat(s00, s01, s02, s10, s11, s12, s20, s21, s22) == x * ((s00 * s11) * s22) + x
            * ((s01 * s12) * s20) + x * ((s02 * s10) * s21) - x * ((s00 * s12) * s21) - x * ((s01
            * s10) * s22) - x * ((s02 * s11) * s20),
        movable3(x, s00, s11, s22),
        movable3(x, s01, s12, s20),
        movable3(x, s02, s10, s21),
        movable3(x, s00, s12, s21),
        movable3(x, s01, s10, s22),
        movable3(x, s02, s11, s20),
{
    lemma_scale6(
        x,
        (s00 * s11) * s22,
        (s01 * s12) * s20,
        (s02 * s10) * s21,
        (s00 * s12) * s21,
        (s01 * s10) * s22,
        (s02 * s11) * s20,
    );
    lemma_movable3(x, s00, s11, s22);
    lemma_movable3(x, s01, s12, s20);
    lemma_movable3(x, s02, s10, s21);
    lemma_movable3(x, s00, s12, s21);
    lemma_movable3(x, s01, s10, s22);
    lemma_movable3(x, s02, s11, s20);
}

} // verus!
