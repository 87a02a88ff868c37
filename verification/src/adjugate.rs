//! Why the adjugate over the determinant is the inverse: a matrix times its
//! adjugate is the determinant times the identity.

use crate::expansion::{
    det3_flat, lemma_movable2, lemma_scale2, lemma_signed, lemma_sum_scaled, lemma_times_det2,
    lemma_times_det3,
};
use crate::matrix::{
    adjugate2, adjugate3, adjugate4, agree, cofactor3, cofactor4, det2, det3, det4,
    identity_entries, lemma_identity_column, lemma_product_agree, minor3, minor4, product,
    row_by_column, scaled, without, Entries,
};
use vstd::prelude::*;

verus! {

/// A 3x3 determinant as six products of its entries.
pub proof fn lemma_det3_flat(w: Entries)
    ensures
        det3(w) == det3_flat(
            w(0, 0),
            w(0, 1),
            w(0, 2),
            w(1, 0),
            w(1, 1),
            w(1, 2),
            w(2, 0),
            w(2, 1),
            w(2, 2),
        ),
{
    assert(cofactor3(w, 0, 0) == w(1, 1) * w(2, 2) - w(1, 2) * w(2, 1));
    assert(cofactor3(w, 0, 1) == -(w(1, 0) * w(2, 2) - w(1, 2) * w(2, 0)));
    assert(cofactor3(w, 0, 2) == w(1, 0) * w(2, 1) - w(1, 1) * w(2, 0));
    lemma_scale2(w(0, 0), w(1, 1) * w(2, 2), w(1, 2) * w(2, 1));
    lemma_scale2(w(0, 1), w(1, 0) * w(2, 2), w(1, 2) * w(2, 0));
    lemma_scale2(w(0, 2), w(1, 0) * w(2, 1), w(1, 1) * w(2, 0));
    lemma_movable2(w(0, 0), w(1, 1), w(2, 2));
    lemma_movable2(w(0, 0), w(1, 2), w(2, 1));
    lemma_movable2(w(0, 1), w(1, 0), w(2, 2));
    lemma_movable2(w(0, 1), w(1, 2), w(2, 0));
    lemma_movable2(w(0, 2), w(1, 0), w(2, 1));
    lemma_movable2(w(0, 2), w(1, 1), w(2, 0));
}

/// `x` times the cofactor of a 3x3 matrix at `(r, c)` is `x` times the minor,
/// with the cofactor's sign.
proof fn lemma_times_minor3(m: Entries, x: int, r: int, c: int)
    requires
        0 <= r < 3,
        0 <= c < 3,
    ensures
        x * cofactor3(m, r, c) == (if (r + c) % 2 == 0 {
            x * minor3(m, r, c)
        } else {
            -(x * minor3(m, r, c))
        }),
        cofactor3(m, r, c) * x == x * cofactor3(m, r, c),
{
    lemma_signed(x, minor3(m, r, c));
    lemma_signed(x, cofactor3(m, r, c));
}

/// The entries of any row against the cofactors of row `c` sum to the
/// determinant where the row is `c`, and to zero where it is another.
pub proof fn lemma_row_expansion3(m: Entries, r: int, c: int)
    requires
        0 <= r < 3,
        0 <= c < 3,
    ensures
        m(r, 0) * cofactor3(m, c, 0) + m(r, 1) * cofactor3(m, c, 1) + m(r, 2) * cofactor3(m, c, 2)
            == (if r == c {
            det3(m)
        } else {
            0
        }),
{
    lemma_det3_flat(m);
    lemma_times_minor3(m, m(r, 0), c, 0);
    lemma_times_minor3(m, m(r, 1), c, 1);
    lemma_times_minor3(m, m(r, 2), c, 2);
    let w0 = without(m, c, 0);
    let w1 = without(m, c, 1);
    let w2 = without(m, c, 2);
    lemma_times_det2(m(r, 0), w0(0, 0), w0(0, 1), w0(1, 0), w0(1, 1));
    lemma_times_det2(m(r, 1), w1(0, 0), w1(0, 1), w1(1, 0), w1(1, 1));
    lemma_times_det2(m(r, 2), w2(0, 0), w2(0, 1), w2(1, 0), w2(1, 1));
}

/// The entries of any column against the cofactors of column `r` sum to the
/// determinant where the column is `r`, and to zero where it is another.
pub proof fn lemma_column_expansion3(m: Entries, r: int, c: int)
    requires
        0 <= r < 3,
        0 <= c < 3,
    ensures
        cofactor3(m, 0, r) * m(0, c) + cofactor3(m, 1, r) * m(1, c) + cofactor3(m, 2, r) * m(2, c)
            == (if r == c {
            det3(m)
        } else {
            0
        }),
{
    lemma_det3_flat(m);
    lemma_times_minor3(m, m(0, c), 0, r);
    lemma_times_minor3(m, m(1, c), 1, r);
    lemma_times_minor3(m, m(2, c), 2, r);
    let w0 = without(m, 0, r);
    let w1 = without(m, 1, r);
    let w2 = without(m, 2, r);
    lemma_times_det2(m(0, c), w0(0, 0), w0(0, 1), w0(1, 0), w0(1, 1));
    lemma_times_det2(m(1, c), w1(0, 0), w1(0, 1), w1(1, 0), w1(1, 1));
    lemma_times_det2(m(2, c), w2(0, 0), w2(0, 1), w2(1, 0), w2(1, 1));
}

/// `x` times the cofactor of a 4x4 matrix at `(r, c)` is `x` times the minor,
/// with the cofactor's sign.
proof fn lemma_times_minor4(m: Entries, x: int, r: int, c: int)
    requires
        0 <= r < 4,
        0 <= c < 4,
    ensures
        x * cofactor4(m, r, c) == (if (r + c) % 2 == 0 {
            x * minor4(m, r, c)
        } else {
            -(x * minor4(m, r, c))
        }),
        cofactor4(m, r, c) * x == x * cofactor4(m, r, c),
{
    lemma_signed(x, minor4(m, r, c));
    lemma_signed(x, cofactor4(m, r, c));
}

/// A 4x4 determinant as the sum of the first row's entries times their
/// cofactors, each written as six products.
proof fn lemma_det4_terms(m: Entries)
    ensures
        det4(m) == m(0, 0) * minor4(m, 0, 0) - m(0, 1) * minor4(m, 0, 1) + m(0, 2) * minor4(
            m,
            0,
            2,
        ) - m(0, 3) * minor4(m, 0, 3),
{
    lemma_times_minor4(m, m(0, 0), 0, 0);
    lemma_times_minor4(m, m(0, 1), 0, 1);
    lemma_times_minor4(m, m(0, 2), 0, 2);
    lemma_times_minor4(m, m(0, 3), 0, 3);
}

/// The entries of any row against the cofactors of row `c` sum to the
/// determinant where the row is `c`, and to zero where it is another.
#[verifier::rlimit(100)]
pub proof fn lemma_row_expansion4(m: Entries, r: int, c: int)
    requires
        0 <= r < 4,
        0 <= c < 4,
    ensures
        m(r, 0) * cofactor4(m, c, 0) + m(r, 1) * cofactor4(m, c, 1) + m(r, 2) * cofactor4(m, c, 2)
            + m(r, 3) * cofactor4(m, c, 3) == (if r == c {
            det4(m)
        } else {
            0
        }),
{
    lemma_det4_terms(m);
    lemma_times_minor4(m, m(r, 0), c, 0);
    lemma_times_minor4(m, m(r, 1), c, 1);
    lemma_times_minor4(m, m(r, 2), c, 2);
    lemma_times_minor4(m, m(r, 3), c, 3);
    let d0 = without(m, 0, 0);
    lemma_det3_flat(d0);
    lemma_times_det3(m(0, 0), d0(0, 0), d0(0, 1), d0(0, 2), d0(1, 0), d0(1, 1), d0(1, 2), d0(2, 0), d0(2, 1), d0(2, 2));
    let d1 = without(m, 0, 1);
    lemma_det3_flat(d1);
    lemma_times_det3(m(0, 1), d1(0, 0), d1(0, 1), d1(0, 2), d1(1, 0), d1(1, 1), d1(1, 2), d1(2, 0), d1(2, 1), d1(2, 2));
    let d2 = without(m, 0, 2);
    lemma_det3_flat(d2);
    lemma_times_det3(m(0, 2), d2(0, 0), d2(0, 1), d2(0, 2), d2(1, 0), d2(1, 1), d2(1, 2), d2(2, 0), d2(2, 1), d2(2, 2));
    let d3 = without(m, 0, 3);
    lemma_det3_flat(d3);
    lemma_times_det3(m(0, 3), d3(0, 0), d3(0, 1), d3(0, 2), d3(1, 0), d3(1, 1), d3(1, 2), d3(2, 0), d3(2, 1), d3(2, 2));
    let w0 = without(m, c, 0);
    lemma_det3_flat(w0);
    lemma_times_det3(m(r, 0), w0(0, 0), w0(0, 1), w0(0, 2), w0(1, 0), w0(1, 1), w0(1, 2), w0(2, 0), w0(2, 1), w0(2, 2));
    let w1 = without(m, c, 1);
    lemma_det3_flat(w1);
    lemma_times_det3(m(r, 1), w1(0, 0), w1(0, 1), w1(0, 2), w1(1, 0), w1(1, 1), w1(1, 2), w1(2, 0), w1(2, 1), w1(2, 2));
    let w2 = without(m, c, 2);
    lemma_det3_flat(w2);
    lemma_times_det3(m(r, 2), w2(0, 0), w2(0, 1), w2(0, 2), w2(1, 0), w2(1, 1), w2(1, 2), w2(2, 0), w2(2, 1), w2(2, 2));
    let w3 = without(m, c, 3);
    lemma_det3_flat(w3);
    lemma_times_det3(m(r, 3), w3(0, 0), w3(0, 1), w3(0, 2), w3(1, 0), w3(1, 1), w3(1, 2), w3(2, 0), w3(2, 1), w3(2, 2));
}

/// The entries of any column against the cofactors of column `r` sum to the
/// determinant where the column is `r`, and to zero where it is another.
#[verifier::rlimit(100)]
pub proof fn lemma_column_expansion4(m: Entries, r: int, c: int)
    requires
        0 <= r < 4,
        0 <= c < 4,
    ensures
        cofactor4(m, 0, r) * m(0, c) + cofactor4(m, 1, r) * m(1, c) + cofactor4(m, 2, r) * m(2, c)
            + cofactor4(m, 3, r) * m(3, c) == (if r == c {
            det4(m)
        } else {
            0
        }),
{
    lemma_det4_terms(m);
    lemma_times_minor4(m, m(0, c), 0, r);
    lemma_times_minor4(m, m(1, c), 1, r);
    lemma_times_minor4(m, m(2, c), 2, r);
    lemma_times_minor4(m, m(3, c), 3, r);
    let d0 = without(m, 0, 0);
    lemma_det3_flat(d0);
    lemma_times_det3(m(0, 0), d0(0, 0), d0(0, 1), d0(0, 2), d0(1, 0), d0(1, 1), d0(1, 2), d0(2, 0), d0(2, 1), d0(2, 2));
    let d1 = without(m, 0, 1);
    lemma_det3_flat(d1);
    lemma_times_det3(m(0, 1), d1(0, 0), d1(0, 1), d1(0, 2), d1(1, 0), d1(1, 1), d1(1, 2), d1(2, 0), d1(2, 1), d1(2, 2));
    let d2 = without(m, 0, 2);
    lemma_det3_flat(d2);
    lemma_times_det3(m(0, 2), d2(0, 0), d2(0, 1), d2(0, 2), d2(1, 0), d2(1, 1), d2(1, 2), d2(2, 0), d2(2, 1), d2(2, 2));
    let d3 = without(m, 0, 3);
    lemma_det3_flat(d3);
    lemma_times_det3(m(0, 3), d3(0, 0), d3(0, 1), d3(0, 2), d3(1, 0), d3(1, 1), d3(1, 2), d3(2, 0), d3(2, 1), d3(2, 2));
    let w0 = without(m, 0, r);
    lemma_det3_flat(w0);
    lemma_times_det3(m(0, c), w0(0, 0), w0(0, 1), w0(0, 2), w0(1, 0), w0(1, 1), w0(1, 2), w0(2, 0), w0(2, 1), w0(2, 2));
    let w1 = without(m, 1, r);
    lemma_det3_flat(w1);
    lemma_times_det3(m(1, c), w1(0, 0), w1(0, 1), w1(0, 2), w1(1, 0), w1(1, 1), w1(1, 2), w1(2, 0), w1(2, 1), w1(2, 2));
    let w2 = without(m, 2, r);
    lemma_det3_flat(w2);
    lemma_times_det3(m(2, c), w2(0, 0), w2(0, 1), w2(0, 2), w2(1, 0), w2(1, 1), w2(1, 2), w2(2, 0), w2(2, 1), w2(2, 2));
    let w3 = without(m, 3, r);
    lemma_det3_flat(w3);
    lemma_times_det3(m(3, c), w3(0, 0), w3(0, 1), w3(0, 2), w3(1, 0), w3(1, 1), w3(1, 2), w3(2, 0), w3(2, 1), w3(2, 2));
}

/// A 2x2 matrix times its adjugate, in either order, is the identity scaled
/// by the determinant: divided by a determinant that is not zero, the adjugate
/// is the inverse on both sides.
pub proof fn lemma_adjugate2_inverts(m: Entries, adj: Entries)
    requires
        agree(adj, adjugate2(m), 2),
    ensures
        agree(product(m, adj, 2), scaled(identity_entries(), det2(m)), 2),
        agree(product(adj, m, 2), scaled(identity_entries(), det2(m)), 2),
{
    reveal_with_fuel(row_by_column, 3);
    let d = det2(m);
    assert(adj(0, 0) == m(1, 1) && adj(0, 1) == -m(0, 1) && adj(1, 0) == -m(1, 0) && adj(1, 1)
        == m(0, 0));
    assert(m(0, 0) * m(1, 1) + m(0, 1) * (-m(1, 0)) == d) by (nonlinear_arith)
        requires
            d == m(0, 0) * m(1, 1) - m(0, 1) * m(1, 0),
    ;
    assert(m(0, 0) * (-m(0, 1)) + m(0, 1) * m(0, 0) == 0) by (nonlinear_arith);
    assert(m(1, 0) * m(1, 1) + m(1, 1) * (-m(1, 0)) == 0) by (nonlinear_arith);
    assert(m(1, 0) * (-m(0, 1)) + m(1, 1) * m(0, 0) == d) by (nonlinear_arith)
        requires
            d == m(0, 0) * m(1, 1) - m(0, 1) * m(1, 0),
    ;
    assert(m(1, 1) * m(0, 0) + (-m(0, 1)) * m(1, 0) == d) by (nonlinear_arith)
        requires
            d == m(0, 0) * m(1, 1) - m(0, 1) * m(1, 0),
    ;
    assert(m(1, 1) * m(0, 1) + (-m(0, 1)) * m(1, 1) == 0) by (nonlinear_arith);
    assert((-m(1, 0)) * m(0, 0) + m(0, 0) * m(1, 0) == 0) by (nonlinear_arith);
    assert((-m(1, 0)) * m(0, 1) + m(0, 0) * m(1, 1) == d) by (nonlinear_arith)
        requires
            d == m(0, 0) * m(1, 1) - m(0, 1) * m(1, 0),
    ;
    assert forall|i: int, j: int| 0 <= i < 2 && 0 <= j < 2 implies #[trigger] product(m, adj, 2)(
        i,
        j,
    ) == scaled(identity_entries(), d)(i, j) by {
        assert(product(m, adj, 2)(i, j) == m(i, 0) * adj(0, j) + m(i, 1) * adj(1, j));
    }
    assert forall|i: int, j: int| 0 <= i < 2 && 0 <= j < 2 implies #[trigger] product(adj, m, 2)(
        i,
        j,
    ) == scaled(identity_entries(), d)(i, j) by {
        assert(product(adj, m, 2)(i, j) == adj(i, 0) * m(0, j) + adj(i, 1) * m(1, j));
    }
}

/// A 3x3 matrix times its adjugate, in either order, is the identity scaled
/// by the determinant: divided by a determinant that is not zero, the adjugate
/// is the inverse on both sides.
pub proof fn lemma_adjugate3_inverts(m: Entries, adj: Entries)
    requires
        agree(adj, adjugate3(m), 3),
    ensures
        agree(product(m, adj, 3), scaled(identity_entries(), det3(m)), 3),
        agree(product(adj, m, 3), scaled(identity_entries(), det3(m)), 3),
{
    reveal_with_fuel(row_by_column, 4);
    assert forall|i: int, j: int| 0 <= i < 3 && 0 <= j < 3 implies #[trigger] product(m, adj, 3)(
        i,
        j,
    ) == scaled(identity_entries(), det3(m))(i, j) by {
        lemma_row_expansion3(m, i, j);
        assert(adj(0, j) == adjugate3(m)(0, j) && adj(1, j) == adjugate3(m)(1, j) && adj(2, j)
            == adjugate3(m)(2, j));
    }
    assert forall|i: int, j: int| 0 <= i < 3 && 0 <= j < 3 implies #[trigger] product(adj, m, 3)(
        i,
        j,
    ) == scaled(identity_entries(), det3(m))(i, j) by {
        lemma_column_expansion3(m, i, j);
        assert(adj(i, 0) == adjugate3(m)(i, 0) && adj(i, 1) == adjugate3(m)(i, 1) && adj(i, 2)
            == adjugate3(m)(i, 2));
    }
}

/// A 4x4 matrix times its adjugate, in either order, is the identity scaled
/// by the determinant: divided by a determinant that is not zero, the adjugate
/// is the inverse on both sides.
pub proof fn lemma_adjugate4_inverts(m: Entries, adj: Entries)
    requires
        agree(adj, adjugate4(m), 4),
    ensures
        agree(product(m, adj, 4), scaled(identity_entries(), det4(m)), 4),
        agree(product(adj, m, 4), scaled(identity_entries(), det4(m)), 4),
{
    reveal_with_fuel(row_by_column, 5);
    assert forall|i: int, j: int| 0 <= i < 4 && 0 <= j < 4 implies #[trigger] product(m, adj, 4)(
        i,
        j,
    ) == scaled(identity_entries(), det4(m))(i, j) by {
        lemma_row_expansion4(m, i, j);
        assert(adj(0, j) == adjugate4(m)(0, j) && adj(1, j) == adjugate4(m)(1, j) && adj(2, j)
            == adjugate4(m)(2, j) && adj(3, j) == adjugate4(m)(3, j));
    }
    assert forall|i: int, j: int| 0 <= i < 4 && 0 <= j < 4 implies #[trigger] product(adj, m, 4)(
        i,
        j,
    ) == scaled(identity_entries(), det4(m))(i, j) by {
        lemma_column_expansion4(m, i, j);
        assert(adj(i, 0) == adjugate4(m)(i, 0) && adj(i, 1) == adjugate4(m)(i, 1) && adj(i, 2)
            == adjugate4(m)(i, 2) && adj(i, 3) == adjugate4(m)(i, 3));
    }
}

/// A row times a column of zeros is zero.
proof fn lemma_row_by_zero(a: Entries, z: Entries, i: int, j: int, n: int)
    requires
        0 <= n,
        forall|t: int| 0 <= t < n ==> #[trigger] z(t, j) == 0,
    ensures
        row_by_column(a, z, i, j, n) == 0,
    decreases n,
{
    if n > 0 {
        lemma_row_by_zero(a, z, i, j, n - 1);
        assert(z(n - 1, j) == 0);
        assert(a(i, n - 1) * z(n - 1, j) == 0);
    }
}

/// A row times the sum of two columns is the sum of the row times each.
proof fn lemma_row_by_sum(a: Entries, p: Entries, q: Entries, sum: Entries, i: int, j: int, n: int)
    requires
        0 <= n,
        forall|t: int| 0 <= t < n ==> #[trigger] sum(t, j) == p(t, j) + q(t, j),
    ensures
        row_by_column(a, sum, i, j, n) == row_by_column(a, p, i, j, n) + row_by_column(
            a,
            q,
            i,
            j,
            n,
        ),
    decreases n,
{
    if n > 0 {
        lemma_row_by_sum(a, p, q, sum, i, j, n - 1);
        assert(sum(n - 1, j) == p(n - 1, j) + q(n - 1, j));
        lemma_sum_scaled(a(i, n - 1), p(n - 1, j), q(n - 1, j));
    }
}

/// A row times a column `k` of `b` scaled by `factor` is the row times that
/// column, scaled by `factor`.
proof fn lemma_row_by_scaled(
    a: Entries,
    b: Entries,
    q: Entries,
    k: int,
    factor: int,
    i: int,
    j: int,
    n: int,
)
    requires
        0 <= n,
        forall|t: int| 0 <= t < n ==> #[trigger] q(t, j) == b(t, k) * factor,
    ensures
        row_by_column(a, q, i, j, n) == row_by_column(a, b, i, k, n) * factor,
    decreases n,
{
    if n > 0 {
        lemma_row_by_scaled(a, b, q, k, factor, i, j, n - 1);
        assert(q(n - 1, j) == b(n - 1, k) * factor);
        lemma_movable2(a(i, n - 1), b(n - 1, k), factor);
        lemma_sum_scaled(factor, row_by_column(a, b, i, k, n - 1), a(i, n - 1) * b(n - 1, k));
        lemma_signed(factor, row_by_column(a, b, i, k, n - 1));
        lemma_signed(factor, a(i, n - 1) * b(n - 1, k));
        lemma_signed(factor, row_by_column(a, b, i, k, n));
    }
}

/// The first `k` terms of an entry of `(a * b) * c` are the entry of `a`
/// times the first `k` terms of `b * c`.
proof fn lemma_associative_upto(a: Entries, b: Entries, c: Entries, n: int, i: int, j: int, k: int)
    requires
        0 <= n,
        0 <= k,
    ensures
        row_by_column(product(a, b, n), c, i, j, k) == row_by_column(a, product(b, c, k), i, j, n),
    decreases k,
{
    if k == 0 {
        lemma_row_by_zero(a, product(b, c, 0), i, j, n);
    } else {
        lemma_associative_upto(a, b, c, n, i, j, k - 1);
        let q = |t: int, jj: int| b(t, k - 1) * c(k - 1, jj);
        assert forall|t: int| 0 <= t < n implies #[trigger] product(b, c, k)(t, j) == product(
            b,
            c,
            k - 1,
        )(t, j) + q(t, j) by {}
        lemma_row_by_sum(a, product(b, c, k - 1), q, product(b, c, k), i, j, n);
        lemma_row_by_scaled(a, b, q, k - 1, c(k - 1, j), i, j, n);
    }
}

/// The product is associative: `(a * b) * c` is `a * (b * c)`.
pub proof fn lemma_product_associative(a: Entries, b: Entries, c: Entries, n: int)
    requires
        0 <= n,
    ensures
        agree(product(product(a, b, n), c, n), product(a, product(b, c, n), n), n),
{
    assert forall|i: int, j: int| 0 <= i < n && 0 <= j < n implies #[trigger] product(
        product(a, b, n),
        c,
        n,
    )(i, j) == product(a, product(b, c, n), n)(i, j) by {
        lemma_associative_upto(a, b, c, n, i, j, n);
    }
}

/// Multiplying by a matrix and then by what inverts it gives the first
/// factor back: where `b * adj` is `d` times the identity, `(a * b) * adj` is
/// `d` times `a`.
pub proof fn lemma_product_cancels(a: Entries, b: Entries, adj: Entries, d: int, n: int)
    requires
        0 <= n,
        agree(product(b, adj, n), scaled(identity_entries(), d), n),
    ensures
        agree(product(product(a, b, n), adj, n), scaled(a, d), n),
{
    lemma_product_associative(a, b, adj, n);
    lemma_product_agree(a, a, product(b, adj, n), scaled(identity_entries(), d), n);
    assert forall|i: int, j: int| 0 <= i < n && 0 <= j < n implies #[trigger] product(
        product(a, b, n),
        adj,
        n,
    )(i, j) == scaled(a, d)(i, j) by {
        assert(product(product(a, b, n), adj, n)(i, j) == product(a, product(b, adj, n), n)(i, j));
        assert(product(a, product(b, adj, n), n)(i, j) == product(
            a,
            scaled(identity_entries(), d),
            n,
        )(i, j));
        assert forall|t: int| 0 <= t < n implies #[trigger] scaled(identity_entries(), d)(t, j)
            == identity_entries()(t, j) * d by {
            lemma_signed(d, identity_entries()(t, j));
        }
        lemma_row_by_scaled(a, identity_entries(), scaled(identity_entries(), d), j, d, i, j, n);
        lemma_identity_column(a, i, j, n);
        lemma_signed(d, a(i, j));
    }
}

/// For 4x4 matrices `a` and `b`, `(a * b)` times the adjugate of `b` is `a`
/// scaled by the determinant of `b`: divided by a determinant that is not
/// zero, `(a * b) * inverse(b)` is `a`.
pub proof fn lemma_product_then_inverse4(a: Entries, b: Entries, adj: Entries)
    requires
        agree(adj, adjugate4(b), 4),
    ensures
        agree(product(product(a, b, 4), adj, 4), scaled(a, det4(b)), 4),
{
    lemma_adjugate4_inverts(b, adj);
    lemma_product_cancels(a, b, adj, det4(b), 4);
}

/// For 3x3 matrices `a` and `b`, `(a * b)` times the adjugate of `b` is `a`
/// scaled by the determinant of `b`.
pub proof fn lemma_product_then_inverse3(a: Entries, b: Entries, adj: Entries)
    requires
        agree(adj, adjugate3(b), 3),
    ensures
        agree(product(product(a, b, 3), adj, 3), scaled(a, det3(b)), 3),
{
    lemma_adjugate3_inverts(b, adj);
    lemma_product_cancels(a, b, adj, det3(b), 3);
}

/// For 2x2 matrices `a` and `b`, `(a * b)` times the adjugate of `b` is `a`
/// scaled by the determinant of `b`.
pub proof fn lemma_product_then_inverse2(a: Entries, b: Entries, adj: Entries)
    requires
        agree(adj, adjugate2(b), 2),
    ensures
        agree(product(product(a, b, 2), adj, 2), scaled(a, det2(b)), 2),
{
    lemma_adjugate2_inverts(b, adj);
    lemma_product_cancels(a, b, adj, det2(b), 2);
}

/// Row `i` of the identity scaled by `d`, times column `j` of `m`, summed
/// over the first `k` places, is `d * m(i, j)` once `k` is past `i`.
proof fn lemma_scaled_identity_row(m: Entries, d: int, i: int, j: int, k: int)
    requires
        0 <= i,
        0 <= k,
    ensures
        row_by_column(scaled(identity_entries(), d), m, i, j, k) == (if i < k {
            d * m(i, j)
        } else {
            0
        }),
    decreases k,
{
    if k > 0 {
        lemma_scaled_identity_row(m, d, i, j, k - 1);
        if i == k - 1 {
            assert(scaled(identity_entries(), d)(i, k - 1) == d);
        } else {
            assert(scaled(identity_entries(), d)(i, k - 1) == 0);
            assert(scaled(identity_entries(), d)(i, k - 1) * m(k - 1, j) == 0);
        }
    }
}

/// Inverting twice gives the matrix back: where `m * adj` is `d` times the
/// identity and `adj * adj2` is `d2` times the identity, `adj2` scaled by `d`
/// is `m` scaled by `d2`, so that `adj2 / d2`, the inverse of `adj`, times
/// `d` is `m` where neither `d` nor `d2` is zero.
pub proof fn lemma_inverse_twice(
    m: Entries,
    adj: Entries,
    adj2: Entries,
    d: int,
    d2: int,
    n: int,
)
    requires
        0 <= n,
        agree(product(m, adj, n), scaled(identity_entries(), d), n),
        agree(product(adj, adj2, n), scaled(identity_entries(), d2), n),
    ensures
        agree(scaled(adj2, d), scaled(m, d2), n),
{
    lemma_product_cancels(m, adj, adj2, d2, n);
    lemma_product_agree(product(m, adj, n), scaled(identity_entries(), d), adj2, adj2, n);
    assert forall|i: int, j: int| 0 <= i < n && 0 <= j < n implies #[trigger] scaled(adj2, d)(
        i,
        j,
    ) == scaled(m, d2)(i, j) by {
        lemma_scaled_identity_row(adj2, d, i, j, n);
        assert(product(product(m, adj, n), adj2, n)(i, j) == scaled(m, d2)(i, j));
        assert(product(product(m, adj, n), adj2, n)(i, j) == product(
            scaled(identity_entries(), d),
            adj2,
            n,
        )(i, j));
    }
}

/// The inverse of the inverse of a 2x2 matrix is the matrix.
pub proof fn lemma_inverse_twice2(m: Entries, adj: Entries, adj2: Entries)
    requires
        agree(adj, adjugate2(m), 2),
        agree(adj2, adjugate2(adj), 2),
    ensures
        agree(scaled(adj2, det2(m)), scaled(m, det2(adj)), 2),
{
    lemma_adjugate2_inverts(m, adj);
    lemma_adjugate2_inverts(adj, adj2);
    lemma_inverse_twice(m, adj, adj2, det2(m), det2(adj), 2);
}

/// The inverse of the inverse of a 3x3 matrix is the matrix.
pub proof fn lemma_inverse_twice3(m: Entries, adj: Entries, adj2: Entries)
    requires
        agree(adj, adjugate3(m), 3),
        agree(adj2, adjugate3(adj), 3),
    ensures
        agree(scaled(adj2, det3(m)), scaled(m, det3(adj)), 3),
{
    lemma_adjugate3_inverts(m, adj);
    lemma_adjugate3_inverts(adj, adj2);
    lemma_inverse_twice(m, adj, adj2, det3(m), det3(adj), 3);
}

/// The inverse of the inverse of a 4x4 matrix is the matrix.
pub proof fn lemma_inverse_twice4(m: Entries, adj: Entries, adj2: Entries)
    requires
        agree(adj, adjugate4(m), 4),
        agree(adj2, adjugate4(adj), 4),
    ensures
        agree(scaled(adj2, det4(m)), scaled(m, det4(adj)), 4),
{
    lemma_adjugate4_inverts(m, adj);
    lemma_adjugate4_inverts(adj, adj2);
    lemma_inverse_twice(m, adj, adj2, det4(m), det4(adj), 4);
}

} // verus!
