//! Square integer matrices of size two, three and four.
//!
//! The mathematical value of a matrix is its entry function, from a row and a
//! column to an integer. Determinants, minors, cofactors, products and
//! adjugates are defined on entry functions, and the executable matrices are
//! specified against them.

use crate::tuple::{
    bounded, fraction_close, fractions_close, lemma_limit_squared, lemma_product_bounded, Quotient,
    Tuple, Vec4, DENOMINATOR_LIMIT, NUMERATOR_LIMIT, PRODUCT_BOUND, PRODUCT_LIMIT,
};
use vstd::prelude::*;

verus! {

/// The entries of a matrix, by row and column.
pub type Entries = spec_fn(int, int) -> int;

/// Largest entry magnitude for which a 2x2 determinant is computed in 64 bits.
pub const LIMIT_2X2: i64 = 1_000_000_000;

/// Largest entry magnitude for which a 3x3 determinant, and every minor and
/// cofactor on the way, is computed in 64 bits.
pub const LIMIT_3X3: i64 = 1_000_000;

/// Largest entry magnitude for which a 4x4 determinant, and every minor and
/// cofactor on the way, is computed in 64 bits.
pub const LIMIT_4X4: i64 = 10_000;

/// Why a matrix operation gave no result.
#[derive(Clone, Copy, Debug, PartialEq, Eq, Structural)]
pub enum MatrixError {
    /// A row or a column index was not below the matrix's size.
    IndexOutOfBounds,
    /// The determinant is zero, so there is no inverse.
    Singular,
}

/// Index `k` of what is left after index `removed` was struck out, as an
/// index into the whole.
pub open spec fn skip(k: int, removed: int) -> int {
    if k < removed {
        k
    } else {
        k + 1
    }
}

/// Whether a cofactor at this place keeps the sign of its minor.
pub open spec fn keeps_sign(row: int, col: int) -> bool {
    (row + col) % 2 == 0
}

/// Whether all entries of the leading `n` by `n` block lie between `-limit`
/// and `limit`.
pub open spec fn entries_within(m: Entries, n: int, limit: int) -> bool {
    forall|i: int, j: int| 0 <= i < n && 0 <= j < n ==> bounded(#[trigger] m(i, j), limit)
}

/// Whether two matrices have the same leading `n` by `n` block.
pub open spec fn agree(a: Entries, b: Entries, n: int) -> bool {
    forall|i: int, j: int| 0 <= i < n && 0 <= j < n ==> #[trigger] a(i, j) == b(i, j)
}

/// One on the diagonal, zero elsewhere.
pub open spec fn identity_entries() -> Entries {
    |i: int, j: int|
        if i == j {
            1int
        } else {
            0int
        }
}

/// Rows and columns exchanged.
pub open spec fn transposed(m: Entries) -> Entries {
    |i: int, j: int| m(j, i)
}

/// The matrix with row `row` and column `col` struck out.
pub open spec fn without(m: Entries, row: int, col: int) -> Entries {
    |i: int, j: int| m(skip(i, row), skip(j, col))
}

/// Every entry multiplied by `k`.
pub open spec fn scaled(m: Entries, k: int) -> Entries {
    |i: int, j: int| k * m(i, j)
}

/// The sum over `t < k` of `a(i, t) * b(t, j)`.
pub open spec fn row_by_column(a: Entries, b: Entries, i: int, j: int, k: int) -> int
    decreases k,
{
    if k <= 0 {
        0
    } else {
        row_by_column(a, b, i, j, k - 1) + a(i, k - 1) * b(k - 1, j)
    }
}

/// The product of two `n` by `n` matrices.
pub open spec fn product(a: Entries, b: Entries, n: int) -> Entries {
    |i: int, j: int| row_by_column(a, b, i, j, n)
}

/// The determinant of a 2x2 matrix.
pub open spec fn det2(m: Entries) -> int {
    m(0, 0) * m(1, 1) - m(0, 1) * m(1, 0)
}

/// The determinant of what is left of a 3x3 matrix without a row and a column.
pub open spec fn minor3(m: Entries, row: int, col: int) -> int {
    det2(without(m, row, col))
}

/// The minor, negated where row plus column is odd.
pub open spec fn cofactor3(m: Entries, row: int, col: int) -> int {
    if keeps_sign(row, col) {
        minor3(m, row, col)
    } else {
        -minor3(m, row, col)
    }
}

/// The first `k` terms of the expansion of a 3x3 determinant along row zero.
pub open spec fn expansion3(m: Entries, k: int) -> int {
    (if k > 0 {
        m(0, 0) * cofactor3(m, 0, 0)
    } else {
        0
    }) + (if k > 1 {
        m(0, 1) * cofactor3(m, 0, 1)
    } else {
        0
    }) + (if k > 2 {
        m(0, 2) * cofactor3(m, 0, 2)
    } else {
        0
    })
}

/// The determinant of a 3x3 matrix, expanded along row zero.
pub open spec fn det3(m: Entries) -> int {
    m(0, 0) * cofactor3(m, 0, 0) + m(0, 1) * cofactor3(m, 0, 1) + m(0, 2) * cofactor3(m, 0, 2)
}

/// The determinant of what is left of a 4x4 matrix without a row and a column.
pub open spec fn minor4(m: Entries, row: int, col: int) -> int {
    det3(without(m, row, col))
}

/// The minor, negated where row plus column is odd.
pub open spec fn cofactor4(m: Entries, row: int, col: int) -> int {
    if keeps_sign(row, col) {
        minor4(m, row, col)
    } else {
        -minor4(m, row, col)
    }
}

/// The first `k` terms of the expansion of a 4x4 determinant along row zero.
pub open spec fn expansion4(m: Entries, k: int) -> int {
    (if k > 0 {
        m(0, 0) * cofactor4(m, 0, 0)
    } else {
        0
    }) + (if k > 1 {
        m(0, 1) * cofactor4(m, 0, 1)
    } else {
        0
    }) + (if k > 2 {
        m(0, 2) * cofactor4(m, 0, 2)
    } else {
        0
    }) + (if k > 3 {
        m(0, 3) * cofactor4(m, 0, 3)
    } else {
        0
    })
}

/// The determinant of a 4x4 matrix, expanded along row zero.
pub open spec fn det4(m: Entries) -> int {
    m(0, 0) * cofactor4(m, 0, 0) + m(0, 1) * cofactor4(m, 0, 1) + m(0, 2) * cofactor4(m, 0, 2)
        + m(0, 3) * cofactor4(m, 0, 3)
}

/// The adjugate of a 2x2 matrix: `[[d, -b], [-c, a]]` for `[[a, b], [c, d]]`.
pub open spec fn adjugate2(m: Entries) -> Entries {
    |i: int, j: int|
        if i == j {
            m(1 - i, 1 - j)
        } else {
            -m(i, j)
        }
}

/// The adjugate of a 3x3 matrix: the transposed matrix of cofactors.
pub open spec fn adjugate3(m: Entries) -> Entries {
    |i: int, j: int| cofactor3(m, j, i)
}

/// The adjugate of a 4x4 matrix: the transposed matrix of cofactors.
pub open spec fn adjugate4(m: Entries) -> Entries {
    |i: int, j: int| cofactor4(m, j, i)
}

/// A 4x4 matrix applied to a tuple read as a column.
pub open spec fn applied(m: Entries, v: Vec4) -> Vec4 {
    Vec4 {
        x: m(0, 0) * v.x + m(0, 1) * v.y + m(0, 2) * v.z + m(0, 3) * v.w,
        y: m(1, 0) * v.x + m(1, 1) * v.y + m(1, 2) * v.z + m(1, 3) * v.w,
        z: m(2, 0) * v.x + m(2, 1) * v.y + m(2, 2) * v.z + m(2, 3) * v.w,
        w: m(3, 0) * v.x + m(3, 1) * v.y + m(3, 2) * v.z + m(3, 3) * v.w,
    }
}

/// A 2x2 determinant is at most twice the square of the entries' bound.
pub proof fn lemma_det2_bounded(m: Entries, limit: int)
    requires
        entries_within(m, 2, limit),
    ensures
        bounded(det2(m), 2 * (limit * limit)),
{
    lemma_product_bounded(m(0, 0), m(1, 1), limit, limit);
    lemma_product_bounded(m(0, 1), m(1, 0), limit, limit);
}

/// Striking out a row and a column keeps the entries' bound.
pub proof fn lemma_without_within(m: Entries, n: int, row: int, col: int, limit: int)
    requires
        entries_within(m, n, limit),
        0 <= row < n,
        0 <= col < n,
    ensures
        entries_within(without(m, row, col), n - 1, limit),
{
    assert forall|i: int, j: int| 0 <= i < n - 1 && 0 <= j < n - 1 implies bounded(
        #[trigger] without(m, row, col)(i, j),
        limit,
    ) by {
        assert(bounded(m(skip(i, row), skip(j, col)), limit));
    }
}

/// A 3x3 minor or cofactor is at most twice the square of the entries' bound.
pub proof fn lemma_cofactor3_bounded(m: Entries, row: int, col: int, limit: int)
    requires
        entries_within(m, 3, limit),
        0 <= row < 3,
        0 <= col < 3,
    ensures
        bounded(minor3(m, row, col), 2 * (limit * limit)),
        bounded(cofactor3(m, row, col), 2 * (limit * limit)),
{
    lemma_without_within(m, 3, row, col, limit);
    lemma_det2_bounded(without(m, row, col), limit);
}

/// A 3x3 determinant is at most six times the cube of the entries' bound.
pub proof fn lemma_det3_bounded(m: Entries, limit: int)
    requires
        entries_within(m, 3, limit),
    ensures
        bounded(det3(m), 6 * (limit * (limit * limit))),
{
    let q = 2 * (limit * limit);
    lemma_cofactor3_bounded(m, 0, 0, limit);
    lemma_cofactor3_bounded(m, 0, 1, limit);
    lemma_cofactor3_bounded(m, 0, 2, limit);
    lemma_product_bounded(m(0, 0), cofactor3(m, 0, 0), limit, q);
    lemma_product_bounded(m(0, 1), cofactor3(m, 0, 1), limit, q);
    lemma_product_bounded(m(0, 2), cofactor3(m, 0, 2), limit, q);
    assert(limit * q == 2 * (limit * (limit * limit))) by (nonlinear_arith)
        requires
            q == 2 * (limit * limit),
    ;
}

/// A 4x4 minor or cofactor is at most six times the cube of the entries'
/// bound.
pub proof fn lemma_cofactor4_bounded(m: Entries, row: int, col: int, limit: int)
    requires
        entries_within(m, 4, limit),
        0 <= row < 4,
        0 <= col < 4,
    ensures
        bounded(minor4(m, row, col), 6 * (limit * (limit * limit))),
        bounded(cofactor4(m, row, col), 6 * (limit * (limit * limit))),
{
    lemma_without_within(m, 4, row, col, limit);
    lemma_det3_bounded(without(m, row, col), limit);
}

/// A 2x2 determinant reads the leading 2x2 block only.
pub proof fn lemma_det2_agree(a: Entries, b: Entries)
    requires
        agree(a, b, 2),
    ensures
        det2(a) == det2(b),
{
    assert(a(0, 0) == b(0, 0) && a(1, 1) == b(1, 1) && a(0, 1) == b(0, 1) && a(1, 0) == b(1, 0));
}

/// Striking out a row and a column of two matrices that agree leaves
/// matrices that agree.
pub proof fn lemma_without_agree(a: Entries, b: Entries, n: int, row: int, col: int)
    requires
        agree(a, b, n),
        0 <= row < n,
        0 <= col < n,
    ensures
        agree(without(a, row, col), without(b, row, col), n - 1),
{
    assert forall|i: int, j: int| 0 <= i < n - 1 && 0 <= j < n - 1 implies #[trigger] without(
        a,
        row,
        col,
    )(i, j) == without(b, row, col)(i, j) by {
        assert(a(skip(i, row), skip(j, col)) == b(skip(i, row), skip(j, col)));
    }
}

/// A 3x3 determinant reads the leading 3x3 block only.
pub proof fn lemma_det3_agree(a: Entries, b: Entries)
    requires
        agree(a, b, 3),
    ensures
        det3(a) == det3(b),
{
    lemma_without_agree(a, b, 3, 0, 0);
    lemma_without_agree(a, b, 3, 0, 1);
    lemma_without_agree(a, b, 3, 0, 2);
    lemma_det2_agree(without(a, 0, 0), without(b, 0, 0));
    lemma_det2_agree(without(a, 0, 1), without(b, 0, 1));
    lemma_det2_agree(without(a, 0, 2), without(b, 0, 2));
    assert(a(0, 0) == b(0, 0) && a(0, 1) == b(0, 1) && a(0, 2) == b(0, 2));
}

/// A 4x4 matrix with entries up to `lm` takes a tuple with components up to
/// `lt` to one with components up to `4 * (lm * lt)`.
pub proof fn lemma_applied_within(m: Entries, v: Vec4, lm: int, lt: int)
    requires
        entries_within(m, 4, lm),
        v.within(lt),
    ensures
        applied(m, v).within(4 * (lm * lt)),
        forall|i: int, j: int|
            0 <= i < 4 && 0 <= j < 4 ==> bounded(#[trigger] m(i, j) * v.x, lm * lt) && bounded(
                m(i, j) * v.y,
                lm * lt,
            ) && bounded(m(i, j) * v.z, lm * lt) && bounded(m(i, j) * v.w, lm * lt),
{
    assert forall|i: int, j: int| 0 <= i < 4 && 0 <= j < 4 implies bounded(
        #[trigger] m(i, j) * v.x,
        lm * lt,
    ) && bounded(m(i, j) * v.y, lm * lt) && bounded(m(i, j) * v.z, lm * lt) && bounded(
        m(i, j) * v.w,
        lm * lt,
    ) by {
        assert(bounded(m(i, j), lm));
        lemma_product_bounded(m(i, j), v.x, lm, lt);
        lemma_product_bounded(m(i, j), v.y, lm, lt);
        lemma_product_bounded(m(i, j), v.z, lm, lt);
        lemma_product_bounded(m(i, j), v.w, lm, lt);
    }
    assert(bounded(m(0, 0) * v.x, lm * lt) && bounded(m(0, 1) * v.x, lm * lt));
    assert(bounded(m(0, 2) * v.x, lm * lt) && bounded(m(0, 3) * v.x, lm * lt));
    assert(bounded(m(1, 0) * v.x, lm * lt) && bounded(m(1, 1) * v.x, lm * lt));
    assert(bounded(m(1, 2) * v.x, lm * lt) && bounded(m(1, 3) * v.x, lm * lt));
    assert(bounded(m(2, 0) * v.x, lm * lt) && bounded(m(2, 1) * v.x, lm * lt));
    assert(bounded(m(2, 2) * v.x, lm * lt) && bounded(m(2, 3) * v.x, lm * lt));
    assert(bounded(m(3, 0) * v.x, lm * lt) && bounded(m(3, 1) * v.x, lm * lt));
    assert(bounded(m(3, 2) * v.x, lm * lt) && bounded(m(3, 3) * v.x, lm * lt));
}

/// Row `i` of the identity times column `j` of `m`, summed over the first `k`
/// places, is `m(i, j)` once `k` is past `i`, and zero before.
pub proof fn lemma_identity_row(m: Entries, i: int, j: int, k: int)
    requires
        0 <= i,
        0 <= k,
    ensures
        row_by_column(identity_entries(), m, i, j, k) == (if i < k {
            m(i, j)
        } else {
            0
        }),
    decreases k,
{
    if k > 0 {
        lemma_identity_row(m, i, j, k - 1);
        if i == k - 1 {
            assert(identity_entries()(i, k - 1) * m(k - 1, j) == m(i, j));
        } else {
            assert(identity_entries()(i, k - 1) * m(k - 1, j) == 0);
        }
    }
}

/// Row `i` of `m` times column `j` of the identity, summed over the first `k`
/// places, is `m(i, j)` once `k` is past `j`, and zero before.
pub proof fn lemma_identity_column(m: Entries, i: int, j: int, k: int)
    requires
        0 <= j,
        0 <= k,
    ensures
        row_by_column(m, identity_entries(), i, j, k) == (if j < k {
            m(i, j)
        } else {
            0
        }),
    decreases k,
{
    if k > 0 {
        lemma_identity_column(m, i, j, k - 1);
        if j == k - 1 {
            assert(m(i, k - 1) * identity_entries()(k - 1, j) == m(i, j));
        } else {
            assert(m(i, k - 1) * identity_entries()(k - 1, j) == 0);
        }
    }
}

/// The product reads the leading `n` by `n` blocks of its factors only.
pub proof fn lemma_product_agree(a: Entries, a2: Entries, b: Entries, b2: Entries, n: int)
    requires
        0 <= n,
        agree(a, a2, n),
        agree(b, b2, n),
    ensures
        agree(product(a, b, n), product(a2, b2, n), n),
{
    assert forall|i: int, j: int| 0 <= i < n && 0 <= j < n implies #[trigger] product(a, b, n)(
        i,
        j,
    ) == product(a2, b2, n)(i, j) by {
        lemma_row_by_column_agree(a, a2, b, b2, n, i, j, n);
    }
}

/// One entry of the product, up to place `k`, reads the leading blocks only.
pub proof fn lemma_row_by_column_agree(
    a: Entries,
    a2: Entries,
    b: Entries,
    b2: Entries,
    n: int,
    i: int,
    j: int,
    k: int,
)
    requires
        agree(a, a2, n),
        agree(b, b2, n),
        0 <= i < n,
        0 <= j < n,
        0 <= k <= n,
    ensures
        row_by_column(a, b, i, j, k) == row_by_column(a2, b2, i, j, k),
    decreases k,
{
    if k > 0 {
        lemma_row_by_column_agree(a, a2, b, b2, n, i, j, k - 1);
        assert(a(i, k - 1) == a2(i, k - 1));
        assert(b(k - 1, j) == b2(k - 1, j));
    }
}

/// The identity is neutral for the product on both sides: where `id` is an
/// identity matrix of size `n`, `id * m` and `m * id` are `m`.
pub proof fn lemma_identity_neutral(id: Entries, m: Entries, left: Entries, right: Entries, n: int)
    requires
        0 <= n,
        agree(id, identity_entries(), n),
        agree(left, product(id, m, n), n),
        agree(right, product(m, id, n), n),
    ensures
        agree(left, m, n),
        agree(right, m, n),
{
    lemma_product_agree(id, identity_entries(), m, m, n);
    lemma_product_agree(m, m, id, identity_entries(), n);
    assert forall|i: int, j: int| 0 <= i < n && 0 <= j < n implies #[trigger] left(i, j) == m(
        i,
        j,
    ) by {
        lemma_identity_row(m, i, j, n);
        assert(left(i, j) == product(id, m, n)(i, j));
        assert(product(id, m, n)(i, j) == product(identity_entries(), m, n)(i, j));
    }
    assert forall|i: int, j: int| 0 <= i < n && 0 <= j < n implies #[trigger] right(i, j) == m(
        i,
        j,
    ) by {
        lemma_identity_column(m, i, j, n);
        assert(right(i, j) == product(m, id, n)(i, j));
        assert(product(m, id, n)(i, j) == product(m, identity_entries(), n)(i, j));
    }
}

/// Transposing twice gives the matrix back.
pub proof fn lemma_transpose_twice(m: Entries, once: Entries, twice: Entries, n: int)
    requires
        agree(once, transposed(m), n),
        agree(twice, transposed(once), n),
    ensures
        agree(twice, m, n),
{
    assert forall|i: int, j: int| 0 <= i < n && 0 <= j < n implies #[trigger] twice(i, j) == m(
        i,
        j,
    ) by {
        assert(twice(i, j) == transposed(once)(i, j));
        assert(once(j, i) == transposed(m)(j, i));
    }
}

/// The transpose of the identity is the identity.
pub proof fn lemma_identity_transposed(id: Entries, t: Entries, n: int)
    requires
        agree(id, identity_entries(), n),
        agree(t, transposed(id), n),
    ensures
        agree(t, identity_entries(), n),
{
    assert forall|i: int, j: int| 0 <= i < n && 0 <= j < n implies #[trigger] t(i, j)
        == identity_entries()(i, j) by {
        assert(t(i, j) == transposed(id)(i, j));
        assert(id(j, i) == identity_entries()(j, i));
    }
}

/// A 2x2 matrix.
#[derive(Clone, Copy, Debug, PartialEq, Eq)]
pub struct Matrix2x2 {
    data: [[i64; 2]; 2],
}

impl View for Matrix2x2 {
    type V = Entries;

    closed spec fn view(&self) -> Entries {
        |i: int, j: int| self.data[i][j] as int
    }
}

impl Matrix2x2 {
    pub fn new(data: [[i64; 2]; 2]) -> (m: Self)
        ensures
            forall|i: int, j: int| 0 <= i < 2 && 0 <= j < 2 ==> #[trigger] m@(i, j) == data[i][j],
    {
        Self { data }
    }

    /// The identity matrix.
    pub fn identity() -> (m: Self)
        ensures
            agree(m@, identity_entries(), 2),
            entries_within(m@, 2, 1),
    {
        Self { data: [[1, 0], [0, 1]] }
    }

    /// The entry in row `row` and column `col`.
    pub fn get(&self, row: usize, col: usize) -> (v: i64)
        requires
            row < 2,
            col < 2,
        ensures
            v == self@(row as int, col as int),
    {
        self.data[row][col]
    }

    /// Whether every entry lies between `-limit` and `limit`.
    pub fn within(&self, limit: i64) -> (b: bool)
        requires
            limit >= 0,
        ensures
            b == entries_within(self@, 2, limit as int),
    {
        let mut i: usize = 0;
        while i < 2
            invariant
                i <= 2,
                limit >= 0,
                forall|a: int, c: int|
                    0 <= a < i && 0 <= c < 2 ==> bounded(#[trigger] self@(a, c), limit as int),
            decreases 2 - i,
        {
            let mut j: usize = 0;
            while j < 2
                invariant
                    i < 2,
                    j <= 2,
                    limit >= 0,
                    forall|a: int, c: int|
                        0 <= a < i && 0 <= c < 2 ==> bounded(#[trigger] self@(a, c), limit as int),
                    forall|c: int| 0 <= c < j ==> bounded(#[trigger] self@(i as int, c), limit as int),
                decreases 2 - j,
            {
                let v = self.data[i][j];
                if v < -limit || v > limit {
                    assert(!bounded(self@(i as int, j as int), limit as int));
                    return false;
                }
                j += 1;
            }
            i += 1;
        }
        true
    }

    pub fn determinant(&self) -> (d: i64)
        requires
            entries_within(self@, 2, LIMIT_2X2 as int),
        ensures
            d == det2(self@),
    {
        proof {
            let l = LIMIT_2X2 as int;
            assert(bounded(self@(0, 0), l) && bounded(self@(1, 1), l));
            assert(bounded(self@(0, 1), l) && bounded(self@(1, 0), l));
            lemma_product_bounded(self@(0, 0), self@(1, 1), l, l);
            lemma_product_bounded(self@(0, 1), self@(1, 0), l, l);
            lemma_limit_squared(l);
        }
        self.data[0][0] * self.data[1][1] - self.data[0][1] * self.data[1][0]
    }

    /// The inverse as the adjugate over the determinant, or `Singular` where
    /// the determinant is zero.
    pub fn inverse(&self) -> (r: Result<Quotient<Matrix2x2>, MatrixError>)
        requires
            entries_within(self@, 2, LIMIT_2X2 as int),
        ensures
            det2(self@) == 0 <==> r == Err::<Quotient<Matrix2x2>, MatrixError>(
                MatrixError::Singular,
            ),
            det2(self@) != 0 <==> r is Ok,
            r is Ok ==> r->Ok_0.denominator == det2(self@) && agree(
                r->Ok_0.numerators@,
                adjugate2(self@),
                2,
            ),
    {
        let d = self.determinant();
        if d == 0 {
            return Err(MatrixError::Singular);
        }
        proof {
            let l = LIMIT_2X2 as int;
            assert(bounded(self@(0, 0), l) && bounded(self@(1, 1), l));
            assert(bounded(self@(0, 1), l) && bounded(self@(1, 0), l));
        }
        let numerators = Matrix2x2::new(
            [[self.data[1][1], -self.data[0][1]], [-self.data[1][0], self.data[0][0]]],
        );
        Ok(Quotient { numerators, denominator: d })
    }

    pub fn mul(self, rhs: Self) -> (m: Self)
        requires
            entries_within(self@, 2, PRODUCT_LIMIT as int),
            entries_within(rhs@, 2, PRODUCT_LIMIT as int),
        ensures
            agree(m@, product(self@, rhs@, 2), 2),
    {
        let ghost l = PRODUCT_LIMIT as int;
        let mut data: [[i64; 2]; 2] = [[0; 2]; 2];
        let mut i: usize = 0;
        while i < 2
            invariant
                i <= 2,
                l == PRODUCT_LIMIT as int,
                entries_within(self@, 2, l),
                entries_within(rhs@, 2, l),
                forall|a: int, c: int|
                    0 <= a < i && 0 <= c < 2 ==> #[trigger] data[a][c] == row_by_column(
                        self@,
                        rhs@,
                        a,
                        c,
                        2,
                    ),
            decreases 2 - i,
        {
            let mut j: usize = 0;
            while j < 2
                invariant
                    i < 2,
                    j <= 2,
                    l == PRODUCT_LIMIT as int,
                    entries_within(self@, 2, l),
                    entries_within(rhs@, 2, l),
                    forall|a: int, c: int|
                        0 <= a < i && 0 <= c < 2 ==> #[trigger] data[a][c] == row_by_column(
                            self@,
                            rhs@,
                            a,
                            c,
                            2,
                        ),
                    forall|c: int|
                        0 <= c < j ==> #[trigger] data[i as int][c] == row_by_column(
                            self@,
                            rhs@,
                            i as int,
                            c,
                            2,
                        ),
                decreases 2 - j,
            {
                let mut sum: i64 = 0;
                let mut k: usize = 0;
                while k < 2
                    invariant
                        i < 2,
                        j < 2,
                        k <= 2,
                        l == PRODUCT_LIMIT as int,
                        entries_within(self@, 2, l),
                        entries_within(rhs@, 2, l),
                        sum == row_by_column(self@, rhs@, i as int, j as int, k as int),
                        bounded(sum as int, k * PRODUCT_BOUND),
                    decreases 2 - k,
                {
                    proof {
                        assert(bounded(self@(i as int, k as int), l));
                        assert(bounded(rhs@(k as int, j as int), l));
                        lemma_product_bounded(
                            self@(i as int, k as int),
                            rhs@(k as int, j as int),
                            l,
                            l,
                        );
                        lemma_limit_squared(l);
                    }
                    sum = sum + self.data[i][k] * rhs.data[k][j];
                    k += 1;
                }
                data[i][j] = sum;
                j += 1;
            }
            i += 1;
        }
        let m = Matrix2x2 { data };
        assert forall|a: int, c: int| 0 <= a < 2 && 0 <= c < 2 implies #[trigger] m@(a, c)
            == product(self@, rhs@, 2)(a, c) by {
            assert(m@(a, c) == data[a][c]);
        }
        m
    }
}

/// A 3x3 matrix.
#[derive(Clone, Copy, Debug, PartialEq, Eq)]
pub struct Matrix3x3 {
    data: [[i64; 3]; 3],
}

impl View for Matrix3x3 {
    type V = Entries;

    closed spec fn view(&self) -> Entries {
        |i: int, j: int| self.data[i][j] as int
    }
}

impl Matrix3x3 {
    pub fn new(data: [[i64; 3]; 3]) -> (m: Self)
        ensures
            forall|i: int, j: int| 0 <= i < 3 && 0 <= j < 3 ==> #[trigger] m@(i, j) == data[i][j],
    {
        Self { data }
    }

    /// The identity matrix.
    pub fn identity() -> (m: Self)
        ensures
            agree(m@, identity_entries(), 3),
            entries_within(m@, 3, 1),
    {
        Self { data: [[1, 0, 0], [0, 1, 0], [0, 0, 1]] }
    }

    /// The entry in row `row` and column `col`.
    pub fn get(&self, row: usize, col: usize) -> (v: i64)
        requires
            row < 3,
            col < 3,
        ensures
            v == self@(row as int, col as int),
    {
        self.data[row][col]
    }

    /// Whether every entry lies between `-limit` and `limit`.
    pub fn within(&self, limit: i64) -> (b: bool)
        requires
            limit >= 0,
        ensures
            b == entries_within(self@, 3, limit as int),
    {
        let mut i: usize = 0;
        while i < 3
            invariant
                i <= 3,
                limit >= 0,
                forall|a: int, c: int|
                    0 <= a < i && 0 <= c < 3 ==> bounded(#[trigger] self@(a, c), limit as int),
            decreases 3 - i,
        {
            let mut j: usize = 0;
            while j < 3
                invariant
                    i < 3,
                    j <= 3,
                    limit >= 0,
                    forall|a: int, c: int|
                        0 <= a < i && 0 <= c < 3 ==> bounded(#[trigger] self@(a, c), limit as int),
                    forall|c: int|
                        0 <= c < j ==> bounded(#[trigger] self@(i as int, c), limit as int),
                decreases 3 - j,
            {
                let v = self.data[i][j];
                if v < -limit || v > limit {
                    assert(!bounded(self@(i as int, j as int), limit as int));
                    return false;
                }
                j += 1;
            }
            i += 1;
        }
        true
    }

    pub fn transpose(&self) -> (m: Self)
        ensures
            agree(m@, transposed(self@), 3),
    {
        let mut data: [[i64; 3]; 3] = [[0; 3]; 3];
        let mut i: usize = 0;
        while i < 3
            invariant
                i <= 3,
                forall|a: int, c: int|
                    0 <= a < i && 0 <= c < 3 ==> #[trigger] data[c][a] == self@(a, c),
            decreases 3 - i,
        {
            let mut j: usize = 0;
            while j < 3
                invariant
                    i < 3,
                    j <= 3,
                    forall|a: int, c: int|
                        0 <= a < i && 0 <= c < 3 ==> #[trigger] data[c][a] == self@(a, c),
                    forall|c: int| 0 <= c < j ==> #[trigger] data[c][i as int] == self@(i as int, c),
                decreases 3 - j,
            {
                data[j][i] = self.data[i][j];
                j += 1;
            }
            i += 1;
        }
        let m = Matrix3x3 { data };
        assert forall|a: int, c: int| 0 <= a < 3 && 0 <= c < 3 implies #[trigger] m@(a, c)
            == transposed(self@)(a, c) by {
            assert(data[a][c] == self@(c, a));
        }
        m
    }

    /// What is left when row `row` and column `col` are struck out.
    fn strike(&self, row: usize, col: usize) -> (m: Matrix2x2)
        requires
            row < 3,
            col < 3,
        ensures
            agree(m@, without(self@, row as int, col as int), 2),
    {
        let mut data: [[i64; 2]; 2] = [[0; 2]; 2];
        let mut new_i: usize = 0;
        let mut i: usize = 0;
        while i < 3
            invariant
                i <= 3,
                row < 3,
                col < 3,
                new_i == (if i <= row {
                    i as int
                } else {
                    i - 1
                }),
                forall|a: int, c: int|
                    0 <= a < new_i && 0 <= c < 2 ==> #[trigger] data[a][c] == self@(
                        skip(a, row as int),
                        skip(c, col as int),
                    ),
            decreases 3 - i,
        {
            if i != row {
                let mut new_j: usize = 0;
                let mut j: usize = 0;
                while j < 3
                    invariant
                        j <= 3,
                        i < 3,
                        i != row,
                        row < 3,
                        col < 3,
                        new_i < 2,
                        i == skip(new_i as int, row as int),
                        new_j == (if j <= col {
                            j as int
                        } else {
                            j - 1
                        }),
                        forall|a: int, c: int|
                            0 <= a < new_i && 0 <= c < 2 ==> #[trigger] data[a][c] == self@(
                                skip(a, row as int),
                                skip(c, col as int),
                            ),
                        forall|c: int|
                            0 <= c < new_j ==> #[trigger] data[new_i as int][c] == self@(
                                i as int,
                                skip(c, col as int),
                            ),
                    decreases 3 - j,
                {
                    if j != col {
                        data[new_i][new_j] = self.data[i][j];
                        new_j += 1;
                    }
                    j += 1;
                }
                new_i += 1;
            }
            i += 1;
        }
        let m = Matrix2x2 { data };
        assert forall|a: int, c: int| 0 <= a < 2 && 0 <= c < 2 implies #[trigger] m@(a, c)
            == without(self@, row as int, col as int)(a, c) by {
            assert(m@(a, c) == data[a][c]);
        }
        m
    }

    /// The matrix without row `row` and column `col`, or `IndexOutOfBounds`
    /// where one of them is not below 3.
    pub fn submatrix(&self, row: usize, col: usize) -> (r: Result<Matrix2x2, MatrixError>)
        ensures
            (row >= 3 || col >= 3) <==> r == Err::<Matrix2x2, MatrixError>(
                MatrixError::IndexOutOfBounds,
            ),
            (row < 3 && col < 3) <==> r is Ok,
            r is Ok ==> agree(r->Ok_0@, without(self@, row as int, col as int), 2),
    {
        if row >= 3 || col >= 3 {
            return Err(MatrixError::IndexOutOfBounds);
        }
        Ok(self.strike(row, col))
    }

    /// The determinant of the submatrix at `row` and `col`.
    pub fn minor(&self, row: usize, col: usize) -> (r: Result<i64, MatrixError>)
        requires
            entries_within(self@, 3, LIMIT_3X3 as int),
        ensures
            (row >= 3 || col >= 3) <==> r == Err::<i64, MatrixError>(
                MatrixError::IndexOutOfBounds,
            ),
            (row < 3 && col < 3) <==> r is Ok,
            r is Ok ==> r->Ok_0 == minor3(self@, row as int, col as int),
    {
        if row >= 3 || col >= 3 {
            return Err(MatrixError::IndexOutOfBounds);
        }
        let sub = self.strike(row, col);
        proof {
            lemma_without_within(self@, 3, row as int, col as int, LIMIT_3X3 as int);
            lemma_det2_agree(sub@, without(self@, row as int, col as int));
        }
        Ok(sub.determinant())
    }

    /// The cofactor at a place known to be inside the matrix.
    fn signed_minor(&self, row: usize, col: usize) -> (c: i64)
        requires
            entries_within(self@, 3, LIMIT_3X3 as int),
            row < 3,
            col < 3,
        ensures
            c == cofactor3(self@, row as int, col as int),
    {
        let sub = self.strike(row, col);
        proof {
            lemma_without_within(self@, 3, row as int, col as int, LIMIT_3X3 as int);
            lemma_det2_agree(sub@, without(self@, row as int, col as int));
            lemma_cofactor3_bounded(self@, row as int, col as int, LIMIT_3X3 as int);
            let l = LIMIT_3X3 as int;
            assert(2 * (l * l) == 2_000_000_000_000) by (nonlinear_arith)
                requires
                    l == 1_000_000,
            ;
        }
        let minor = sub.determinant();
        if (row + col) % 2 == 1 {
            -minor
        } else {
            minor
        }
    }

    /// The minor at `row` and `col`, negated where `row + col` is odd.
    pub fn cofactor(&self, row: usize, col: usize) -> (r: Result<i64, MatrixError>)
        requires
            entries_within(self@, 3, LIMIT_3X3 as int),
        ensures
            (row >= 3 || col >= 3) <==> r == Err::<i64, MatrixError>(
                MatrixError::IndexOutOfBounds,
            ),
            (row < 3 && col < 3) <==> r is Ok,
            r is Ok ==> r->Ok_0 == cofactor3(self@, row as int, col as int),
    {
        if row >= 3 || col >= 3 {
            return Err(MatrixError::IndexOutOfBounds);
        }
        Ok(self.signed_minor(row, col))
    }

    /// The determinant, by cofactor expansion along the first row.
    pub fn determinant(&self) -> (d: i64)
        requires
            entries_within(self@, 3, LIMIT_3X3 as int),
        ensures
            d == det3(self@),
    {
        let ghost l = LIMIT_3X3 as int;
        let mut det: i64 = 0;
        let mut i: usize = 0;
        while i < 3
            invariant
                i <= 3,
                l == LIMIT_3X3 as int,
                entries_within(self@, 3, l),
                det == expansion3(self@, i as int),
                bounded(det as int, i * 2_000_000_000_000_000_000),
            decreases 3 - i,
        {
            let c = self.signed_minor(0, i);
            proof {
                assert(bounded(self@(0, i as int), l));
                lemma_cofactor3_bounded(self@, 0, i as int, l);
                lemma_product_bounded(self@(0, i as int), c as int, l, 2 * (l * l));
                assert(2 * (l * l) == 2_000_000_000_000 && l * (2 * (l * l))
                    == 2_000_000_000_000_000_000) by (nonlinear_arith)
                    requires
                        l == 1_000_000,
                ;
            }
            det = det + self.data[0][i] * c;
            i += 1;
        }
        det
    }

    /// The inverse as the adjugate over the determinant, or `Singular` where
    /// the determinant is zero.
    pub fn inverse(&self) -> (r: Result<Quotient<Matrix3x3>, MatrixError>)
        requires
            entries_within(self@, 3, LIMIT_3X3 as int),
        ensures
            det3(self@) == 0 <==> r == Err::<Quotient<Matrix3x3>, MatrixError>(
                MatrixError::Singular,
            ),
            det3(self@) != 0 <==> r is Ok,
            r is Ok ==> r->Ok_0.denominator == det3(self@) && agree(
                r->Ok_0.numerators@,
                adjugate3(self@),
                3,
            ),
    {
        let d = self.determinant();
        if d == 0 {
            return Err(MatrixError::Singular);
        }
        let mut data: [[i64; 3]; 3] = [[0; 3]; 3];
        let mut i: usize = 0;
        while i < 3
            invariant
                i <= 3,
                entries_within(self@, 3, LIMIT_3X3 as int),
                forall|a: int, c: int|
                    0 <= a < i && 0 <= c < 3 ==> #[trigger] data[c][a] == cofactor3(self@, a, c),
            decreases 3 - i,
        {
            let mut j: usize = 0;
            while j < 3
                invariant
                    i < 3,
                    j <= 3,
                    entries_within(self@, 3, LIMIT_3X3 as int),
                    forall|a: int, c: int|
                        0 <= a < i && 0 <= c < 3 ==> #[trigger] data[c][a] == cofactor3(
                            self@,
                            a,
                            c,
                        ),
                    forall|c: int|
                        0 <= c < j ==> #[trigger] data[c][i as int] == cofactor3(
                            self@,
                            i as int,
                            c,
                        ),
                decreases 3 - j,
            {
                let c = self.signed_minor(i, j);
                data[j][i] = c;
                j += 1;
            }
            i += 1;
        }
        let numerators = Matrix3x3 { data };
        assert forall|a: int, c: int| 0 <= a < 3 && 0 <= c < 3 implies #[trigger] numerators@(
            a,
            c,
        ) == adjugate3(self@)(a, c) by {
            assert(data[a][c] == cofactor3(self@, c, a));
        }
        Ok(Quotient { numerators, denominator: d })
    }

    pub fn mul(self, rhs: Self) -> (m: Self)
        requires
            entries_within(self@, 3, PRODUCT_LIMIT as int),
            entries_within(rhs@, 3, PRODUCT_LIMIT as int),
        ensures
            agree(m@, product(self@, rhs@, 3), 3),
    {
        let ghost l = PRODUCT_LIMIT as int;
        let mut data: [[i64; 3]; 3] = [[0; 3]; 3];
        let mut i: usize = 0;
        while i < 3
            invariant
                i <= 3,
                l == PRODUCT_LIMIT as int,
                entries_within(self@, 3, l),
                entries_within(rhs@, 3, l),
                forall|a: int, c: int|
                    0 <= a < i && 0 <= c < 3 ==> #[trigger] data[a][c] == row_by_column(
                        self@,
                        rhs@,
                        a,
                        c,
                        3,
                    ),
            decreases 3 - i,
        {
            let mut j: usize = 0;
            while j < 3
                invariant
                    i < 3,
                    j <= 3,
                    l == PRODUCT_LIMIT as int,
                    entries_within(self@, 3, l),
                    entries_within(rhs@, 3, l),
                    forall|a: int, c: int|
                        0 <= a < i && 0 <= c < 3 ==> #[trigger] data[a][c] == row_by_column(
                            self@,
                            rhs@,
                            a,
                            c,
                            3,
                        ),
                    forall|c: int|
                        0 <= c < j ==> #[trigger] data[i as int][c] == row_by_column(
                            self@,
                            rhs@,
                            i as int,
                            c,
                            3,
                        ),
                decreases 3 - j,
            {
                let mut sum: i64 = 0;
                let mut k: usize = 0;
                while k < 3
                    invariant
                        i < 3,
                        j < 3,
                        k <= 3,
                        l == PRODUCT_LIMIT as int,
                        entries_within(self@, 3, l),
                        entries_within(rhs@, 3, l),
                        sum == row_by_column(self@, rhs@, i as int, j as int, k as int),
                        bounded(sum as int, k * PRODUCT_BOUND),
                    decreases 3 - k,
                {
                    proof {
                        assert(bounded(self@(i as int, k as int), l));
                        assert(bounded(rhs@(k as int, j as int), l));
                        lemma_product_bounded(
                            self@(i as int, k as int),
                            rhs@(k as int, j as int),
                            l,
                            l,
                        );
                        lemma_limit_squared(l);
                    }
                    sum = sum + self.data[i][k] * rhs.data[k][j];
                    k += 1;
                }
                data[i][j] = sum;
                j += 1;
            }
            i += 1;
        }
        let m = Matrix3x3 { data };
        assert forall|a: int, c: int| 0 <= a < 3 && 0 <= c < 3 implies #[trigger] m@(a, c)
            == product(self@, rhs@, 3)(a, c) by {
            assert(m@(a, c) == data[a][c]);
        }
        m
    }
}


/// A 4x4 matrix.
#[derive(Clone, Copy, Debug, PartialEq, Eq)]
pub struct Matrix4x4 {
    data: [[i64; 4]; 4],
}

impl View for Matrix4x4 {
    type V = Entries;

    closed spec fn view(&self) -> Entries {
        |i: int, j: int| self.data[i][j] as int
    }
}

impl Matrix4x4 {
    pub fn new(data: [[i64; 4]; 4]) -> (m: Self)
        ensures
            forall|i: int, j: int| 0 <= i < 4 && 0 <= j < 4 ==> #[trigger] m@(i, j) == data[i][j],
    {
        Self { data }
    }

    /// The identity matrix.
    pub fn identity() -> (m: Self)
        ensures
            agree(m@, identity_entries(), 4),
            entries_within(m@, 4, 1),
    {
        Self { data: [[1, 0, 0, 0], [0, 1, 0, 0], [0, 0, 1, 0], [0, 0, 0, 1]] }
    }

    /// The entry in row `row` and column `col`.
    pub fn get(&self, row: usize, col: usize) -> (v: i64)
        requires
            row < 4,
            col < 4,
        ensures
            v == self@(row as int, col as int),
    {
        self.data[row][col]
    }

    /// Whether every entry lies between `-limit` and `limit`.
    pub fn within(&self, limit: i64) -> (b: bool)
        requires
            limit >= 0,
        ensures
            b == entries_within(self@, 4, limit as int),
    {
        let mut i: usize = 0;
        while i < 4
            invariant
                i <= 4,
                limit >= 0,
                forall|a: int, c: int|
                    0 <= a < i && 0 <= c < 4 ==> bounded(#[trigger] self@(a, c), limit as int),
            decreases 4 - i,
        {
            let mut j: usize = 0;
            while j < 4
                invariant
                    i < 4,
                    j <= 4,
                    limit >= 0,
                    forall|a: int, c: int|
                        0 <= a < i && 0 <= c < 4 ==> bounded(#[trigger] self@(a, c), limit as int),
                    forall|c: int|
                        0 <= c < j ==> bounded(#[trigger] self@(i as int, c), limit as int),
                decreases 4 - j,
            {
                let v = self.data[i][j];
                if v < -limit || v > limit {
                    assert(!bounded(self@(i as int, j as int), limit as int));
                    return false;
                }
                j += 1;
            }
            i += 1;
        }
        true
    }

    pub fn transpose(&self) -> (m: Self)
        ensures
            agree(m@, transposed(self@), 4),
    {
        let mut data: [[i64; 4]; 4] = [[0; 4]; 4];
        let mut i: usize = 0;
        while i < 4
            invariant
                i <= 4,
                forall|a: int, c: int|
                    0 <= a < i && 0 <= c < 4 ==> #[trigger] data[c][a] == self@(a, c),
            decreases 4 - i,
        {
            let mut j: usize = 0;
            while j < 4
                invariant
                    i < 4,
                    j <= 4,
                    forall|a: int, c: int|
                        0 <= a < i && 0 <= c < 4 ==> #[trigger] data[c][a] == self@(a, c),
                    forall|c: int| 0 <= c < j ==> #[trigger] data[c][i as int] == self@(i as int, c),
                decreases 4 - j,
            {
                data[j][i] = self.data[i][j];
                j += 1;
            }
            i += 1;
        }
        let m = Matrix4x4 { data };
        assert forall|a: int, c: int| 0 <= a < 4 && 0 <= c < 4 implies #[trigger] m@(a, c)
            == transposed(self@)(a, c) by {
            assert(data[a][c] == self@(c, a));
        }
        m
    }

    /// What is left when row `row` and column `col` are struck out.
    fn strike(&self, row: usize, col: usize) -> (m: Matrix3x3)
        requires
            row < 4,
            col < 4,
        ensures
            agree(m@, without(self@, row as int, col as int), 3),
    {
        let mut data: [[i64; 3]; 3] = [[0; 3]; 3];
        let mut new_i: usize = 0;
        let mut i: usize = 0;
        while i < 4
            invariant
                i <= 4,
                row < 4,
                col < 4,
                new_i == (if i <= row {
                    i as int
                } else {
                    i - 1
                }),
                forall|a: int, c: int|
                    0 <= a < new_i && 0 <= c < 3 ==> #[trigger] data[a][c] == self@(
                        skip(a, row as int),
                        skip(c, col as int),
                    ),
            decreases 4 - i,
        {
            if i != row {
                let mut new_j: usize = 0;
                let mut j: usize = 0;
                while j < 4
                    invariant
                        j <= 4,
                        i < 4,
                        i != row,
                        row < 4,
                        col < 4,
                        new_i < 3,
                        i == skip(new_i as int, row as int),
                        new_j == (if j <= col {
                            j as int
                        } else {
                            j - 1
                        }),
                        forall|a: int, c: int|
                            0 <= a < new_i && 0 <= c < 3 ==> #[trigger] data[a][c] == self@(
                                skip(a, row as int),
                                skip(c, col as int),
                            ),
                        forall|c: int|
                            0 <= c < new_j ==> #[trigger] data[new_i as int][c] == self@(
                                i as int,
                                skip(c, col as int),
                            ),
                    decreases 4 - j,
                {
                    if j != col {
                        data[new_i][new_j] = self.data[i][j];
                        new_j += 1;
                    }
                    j += 1;
                }
                new_i += 1;
            }
            i += 1;
        }
        let m = Matrix3x3 { data };
        assert forall|a: int, c: int| 0 <= a < 3 && 0 <= c < 3 implies #[trigger] m@(a, c)
            == without(self@, row as int, col as int)(a, c) by {
            assert(m@(a, c) == data[a][c]);
        }
        m
    }

    /// The matrix without row `row` and column `col`, or `IndexOutOfBounds`
    /// where one of them is not below 4.
    pub fn submatrix(&self, row: usize, col: usize) -> (r: Result<Matrix3x3, MatrixError>)
        ensures
            (row >= 4 || col >= 4) <==> r == Err::<Matrix3x3, MatrixError>(
                MatrixError::IndexOutOfBounds,
            ),
            (row < 4 && col < 4) <==> r is Ok,
            r is Ok ==> agree(r->Ok_0@, without(self@, row as int, col as int), 3),
    {
        if row >= 4 || col >= 4 {
            return Err(MatrixError::IndexOutOfBounds);
        }
        Ok(self.strike(row, col))
    }

    /// The determinant of the submatrix at `row` and `col`.
    pub fn minor(&self, row: usize, col: usize) -> (r: Result<i64, MatrixError>)
        requires
            entries_within(self@, 4, LIMIT_4X4 as int),
        ensures
            (row >= 4 || col >= 4) <==> r == Err::<i64, MatrixError>(
                MatrixError::IndexOutOfBounds,
            ),
            (row < 4 && col < 4) <==> r is Ok,
            r is Ok ==> r->Ok_0 == minor4(self@, row as int, col as int),
    {
        if row >= 4 || col >= 4 {
            return Err(MatrixError::IndexOutOfBounds);
        }
        let sub = self.strike(row, col);
        proof {
            lemma_without_within(self@, 4, row as int, col as int, LIMIT_4X4 as int);
            lemma_det3_agree(sub@, without(self@, row as int, col as int));
        }
        Ok(sub.determinant())
    }

    /// The cofactor at a place known to be inside the matrix.
    fn signed_minor(&self, row: usize, col: usize) -> (c: i64)
        requires
            entries_within(self@, 4, LIMIT_4X4 as int),
            row < 4,
            col < 4,
        ensures
            c == cofactor4(self@, row as int, col as int),
    {
        let sub = self.strike(row, col);
        proof {
            lemma_without_within(self@, 4, row as int, col as int, LIMIT_4X4 as int);
            lemma_det3_agree(sub@, without(self@, row as int, col as int));
            lemma_cofactor4_bounded(self@, row as int, col as int, LIMIT_4X4 as int);
            let l = LIMIT_4X4 as int;
            assert(6 * (l * (l * l)) == 6_000_000_000_000) by (nonlinear_arith)
                requires
                    l == 10_000,
            ;
        }
        let minor = sub.determinant();
        if (row + col) % 2 == 1 {
            -minor
        } else {
            minor
        }
    }

    /// The minor at `row` and `col`, negated where `row + col` is odd.
    pub fn cofactor(&self, row: usize, col: usize) -> (r: Result<i64, MatrixError>)
        requires
            entries_within(self@, 4, LIMIT_4X4 as int),
        ensures
            (row >= 4 || col >= 4) <==> r == Err::<i64, MatrixError>(
                MatrixError::IndexOutOfBounds,
            ),
            (row < 4 && col < 4) <==> r is Ok,
            r is Ok ==> r->Ok_0 == cofactor4(self@, row as int, col as int),
    {
        if row >= 4 || col >= 4 {
            return Err(MatrixError::IndexOutOfBounds);
        }
        Ok(self.signed_minor(row, col))
    }

    /// The determinant, by cofactor expansion along the first row.
    pub fn determinant(&self) -> (d: i64)
        requires
            entries_within(self@, 4, LIMIT_4X4 as int),
        ensures
            d == det4(self@),
            bounded(d as int, 240_000_000_000_000_000),
    {
        let ghost l = LIMIT_4X4 as int;
        let mut det: i64 = 0;
        let mut i: usize = 0;
        while i < 4
            invariant
                i <= 4,
                l == LIMIT_4X4 as int,
                entries_within(self@, 4, l),
                det == expansion4(self@, i as int),
                bounded(det as int, i * 60_000_000_000_000_000),
            decreases 4 - i,
        {
            let c = self.signed_minor(0, i);
            proof {
                assert(bounded(self@(0, i as int), l));
                lemma_cofactor4_bounded(self@, 0, i as int, l);
                lemma_product_bounded(self@(0, i as int), c as int, l, 6 * (l * (l * l)));
                assert(6 * (l * (l * l)) == 6_000_000_000_000 && l * (6 * (l * (l * l)))
                    == 60_000_000_000_000_000) by (nonlinear_arith)
                    requires
                        l == 10_000,
                ;
            }
            det = det + self.data[0][i] * c;
            i += 1;
        }
        det
    }

    /// The inverse as the adjugate over the determinant, or `Singular` where
    /// the determinant is zero.
    pub fn inverse(&self) -> (r: Result<Quotient<Matrix4x4>, MatrixError>)
        requires
            entries_within(self@, 4, LIMIT_4X4 as int),
        ensures
            det4(self@) == 0 <==> r == Err::<Quotient<Matrix4x4>, MatrixError>(
                MatrixError::Singular,
            ),
            det4(self@) != 0 <==> r is Ok,
            r is Ok ==> r->Ok_0.denominator == det4(self@) && agree(
                r->Ok_0.numerators@,
                adjugate4(self@),
                4,
            ),
            r is Ok ==> r->Ok_0.comparable(),
    {
        let d = self.determinant();
        if d == 0 {
            return Err(MatrixError::Singular);
        }
        let mut data: [[i64; 4]; 4] = [[0; 4]; 4];
        let mut i: usize = 0;
        while i < 4
            invariant
                i <= 4,
                entries_within(self@, 4, LIMIT_4X4 as int),
                forall|a: int, c: int|
                    0 <= a < i && 0 <= c < 4 ==> #[trigger] data[c][a] == cofactor4(self@, a, c),
            decreases 4 - i,
        {
            let mut j: usize = 0;
            while j < 4
                invariant
                    i < 4,
                    j <= 4,
                    entries_within(self@, 4, LIMIT_4X4 as int),
                    forall|a: int, c: int|
                        0 <= a < i && 0 <= c < 4 ==> #[trigger] data[c][a] == cofactor4(
                            self@,
                            a,
                            c,
                        ),
                    forall|c: int|
                        0 <= c < j ==> #[trigger] data[c][i as int] == cofactor4(
                            self@,
                            i as int,
                            c,
                        ),
                decreases 4 - j,
            {
                let c = self.signed_minor(i, j);
                data[j][i] = c;
                j += 1;
            }
            i += 1;
        }
        let numerators = Matrix4x4 { data };
        assert forall|a: int, c: int| 0 <= a < 4 && 0 <= c < 4 implies #[trigger] numerators@(
            a,
            c,
        ) == adjugate4(self@)(a, c) by {
            assert(data[a][c] == cofactor4(self@, c, a));
        }
        assert forall|a: int, c: int| 0 <= a < 4 && 0 <= c < 4 implies bounded(
            #[trigger] numerators@(a, c),
            NUMERATOR_LIMIT as int,
        ) by {
            let l = LIMIT_4X4 as int;
            lemma_cofactor4_bounded(self@, c, a, l);
            assert(6 * (l * (l * l)) == 6_000_000_000_000) by (nonlinear_arith)
                requires
                    l == 10_000,
            ;
        }
        Ok(Quotient { numerators, denominator: d })
    }

    pub fn mul(self, rhs: Self) -> (m: Self)
        requires
            entries_within(self@, 4, PRODUCT_LIMIT as int),
            entries_within(rhs@, 4, PRODUCT_LIMIT as int),
        ensures
            agree(m@, product(self@, rhs@, 4), 4),
    {
        let ghost l = PRODUCT_LIMIT as int;
        let mut data: [[i64; 4]; 4] = [[0; 4]; 4];
        let mut i: usize = 0;
        while i < 4
            invariant
                i <= 4,
                l == PRODUCT_LIMIT as int,
                entries_within(self@, 4, l),
                entries_within(rhs@, 4, l),
                forall|a: int, c: int|
                    0 <= a < i && 0 <= c < 4 ==> #[trigger] data[a][c] == row_by_column(
                        self@,
                        rhs@,
                        a,
                        c,
                        4,
                    ),
            decreases 4 - i,
        {
            let mut j: usize = 0;
            while j < 4
                invariant
                    i < 4,
                    j <= 4,
                    l == PRODUCT_LIMIT as int,
                    entries_within(self@, 4, l),
                    entries_within(rhs@, 4, l),
                    forall|a: int, c: int|
                        0 <= a < i && 0 <= c < 4 ==> #[trigger] data[a][c] == row_by_column(
                            self@,
                            rhs@,
                            a,
                            c,
                            4,
                        ),
                    forall|c: int|
                        0 <= c < j ==> #[trigger] data[i as int][c] == row_by_column(
                            self@,
                            rhs@,
                            i as int,
                            c,
                            4,
                        ),
                decreases 4 - j,
            {
                let mut sum: i64 = 0;
                let mut k: usize = 0;
                while k < 4
                    invariant
                        i < 4,
                        j < 4,
                        k <= 4,
                        l == PRODUCT_LIMIT as int,
                        entries_within(self@, 4, l),
                        entries_within(rhs@, 4, l),
                        sum == row_by_column(self@, rhs@, i as int, j as int, k as int),
                        bounded(sum as int, k * PRODUCT_BOUND),
                    decreases 4 - k,
                {
                    proof {
                        assert(bounded(self@(i as int, k as int), l));
                        assert(bounded(rhs@(k as int, j as int), l));
                        lemma_product_bounded(
                            self@(i as int, k as int),
                            rhs@(k as int, j as int),
                            l,
                            l,
                        );
                        lemma_limit_squared(l);
                    }
                    sum = sum + self.data[i][k] * rhs.data[k][j];
                    k += 1;
                }
                data[i][j] = sum;
                j += 1;
            }
            i += 1;
        }
        let m = Matrix4x4 { data };
        assert forall|a: int, c: int| 0 <= a < 4 && 0 <= c < 4 implies #[trigger] m@(a, c)
            == product(self@, rhs@, 4)(a, c) by {
            assert(m@(a, c) == data[a][c]);
        }
        m
    }

    /// Whether the two matrices have the same entries.
    pub fn eq(&self, other: &Self) -> (b: bool)
        ensures
            b == agree(self@, other@, 4),
    {
        let mut i: usize = 0;
        while i < 4
            invariant
                i <= 4,
                forall|a: int, c: int|
                    0 <= a < i && 0 <= c < 4 ==> #[trigger] self@(a, c) == other@(a, c),
            decreases 4 - i,
        {
            let mut j: usize = 0;
            while j < 4
                invariant
                    i < 4,
                    j <= 4,
                    forall|a: int, c: int|
                        0 <= a < i && 0 <= c < 4 ==> #[trigger] self@(a, c) == other@(a, c),
                    forall|c: int| 0 <= c < j ==> #[trigger] self@(i as int, c) == other@(i as int, c),
                decreases 4 - j,
            {
                if self.data[i][j] != other.data[i][j] {
                    assert(self@(i as int, j as int) != other@(i as int, j as int));
                    return false;
                }
                j += 1;
            }
            i += 1;
        }
        true
    }

    /// The matrix applied to a tuple read as a column.
    pub fn mul_tuple(self, rhs: Tuple) -> (t: Tuple)
        requires
            entries_within(self@, 4, PRODUCT_LIMIT as int),
            rhs@.within(PRODUCT_LIMIT as int),
        ensures
            t@ == applied(self@, rhs@),
    {
        proof {
            let l = PRODUCT_LIMIT as int;
            lemma_applied_within(self@, rhs@, l, l);
            lemma_limit_squared(l);
        }
        Tuple::tuple(
            self.data[0][0] * rhs.x + self.data[0][1] * rhs.y + self.data[0][2] * rhs.z
                + self.data[0][3] * rhs.w,
            self.data[1][0] * rhs.x + self.data[1][1] * rhs.y + self.data[1][2] * rhs.z
                + self.data[1][3] * rhs.w,
            self.data[2][0] * rhs.x + self.data[2][1] * rhs.y + self.data[2][2] * rhs.z
                + self.data[2][3] * rhs.w,
            self.data[3][0] * rhs.x + self.data[3][1] * rhs.y + self.data[3][2] * rhs.z
                + self.data[3][3] * rhs.w,
        )
    }
}

impl Quotient<Matrix4x4> {
    /// The denominator is not zero, and numerators and denominator are small
    /// enough to be compared.
    pub open spec fn comparable(self) -> bool {
        &&& self.denominator != 0
        &&& bounded(self.denominator as int, DENOMINATOR_LIMIT as int)
        &&& entries_within(self.numerators@, 4, NUMERATOR_LIMIT as int)
    }

    /// Whether every entry differs from the same entry of `other` by less
    /// than 0.00001.
    pub fn close_to(&self, other: &Self) -> (b: bool)
        requires
            self.comparable(),
            other.comparable(),
        ensures
            b == (forall|i: int, j: int|
                0 <= i < 4 && 0 <= j < 4 ==> fractions_close(
                    #[trigger] self.numerators@(i, j),
                    self.denominator as int,
                    other.numerators@(i, j),
                    other.denominator as int,
                )),
    {
        let mut i: usize = 0;
        while i < 4
            invariant
                i <= 4,
                self.comparable(),
                other.comparable(),
                forall|a: int, c: int|
                    0 <= a < i && 0 <= c < 4 ==> fractions_close(
                        #[trigger] self.numerators@(a, c),
                        self.denominator as int,
                        other.numerators@(a, c),
                        other.denominator as int,
                    ),
            decreases 4 - i,
        {
            let mut j: usize = 0;
            while j < 4
                invariant
                    i < 4,
                    j <= 4,
                    self.comparable(),
                    other.comparable(),
                    forall|a: int, c: int|
                        0 <= a < i && 0 <= c < 4 ==> fractions_close(
                            #[trigger] self.numerators@(a, c),
                            self.denominator as int,
                            other.numerators@(a, c),
                            other.denominator as int,
                        ),
                    forall|c: int|
                        0 <= c < j ==> fractions_close(
                            #[trigger] self.numerators@(i as int, c),
                            self.denominator as int,
                            other.numerators@(i as int, c),
                            other.denominator as int,
                        ),
                decreases 4 - j,
            {
                proof {
                    assert(bounded(self.numerators@(i as int, j as int), NUMERATOR_LIMIT as int));
                    assert(bounded(other.numerators@(i as int, j as int), NUMERATOR_LIMIT as int));
                }
                if !fraction_close(
                    self.numerators.data[i][j],
                    self.denominator,
                    other.numerators.data[i][j],
                    other.denominator,
                ) {
                    assert(!fractions_close(
                        self.numerators@(i as int, j as int),
                        self.denominator as int,
                        other.numerators@(i as int, j as int),
                        other.denominator as int,
                    ));
                    return false;
                }
                j += 1;
            }
            i += 1;
        }
        true
    }
}

} // verus!
