//! Algebraic laws of matrices: transposing twice, the transpose of a
//! product, the identity matrix, and writing one cell.
use core::ops::{Add, Mul};
use vstd::prelude::*;
use vstd::std_specs::ops::{AddSpec, MulSpec};

use crate::matrix::{
    is_transpose_of, lemma_cell_distinct, lemma_cell_index,
    lemma_cell_of_offset, lemma_flatten_blocks, Matrix,
};
use crate::numeric::{
    is_additive_identity, is_multiplicative_identity, lemma_additive_identity_unique,
};
use crate::product::{is_dot_value, is_product_of, mul_term, partial_dot};

verus! {

/// `T`'s multiplication, as specified, does not depend on the order of its
/// operands.
pub open spec fn mul_commutes<T: Mul<Output = T>>() -> bool {
    forall|x: T, y: T| #[trigger] x.mul_spec(y) == y.mul_spec(x)
}

/// With the operands' roles swapped (`a[i][k]` against `b[k][j]` read from
/// the transposes), each dot product is the same sum, term by term.
proof fn lemma_partial_dot_transposed<T: Add<Output = T> + Mul<Output = T>>(
    a: Matrix<T>,
    b: Matrix<T>,
    at: Matrix<T>,
    bt: Matrix<T>,
    i: int,
    j: int,
    m: int,
)
    requires
        is_transpose_of(at, a),
        is_transpose_of(bt, b),
        a.cols == b.rows,
        0 <= i < a.rows,
        0 <= j < b.cols,
        1 <= m <= a.cols,
        mul_commutes::<T>(),
    ensures
        partial_dot(bt, at, j, i, m) == partial_dot(a, b, i, j, m),
    decreases m,
{
    assert(mul_term(bt, at, j, i, m - 1) == mul_term(a, b, i, j, m - 1)) by {
        assert(bt.at(j, m - 1) == b.at(m - 1, j));
        assert(at.at(m - 1, i) == a.at(i, m - 1));
        assert(b.at(m - 1, j).mul_spec(a.at(i, m - 1)) == a.at(i, m - 1).mul_spec(b.at(m - 1, j)));
    }
    if m > 1 {
        lemma_partial_dot_transposed(a, b, at, bt, i, j, m - 1);
    }
}

/// The transpose of a product is the product of the transposes in
/// reverse order, `(a * b)^T == b^T * a^T`, wherever `T`'s arithmetic is
/// specified and its multiplication is commutative.
pub proof fn lemma_transpose_of_product<T: Add<Output = T> + Mul<Output = T>>(
    a: Matrix<T>,
    b: Matrix<T>,
    c: Matrix<T>,
    ct: Matrix<T>,
    at: Matrix<T>,
    bt: Matrix<T>,
    d: Matrix<T>,
)
    requires
        a.wf(),
        b.wf(),
        a.cols == b.rows,
        T::obeys_add_spec(),
        T::obeys_mul_spec(),
        mul_commutes::<T>(),
        is_product_of(c, a, b),
        is_transpose_of(ct, c),
        is_transpose_of(at, a),
        is_transpose_of(bt, b),
        is_product_of(d, bt, at),
    ensures
        ct.rows == d.rows,
        ct.cols == d.cols,
        ct.data@ == d.data@,
{
    assert forall|j: int, i: int| 0 <= j < b.cols && 0 <= i < a.rows implies #[trigger] ct.at(j, i) == d.at(j, i) by {
        assert(ct.at(j, i) == c.at(i, j));
        assert(is_dot_value(c.at(i, j), a, b, i, j));
        assert(is_dot_value(d.at(j, i), bt, at, j, i));
        if a.cols == 0 {
            lemma_additive_identity_unique(c.at(i, j), d.at(j, i));
        } else {
            lemma_partial_dot_transposed(a, b, at, bt, i, j, a.cols as int);
        }
    }
    assert forall|k: int| 0 <= k < d.data@.len() implies ct.data@[k] == d.data@[k] by {
        let rows = d.rows as int;
        let cols = d.cols as int;
        assert(cols > 0) by (nonlinear_arith)
            requires
                0 <= k < rows * cols,
                0 <= rows,
                0 <= cols,
        ;
        lemma_cell_of_offset(k, rows, cols);
        let jj = k / cols;
        let ii = k % cols;
        assert(ct.at(jj, ii) == d.at(jj, ii));
    }
    assert(ct.data@ =~= d.data@);
}

/// `e` is the `n x n` identity matrix built from `z` and `u`: `u` on the
/// diagonal and `z` everywhere else.
pub open spec fn is_identity_matrix<T>(e: Matrix<T>, n: int, z: T, u: T) -> bool {
    &&& e.rows == n
    &&& e.cols == n
    &&& e.wf()
    &&& forall|i: int, j: int| 0 <= i < n && 0 <= j < n ==> #[trigger] e.at(i, j) == if i == j { u } else { z }
}

/// Where `T`'s multiplication is specified, multiplying by `z` on either
/// side gives `z`.
pub open spec fn annihilates<T: Mul<Output = T>>(z: T) -> bool {
    T::obeys_mul_spec() ==> forall|x: T|
        #![trigger x.mul_spec(z)]
        #![trigger z.mul_spec(x)]
        x.mul_spec(z) == z && z.mul_spec(x) == z
}

/// Partial dot products of a row of `a` with a column of the identity:
/// the sum of the first `m` terms is `a[i][j]` once `j < m`, else `z`.
proof fn lemma_partial_dot_identity_right<T: Add<Output = T> + Mul<Output = T>>(
    a: Matrix<T>,
    e: Matrix<T>,
    z: T,
    u: T,
    i: int,
    j: int,
    m: int,
)
    requires
        T::obeys_add_spec(),
        T::obeys_mul_spec(),
        is_additive_identity(z),
        is_multiplicative_identity(u),
        annihilates(z),
        is_identity_matrix(e, a.cols as int, z, u),
        0 <= i < a.rows,
        0 <= j < a.cols,
        1 <= m <= a.cols,
    ensures
        partial_dot(a, e, i, j, m) == if j < m { a.at(i, j) } else { z },
    decreases m,
{
    let k = m - 1;
    assert(e.at(k, j) == if k == j { u } else { z });
    assert(mul_term(a, e, i, j, k) == a.at(i, k).mul_spec(e.at(k, j)));
    if k == j {
        assert(a.at(i, k).mul_spec(u) == a.at(i, k));
    } else {
        assert(a.at(i, k).mul_spec(z) == z);
    }
    if m > 1 {
        lemma_partial_dot_identity_right(a, e, z, u, i, j, m - 1);
        let prev = partial_dot(a, e, i, j, m - 1);
        let t = mul_term(a, e, i, j, k);
        assert(prev.add_spec(t) == z.add_spec(t) || prev.add_spec(t) == prev.add_spec(z));
    }
}

/// Partial dot products of a row of the identity with a column of `a`:
/// the sum of the first `m` terms is `a[i][j]` once `i < m`, else `z`.
proof fn lemma_partial_dot_identity_left<T: Add<Output = T> + Mul<Output = T>>(
    e: Matrix<T>,
    a: Matrix<T>,
    z: T,
    u: T,
    i: int,
    j: int,
    m: int,
)
    requires
        T::obeys_add_spec(),
        T::obeys_mul_spec(),
        is_additive_identity(z),
        is_multiplicative_identity(u),
        annihilates(z),
        is_identity_matrix(e, a.rows as int, z, u),
        0 <= i < a.rows,
        0 <= j < a.cols,
        1 <= m <= a.rows,
    ensures
        partial_dot(e, a, i, j, m) == if i < m { a.at(i, j) } else { z },
    decreases m,
{
    let k = m - 1;
    assert(e.at(i, k) == if i == k { u } else { z });
    assert(mul_term(e, a, i, j, k) == e.at(i, k).mul_spec(a.at(k, j)));
    if k == i {
        assert(u.mul_spec(a.at(k, j)) == a.at(k, j));
    } else {
        assert(z.mul_spec(a.at(k, j)) == z);
    }
    if m > 1 {
        lemma_partial_dot_identity_left(e, a, z, u, i, j, m - 1);
        let prev = partial_dot(e, a, i, j, m - 1);
        let t = mul_term(e, a, i, j, k);
        assert(prev.add_spec(t) == z.add_spec(t) || prev.add_spec(t) == prev.add_spec(z));
    }
}

/// Two well-formed matrices of the same shape that agree on every cell
/// hold the same data.
pub proof fn lemma_cells_determine_data<T>(x: Matrix<T>, y: Matrix<T>)
    requires
        x.wf(),
        y.wf(),
        x.rows == y.rows,
        x.cols == y.cols,
        forall|i: int, j: int| 0 <= i < x.rows && 0 <= j < x.cols ==> #[trigger] x.at(i, j) == y.at(i, j),
    ensures
        x.data@ == y.data@,
{
    assert forall|k: int| 0 <= k < x.data@.len() implies x.data@[k] == y.data@[k] by {
        let rows = x.rows as int;
        let cols = x.cols as int;
        assert(cols > 0) by (nonlinear_arith)
            requires
                0 <= k < rows * cols,
                0 <= rows,
                0 <= cols,
        ;
        lemma_cell_of_offset(k, rows, cols);
        assert(x.at(k / cols, k % cols) == y.at(k / cols, k % cols));
    }
    assert(x.data@ =~= y.data@);
}

/// Multiplying by the identity on the right gives the matrix back,
/// `a * I == a`, wherever `T`'s arithmetic is specified and the identity's
/// zero annihilates under multiplication.
pub proof fn lemma_mul_identity_right<T: Add<Output = T> + Mul<Output = T>>(
    a: Matrix<T>,
    e: Matrix<T>,
    c: Matrix<T>,
    z: T,
    u: T,
)
    requires
        a.wf(),
        T::obeys_add_spec(),
        T::obeys_mul_spec(),
        is_additive_identity(z),
        is_multiplicative_identity(u),
        annihilates(z),
        is_identity_matrix(e, a.cols as int, z, u),
        is_product_of(c, a, e),
    ensures
        c.rows == a.rows,
        c.cols == a.cols,
        c.data@ == a.data@,
{
    assert forall|i: int, j: int| 0 <= i < c.rows && 0 <= j < c.cols implies #[trigger] c.at(i, j) == a.at(i, j) by {
        assert(is_dot_value(c.at(i, j), a, e, i, j));
        lemma_partial_dot_identity_right(a, e, z, u, i, j, a.cols as int);
    }
    lemma_cells_determine_data(c, a);
}

/// Multiplying by the identity on the left gives the matrix back,
/// `I * a == a`, wherever `T`'s arithmetic is specified and the identity's
/// zero annihilates under multiplication.
pub proof fn lemma_mul_identity_left<T: Add<Output = T> + Mul<Output = T>>(
    e: Matrix<T>,
    a: Matrix<T>,
    c: Matrix<T>,
    z: T,
    u: T,
)
    requires
        a.wf(),
        T::obeys_add_spec(),
        T::obeys_mul_spec(),
        is_additive_identity(z),
        is_multiplicative_identity(u),
        annihilates(z),
        is_identity_matrix(e, a.rows as int, z, u),
        is_product_of(c, e, a),
    ensures
        c.rows == a.rows,
        c.cols == a.cols,
        c.data@ == a.data@,
{
    assert forall|i: int, j: int| 0 <= i < c.rows && 0 <= j < c.cols implies #[trigger] c.at(i, j) == a.at(i, j) by {
        assert(is_dot_value(c.at(i, j), e, a, i, j));
        lemma_partial_dot_identity_left(e, a, z, u, i, j, a.rows as int);
    }
    lemma_cells_determine_data(c, a);
}

/// Columns gathered one by one with `column` and stacked in order form the
/// transpose: the same statement `transpose` makes of its result, so the
/// columns may be gathered in any order or at once.
pub proof fn lemma_columns_form_transpose<T>(m: Matrix<T>, cols: Seq<Seq<T>>, t: Matrix<T>)
    requires
        m.wf(),
        cols.len() == m.cols,
        forall|j: int| 0 <= j < m.cols ==> (#[trigger] cols[j]).len() == m.rows,
        forall|i: int, j: int| 0 <= i < m.rows && 0 <= j < m.cols ==> #[trigger] cols[j][i] == m.at(i, j),
        t.rows == m.cols,
        t.cols == m.rows,
        t.data@ == cols.flatten(),
    ensures
        is_transpose_of(t, m),
{
    lemma_flatten_blocks(cols, m.rows as int);
    assert(t.wf()) by {
        assert(m.cols * m.rows == m.rows * m.cols) by (nonlinear_arith);
    }
    assert forall|i: int, j: int| 0 <= i < m.rows && 0 <= j < m.cols implies #[trigger] t.at(j, i) == m.at(i, j) by {
        assert(t.at(j, i) == cols[j][i]);
    }
}

/// Read after write: once the element at `(row, col)` has been set to `v`
/// (as `at_mut` does), `(row, col)` reads back `v` and every other cell
/// reads what it read before.
pub proof fn lemma_cell_read_after_write<T>(
    before: Matrix<T>,
    after: Matrix<T>,
    row: int,
    col: int,
    v: T,
    i: int,
    j: int,
)
    requires
        before.wf(),
        0 <= row < before.rows,
        0 <= col < before.cols,
        after.rows == before.rows,
        after.cols == before.cols,
        after.data@ == before.data@.update(row * before.cols + col, v),
    ensures
        after.wf(),
        after.at(row, col) == v,
        0 <= i < before.rows && 0 <= j < before.cols && (i != row || j != col) ==> after.at(i, j) == before.at(i, j),
{
    lemma_cell_index(row, col, before.rows as int, before.cols as int);
    if 0 <= i < before.rows && 0 <= j < before.cols && (i != row || j != col) {
        lemma_cell_index(i, j, before.rows as int, before.cols as int);
        lemma_cell_distinct(i, j, row, col, before.cols as int);
    }
}

/// Transposing twice gives back the same matrix: the same shape and
/// the same elements in the same order.
pub proof fn lemma_transpose_involution<T>(m: Matrix<T>, t: Matrix<T>, tt: Matrix<T>)
    requires
        m.wf(),
        is_transpose_of(t, m),
        is_transpose_of(tt, t),
    ensures
        tt.rows == m.rows,
        tt.cols == m.cols,
        tt.data@ == m.data@,
{
    assert forall|k: int| 0 <= k < m.data@.len() implies tt.data@[k] == m.data@[k] by {
        let rows = m.rows as int;
        let cols = m.cols as int;
        assert(cols > 0) by (nonlinear_arith)
            requires
                0 <= k < rows * cols,
                0 <= rows,
                0 <= cols,
        ;
        lemma_cell_of_offset(k, m.rows as int, m.cols as int);
        let i = k / (m.cols as int);
        let j = k % (m.cols as int);
        assert(tt.at(i, j) == t.at(j, i));
        assert(t.at(j, i) == m.at(i, j));
    }
    assert(tt.data@ =~= m.data@);
}

} // verus!
