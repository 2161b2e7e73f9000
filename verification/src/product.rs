//! The matrix product: what each cell of `a * b` holds, and how it is
//! computed row by row.
use core::ops::{Add, Mul};
use num_traits::Zero;
use vstd::prelude::*;
use vstd::std_specs::ops::{AddSpec, MulSpec};

use crate::error::MatrixError;
use crate::matrix::{lemma_cell_index, lemma_flatten_blocks, Matrix};
use crate::numeric::{is_additive_identity, zero_value};

verus! {

/// Checks that `lhs * rhs` is defined: `lhs.cols == rhs.rows`.
fn check_mul_dims<T>(lhs: &Matrix<T>, rhs: &Matrix<T>) -> (r: Result<(), MatrixError>)
    ensures
        r is Ok <==> lhs.cols == rhs.rows,
        r matches Err(e) ==> e == (MatrixError::DimensionMismatch {
            left_cols: lhs.cols,
            right_rows: rhs.rows,
        }),
{
    if lhs.cols == rhs.rows {
        Ok(())
    } else {
        Err(MatrixError::DimensionMismatch { left_cols: lhs.cols, right_rows: rhs.rows })
    }
}

/// Term `k` of the dot product that gives cell `(i, j)` of `a * b`:
/// `a[i][k] * b[k][j]`.
pub open spec fn mul_term<T: Mul<Output = T>>(a: Matrix<T>, b: Matrix<T>, i: int, j: int, k: int) -> T {
    a.at(i, k).mul_spec(b.at(k, j))
}

/// The sum of the first `m >= 1` terms of the dot product for cell
/// `(i, j)`, added from the left.
pub open spec fn partial_dot<T: Add<Output = T> + Mul<Output = T>>(
    a: Matrix<T>,
    b: Matrix<T>,
    i: int,
    j: int,
    m: int,
) -> T
    decreases m,
{
    if m <= 1 {
        mul_term(a, b, i, j, 0)
    } else {
        partial_dot(a, b, i, j, m - 1).add_spec(mul_term(a, b, i, j, m - 1))
    }
}

/// `T`'s multiplication accepts every term `a[i][k] * b[k][j]`.
pub open spec fn mul_terms_allowed<T: Mul<Output = T>>(a: Matrix<T>, b: Matrix<T>) -> bool {
    forall|i: int, k: int, j: int|
        #![trigger a.at(i, k), b.at(k, j)]
        0 <= i < a.rows && 0 <= k < a.cols && 0 <= j < b.cols ==> a.at(i, k).mul_req(b.at(k, j))
}

/// `T`'s addition accepts every step of every dot product of `a * b`
/// (for integers: no partial sum overflows).
pub open spec fn dot_sums_allowed<T: Add<Output = T> + Mul<Output = T>>(a: Matrix<T>, b: Matrix<T>) -> bool {
    forall|i: int, j: int, m: int|
        0 <= i < a.rows && 0 <= j < b.cols && 1 <= m < a.cols ==> #[trigger] partial_dot(a, b, i, j, m).add_req(
            mul_term(a, b, i, j, m),
        )
}

/// `T`'s addition accepts every pair of values.
pub open spec fn add_total<T: Add<Output = T>>() -> bool {
    forall|x: T, y: T| #[trigger] x.add_req(y)
}

/// Computing `a * b` never asks `T`'s arithmetic for a step it refuses:
/// every term is accepted, and so is every addition, either because
/// `T`'s arithmetic is specified and no partial sum is refused, or because
/// `T` accepts any addition.
pub open spec fn product_allowed<T: Add<Output = T> + Mul<Output = T>>(a: Matrix<T>, b: Matrix<T>) -> bool {
    &&& mul_terms_allowed(a, b)
    &&& (T::obeys_add_spec() && T::obeys_mul_spec() && dot_sums_allowed(a, b)) || add_total::<T>()
}

/// `v` is what cell `(i, j)` of `a * b` holds: an additive identity when
/// the inner dimension is 0, else (where `T`'s arithmetic is specified)
/// the dot product of row `i` of `a` and column `j` of `b`.
pub open spec fn is_dot_value<T: Add<Output = T> + Mul<Output = T>>(
    v: T,
    a: Matrix<T>,
    b: Matrix<T>,
    i: int,
    j: int,
) -> bool {
    &&& exists|sums: Seq<T>, terms: Seq<T>|
        #![trigger is_dot_run(sums, terms, a, b, i, j, a.cols as int)]
        is_dot_run(sums, terms, a, b, i, j, a.cols as int) && v == sums[a.cols as int]
    &&& if a.cols == 0 {
        is_additive_identity(v)
    } else {
        T::obeys_add_spec() && T::obeys_mul_spec() ==> v == partial_dot(a, b, i, j, a.cols as int)
    }
}

/// The first `m` steps of computing cell `(i, j)` of `a * b` one operation
/// at a time: `sums[0]` is an additive identity of `T` (where `T`'s
/// addition is specified), `terms[k]` is a result that `T`'s `mul` can give
/// for `a[i][k]` and `b[k][j]`, and `sums[k + 1]` one that `T`'s `add` can
/// give for `sums[k]` and `terms[k]`.
pub open spec fn is_dot_run<T: Add<Output = T> + Mul<Output = T>>(
    sums: Seq<T>,
    terms: Seq<T>,
    a: Matrix<T>,
    b: Matrix<T>,
    i: int,
    j: int,
    m: int,
) -> bool {
    &&& sums.len() == m + 1
    &&& terms.len() == m
    &&& is_additive_identity(sums[0])
    &&& forall|k: int| 0 <= k < m ==> #[trigger] call_ensures(T::mul, (a.at(i, k), b.at(k, j)), terms[k])
    &&& forall|k: int| 0 <= k < m ==> #[trigger] call_ensures(T::add, (sums[k], terms[k]), sums[k + 1])
}

/// `c` is the matrix product `a * b`.
pub open spec fn is_product_of<T: Add<Output = T> + Mul<Output = T>>(
    c: Matrix<T>,
    a: Matrix<T>,
    b: Matrix<T>,
) -> bool {
    &&& c.rows == a.rows
    &&& c.cols == b.cols
    &&& c.wf()
    &&& forall|i: int, j: int|
        0 <= i < c.rows && 0 <= j < c.cols ==> #[trigger] is_dot_value(c.at(i, j), a, b, i, j)
}

impl<T: Copy + Add<Output = T> + Zero + Mul<Output = T>> Matrix<T> {
    /// Row `i` of `self * rhs`: for each column `j` of `rhs`, the dot
    /// product of row `i` of `self` and column `j` of `rhs`, summed from
    /// `T::zero()`. Rows are independent of each other, so they may be
    /// computed in any order or at once.
    ///
    /// The precondition that `T`'s operator accepts each pair of elements is
    /// one Verus can establish where vstd specifies the operator (the
    /// primitive integers: no overflow). For a type whose operator has no
    /// such specification, floats among them, no verified caller can
    /// establish it; such a type is used from unverified code.
    pub fn product_row(&self, rhs: &Matrix<T>, i: usize) -> (row: Vec<T>)
        requires
            self.wf(),
            rhs.wf(),
            self.cols == rhs.rows,
            i < self.rows,
            product_allowed(*self, *rhs),
        ensures
            row@.len() == rhs.cols,
            forall|j: int| 0 <= j < rhs.cols ==> #[trigger] is_dot_value(row@[j], *self, *rhs, i as int, j),
    {
        let n = self.cols;
        let pc = rhs.cols;
        // the storage lengths, usizes, bound every offset computed below
        let _len = self.data.len();
        let _rhs_len = rhs.data.len();
        let mut row: Vec<T> = Vec::new();
        let mut j: usize = 0;
        while j < pc
            invariant
                self.wf(),
                rhs.wf(),
                n == self.cols,
                pc == rhs.cols,
                n == rhs.rows,
                i < self.rows,
                product_allowed(*self, *rhs),
                _len == self.data@.len(),
                _rhs_len == rhs.data@.len(),
                j <= pc,
                row@.len() == j,
                forall|jj: int| 0 <= jj < j ==> #[trigger] is_dot_value(row@[jj], *self, *rhs, i as int, jj),
            decreases pc - j,
        {
            let mut acc = zero_value::<T>();
            let ghost z = acc;
            let ghost mut sums: Seq<T> = seq![acc];
            let ghost mut terms: Seq<T> = Seq::empty();
            let mut k: usize = 0;
            while k < n
                invariant
                    self.wf(),
                    rhs.wf(),
                    n == self.cols,
                    pc == rhs.cols,
                    n == rhs.rows,
                    i < self.rows,
                    j < pc,
                    product_allowed(*self, *rhs),
                    _len == self.data@.len(),
                    _rhs_len == rhs.data@.len(),
                    is_additive_identity(z),
                    k <= n,
                    k == 0 ==> acc == z,
                    is_dot_run(sums, terms, *self, *rhs, i as int, j as int, k as int),
                    acc == sums[k as int],
                    k >= 1 && T::obeys_add_spec() && T::obeys_mul_spec() ==> acc == partial_dot(
                        *self,
                        *rhs,
                        i as int,
                        j as int,
                        k as int,
                    ),
                decreases n - k,
            {
                proof {
                    lemma_cell_index(i as int, k as int, self.rows as int, n as int);
                    lemma_cell_index(k as int, j as int, n as int, pc as int);
                    assert(self.data@[i * n + k] == self.at(i as int, k as int));
                    assert(rhs.data@[k * pc + j] == rhs.at(k as int, j as int));
                    assert(self.at(i as int, k as int).mul_req(rhs.at(k as int, j as int)));
                }
                let term = self.data[i * n + k] * rhs.data[k * pc + j];
                proof {
                    if !add_total::<T>() {
                        assert(term == mul_term(*self, *rhs, i as int, j as int, k as int));
                        if k == 0 {
                            assert(z.add_spec(term) == term);
                        }
                        if k >= 1 {
                            assert(partial_dot(*self, *rhs, i as int, j as int, k as int).add_req(
                                mul_term(*self, *rhs, i as int, j as int, k as int),
                            ));
                        }
                    }
                }
                let ghost prev = acc;
                acc = acc + term;
                proof {
                    assert(self.at(i as int, k as int) == self.data@[i * n + k]);
                    terms = terms.push(term);
                    sums = sums.push(acc);
                    assert(call_ensures(T::add, (prev, term), acc));
                    assert forall|kk: int| 0 <= kk < k + 1 implies #[trigger] call_ensures(
                        T::mul,
                        (self.at(i as int, kk), rhs.at(kk, j as int)),
                        terms[kk],
                    ) by {}
                    assert forall|kk: int| 0 <= kk < k + 1 implies #[trigger] call_ensures(
                        T::add,
                        (sums[kk], terms[kk]),
                        sums[kk + 1],
                    ) by {}
                }
                k = k + 1;
            }
            proof {
                assert(is_dot_run(sums, terms, *self, *rhs, i as int, j as int, n as int));
            }
            row.push(acc);
            j = j + 1;
        }
        row
    }

    /// Matrix product, or `DimensionMismatch` when `self.cols != rhs.rows`.
    /// Each cell is the dot product of a row of `self` and a column of
    /// `rhs`, summed from `T::zero()`.
    ///
    /// The precondition that `T`'s operator accepts each pair of elements is
    /// one Verus can establish where vstd specifies the operator (the
    /// primitive integers: no overflow). For a type whose operator has no
    /// such specification, floats among them, no verified caller can
    /// establish it; such a type is used from unverified code.
    pub fn try_mul(&self, rhs: &Matrix<T>) -> (r: Result<Matrix<T>, MatrixError>)
        requires
            self.wf(),
            rhs.wf(),
            self.cols == rhs.rows ==> self.rows * rhs.cols <= usize::MAX,
            self.cols == rhs.rows ==> product_allowed(*self, *rhs),
        ensures
            match r {
                Ok(c) => self.cols == rhs.rows && is_product_of(c, *self, *rhs),
                Err(e) => {
                    &&& self.cols != rhs.rows
                    &&& e == (MatrixError::DimensionMismatch { left_cols: self.cols, right_rows: rhs.rows })
                },
            },
    {
        check_mul_dims(self, rhs)?;
        let rows = self.rows;
        let pc = rhs.cols;
        let mut data: Vec<T> = Vec::new();
        let mut i: usize = 0;
        while i < rows
            invariant
                self.wf(),
                rhs.wf(),
                self.cols == rhs.rows,
                rows == self.rows,
                pc == rhs.cols,
                rows * pc <= usize::MAX,
                product_allowed(*self, *rhs),
                i <= rows,
                data@.len() == i * pc,
                forall|ii: int, jj: int|
                    0 <= ii < i && 0 <= jj < pc ==> #[trigger] is_dot_value(data@[ii * pc + jj], *self, *rhs, ii, jj),
            decreases rows - i,
        {
            let ghost before = data@;
            let mut row = self.product_row(rhs, i);
            let ghost new_row = row@;
            data.append(&mut row);
            proof {
                assert forall|ii: int, jj: int|
                    0 <= ii < i + 1 && 0 <= jj < pc implies #[trigger] is_dot_value(data@[ii * pc + jj], *self, *rhs, ii, jj) by {
                    lemma_cell_index(ii, jj, i + 1, pc as int);
                    if ii < i {
                        lemma_cell_index(ii, jj, i as int, pc as int);
                        assert(data@[ii * pc + jj] == before[ii * pc + jj]);
                    } else {
                        assert(data@[ii * pc + jj] == new_row[jj]) by {
                            assert(ii * pc + jj == i * pc + jj);
                        }
                    }
                }
                assert((i + 1) * pc == i * pc + pc) by (nonlinear_arith);
            }
            i = i + 1;
        }
        let c = Matrix { rows, cols: pc, data };
        proof {
            assert forall|ii: int, jj: int| 0 <= ii < c.rows && 0 <= jj < c.cols implies #[trigger] is_dot_value(c.at(ii, jj), *self, *rhs, ii, jj) by {
                assert(c.at(ii, jj) == data@[ii * pc + jj]);
            }
        }
        Ok(c)
    }
}

/// Rows computed one by one with `product_row` and stacked in order form
/// the product of the two matrices: the same statement `try_mul` makes of
/// its result, so the rows may be computed in any order or at once.
pub proof fn lemma_rows_form_product<T: Add<Output = T> + Mul<Output = T>>(
    a: Matrix<T>,
    b: Matrix<T>,
    rows: Seq<Seq<T>>,
    c: Matrix<T>,
)
    requires
        a.cols == b.rows,
        rows.len() == a.rows,
        forall|i: int| 0 <= i < a.rows ==> (#[trigger] rows[i]).len() == b.cols,
        forall|i: int, j: int|
            0 <= i < a.rows && 0 <= j < b.cols ==> #[trigger] is_dot_value(rows[i][j], a, b, i, j),
        c.rows == a.rows,
        c.cols == b.cols,
        c.data@ == rows.flatten(),
    ensures
        is_product_of(c, a, b),
{
    lemma_flatten_blocks(rows, b.cols as int);
    assert forall|i: int, j: int| 0 <= i < c.rows && 0 <= j < c.cols implies #[trigger] is_dot_value(c.at(i, j), a, b, i, j) by {
        assert(c.at(i, j) == rows[i][j]);
    }
}

} // verus!
