//! `Matrix<T>`: a dense two-dimensional matrix in row-major flat storage.
use core::ops::{Add, Mul, Sub};
use num_traits::{One, Zero};
use vstd::prelude::*;

use crate::elementwise::{
    add_allowed, add_elements, is_difference_of, is_product_of_elements,
    is_scaled_of, is_sum_of, mul_allowed, mul_elements, scale_allowed, scale_elements, sub_allowed,
    sub_elements,
};
use crate::error::MatrixError;
use crate::matrix_laws::is_identity_matrix;
use crate::numeric::{is_additive_identity, is_multiplicative_identity, one_value, zero_value};
use crate::random::seeded_standard_values;

verus! {

/// A dense `rows x cols` matrix; element `(i, j)` is stored at
/// `data[i * cols + j]`.
#[derive(Debug, Clone)]
pub struct Matrix<T> {
    pub rows: usize,
    pub cols: usize,
    pub data: Vec<T>,
}

/// For `i < rows` and `j < cols`, `i * cols + j` addresses a cell of a
/// `rows x cols` row-major storage.
pub proof fn lemma_cell_index(i: int, j: int, rows: int, cols: int)
    requires
        0 <= i < rows,
        0 <= j < cols,
    ensures
        0 <= i * cols,
        i * cols + j < rows * cols,
        i * cols + cols <= rows * cols,
        (i + 1) * cols == i * cols + cols,
{
    assert(0 <= i * cols) by (nonlinear_arith)
        requires
            0 <= i,
            0 <= j < cols,
    ;
    assert(i * cols + cols <= rows * cols) by (nonlinear_arith)
        requires
            0 <= i < rows,
            0 < cols,
    ;
    assert((i + 1) * cols == i * cols + cols) by (nonlinear_arith);
}

impl<T> Matrix<T> {
    /// A well-formed matrix holds exactly `rows * cols` elements.
    pub open spec fn wf(&self) -> bool {
        self.data@.len() == self.rows * self.cols
    }

    /// The element in row `i` and column `j`.
    pub open spec fn at(&self, i: int, j: int) -> T {
        self.data@[i * self.cols + j]
    }

    /// Builds a `rows x cols` matrix from row-major data of length
    /// `rows * cols`.
    pub fn new(rows: usize, cols: usize, data: Vec<T>) -> (m: Self)
        requires
            rows * cols == data@.len(),
        ensures
            m.rows == rows,
            m.cols == cols,
            m.data@ == data@,
            m.wf(),
    {
        Matrix { rows, cols, data }
    }
}

impl<T: Copy> Matrix<T> {
    /// Column `j`, top to bottom. Columns are independent of each other, so
    /// they may be gathered in any order or at once.
    pub fn column(&self, j: usize) -> (col: Vec<T>)
        requires
            self.wf(),
            j < self.cols,
        ensures
            col@.len() == self.rows,
            forall|i: int| 0 <= i < self.rows ==> #[trigger] col@[i] == self.at(i, j as int),
    {
        let rows = self.rows;
        let cols = self.cols;
        // the storage length, a usize, bounds every offset computed below
        let _len = self.data.len();
        let mut col: Vec<T> = Vec::new();
        let mut i: usize = 0;
        while i < rows
            invariant
                rows == self.rows,
                cols == self.cols,
                self.wf(),
                _len == self.data@.len(),
                j < cols,
                i <= rows,
                col@.len() == i,
                forall|ii: int| 0 <= ii < i ==> #[trigger] col@[ii] == self.at(ii, j as int),
            decreases rows - i,
        {
            proof {
                lemma_cell_index(i as int, j as int, rows as int, cols as int);
            }
            col.push(self.data[i * cols + j]);
            i = i + 1;
        }
        col
    }

    /// The transpose: a `cols x rows` matrix whose element `(j, i)` is this
    /// matrix's element `(i, j)`; row `j` of it is column `j` of this one.
    pub fn transpose(&self) -> (t: Matrix<T>)
        requires
            self.wf(),
        ensures
            is_transpose_of(t, *self),
    {
        let rows = self.rows;
        let cols = self.cols;
        let mut data: Vec<T> = Vec::new();
        let mut j: usize = 0;
        while j < cols
            invariant
                rows == self.rows,
                cols == self.cols,
                self.wf(),
                j <= cols,
                data@.len() == j * rows,
                forall|jj: int, ii: int|
                    0 <= jj < j && 0 <= ii < rows ==> #[trigger] data@[jj * rows + ii] == self.at(ii, jj),
            decreases cols - j,
        {
            let ghost before = data@;
            let mut col = self.column(j);
            let ghost new_col = col@;
            data.append(&mut col);
            proof {
                assert forall|jj: int, ii: int|
                    0 <= jj < j + 1 && 0 <= ii < rows implies #[trigger] data@[jj * rows + ii] == self.at(ii, jj) by {
                    lemma_cell_index(jj, ii, j + 1, rows as int);
                    if jj < j {
                        lemma_cell_index(jj, ii, j as int, rows as int);
                        assert(data@[jj * rows + ii] == before[jj * rows + ii]);
                    } else {
                        assert(data@[jj * rows + ii] == new_col[ii]);
                    }
                }
                assert((j + 1) * rows == j * rows + rows) by (nonlinear_arith);
            }
            j = j + 1;
        }
        proof {
            assert(cols * rows == rows * cols) by (nonlinear_arith);
        }
        Matrix { rows: cols, cols: rows, data }
    }
}

/// Compares two shapes; a mismatch is reported with the left shape as the
/// expected one.
fn check_same_shape<T>(lhs: &Matrix<T>, rhs: &Matrix<T>) -> (r: Result<(), MatrixError>)
    ensures
        r is Ok <==> (lhs.rows == rhs.rows && lhs.cols == rhs.cols),
        r matches Err(e) ==> e == shape_mismatch(lhs, rhs),
{
    if lhs.rows == rhs.rows && lhs.cols == rhs.cols {
        Ok(())
    } else {
        Err(
            MatrixError::ShapeMismatch {
                expected: (lhs.rows, lhs.cols),
                found: (rhs.rows, rhs.cols),
            },
        )
    }
}

/// The error for an element-wise operation on `lhs` and `rhs` of
/// different shapes.
pub open spec fn shape_mismatch<T>(lhs: &Matrix<T>, rhs: &Matrix<T>) -> MatrixError {
    MatrixError::ShapeMismatch { expected: (lhs.rows, lhs.cols), found: (rhs.rows, rhs.cols) }
}

/// `lhs` and `rhs` have the same number of rows and of columns.
pub open spec fn same_shape<T>(lhs: Matrix<T>, rhs: Matrix<T>) -> bool {
    lhs.rows == rhs.rows && lhs.cols == rhs.cols
}

impl<T: Copy + Add<Output = T>> Matrix<T> {
    /// Element-wise sum; the shapes must match, else the error carries both.
    ///
    /// The precondition that `T`'s operator accepts each pair of elements is
    /// one Verus can establish where vstd specifies the operator (the
    /// primitive integers: no overflow). For a type whose operator has no
    /// such specification, floats among them, no verified caller can
    /// establish it; such a type is used from unverified code.
    pub fn try_add(&self, rhs: &Matrix<T>) -> (r: Result<Matrix<T>, MatrixError>)
        requires
            self.wf(),
            rhs.wf(),
            same_shape(*self, *rhs) ==> add_allowed(self.data@, rhs.data@),
        ensures
            match r {
                Ok(m) => {
                    &&& same_shape(*self, *rhs)
                    &&& same_shape(m, *self)
                    &&& m.wf()
                    &&& is_sum_of(m.data@, self.data@, rhs.data@)
                },
                Err(e) => !same_shape(*self, *rhs) && e == shape_mismatch(self, rhs),
            },
    {
        check_same_shape(self, rhs)?;
        let data = add_elements(self.data.as_slice(), rhs.data.as_slice());
        Ok(Matrix { rows: self.rows, cols: self.cols, data })
    }
}

impl<T: Copy + Sub<Output = T>> Matrix<T> {
    /// Element-wise difference; the shapes must match, else the error
    /// carries both.
    ///
    /// The precondition that `T`'s operator accepts each pair of elements is
    /// one Verus can establish where vstd specifies the operator (the
    /// primitive integers: no overflow). For a type whose operator has no
    /// such specification, floats among them, no verified caller can
    /// establish it; such a type is used from unverified code.
    pub fn try_sub(&self, rhs: &Matrix<T>) -> (r: Result<Matrix<T>, MatrixError>)
        requires
            self.wf(),
            rhs.wf(),
            same_shape(*self, *rhs) ==> sub_allowed(self.data@, rhs.data@),
        ensures
            match r {
                Ok(m) => {
                    &&& same_shape(*self, *rhs)
                    &&& same_shape(m, *self)
                    &&& m.wf()
                    &&& is_difference_of(m.data@, self.data@, rhs.data@)
                },
                Err(e) => !same_shape(*self, *rhs) && e == shape_mismatch(self, rhs),
            },
    {
        check_same_shape(self, rhs)?;
        let data = sub_elements(self.data.as_slice(), rhs.data.as_slice());
        Ok(Matrix { rows: self.rows, cols: self.cols, data })
    }
}

impl<T: Copy + Mul<Output = T>> Matrix<T> {
    /// Element-wise (Hadamard) product; the shapes must match, else the
    /// error carries both.
    ///
    /// The precondition that `T`'s operator accepts each pair of elements is
    /// one Verus can establish where vstd specifies the operator (the
    /// primitive integers: no overflow). For a type whose operator has no
    /// such specification, floats among them, no verified caller can
    /// establish it; such a type is used from unverified code.
    pub fn hadamard(&self, rhs: &Matrix<T>) -> (r: Result<Matrix<T>, MatrixError>)
        requires
            self.wf(),
            rhs.wf(),
            same_shape(*self, *rhs) ==> mul_allowed(self.data@, rhs.data@),
        ensures
            match r {
                Ok(m) => {
                    &&& same_shape(*self, *rhs)
                    &&& same_shape(m, *self)
                    &&& m.wf()
                    &&& is_product_of_elements(m.data@, self.data@, rhs.data@)
                },
                Err(e) => !same_shape(*self, *rhs) && e == shape_mismatch(self, rhs),
            },
    {
        check_same_shape(self, rhs)?;
        let data = mul_elements(self.data.as_slice(), rhs.data.as_slice());
        Ok(Matrix { rows: self.rows, cols: self.cols, data })
    }

    /// Every element multiplied by `scalar`; the shape is kept.
    ///
    /// The precondition that `T`'s operator accepts each pair of elements is
    /// one Verus can establish where vstd specifies the operator (the
    /// primitive integers: no overflow). For a type whose operator has no
    /// such specification, floats among them, no verified caller can
    /// establish it; such a type is used from unverified code.
    pub fn scale(&self, scalar: T) -> (m: Matrix<T>)
        requires
            self.wf(),
            scale_allowed(self.data@, scalar),
        ensures
            same_shape(m, *self),
            m.wf(),
            is_scaled_of(m.data@, self.data@, scalar),
    {
        let data = scale_elements(self.data.as_slice(), scalar);
        Matrix { rows: self.rows, cols: self.cols, data }
    }
}

impl<T> Matrix<T> where rand::distributions::Standard: rand::distributions::Distribution<T> {
    /// A `rows x cols` matrix whose elements are drawn from `rand`'s
    /// `Standard` distribution (for floats `[0, 1)`) by a `StdRng` seeded
    /// with `seed`, so that the same seed gives the same matrix. The
    /// contract states only the shape: the generator is opaque here.
    pub fn rand_seeded(rows: usize, cols: usize, seed: u64) -> (m: Self)
        requires
            rows * cols <= usize::MAX,
        ensures
            m.rows == rows,
            m.cols == cols,
            m.wf(),
    {
        Matrix { rows, cols, data: seeded_standard_values(rows * cols, seed) }
    }
}

impl<T: Copy> Matrix<T> {
    /// A `rows x cols` matrix whose every element is `value`.
    pub fn fill(rows: usize, cols: usize, value: T) -> (m: Self)
        requires
            rows * cols <= usize::MAX,
        ensures
            m.rows == rows,
            m.cols == cols,
            m.wf(),
            m.data@ == Seq::new((rows * cols) as nat, |k: int| value),
    {
        let n = rows * cols;
        let mut data: Vec<T> = Vec::with_capacity(n);
        let mut k: usize = 0;
        while k < n
            invariant
                k <= n,
                data@ == Seq::new(k as nat, |q: int| value),
            decreases n - k,
        {
            data.push(value);
            k = k + 1;
            assert(data@ =~= Seq::new(k as nat, |q: int| value));
        }
        Matrix { rows, cols, data }
    }
}

impl<T: Copy + Add<Output = T> + Zero> Matrix<T> {
    /// A `rows x cols` matrix of `T::zero()`: every element is the zero
    /// value that `num_traits` hands back, an additive identity wherever
    /// `T`'s addition has a specification.
    pub fn zeros(rows: usize, cols: usize) -> (m: Self)
        requires
            rows * cols <= usize::MAX,
        ensures
            m.rows == rows,
            m.cols == cols,
            m.wf(),
            exists|z: T|
                #![trigger is_additive_identity(z)]
                m.data@ == Seq::new((rows * cols) as nat, |k: int| z) && is_additive_identity(z),
    {
        let z = zero_value::<T>();
        Matrix::fill(rows, cols, z)
    }
}

impl<T: Copy + Mul<Output = T> + One> Matrix<T> {
    /// A `rows x cols` matrix of `T::one()`: every element is the unit
    /// value that `num_traits` hands back, a multiplicative identity wherever
    /// `T`'s multiplication has a specification.
    pub fn ones(rows: usize, cols: usize) -> (m: Self)
        requires
            rows * cols <= usize::MAX,
        ensures
            m.rows == rows,
            m.cols == cols,
            m.wf(),
            exists|u: T|
                #![trigger is_multiplicative_identity(u)]
                m.data@ == Seq::new((rows * cols) as nat, |k: int| u) && is_multiplicative_identity(u),
    {
        let u = one_value::<T>();
        Matrix::fill(rows, cols, u)
    }
}

impl<T: Copy + Add<Output = T> + Zero + Mul<Output = T> + One> Matrix<T> {
    /// The `n x n` identity matrix: `T::one()` on the diagonal and
    /// `T::zero()` everywhere else.
    pub fn eye(n: usize) -> (m: Self)
        requires
            n * n <= usize::MAX,
        ensures
            m.rows == n,
            m.cols == n,
            m.wf(),
            exists|z: T, u: T|
                #![trigger is_identity_matrix(m, n as int, z, u)]
                is_identity_matrix(m, n as int, z, u) && is_additive_identity(z) && is_multiplicative_identity(u),
    {
        let z = zero_value::<T>();
        let u = one_value::<T>();
        let mut data: Vec<T> = Vec::new();
        let mut i: usize = 0;
        while i < n
            invariant
                n * n <= usize::MAX,
                i <= n,
                data@.len() == i * n,
                forall|ii: int, jj: int|
                    0 <= ii < i && 0 <= jj < n ==> #[trigger] data@[ii * n + jj] == if ii == jj { u } else { z },
            decreases n - i,
        {
            let mut j: usize = 0;
            while j < n
                invariant
                    n * n <= usize::MAX,
                    i < n,
                    j <= n,
                    data@.len() == i * n + j,
                    forall|ii: int, jj: int|
                        0 <= ii < i && 0 <= jj < n ==> #[trigger] data@[ii * n + jj] == if ii == jj { u } else { z },
                    forall|jj: int| 0 <= jj < j ==> #[trigger] data@[i * n + jj] == if i == jj { u } else { z },
                decreases n - j,
            {
                proof {
                    lemma_cell_index(i as int, j as int, n as int, n as int);
                }
                let ghost before = data@;
                if i == j {
                    data.push(u);
                } else {
                    data.push(z);
                }
                proof {
                    assert forall|ii: int, jj: int|
                        0 <= ii < i && 0 <= jj < n implies #[trigger] data@[ii * n + jj] == if ii == jj { u } else { z } by {
                        lemma_cell_index(ii, jj, i as int, n as int);
                        assert(data@[ii * n + jj] == before[ii * n + jj]);
                    }
                }
                j = j + 1;
            }
            proof {
                assert((i + 1) * n == i * n + n) by (nonlinear_arith);
            }
            i = i + 1;
        }
        let m = Matrix { rows: n, cols: n, data };
        assert(is_identity_matrix(m, n as int, z, u));
        m
    }
}

impl<T> vstd::std_specs::core::IndexSpecImpl<(usize, usize)> for Matrix<T> {
    open spec fn index_req(&self, index: &(usize, usize)) -> bool {
        self.wf() && index.0 < self.rows && index.1 < self.cols
    }
}

impl<T> core::ops::Index<(usize, usize)> for Matrix<T> {
    type Output = T;

    /// The element in row `idx.0` and column `idx.1`, which must lie inside
    /// the matrix.
    fn index(&self, idx: (usize, usize)) -> (r: &T)
        ensures
            *r == self.at(idx.0 as int, idx.1 as int),
    {
        let (row, col) = idx;
        // the storage length, a usize, bounds every offset computed below
        let _len = self.data.len();
        proof {
            lemma_cell_index(row as int, col as int, self.rows as int, self.cols as int);
        }
        &self.data[row * self.cols + col]
    }
}

impl<T> Matrix<T> {
    /// A mutable reference to the element in row `row` and column `col`,
    /// which must lie inside the matrix; only that element can change.
    pub fn at_mut(&mut self, row: usize, col: usize) -> (r: &mut T)
        requires
            old(self).wf(),
            row < old(self).rows,
            col < old(self).cols,
        ensures
            *r == old(self).at(row as int, col as int),
            final(self).rows == old(self).rows,
            final(self).cols == old(self).cols,
            final(self).data@ == old(self).data@.update(row * old(self).cols + col, *final(r)),
    {
        // the storage length, a usize, bounds every offset computed below
        let _len = self.data.len();
        proof {
            lemma_cell_index(row as int, col as int, self.rows as int, self.cols as int);
        }
        let c = self.cols;
        &mut self.data[row * c + col]
    }
}

impl<'a, 'b, T: Copy + Add<Output = T>> vstd::std_specs::ops::AddSpecImpl<&'b Matrix<T>> for &'a Matrix<T> {
    open spec fn obeys_add_spec() -> bool {
        false
    }

    open spec fn add_req(self, rhs: &'b Matrix<T>) -> bool {
        &&& self.wf()
        &&& rhs.wf()
        &&& same_shape(*self, *rhs)
        &&& add_allowed(self.data@, rhs.data@)
    }

    open spec fn add_spec(self, rhs: &'b Matrix<T>) -> Matrix<T> {
        arbitrary()
    }
}

impl<'a, 'b, T: Copy + Add<Output = T>> Add<&'b Matrix<T>> for &'a Matrix<T> {
    type Output = Matrix<T>;

    /// Element-wise sum of two matrices of the same shape.
    fn add(self, rhs: &'b Matrix<T>) -> (m: Matrix<T>)
        ensures
            same_shape(m, *self),
            m.wf(),
            is_sum_of(m.data@, self.data@, rhs.data@),
    {
        match (self).try_add(rhs) {
            Ok(m) => m,
            Err(_) => {
                assert(false);
                Matrix { rows: 0, cols: 0, data: Vec::new() }
            },
        }
    }
}

impl<T: Copy + Add<Output = T>> vstd::std_specs::ops::AddSpecImpl<Matrix<T>> for Matrix<T> {
    open spec fn obeys_add_spec() -> bool {
        false
    }

    open spec fn add_req(self, rhs: Matrix<T>) -> bool {
        &&& self.wf()
        &&& rhs.wf()
        &&& same_shape(self, rhs)
        &&& add_allowed(self.data@, rhs.data@)
    }

    open spec fn add_spec(self, rhs: Matrix<T>) -> Matrix<T> {
        arbitrary()
    }
}

impl<T: Copy + Add<Output = T>> Add<Matrix<T>> for Matrix<T> {
    type Output = Matrix<T>;

    /// Element-wise sum of two matrices of the same shape.
    fn add(self, rhs: Matrix<T>) -> (m: Matrix<T>)
        ensures
            same_shape(m, self),
            m.wf(),
            is_sum_of(m.data@, self.data@, rhs.data@),
    {
        match (&self).try_add(&rhs) {
            Ok(m) => m,
            Err(_) => {
                assert(false);
                Matrix { rows: 0, cols: 0, data: Vec::new() }
            },
        }
    }
}

impl<'b, T: Copy + Add<Output = T>> vstd::std_specs::ops::AddSpecImpl<&'b Matrix<T>> for Matrix<T> {
    open spec fn obeys_add_spec() -> bool {
        false
    }

    open spec fn add_req(self, rhs: &'b Matrix<T>) -> bool {
        &&& self.wf()
        &&& rhs.wf()
        &&& same_shape(self, *rhs)
        &&& add_allowed(self.data@, rhs.data@)
    }

    open spec fn add_spec(self, rhs: &'b Matrix<T>) -> Matrix<T> {
        arbitrary()
    }
}

impl<'b, T: Copy + Add<Output = T>> Add<&'b Matrix<T>> for Matrix<T> {
    type Output = Matrix<T>;

    /// Element-wise sum of two matrices of the same shape.
    fn add(self, rhs: &'b Matrix<T>) -> (m: Matrix<T>)
        ensures
            same_shape(m, self),
            m.wf(),
            is_sum_of(m.data@, self.data@, rhs.data@),
    {
        match (&self).try_add(rhs) {
            Ok(m) => m,
            Err(_) => {
                assert(false);
                Matrix { rows: 0, cols: 0, data: Vec::new() }
            },
        }
    }
}

impl<'a, T: Copy + Add<Output = T>> vstd::std_specs::ops::AddSpecImpl<Matrix<T>> for &'a Matrix<T> {
    open spec fn obeys_add_spec() -> bool {
        false
    }

    open spec fn add_req(self, rhs: Matrix<T>) -> bool {
        &&& self.wf()
        &&& rhs.wf()
        &&& same_shape(*self, rhs)
        &&& add_allowed(self.data@, rhs.data@)
    }

    open spec fn add_spec(self, rhs: Matrix<T>) -> Matrix<T> {
        arbitrary()
    }
}

impl<'a, T: Copy + Add<Output = T>> Add<Matrix<T>> for &'a Matrix<T> {
    type Output = Matrix<T>;

    /// Element-wise sum of two matrices of the same shape.
    fn add(self, rhs: Matrix<T>) -> (m: Matrix<T>)
        ensures
            same_shape(m, *self),
            m.wf(),
            is_sum_of(m.data@, self.data@, rhs.data@),
    {
        match (self).try_add(&rhs) {
            Ok(m) => m,
            Err(_) => {
                assert(false);
                Matrix { rows: 0, cols: 0, data: Vec::new() }
            },
        }
    }
}

impl<'a, 'b, T: Copy + Sub<Output = T>> vstd::std_specs::ops::SubSpecImpl<&'b Matrix<T>> for &'a Matrix<T> {
    open spec fn obeys_sub_spec() -> bool {
        false
    }

    open spec fn sub_req(self, rhs: &'b Matrix<T>) -> bool {
        &&& self.wf()
        &&& rhs.wf()
        &&& same_shape(*self, *rhs)
        &&& sub_allowed(self.data@, rhs.data@)
    }

    open spec fn sub_spec(self, rhs: &'b Matrix<T>) -> Matrix<T> {
        arbitrary()
    }
}

impl<'a, 'b, T: Copy + Sub<Output = T>> Sub<&'b Matrix<T>> for &'a Matrix<T> {
    type Output = Matrix<T>;

    /// Element-wise difference of two matrices of the same shape.
    fn sub(self, rhs: &'b Matrix<T>) -> (m: Matrix<T>)
        ensures
            same_shape(m, *self),
            m.wf(),
            is_difference_of(m.data@, self.data@, rhs.data@),
    {
        match (self).try_sub(rhs) {
            Ok(m) => m,
            Err(_) => {
                assert(false);
                Matrix { rows: 0, cols: 0, data: Vec::new() }
            },
        }
    }
}

impl<T: Copy + Sub<Output = T>> vstd::std_specs::ops::SubSpecImpl<Matrix<T>> for Matrix<T> {
    open spec fn obeys_sub_spec() -> bool {
        false
    }

    open spec fn sub_req(self, rhs: Matrix<T>) -> bool {
        &&& self.wf()
        &&& rhs.wf()
        &&& same_shape(self, rhs)
        &&& sub_allowed(self.data@, rhs.data@)
    }

    open spec fn sub_spec(self, rhs: Matrix<T>) -> Matrix<T> {
        arbitrary()
    }
}

impl<T: Copy + Sub<Output = T>> Sub<Matrix<T>> for Matrix<T> {
    type Output = Matrix<T>;

    /// Element-wise difference of two matrices of the same shape.
    fn sub(self, rhs: Matrix<T>) -> (m: Matrix<T>)
        ensures
            same_shape(m, self),
            m.wf(),
            is_difference_of(m.data@, self.data@, rhs.data@),
    {
        match (&self).try_sub(&rhs) {
            Ok(m) => m,
            Err(_) => {
                assert(false);
                Matrix { rows: 0, cols: 0, data: Vec::new() }
            },
        }
    }
}

impl<'b, T: Copy + Sub<Output = T>> vstd::std_specs::ops::SubSpecImpl<&'b Matrix<T>> for Matrix<T> {
    open spec fn obeys_sub_spec() -> bool {
        false
    }

    open spec fn sub_req(self, rhs: &'b Matrix<T>) -> bool {
        &&& self.wf()
        &&& rhs.wf()
        &&& same_shape(self, *rhs)
        &&& sub_allowed(self.data@, rhs.data@)
    }

    open spec fn sub_spec(self, rhs: &'b Matrix<T>) -> Matrix<T> {
        arbitrary()
    }
}

impl<'b, T: Copy + Sub<Output = T>> Sub<&'b Matrix<T>> for Matrix<T> {
    type Output = Matrix<T>;

    /// Element-wise difference of two matrices of the same shape.
    fn sub(self, rhs: &'b Matrix<T>) -> (m: Matrix<T>)
        ensures
            same_shape(m, self),
            m.wf(),
            is_difference_of(m.data@, self.data@, rhs.data@),
    {
        match (&self).try_sub(rhs) {
            Ok(m) => m,
            Err(_) => {
                assert(false);
                Matrix { rows: 0, cols: 0, data: Vec::new() }
            },
        }
    }
}

impl<'a, T: Copy + Sub<Output = T>> vstd::std_specs::ops::SubSpecImpl<Matrix<T>> for &'a Matrix<T> {
    open spec fn obeys_sub_spec() -> bool {
        false
    }

    open spec fn sub_req(self, rhs: Matrix<T>) -> bool {
        &&& self.wf()
        &&& rhs.wf()
        &&& same_shape(*self, rhs)
        &&& sub_allowed(self.data@, rhs.data@)
    }

    open spec fn sub_spec(self, rhs: Matrix<T>) -> Matrix<T> {
        arbitrary()
    }
}

impl<'a, T: Copy + Sub<Output = T>> Sub<Matrix<T>> for &'a Matrix<T> {
    type Output = Matrix<T>;

    /// Element-wise difference of two matrices of the same shape.
    fn sub(self, rhs: Matrix<T>) -> (m: Matrix<T>)
        ensures
            same_shape(m, *self),
            m.wf(),
            is_difference_of(m.data@, self.data@, rhs.data@),
    {
        match (self).try_sub(&rhs) {
            Ok(m) => m,
            Err(_) => {
                assert(false);
                Matrix { rows: 0, cols: 0, data: Vec::new() }
            },
        }
    }
}


impl<'a, T: Copy + Mul<Output = T>> vstd::std_specs::ops::MulSpecImpl<T> for &'a Matrix<T> {
    open spec fn obeys_mul_spec() -> bool {
        false
    }

    open spec fn mul_req(self, rhs: T) -> bool {
        &&& self.wf()
        &&& scale_allowed(self.data@, rhs)
    }

    open spec fn mul_spec(self, rhs: T) -> Matrix<T> {
        arbitrary()
    }
}

impl<'a, T: Copy + Mul<Output = T>> Mul<T> for &'a Matrix<T> {
    type Output = Matrix<T>;

    /// Every element multiplied by `scalar`; the shape is kept.
    fn mul(self, scalar: T) -> (m: Matrix<T>)
        ensures
            same_shape(m, *self),
            m.wf(),
            is_scaled_of(m.data@, self.data@, scalar),
    {
        (self).scale(scalar)
    }
}

impl<T: Copy + Mul<Output = T>> vstd::std_specs::ops::MulSpecImpl<T> for Matrix<T> {
    open spec fn obeys_mul_spec() -> bool {
        false
    }

    open spec fn mul_req(self, rhs: T) -> bool {
        &&& self.wf()
        &&& scale_allowed(self.data@, rhs)
    }

    open spec fn mul_spec(self, rhs: T) -> Matrix<T> {
        arbitrary()
    }
}

impl<T: Copy + Mul<Output = T>> Mul<T> for Matrix<T> {
    type Output = Matrix<T>;

    /// Every element multiplied by `scalar`; the shape is kept.
    fn mul(self, scalar: T) -> (m: Matrix<T>)
        ensures
            same_shape(m, self),
            m.wf(),
            is_scaled_of(m.data@, self.data@, scalar),
    {
        (&self).scale(scalar)
    }
}


/// `t` is the transpose of `m`: its shape is `m`'s flipped and its element
/// `(j, i)` is `m`'s element `(i, j)`.
pub open spec fn is_transpose_of<T>(t: Matrix<T>, m: Matrix<T>) -> bool {
    &&& t.rows == m.cols
    &&& t.cols == m.rows
    &&& t.wf()
    &&& forall|i: int, j: int| 0 <= i < m.rows && 0 <= j < m.cols ==> #[trigger] t.at(j, i) == m.at(i, j)
}

/// Every cell of a `rows x cols` row-major storage is `i * cols + j` for
/// one row `i < rows` and one column `j < cols`.
pub proof fn lemma_cell_of_offset(k: int, rows: int, cols: int)
    requires
        0 <= k < rows * cols,
        0 < cols,
    ensures
        0 <= k / cols < rows,
        0 <= k % cols < cols,
        k == (k / cols) * cols + k % cols,
{
    vstd::arithmetic::div_mod::lemma_fundamental_div_mod(k, cols);
    vstd::arithmetic::div_mod::lemma_div_pos_is_pos(k, cols);
    vstd::arithmetic::div_mod::lemma_mod_pos_bound(k, cols);
    let q = k / cols;
    let r = k % cols;
    assert(cols * q == q * cols) by (nonlinear_arith);
    assert(q < rows) by (nonlinear_arith)
        requires
            k == q * cols + r,
            0 <= r,
            k < rows * cols,
            0 < cols,
    ;
}

/// Two different cells of a row-major storage with `cols` columns have
/// different offsets.
pub proof fn lemma_cell_distinct(i: int, j: int, k: int, l: int, cols: int)
    requires
        0 <= i,
        0 <= k,
        0 <= j < cols,
        0 <= l < cols,
        i != k || j != l,
    ensures
        i * cols + j != k * cols + l,
{
    if i == k {
    } else if i < k {
        assert(i * cols + j < k * cols + l) by (nonlinear_arith)
            requires
                i < k,
                0 <= j < cols,
                0 <= l,
        ;
    } else {
        assert(k * cols + l < i * cols + j) by (nonlinear_arith)
            requires
                k < i,
                0 <= l < cols,
                0 <= j,
        ;
    }
}

/// Blocks of equal length `w`, concatenated in order: element `j` of block
/// `i` lands at `i * w + j`.
pub proof fn lemma_flatten_blocks<T>(blocks: Seq<Seq<T>>, w: int)
    requires
        0 <= w,
        forall|i: int| 0 <= i < blocks.len() ==> (#[trigger] blocks[i]).len() == w,
    ensures
        blocks.flatten().len() == blocks.len() * w,
        forall|i: int, j: int|
            0 <= i < blocks.len() && 0 <= j < w ==> blocks.flatten()[i * w + j] == #[trigger] blocks[i][j],
    decreases blocks.len(),
{
    if blocks.len() == 0 {
        assert(blocks.flatten() =~= Seq::<T>::empty());
    } else {
        let init = blocks.drop_last();
        let last = blocks.last();
        assert(forall|i: int| 0 <= i < init.len() ==> init[i] == blocks[i]);
        lemma_flatten_blocks(init, w);
        assert(init.push(last) =~= blocks);
        init.lemma_flatten_push(last);
        let n = blocks.len() as int;
        assert((n - 1) * w + w == n * w) by (nonlinear_arith);
        assert forall|i: int, j: int| 0 <= i < n && 0 <= j < w implies blocks.flatten()[i * w + j] == #[trigger] blocks[i][j] by {
            if i < n - 1 {
                lemma_cell_index(i, j, n - 1, w);
                assert(blocks.flatten()[i * w + j] == init.flatten()[i * w + j]);
                assert(init[i] == blocks[i]);
            } else {
                assert(i * w + j == (n - 1) * w + j);
                assert(blocks.flatten()[i * w + j] == last[j]);
            }
        }
    }
}

} // verus!
