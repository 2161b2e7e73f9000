//! The errors that `Matrix` and `Tensor` operations report.
use vstd::prelude::*;
use vstd::string::StringExecFns;

verus! {

/// All errors that `Matrix` operations can produce.
#[derive(Debug, PartialEq)]
pub enum MatrixError {
    /// Element-wise ops (add, sub, hadamard) require identical shapes.
    ShapeMismatch { expected: (usize, usize), found: (usize, usize) },
    /// Matrix multiplication requires `left.cols == right.rows`.
    DimensionMismatch { left_cols: usize, right_rows: usize },
    /// `det()` and `inverse()` require a square matrix.
    NonSquare { rows: usize, cols: usize },
    /// `inverse()` failed because the matrix is singular.
    NonInvertible,
    /// A matrix was built from data whose length is not `rows * cols`.
    InvalidConstruction { rows: usize, cols: usize, data_length: usize },
    /// Index access was outside the matrix bounds.
    IndexOutOfBounds { index: (usize, usize), dimensions: (usize, usize) },
}

impl Clone for MatrixError {
    fn clone(&self) -> (r: Self)
        ensures
            r == *self,
    {
        match self {
            MatrixError::ShapeMismatch { expected, found } => MatrixError::ShapeMismatch {
                expected: (expected.0, expected.1),
                found: (found.0, found.1),
            },
            MatrixError::DimensionMismatch { left_cols, right_rows } => {
                MatrixError::DimensionMismatch { left_cols: *left_cols, right_rows: *right_rows }
            },
            MatrixError::NonSquare { rows, cols } => MatrixError::NonSquare {
                rows: *rows,
                cols: *cols,
            },
            MatrixError::NonInvertible => MatrixError::NonInvertible,
            MatrixError::InvalidConstruction { rows, cols, data_length } => {
                MatrixError::InvalidConstruction {
                    rows: *rows,
                    cols: *cols,
                    data_length: *data_length,
                }
            },
            MatrixError::IndexOutOfBounds { index, dimensions } => MatrixError::IndexOutOfBounds {
                index: (index.0, index.1),
                dimensions: (dimensions.0, dimensions.1),
            },
        }
    }
}

/// All errors that `Tensor<T>` operations can produce.
///
/// Kept separate from `MatrixError`: a tensor has any rank, so its shapes
/// are `Vec<usize>` where a matrix has `(usize, usize)`.
#[derive(Debug, Clone, PartialEq)]
pub enum TensorError {
    /// Element-wise ops (add, sub, hadamard) require identical shapes.
    ShapeMismatch { expected: Vec<usize>, found: Vec<usize> },
    /// An index has a different number of components than the tensor's rank.
    RankMismatch { expected_rank: usize, found_rank: usize },
    /// A tensor was built from data whose length is not the product of the shape.
    InvalidConstruction { shape: Vec<usize>, expected_len: usize, found_len: usize },
    /// An index component is outside the tensor's bounds along its axis.
    IndexOutOfBounds { index: Vec<usize>, shape: Vec<usize> },
}


/// The decimal digit `d` (below 10) as text.
pub open spec fn digit_text(d: nat) -> Seq<char> {
    if d == 0 {
        "0"@
    } else if d == 1 {
        "1"@
    } else if d == 2 {
        "2"@
    } else if d == 3 {
        "3"@
    } else if d == 4 {
        "4"@
    } else if d == 5 {
        "5"@
    } else if d == 6 {
        "6"@
    } else if d == 7 {
        "7"@
    } else if d == 8 {
        "8"@
    } else {
        "9"@
    }
}

/// `n` written in decimal, most significant digit first, without leading
/// zeros ("0" for zero).
pub open spec fn decimal_text(n: nat) -> Seq<char>
    decreases n,
{
    if n < 10 {
        digit_text(n)
    } else {
        decimal_text(n / 10) + digit_text(n % 10)
    }
}

/// The number that a text of decimal digits stands for, most significant
/// digit first (0 for the empty text).
pub open spec fn digits_value(t: Seq<char>) -> nat
    decreases t.len(),
{
    if t.len() == 0 {
        0
    } else {
        digits_value(t.drop_last()) * 10 + ((t.last() as u32) - ('0' as u32)) as nat
    }
}

/// `decimal_text` writes numbers in decimal: its text is not empty, holds
/// only the digits `0` to `9`, starts with `0` only for zero itself, and
/// read back digit by digit gives `n`.
pub proof fn lemma_decimal_text_reads_back(n: nat)
    ensures
        decimal_text(n).len() >= 1,
        forall|k: int| 0 <= k < decimal_text(n).len() ==> '0' <= #[trigger] decimal_text(n)[k] <= '9',
        n > 0 ==> decimal_text(n)[0] != '0',
        digits_value(decimal_text(n)) == n,
    decreases n,
{
    reveal_strlit("0");
    reveal_strlit("1");
    reveal_strlit("2");
    reveal_strlit("3");
    reveal_strlit("4");
    reveal_strlit("5");
    reveal_strlit("6");
    reveal_strlit("7");
    reveal_strlit("8");
    reveal_strlit("9");
    if n < 10 {
        let t = decimal_text(n);
        assert(t.len() == 1);
        assert(t.drop_last() =~= Seq::<char>::empty());
        assert(digits_value(t.drop_last()) == 0);
    } else {
        lemma_decimal_text_reads_back(n / 10);
        let hi = decimal_text(n / 10);
        let lo = digit_text(n % 10);
        let t = decimal_text(n);
        assert(t == hi + lo);
        assert(lo.len() == 1);
        assert(t.drop_last() =~= hi);
        assert(t.last() == lo[0]);
        assert(t[0] == hi[0]);
        assert forall|k: int| 0 <= k < t.len() implies '0' <= #[trigger] t[k] <= '9' by {
            if k < hi.len() {
                assert(t[k] == hi[k]);
            } else {
                assert(t[k] == lo[0]);
            }
        }
        assert(n == (n / 10) * 10 + n % 10);
    }
}

/// The elements of `s` in decimal, separated by ", ".
pub open spec fn items_text(s: Seq<usize>) -> Seq<char>
    decreases s.len(),
{
    if s.len() == 0 {
        Seq::empty()
    } else if s.len() == 1 {
        decimal_text(s[0] as nat)
    } else {
        items_text(s.drop_last()) + ", "@ + decimal_text(s.last() as nat)
    }
}

/// A list of numbers as Rust's `Debug` prints a `Vec<usize>`: `[2, 3, 4]`.
pub open spec fn list_text(s: Seq<usize>) -> Seq<char> {
    "["@ + items_text(s) + "]"@
}

/// A list is written as `"["`, each number in decimal with `", "` before
/// every number but the first, and `"]"`.
pub proof fn lemma_list_text_pieces(s: Seq<usize>)
    ensures
        list_text(s) == "["@ + Seq::new(
            s.len(),
            |i: int|
                if i == 0 {
                    decimal_text(s[i] as nat)
                } else {
                    ", "@ + decimal_text(s[i] as nat)
                },
        ).flatten() + "]"@,
{
    lemma_items_text_pieces(s);
    Seq::new(
        s.len(),
        |i: int|
            if i == 0 {
                decimal_text(s[i] as nat)
            } else {
                ", "@ + decimal_text(s[i] as nat)
            },
    ).lemma_flatten_and_flatten_alt_are_equivalent();
}

/// `items_text` is the concatenation of one piece per number.
proof fn lemma_items_text_pieces(s: Seq<usize>)
    ensures
        items_text(s) == Seq::new(
            s.len(),
            |i: int|
                if i == 0 {
                    decimal_text(s[i] as nat)
                } else {
                    ", "@ + decimal_text(s[i] as nat)
                },
        ).flatten_alt(),
    decreases s.len(),
{
    let f = |i: int|
        if i == 0 {
            decimal_text(s[i] as nat)
        } else {
            ", "@ + decimal_text(s[i] as nat)
        };
    let g = |i: int|
        if i == 0 {
            decimal_text(s.drop_last()[i] as nat)
        } else {
            ", "@ + decimal_text(s.drop_last()[i] as nat)
        };
    if s.len() == 0 {
        assert(Seq::new(0, f).flatten_alt() =~= Seq::<char>::empty());
    } else {
        lemma_items_text_pieces(s.drop_last());
        let whole = Seq::new(s.len(), f);
        assert(whole.drop_last() =~= Seq::new(s.drop_last().len(), g));
        if s.len() == 1 {
            assert(Seq::new(0, g).flatten_alt() =~= Seq::<char>::empty());
            assert(whole.flatten_alt() =~= decimal_text(s[0] as nat));
        } else {
            let prev = items_text(s.drop_last());
            assert(items_text(s) =~= prev + (", "@ + decimal_text(s.last() as nat)));
        }
    }
}

/// Appends the decimal digit `d` (below 10).
fn push_digit(out: &mut String, d: usize)
    requires
        d < 10,
    ensures
        final(out)@ == old(out)@ + digit_text(d as nat),
{
    if d == 0 {
        out.append("0");
    } else if d == 1 {
        out.append("1");
    } else if d == 2 {
        out.append("2");
    } else if d == 3 {
        out.append("3");
    } else if d == 4 {
        out.append("4");
    } else if d == 5 {
        out.append("5");
    } else if d == 6 {
        out.append("6");
    } else if d == 7 {
        out.append("7");
    } else if d == 8 {
        out.append("8");
    } else {
        out.append("9");
    }
}

/// Appends `n` in decimal.
pub(crate) fn push_decimal(out: &mut String, n: usize)
    ensures
        final(out)@ == old(out)@ + decimal_text(n as nat),
    decreases n,
{
    if n < 10 {
        push_digit(out, n);
    } else {
        push_decimal(out, n / 10);
        push_digit(out, n % 10);
        assert(final(out)@ =~= old(out)@ + decimal_text(n as nat));
    }
}

/// Appends a list of numbers as `[a, b, c]`.
pub(crate) fn push_list(out: &mut String, s: &[usize])
    ensures
        final(out)@ == old(out)@ + list_text(s@),
{
    let ghost start = out@;
    out.append("[");
    let n = s.len();
    let mut k: usize = 0;
    while k < n
        invariant
            n == s@.len(),
            k <= n,
            out@ == start + "["@ + items_text(s@.take(k as int)),
        decreases n - k,
    {
        let ghost before = out@;
        if k > 0 {
            out.append(", ");
        }
        push_decimal(out, s[k]);
        proof {
            let t = s@.take(k + 1);
            assert(t.drop_last() =~= s@.take(k as int));
            assert(t.last() == s@[k as int]);
            if k == 0 {
                assert(s@.take(0) =~= Seq::<usize>::empty());
                assert(items_text(s@.take(0)) =~= Seq::<char>::empty());
                assert(out@ =~= start + "["@ + items_text(t));
            } else {
                assert(out@ =~= start + "["@ + items_text(t));
            }
        }
        k = k + 1;
    }
    out.append("]");
    proof {
        assert(s@.take(n as int) =~= s@);
        assert(out@ =~= old(out)@ + list_text(s@));
    }
}

/// The message that describes a matrix error.
pub open spec fn matrix_error_text(e: MatrixError) -> Seq<char> {
    match e {
        MatrixError::ShapeMismatch { expected, found } => "shape mismatch: expected ("@ + decimal_text(
            expected.0 as nat,
        ) + "×"@ + decimal_text(expected.1 as nat) + "), found ("@ + decimal_text(found.0 as nat)
            + "×"@ + decimal_text(found.1 as nat) + ")"@,
        MatrixError::DimensionMismatch { left_cols, right_rows } =>
            "dimension mismatch for multiplication: left matrix has "@ + decimal_text(
            left_cols as nat,
        ) + " columns but right matrix has "@ + decimal_text(right_rows as nat) + " rows"@,
        MatrixError::NonSquare { rows, cols } => "operation requires a square matrix, got ("@
            + decimal_text(rows as nat) + "×"@ + decimal_text(cols as nat) + ")"@,
        MatrixError::NonInvertible => "matrix is singular (determinant ≈ 0) and cannot be inverted"@,
        MatrixError::InvalidConstruction { rows, cols, data_length } => "invalid construction: "@
            + decimal_text(rows as nat) + "×"@ + decimal_text(cols as nat) + " matrix requires "@
            + decimal_text((rows * cols) as nat) + " elements, got "@ + decimal_text(
            data_length as nat,
        ),
        MatrixError::IndexOutOfBounds { index, dimensions } => "index ("@ + decimal_text(
            index.0 as nat,
        ) + ", "@ + decimal_text(index.1 as nat) + ") is out of bounds for matrix ("@
            + decimal_text(dimensions.0 as nat) + "×"@ + decimal_text(dimensions.1 as nat) + ")"@,
    }
}

/// The message that describes a tensor error.
pub open spec fn tensor_error_text(e: TensorError) -> Seq<char> {
    match e {
        TensorError::ShapeMismatch { expected, found } => "shape mismatch: expected "@ + list_text(
            expected@,
        ) + ", found "@ + list_text(found@),
        TensorError::RankMismatch { expected_rank, found_rank } =>
            "rank mismatch: tensor has rank "@ + decimal_text(expected_rank as nat)
            + " but index has rank "@ + decimal_text(found_rank as nat),
        TensorError::InvalidConstruction { shape, expected_len, found_len } =>
            "invalid construction: shape "@ + list_text(shape@) + " requires "@ + decimal_text(
            expected_len as nat,
        ) + " elements, got "@ + decimal_text(found_len as nat),
        TensorError::IndexOutOfBounds { index, shape } => "index "@ + list_text(index@)
            + " is out of bounds for tensor with shape "@ + list_text(shape@),
    }
}

impl MatrixError {
    /// The message that describes this error, e.g.
    /// `shape mismatch: expected (2×2), found (1×3)`.
    pub fn to_string(&self) -> (s: String)
        requires
            *self matches MatrixError::InvalidConstruction { rows, cols, .. } ==> rows * cols
                <= usize::MAX,
        ensures
            s@ == matrix_error_text(*self),
    {
        match self {
            MatrixError::ShapeMismatch { expected, found } => {
                let mut s = String::from_str("shape mismatch: expected (");
                push_decimal(&mut s, expected.0);
                s.append("×");
                push_decimal(&mut s, expected.1);
                s.append("), found (");
                push_decimal(&mut s, found.0);
                s.append("×");
                push_decimal(&mut s, found.1);
                s.append(")");
                s
            },
            MatrixError::DimensionMismatch { left_cols, right_rows } => {
                let mut s = String::from_str(
                    "dimension mismatch for multiplication: left matrix has ",
                );
                push_decimal(&mut s, *left_cols);
                s.append(" columns but right matrix has ");
                push_decimal(&mut s, *right_rows);
                s.append(" rows");
                s
            },
            MatrixError::NonSquare { rows, cols } => {
                let mut s = String::from_str("operation requires a square matrix, got (");
                push_decimal(&mut s, *rows);
                s.append("×");
                push_decimal(&mut s, *cols);
                s.append(")");
                s
            },
            MatrixError::NonInvertible => String::from_str(
                "matrix is singular (determinant ≈ 0) and cannot be inverted",
            ),
            MatrixError::InvalidConstruction { rows, cols, data_length } => {
                let mut s = String::from_str("invalid construction: ");
                push_decimal(&mut s, *rows);
                s.append("×");
                push_decimal(&mut s, *cols);
                s.append(" matrix requires ");
                push_decimal(&mut s, *rows * *cols);
                s.append(" elements, got ");
                push_decimal(&mut s, *data_length);
                s
            },
            MatrixError::IndexOutOfBounds { index, dimensions } => {
                let mut s = String::from_str("index (");
                push_decimal(&mut s, index.0);
                s.append(", ");
                push_decimal(&mut s, index.1);
                s.append(") is out of bounds for matrix (");
                push_decimal(&mut s, dimensions.0);
                s.append("×");
                push_decimal(&mut s, dimensions.1);
                s.append(")");
                s
            },
        }
    }
}

impl TensorError {
    /// The message that describes this error, e.g.
    /// `shape mismatch: expected [2, 2], found [4]`.
    pub fn to_string(&self) -> (s: String)
        ensures
            s@ == tensor_error_text(*self),
    {
        match self {
            TensorError::ShapeMismatch { expected, found } => {
                let mut s = String::from_str("shape mismatch: expected ");
                push_list(&mut s, expected.as_slice());
                s.append(", found ");
                push_list(&mut s, found.as_slice());
                s
            },
            TensorError::RankMismatch { expected_rank, found_rank } => {
                let mut s = String::from_str("rank mismatch: tensor has rank ");
                push_decimal(&mut s, *expected_rank);
                s.append(" but index has rank ");
                push_decimal(&mut s, *found_rank);
                s
            },
            TensorError::InvalidConstruction { shape, expected_len, found_len } => {
                let mut s = String::from_str("invalid construction: shape ");
                push_list(&mut s, shape.as_slice());
                s.append(" requires ");
                push_decimal(&mut s, *expected_len);
                s.append(" elements, got ");
                push_decimal(&mut s, *found_len);
                s
            },
            TensorError::IndexOutOfBounds { index, shape } => {
                let mut s = String::from_str("index ");
                push_list(&mut s, index.as_slice());
                s.append(" is out of bounds for tensor with shape ");
                push_list(&mut s, shape.as_slice());
                s
            },
        }
    }
}

} // verus!
