use numrs::{should_parallelize, Matrix, MatrixError, PAR_THRESHOLD};

#[test]
fn parallel_threshold_is_1024_elements() {
    assert_eq!(PAR_THRESHOLD, 1024);
    assert!(!should_parallelize(1023));
    assert!(should_parallelize(1024));
    assert!(should_parallelize(40 * 40));
    assert!(!should_parallelize(0));
}

#[test]
fn integer_matrix_product_is_exact() {
    let a = Matrix::new(2, 3, vec![1i64, 2, 3, 4, 5, 6]);
    let b = Matrix::new(3, 2, vec![7i64, 8, 9, 10, 11, 12]);
    let c = a.try_mul(&b).unwrap();
    assert_eq!((c.rows, c.cols), (2, 2));
    assert_eq!(c.data, vec![58, 64, 139, 154]);
    assert_eq!(a.product_row(&b, 1), vec![139, 154]);
}

#[test]
fn product_with_empty_inner_dimension_is_zero() {
    let a: Matrix<i32> = Matrix::new(2, 0, vec![]);
    let b: Matrix<i32> = Matrix::new(0, 3, vec![]);
    let c = a.try_mul(&b).unwrap();
    assert_eq!((c.rows, c.cols), (2, 3));
    assert_eq!(c.data, vec![0; 6]);
}

#[test]
fn identity_on_the_left_keeps_the_matrix() {
    let a = Matrix::new(2, 3, vec![1i32, -2, 3, 4, 5, -6]);
    let eye: Matrix<i32> = Matrix::eye(2);
    assert_eq!(eye.try_mul(&a).unwrap().data, a.data);
}

#[test]
fn transpose_of_integer_product() {
    let a = Matrix::new(2, 2, vec![1i32, 2, 3, 4]);
    let b = Matrix::new(2, 2, vec![0i32, 1, 1, 0]);
    let lhs = a.try_mul(&b).unwrap().transpose();
    let rhs = b.transpose().try_mul(&a.transpose()).unwrap();
    assert_eq!(lhs.data, rhs.data);
    assert_eq!(lhs.data, vec![2, 4, 1, 3]);
}

#[test]
fn subtraction_and_scaling() {
    let a = Matrix::new(2, 2, vec![5i32, 6, 7, 8]);
    let b = Matrix::new(2, 2, vec![1i32, 2, 3, 4]);
    assert_eq!(a.try_sub(&b).unwrap().data, vec![4, 4, 4, 4]);
    assert_eq!((&a - &b).data, vec![4, 4, 4, 4]);
    assert_eq!((a.clone() - b.clone()).data, vec![4, 4, 4, 4]);
    assert_eq!(a.scale(2).data, vec![10, 12, 14, 16]);
    assert_eq!((&a * 3).data, vec![15, 18, 21, 24]);
    assert_eq!((a * -1).data, vec![-5, -6, -7, -8]);
}

#[test]
fn try_sub_reports_both_shapes() {
    let a = Matrix::new(1, 2, vec![1i32, 2]);
    let b = Matrix::new(2, 1, vec![1i32, 2]);
    assert_eq!(a.try_sub(&b).unwrap_err(), MatrixError::ShapeMismatch { expected: (1, 2), found: (2, 1) });
}

#[test]
fn fill_zeros_ones_and_column() {
    let f = Matrix::fill(2, 2, 3u8);
    assert_eq!(f.data, vec![3, 3, 3, 3]);
    let z: Matrix<f64> = Matrix::zeros(1, 3);
    assert_eq!(z.data, vec![0.0, 0.0, 0.0]);
    let o: Matrix<i64> = Matrix::ones(2, 1);
    assert_eq!(o.data, vec![1, 1]);
    let a = Matrix::new(2, 3, vec![1, 2, 3, 4, 5, 6]);
    assert_eq!(a.column(1), vec![2, 5]);
}

#[test]
fn at_mut_writes_one_cell_only() {
    let mut a = Matrix::new(2, 3, vec![0i32; 6]);
    *a.at_mut(1, 2) = 7;
    assert_eq!(a.data, vec![0, 0, 0, 0, 0, 7]);
}

#[test]
fn matrix_error_messages() {
    let e = MatrixError::ShapeMismatch { expected: (2, 2), found: (1, 3) };
    assert_eq!(e.to_string(), "shape mismatch: expected (2×2), found (1×3)");
    let e = MatrixError::DimensionMismatch { left_cols: 3, right_rows: 1 };
    assert_eq!(
        e.to_string(),
        "dimension mismatch for multiplication: left matrix has 3 columns but right matrix has 1 rows"
    );
    let e = MatrixError::NonSquare { rows: 2, cols: 3 };
    assert_eq!(e.to_string(), "operation requires a square matrix, got (2×3)");
    assert_eq!(
        MatrixError::NonInvertible.to_string(),
        "matrix is singular (determinant ≈ 0) and cannot be inverted"
    );
    let e = MatrixError::InvalidConstruction { rows: 2, cols: 3, data_length: 5 };
    assert_eq!(e.to_string(), "invalid construction: 2×3 matrix requires 6 elements, got 5");
    let e = MatrixError::IndexOutOfBounds { index: (2, 10), dimensions: (2, 2) };
    assert_eq!(e.to_string(), "index (2, 10) is out of bounds for matrix (2×2)");
    assert_eq!(e.clone(), e);
}

#[test]
fn large_numbers_print_in_decimal() {
    let e = MatrixError::NonSquare { rows: 1234567890, cols: 0 };
    assert_eq!(e.to_string(), "operation requires a square matrix, got (1234567890×0)");
}
