use numrs::{Matrix, MatrixError};

fn assert_close(a: f64, b: f64, eps: f64) {
    assert!((a - b).abs() < eps, "assert_close failed: {} vs {}", a, b);
}

fn m(rows: usize, cols: usize, data: &[f64]) -> Matrix<f64> {
    Matrix::new(rows, cols, data.to_vec())
}

// ── transpose ───────────────────────────────────────────────────────────
#[test]
fn transpose_swaps_rows_and_cols() {
    let a = m(2, 3, &[1.0, 2.0, 3.0, 4.0, 5.0, 6.0]);
    let t = a.transpose();
    assert_eq!((t.rows, t.cols), (3, 2));
    assert_eq!(t.data, vec![1.0, 4.0, 2.0, 5.0, 3.0, 6.0]);
}

#[test]
fn transpose_twice_returns_original() {
    let a = m(2, 3, &[1.0, 2.0, 3.0, 4.0, 5.0, 6.0]);
    let tt = a.transpose().transpose();
    assert_eq!(tt.data, a.data);
    assert_eq!((tt.rows, tt.cols), (a.rows, a.cols));
}

// ── hadamard ────────────────────────────────────────────────────────────
#[test]
fn hadamard_multiplies_elementwise() {
    let a = m(2, 2, &[1.0, 2.0, 3.0, 4.0]);
    let b = m(2, 2, &[5.0, 6.0, 7.0, 8.0]);
    let h = a.hadamard(&b).unwrap();
    assert_eq!(h.data, vec![5.0, 12.0, 21.0, 32.0]);
}

#[test]
fn hadamard_returns_shape_mismatch_error() {
    let a = m(2, 2, &[1.0, 2.0, 3.0, 4.0]);
    let b = m(1, 3, &[1.0, 2.0, 3.0]);
    match a.hadamard(&b) {
        Err(MatrixError::ShapeMismatch { .. }) => {}
        other => panic!("expected ShapeMismatch, got {:?}", other),
    }
}

// ── eye ─────────────────────────────────────────────────────────────────
#[test]
fn eye_has_ones_on_the_diagonal() {
    let eye: Matrix<f64> = Matrix::eye(3);
    assert_eq!(eye.data, vec![1.0, 0.0, 0.0, 0.0, 1.0, 0.0, 0.0, 0.0, 1.0]);
}

// ── rand ────────────────────────────────────────────────────────────────
#[test]
fn matrix_rand_seeded_is_deterministic() {
    let a: Matrix<f64> = Matrix::rand_seeded(5, 5, 42);
    let b: Matrix<f64> = Matrix::rand_seeded(5, 5, 42);
    assert_eq!(a.data, b.data);
}

#[test]
fn matrix_rand_seeded_differs_across_seeds() {
    let a: Matrix<f64> = Matrix::rand_seeded(5, 5, 1);
    let b: Matrix<f64> = Matrix::rand_seeded(5, 5, 2);
    assert_ne!(a.data, b.data);
}

// ── add ─────────────────────────────────────────────────────────────────
#[test]
fn add_produces_correct_values() {
    let a = m(2, 2, &[1.0, 2.0, 3.0, 4.0]);
    let b = m(2, 2, &[5.0, 6.0, 7.0, 8.0]);
    let c = &a + &b;
    assert_eq!(c.data, vec![6.0, 8.0, 10.0, 12.0]);
    assert_eq!((c.rows, c.cols), (2, 2));
}

#[test]
fn add_works_for_all_four_ownership_combinations() {
    let a = m(1, 2, &[1.0, 2.0]);
    let b = m(1, 2, &[3.0, 4.0]);

    let r1 = &a + &b;
    let r2 = a.clone() + b.clone();
    let r3 = a.clone() + &b;
    let r4 = &a + b.clone();

    for r in [&r1, &r2, &r3, &r4] {
        assert_eq!(r.data, vec![4.0, 6.0]);
    }
}

#[test]
fn try_add_returns_ok_on_matching_shapes() {
    let a = m(2, 2, &[1.0, 2.0, 3.0, 4.0]);
    let b = m(2, 2, &[1.0, 1.0, 1.0, 1.0]);
    let result = a.try_add(&b);
    assert!(result.is_ok());
    assert_eq!(result.unwrap().data, vec![2.0, 3.0, 4.0, 5.0]);
}

#[test]
fn add_try_add_returns_shape_mismatch_error() {
    let a = m(2, 2, &[1.0, 2.0, 3.0, 4.0]);
    let b = m(1, 3, &[1.0, 2.0, 3.0]);
    match a.try_add(&b) {
        Err(MatrixError::ShapeMismatch { expected, found }) => {
            assert_eq!(expected, (2, 2));
            assert_eq!(found, (1, 3));
        }
        other => panic!("expected ShapeMismatch, got {:?}", other),
    }
}

#[test]
fn try_add_matches_serial_and_parallel_paths() {
    let n = 40;
    let data: Vec<f64> = (0..n * n).map(|i| i as f64).collect();
    let a = Matrix::new(n, n, data.clone());
    let b = Matrix::new(n, n, data);

    let result = a.try_add(&b).unwrap();
    for (i, &v) in result.data.iter().enumerate() {
        assert_close(v, (i as f64) * 2.0, 1e-9);
    }
}

// ── index ───────────────────────────────────────────────────────────────
#[test]
fn index_reads_correct_value() {
    let a = m(2, 2, &[1.0, 2.0, 3.0, 4.0]);
    assert_eq!(a[(0, 0)], 1.0);
    assert_eq!(a[(0, 1)], 2.0);
    assert_eq!(a[(1, 0)], 3.0);
    assert_eq!(a[(1, 1)], 4.0);
}

#[test]
fn index_mut_writes_correct_value() {
    let mut a = m(2, 2, &[1.0, 2.0, 3.0, 4.0]);
    *a.at_mut(0, 1) = 99.0;
    assert_eq!(a[(0, 1)], 99.0);
    // Neighboring elements must stay untouched
    assert_eq!(a[(0, 0)], 1.0);
    assert_eq!(a[(1, 1)], 4.0);
}

// ── mul ─────────────────────────────────────────────────────────────────
#[test]
fn mul_produces_correct_dot_product() {
    let a = m(2, 2, &[1.0, 2.0, 3.0, 4.0]);
    let b = m(2, 2, &[5.0, 6.0, 7.0, 8.0]);
    let c = a.try_mul(&b).unwrap();
    assert_eq!(c.data, vec![19.0, 22.0, 43.0, 50.0]);
}

#[test]
fn mul_by_identity_returns_same_matrix() {
    let a = m(2, 3, &[1.0, 2.0, 3.0, 4.0, 5.0, 6.0]);
    let eye: Matrix<f64> = Matrix::eye(3);
    let result = a.try_mul(&eye).unwrap();
    assert_eq!(result.data, a.data);
    assert_eq!((result.rows, result.cols), (a.rows, a.cols));
}

#[test]
fn mul_result_has_correct_shape() {
    let a: Matrix<f64> = Matrix::zeros(2, 3);
    let b: Matrix<f64> = Matrix::zeros(3, 4);
    let c = a.try_mul(&b).unwrap();
    assert_eq!((c.rows, c.cols), (2, 4));
}

#[test]
fn try_mul_returns_dimension_mismatch_error() {
    let a: Matrix<f64> = Matrix::zeros(2, 3);
    let b: Matrix<f64> = Matrix::zeros(2, 2);
    match a.try_mul(&b) {
        Err(MatrixError::DimensionMismatch { left_cols, right_rows }) => {
            assert_eq!(left_cols, 3);
            assert_eq!(right_rows, 2);
        }
        other => panic!("expected DimensionMismatch, got {:?}", other),
    }
}

#[test]
fn try_mul_parallel_matches_serial_for_known_result() {
    let n = 40;
    let a_data: Vec<f64> = (0..n * n).map(|i| (i % 7) as f64).collect();
    let a = Matrix::new(n, n, a_data);
    let eye: Matrix<f64> = Matrix::eye(n);
    let result = a.try_mul(&eye).unwrap();
    assert_eq!(result.data, a.data);
}
