use numrs::{Matrix, Tensor};

#[test]
fn transpose_of_product_equals_reversed_product_of_transposes() {
    let a = Matrix::new(3, 2, vec![1.0, 2.0, 3.0, 4.0, 5.0, 6.0]);
    let b = Matrix::new(2, 3, vec![1.0, 0.0, 1.0, 0.0, 1.0, 0.0]);

    let lhs = a.try_mul(&b).unwrap().transpose();
    let rhs = b.transpose().try_mul(&a.transpose()).unwrap();

    assert_eq!(lhs.data, rhs.data);
    assert_eq!((lhs.rows, lhs.cols), (rhs.rows, rhs.cols));
}

#[test]
fn parallel_and_serial_paths_agree_on_large_addition() {
    let n = 50;
    let data_a: Vec<f64> = (0..n * n).map(|i| i as f64).collect();
    let data_b: Vec<f64> = (0..n * n).map(|i| (i * 2) as f64).collect();

    let a = Matrix::new(n, n, data_a.clone());
    let b = Matrix::new(n, n, data_b.clone());

    let result = (&a + &b).data;
    let expected: Vec<f64> = data_a.iter().zip(data_b.iter()).map(|(x, y)| x + y).collect();

    assert_eq!(result, expected);
}

#[test]
fn parallel_and_serial_paths_agree_on_large_multiplication() {
    let n = 40;
    let data: Vec<f64> = (0..n * n).map(|i| (i % 13) as f64).collect();
    let a = Matrix::new(n, n, data.clone());
    let eye: Matrix<f64> = Matrix::eye(n);

    let result = a.try_mul(&eye).unwrap();
    assert_eq!(result.data, data);
}

#[test]
fn matrix_rand_seeded_is_reproducible_across_calls() {
    let a: Matrix<f64> = Matrix::rand_seeded(6, 6, 123);
    let b: Matrix<f64> = Matrix::rand_seeded(6, 6, 123);
    assert_eq!(a.data, b.data);
}

#[test]
fn tensor_rand_seeded_is_reproducible_across_calls() {
    let a: Tensor<f64> = Tensor::rand_seeded(&[3, 3], 55);
    let b: Tensor<f64> = Tensor::rand_seeded(&[3, 3], 55);
    assert_eq!(a.as_slice(), b.as_slice());
}

#[test]
fn errors_propagate_through_question_mark() {
    fn compute(a: &Matrix<f64>, b: &Matrix<f64>) -> Result<Matrix<f64>, numrs::MatrixError> {
        let sum = a.try_add(b)?;
        let product = sum.try_mul(b)?;
        Ok(product)
    }

    let a = Matrix::new(2, 2, vec![1.0, 2.0, 3.0, 4.0]);
    let b = Matrix::new(2, 2, vec![1.0, 0.0, 0.0, 1.0]);
    assert_eq!(compute(&a, &b).unwrap().data, vec![2.0, 2.0, 3.0, 5.0]);

    let rect = Matrix::new(1, 3, vec![1.0, 2.0, 3.0]);
    let rect2 = Matrix::new(1, 3, vec![4.0, 5.0, 6.0]);
    match compute(&rect, &rect2) {
        Err(numrs::MatrixError::DimensionMismatch { left_cols, right_rows }) => {
            assert_eq!((left_cols, right_rows), (3, 1));
        }
        other => panic!("expected DimensionMismatch to propagate, got {:?}", other),
    }
}
