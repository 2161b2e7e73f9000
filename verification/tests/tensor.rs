use numrs::tensor::Tensor;
use numrs::TensorError;

// ── seeded reproducibility ──────────────────────────────────────────────
#[test]
fn tensor_rand_seeded_is_deterministic() {
    let a: Tensor<f64> = Tensor::rand_seeded(&[3, 3], 42);
    let b: Tensor<f64> = Tensor::rand_seeded(&[3, 3], 42);
    assert_eq!(a.as_slice(), b.as_slice());
}

#[test]
fn tensor_rand_seeded_differs_across_seeds() {
    let a: Tensor<f64> = Tensor::rand_seeded(&[3, 3], 1);
    let b: Tensor<f64> = Tensor::rand_seeded(&[3, 3], 2);
    assert_ne!(a.as_slice(), b.as_slice());
}

// ── try_from_vec / from_vec ─────────────────────────────────────────────
#[test]
fn try_from_vec_returns_ok_on_matching_length() {
    let t = Tensor::try_from_vec(&[2, 2], vec![1, 2, 3, 4]);
    assert!(t.is_ok());
}

#[test]
fn try_from_vec_returns_invalid_construction_error() {
    match Tensor::try_from_vec(&[2, 2], vec![1, 2, 3]) {
        Err(TensorError::InvalidConstruction { shape, expected_len, found_len }) => {
            assert_eq!(shape, vec![2, 2]);
            assert_eq!(expected_len, 4);
            assert_eq!(found_len, 3);
        }
        other => panic!("expected InvalidConstruction, got {:?}", other),
    }
}

// ── try_get / try_get_mut ───────────────────────────────────────────────
#[test]
fn try_get_reads_correct_value() {
    let t = Tensor::from_vec(&[2, 2], vec![1, 2, 3, 4]);
    assert_eq!(*t.try_get(&[0, 1]).unwrap(), 2);
    assert_eq!(*t.try_get(&[1, 0]).unwrap(), 3);
}

#[test]
fn try_get_returns_rank_mismatch_error() {
    let t = Tensor::from_vec(&[2, 2], vec![1, 2, 3, 4]);
    match t.try_get(&[0]) {
        Err(TensorError::RankMismatch { expected_rank, found_rank }) => {
            assert_eq!(expected_rank, 2);
            assert_eq!(found_rank, 1);
        }
        other => panic!("expected RankMismatch, got {:?}", other),
    }
}

#[test]
fn try_get_returns_index_out_of_bounds_error() {
    let t = Tensor::from_vec(&[2, 2], vec![1, 2, 3, 4]);
    match t.try_get(&[5, 0]) {
        Err(TensorError::IndexOutOfBounds { index, shape }) => {
            assert_eq!(index, vec![5, 0]);
            assert_eq!(shape, vec![2, 2]);
        }
        other => panic!("expected IndexOutOfBounds, got {:?}", other),
    }
}

#[test]
fn try_get_mut_writes_correct_value() {
    let mut t = Tensor::from_vec(&[2, 2], vec![1, 2, 3, 4]);
    *t.try_get_mut(&[0, 1]).unwrap() = 99;
    assert_eq!(*t.try_get(&[0, 1]).unwrap(), 99);
    // Neighboring elements must stay untouched
    assert_eq!(*t.try_get(&[0, 0]).unwrap(), 1);
    assert_eq!(*t.try_get(&[1, 1]).unwrap(), 4);
}

// ── try_add / try_sub / try_hadamard ────────────────────────────────────
#[test]
fn tensor_try_add_returns_shape_mismatch_error() {
    let a = Tensor::from_vec(&[2, 2], vec![1, 2, 3, 4]);
    let b = Tensor::from_vec(&[4], vec![1, 2, 3, 4]);
    match a.try_add(&b) {
        Err(TensorError::ShapeMismatch { expected, found }) => {
            assert_eq!(expected, vec![2, 2]);
            assert_eq!(found, vec![4]);
        }
        other => panic!("expected ShapeMismatch, got {:?}", other),
    }
}

#[test]
fn try_sub_returns_shape_mismatch_error() {
    let a = Tensor::from_vec(&[2, 2], vec![1, 2, 3, 4]);
    let b = Tensor::from_vec(&[1, 4], vec![1, 2, 3, 4]);
    assert!(matches!(a.try_sub(&b), Err(TensorError::ShapeMismatch { .. })));
}

#[test]
fn try_hadamard_returns_shape_mismatch_error() {
    let a = Tensor::from_vec(&[2, 2], vec![1, 2, 3, 4]);
    let b = Tensor::from_vec(&[1, 4], vec![1, 2, 3, 4]);
    assert!(matches!(a.try_hadamard(&b), Err(TensorError::ShapeMismatch { .. })));
}

#[test]
fn try_add_matches_existing_add_operator() {
    let a = Tensor::from_vec(&[2, 2], vec![1, 2, 3, 4]);
    let b = Tensor::from_vec(&[2, 2], vec![5, 6, 7, 8]);
    let via_try = a.try_add(&b).unwrap();
    let via_op = &a + &b;
    assert_eq!(via_try.as_slice(), via_op.as_slice());
}
