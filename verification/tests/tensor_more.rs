use numrs::tensor::Tensor;
use numrs::TensorError;

#[test]
fn strides_are_products_of_later_dimensions() {
    let t: Tensor<i32> = Tensor::fill(&[2, 3, 4], 7);
    assert_eq!(t.strides(), &[12, 4, 1]);
    assert_eq!(t.rank(), 3);
    assert_eq!(t.len(), 24);
    assert!(!t.is_empty());
}

#[test]
fn element_lives_at_sum_of_index_times_stride() {
    let data: Vec<i32> = (0..24).collect();
    let t = Tensor::from_vec(&[2, 3, 4], data);
    // [1, 2, 3] -> 1 * 12 + 2 * 4 + 3 * 1 = 23
    assert_eq!(*t.try_get(&[1, 2, 3]).unwrap(), 23);
    assert_eq!(*t.try_get(&[0, 1, 2]).unwrap(), 6);
    assert_eq!(t[&[1, 0, 1][..]], 13);
}

#[test]
fn scalar_tensor_has_one_element() {
    let t = Tensor::from_vec(&[], vec![5]);
    assert_eq!(t.rank(), 0);
    assert_eq!(t.len(), 1);
    assert_eq!(*t.try_get(&[]).unwrap(), 5);
}

#[test]
fn zero_dimension_gives_empty_tensor() {
    let t: Tensor<i32> = Tensor::from_vec(&[3, 0], vec![]);
    assert!(t.is_empty());
    assert_eq!(t.strides(), &[0, 1]);
    assert!(matches!(t.try_get(&[0, 0]), Err(TensorError::IndexOutOfBounds { .. })));
}

#[test]
fn try_from_vec_rejects_too_long_data() {
    match Tensor::try_from_vec(&[3], vec![1, 2, 3, 4]) {
        Err(TensorError::InvalidConstruction { shape, expected_len, found_len }) => {
            assert_eq!(shape, vec![3]);
            assert_eq!(expected_len, 3);
            assert_eq!(found_len, 4);
        }
        other => panic!("expected InvalidConstruction, got {:?}", other),
    }
}

#[test]
fn elementwise_operations_compute_each_element() {
    let a = Tensor::from_vec(&[2, 2], vec![1, 2, 3, 4]);
    let b = Tensor::from_vec(&[2, 2], vec![5, 6, 7, 8]);
    assert_eq!(a.try_add(&b).unwrap().as_slice(), &[6, 8, 10, 12]);
    assert_eq!(b.try_sub(&a).unwrap().as_slice(), &[4, 4, 4, 4]);
    assert_eq!(a.try_hadamard(&b).unwrap().as_slice(), &[5, 12, 21, 32]);
    assert_eq!(a.hadamard(&b).as_slice(), &[5, 12, 21, 32]);
    assert_eq!((&b - &a).as_slice(), &[4, 4, 4, 4]);
    assert_eq!((a.clone() + b.clone()).as_slice(), &[6, 8, 10, 12]);
    assert_eq!((a.clone() + &b).as_slice(), &[6, 8, 10, 12]);
    assert_eq!((&a + b.clone()).as_slice(), &[6, 8, 10, 12]);
    assert_eq!((b.clone() - a.clone()).as_slice(), &[4, 4, 4, 4]);
    assert_eq!(a.try_add(&b).unwrap().shape(), &[2, 2]);
}

#[test]
fn scalar_multiplication_scales_every_element() {
    let a = Tensor::from_vec(&[3], vec![1, -2, 3]);
    assert_eq!((&a * 3).as_slice(), &[3, -6, 9]);
    assert_eq!((a * 2).as_slice(), &[2, -4, 6]);
}

#[test]
fn zeros_ones_and_fill() {
    let z: Tensor<i32> = Tensor::zeros(&[2, 3]);
    assert_eq!(z.as_slice(), &[0; 6]);
    let o: Tensor<f64> = Tensor::ones(&[4]);
    assert_eq!(o.as_slice(), &[1.0; 4]);
    let f = Tensor::fill(&[2], 9u8);
    assert_eq!(f.as_slice(), &[9, 9]);
    assert_eq!(f.shape(), &[2]);
}

#[test]
fn rank_mismatch_is_reported_before_bounds() {
    let t = Tensor::from_vec(&[2, 2], vec![1, 2, 3, 4]);
    match t.try_get(&[9, 9, 9]) {
        Err(TensorError::RankMismatch { expected_rank, found_rank }) => {
            assert_eq!((expected_rank, found_rank), (2, 3));
        }
        other => panic!("expected RankMismatch, got {:?}", other),
    }
}

#[test]
fn read_after_write_touches_one_element() {
    let data: Vec<i32> = (0..12).collect();
    let mut t = Tensor::from_vec(&[2, 2, 3], data);
    *t.try_get_mut(&[1, 0, 2]).unwrap() = -1;
    assert_eq!(*t.try_get(&[1, 0, 2]).unwrap(), -1);
    for (k, v) in t.as_slice().iter().enumerate() {
        if k != 8 {
            assert_eq!(*v, k as i32);
        }
    }
    assert!(matches!(t.try_get_mut(&[2, 0, 0]), Err(TensorError::IndexOutOfBounds { .. })));
}

#[test]
fn tensor_error_messages() {
    let e = TensorError::ShapeMismatch { expected: vec![2, 2], found: vec![4] };
    assert_eq!(e.to_string(), "shape mismatch: expected [2, 2], found [4]");
    let e = TensorError::RankMismatch { expected_rank: 2, found_rank: 1 };
    assert_eq!(e.to_string(), "rank mismatch: tensor has rank 2 but index has rank 1");
    let e = TensorError::InvalidConstruction { shape: vec![2, 2], expected_len: 4, found_len: 3 };
    assert_eq!(e.to_string(), "invalid construction: shape [2, 2] requires 4 elements, got 3");
    let e = TensorError::IndexOutOfBounds { index: vec![10, 0], shape: vec![] };
    assert_eq!(e.to_string(), "index [10, 0] is out of bounds for tensor with shape []");
}

#[test]
fn indices_in_lexicographic_order_reach_every_element_once() {
    let data: Vec<u32> = (0..12).collect();
    let t = Tensor::from_vec(&[2, 3, 2], data);
    let mut seen: Vec<u32> = Vec::new();
    for i in 0..2 {
        for j in 0..3 {
            for k in 0..2 {
                seen.push(*t.try_get(&[i, j, k]).unwrap());
            }
        }
    }
    let expected: Vec<u32> = (0..12).collect();
    assert_eq!(seen, expected);
}
