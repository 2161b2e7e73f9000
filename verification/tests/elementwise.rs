use numrs::elementwise::{add_elements, mul_elements, scale_elements, sub_elements};

#[test]
fn element_wise_work_split_into_pieces_matches_the_whole() {
    let a: Vec<i64> = (0..1000).collect();
    let b: Vec<i64> = (0..1000).map(|i| 3 * i - 7).collect();
    let whole = add_elements(&a, &b);
    let pieces: Vec<i64> = a
        .chunks(256)
        .zip(b.chunks(256))
        .flat_map(|(x, y)| add_elements(x, y))
        .collect();
    assert_eq!(whole, pieces);
    assert_eq!(whole[10], 10 + 23);
}

#[test]
fn element_wise_operations_on_slices() {
    let a = [1.5f64, -2.0, 4.0];
    let b = [0.5f64, 2.0, -1.0];
    assert_eq!(add_elements(&a, &b), vec![2.0, 0.0, 3.0]);
    assert_eq!(sub_elements(&a, &b), vec![1.0, -4.0, 5.0]);
    assert_eq!(mul_elements(&a, &b), vec![0.75, -4.0, -4.0]);
    assert_eq!(scale_elements(&a, 2.0), vec![3.0, -4.0, 8.0]);
    assert!(add_elements::<i32>(&[], &[]).is_empty());
}
