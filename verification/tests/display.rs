use numrs::display::{
    column_widths, display_cells, header, nested_layout, row_brackets, tensor_header,
};
use numrs::Tensor;

fn texts(v: &[&str]) -> Vec<String> {
    v.iter().map(|s| s.to_string()).collect()
}

#[test]
fn header_names_the_shape() {
    assert_eq!(header(2, 3), "Matrix (2×3)");
    assert_eq!(header(10, 1), "Matrix (10×1)");
}

#[test]
fn single_row_uses_square_brackets() {
    assert_eq!(row_brackets(1, 0), ("[ ", " ]"));
}

#[test]
fn several_rows_use_corners_and_bars() {
    assert_eq!(row_brackets(3, 0), ("┌ ", " ┐"));
    assert_eq!(row_brackets(3, 1), ("│ ", " │"));
    assert_eq!(row_brackets(3, 2), ("└ ", " ┘"));
    assert_eq!(row_brackets(2, 1), ("└ ", " ┘"));
}

#[test]
fn column_width_is_longest_cell_of_the_column() {
    let cells = texts(&["1.000", "-20.500", "300.250", "4.000"]);
    assert_eq!(column_widths(2, 2, &cells), vec![7, 7]);
    let cells = texts(&["1.000", "2.000", "-10.000", "3.000"]);
    assert_eq!(column_widths(2, 2, &cells), vec![7, 5]);
}

#[test]
fn cells_are_right_aligned_to_their_column() {
    let cells = texts(&["1.000", "2.000", "-10.000", "3.000"]);
    let padded = display_cells(2, 2, &cells);
    assert_eq!(padded, texts(&["  1.000", "2.000", "-10.000", "3.000"]));
}

#[test]
fn empty_grid_has_no_cells() {
    let padded = display_cells(0, 3, &[]);
    assert!(padded.is_empty());
    assert_eq!(column_widths(0, 3, &[]), vec![0, 0, 0]);
}

#[test]
fn tensor_header_shows_the_shape() {
    assert_eq!(tensor_header(&[2, 3, 4]), "Tensor [2, 3, 4]");
    assert_eq!(tensor_header(&[]), "Tensor []");
}

#[test]
fn scalar_tensor_shows_its_element() {
    let t = Tensor::from_vec(&[], vec![7]);
    assert_eq!(nested_layout(&t, &texts(&["7"])), "7");
}

#[test]
fn vector_is_one_bracketed_line() {
    let t = Tensor::from_vec(&[3], vec![1, 2, 3]);
    assert_eq!(nested_layout(&t, &texts(&["1", "2", "3"])), "[1, 2, 3]");
}

#[test]
fn matrix_shaped_tensor_has_one_line_per_row() {
    let t = Tensor::from_vec(&[2, 2], vec![1, 2, 3, 4]);
    assert_eq!(
        nested_layout(&t, &texts(&["1", "2", "3", "4"])),
        "[\n  [1, 2],\n  [3, 4]\n]"
    );
}

#[test]
fn deeper_axes_are_indented_further() {
    let t = Tensor::from_vec(&[2, 1, 2], vec![1, 2, 3, 4]);
    assert_eq!(
        nested_layout(&t, &texts(&["a", "b", "c", "d"])),
        "[\n  [\n    [a, b]\n  ],\n  [\n    [c, d]\n  ]\n]"
    );
}

#[test]
fn empty_leading_axis_gives_empty_brackets() {
    let t: Tensor<i32> = Tensor::from_vec(&[0, 3], vec![]);
    assert_eq!(nested_layout(&t, &[]), "[\n]");
}
