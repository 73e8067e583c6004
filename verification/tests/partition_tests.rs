use matserve::matrix::count_assign_row_sums;
use matserve::matrix::Matrix;

fn square(rows: Vec<Vec<i32>>) -> Matrix {
    Matrix::from_rows(rows).expect("rows must form a square matrix")
}

#[test]
fn split_ten_rows_into_three_parts() {
    let mut m = Matrix::random(10);
    let original = m.clone();
    let slices = m.split(3);
    assert_eq!(slices.len(), 3);
    assert_eq!(slices[0].num_rows(), 3);
    assert_eq!(slices[1].num_rows(), 3);
    assert_eq!(slices[2].num_rows(), 4);
    assert_eq!(slices[0].start_index(), 0);
    assert_eq!(slices[1].start_index(), 3);
    assert_eq!(slices[2].start_index(), 6);
    // the matrix's rows were handed over to the slices
    assert_eq!(m.get_dim(), 0);
    // the slices cover every row exactly once, in order
    let mut absolute: usize = 0;
    for s in &slices {
        assert_eq!(s.start_index(), absolute);
        for local in 0..s.num_rows() {
            for col in 0..10 {
                assert_eq!(s.get(local, col), original.get(absolute, col));
            }
            absolute += 1;
        }
    }
    assert_eq!(absolute, 10);
}

#[test]
fn split_even_division() {
    let mut m = Matrix::random(4);
    let slices = m.split(2);
    assert_eq!(slices.len(), 2);
    assert_eq!(slices[0].num_rows(), 2);
    assert_eq!(slices[1].num_rows(), 2);
    assert_eq!(slices[0].start_index(), 0);
    assert_eq!(slices[1].start_index(), 2);
}

#[test]
fn split_single_part_takes_everything() {
    let mut m = square(vec![vec![1, 2], vec![3, 4]]);
    let slices = m.split(1);
    assert_eq!(slices.len(), 1);
    assert_eq!(slices[0].start_index(), 0);
    assert_eq!(slices[0].num_rows(), 2);
    assert_eq!(slices[0].get(0, 0), 1);
    assert_eq!(slices[0].get(1, 1), 4);
}

#[test]
fn row_sums_single_slice() {
    let mut m = square(vec![vec![1, 2, 3], vec![4, 5, 6], vec![7, 8, 9]]);
    let mut slices = m.split(1);
    assert_eq!(slices.len(), 1);
    count_assign_row_sums(&mut slices[0]);
    let s = &slices[0];
    // row 0: sum 6 written at column 0
    assert_eq!(s.get(0, 0), 6);
    assert_eq!(s.get(0, 1), 2);
    assert_eq!(s.get(0, 2), 3);
    // row 1: sum 15 written at column 1
    assert_eq!(s.get(1, 0), 4);
    assert_eq!(s.get(1, 1), 15);
    assert_eq!(s.get(1, 2), 6);
    // row 2: sum 24 written at column 2
    assert_eq!(s.get(2, 0), 7);
    assert_eq!(s.get(2, 1), 8);
    assert_eq!(s.get(2, 2), 24);
}

#[test]
fn row_sums_use_absolute_row_index() {
    let mut m = square(vec![vec![1, 1, 1], vec![2, 2, 2], vec![3, 3, 3]]);
    let mut slices = m.split(3);
    // the last slice starts at absolute row 2, so its single row's sum
    // lands in column 2
    count_assign_row_sums(&mut slices[2]);
    assert_eq!(slices[2].get(0, 0), 3);
    assert_eq!(slices[2].get(0, 1), 3);
    assert_eq!(slices[2].get(0, 2), 9);
}

#[test]
fn row_sum_wraps_on_overflow() {
    let mut m = square(vec![vec![i32::MAX, 1], vec![0, 0]]);
    let mut slices = m.split(1);
    count_assign_row_sums(&mut slices[0]);
    // the sum wraps around like two's-complement addition
    assert_eq!(slices[0].get(0, 0), i32::MIN);
    assert_eq!(slices[0].get(1, 1), 0);
}

#[test]
fn row_sum_is_computed_before_the_overwrite() {
    // the written column is part of the row; the sum must use the value
    // that was there before the write
    let mut m = square(vec![vec![10]]);
    let mut slices = m.split(1);
    count_assign_row_sums(&mut slices[0]);
    assert_eq!(slices[0].get(0, 0), 10);
}
