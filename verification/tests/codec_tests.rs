use matserve::matrix::Matrix;

fn square(rows: Vec<Vec<i32>>) -> Matrix {
    Matrix::from_rows(rows).expect("rows must form a square matrix")
}

#[test]
fn serialized_size_formula() {
    assert_eq!(Matrix::serialized_size(0), 4);
    assert_eq!(Matrix::serialized_size(1), 8);
    assert_eq!(Matrix::serialized_size(4), 4 + 4 * 4 * 4);
    assert_eq!(Matrix::serialized_size(10), 404);
}

#[test]
fn serialize_layout_is_big_endian_row_major() {
    let m = square(vec![vec![1, 2], vec![3, -1]]);
    let bytes = m.serialize();
    assert_eq!(bytes.len(), Matrix::serialized_size(2));
    // dimension prefix
    assert_eq!(&bytes[0..4], &[0, 0, 0, 2]);
    // elements, big-endian, row-major
    assert_eq!(&bytes[4..8], &[0, 0, 0, 1]);
    assert_eq!(&bytes[8..12], &[0, 0, 0, 2]);
    assert_eq!(&bytes[12..16], &[0, 0, 0, 3]);
    assert_eq!(&bytes[16..20], &[0xff, 0xff, 0xff, 0xff]);
}

#[test]
fn round_trip_small_matrix() {
    let m = square(vec![vec![1, 2, 3], vec![4, 5, 6], vec![7, 8, 9]]);
    let bytes = m.serialize();
    let back = Matrix::deserialize(&bytes).expect("round trip must decode");
    assert!(back == m);
}

#[test]
fn round_trip_negative_and_extreme_values() {
    let m = square(vec![vec![i32::MIN, -1], vec![i32::MAX, 0]]);
    let bytes = m.serialize();
    let back = Matrix::deserialize(&bytes).expect("round trip must decode");
    assert!(back == m);
}

#[test]
fn round_trip_empty_matrix() {
    let m = square(vec![]);
    let bytes = m.serialize();
    assert_eq!(bytes.len(), 4);
    let back = Matrix::deserialize(&bytes).expect("round trip must decode");
    assert!(back == m);
    assert_eq!(back.get_dim(), 0);
}

#[test]
fn deserialize_rejects_short_input() {
    assert!(Matrix::deserialize(&[]).is_none());
    assert!(Matrix::deserialize(&[0]).is_none());
    assert!(Matrix::deserialize(&[0, 0, 0]).is_none());
}

#[test]
fn deserialize_rejects_wrong_length() {
    // declares dim 2, so it needs exactly 4 + 16 bytes
    let mut bytes = vec![0u8, 0, 0, 2];
    bytes.extend_from_slice(&[0u8; 15]);
    assert!(Matrix::deserialize(&bytes).is_none());
    bytes.push(0);
    assert!(Matrix::deserialize(&bytes).is_some());
    bytes.push(0);
    assert!(Matrix::deserialize(&bytes).is_none());
}

#[test]
fn deserialize_reads_values_back() {
    let m = square(vec![vec![-5, 100], vec![7, 42]]);
    let bytes = m.serialize();
    let back = Matrix::deserialize(&bytes).unwrap();
    assert_eq!(back.get_dim(), 2);
    assert_eq!(back.get(0, 0), -5);
    assert_eq!(back.get(0, 1), 100);
    assert_eq!(back.get(1, 0), 7);
    assert_eq!(back.get(1, 1), 42);
}

#[test]
fn from_rows_rejects_ragged_rows() {
    assert!(Matrix::from_rows(vec![vec![1, 2], vec![3]]).is_none());
    assert!(Matrix::from_rows(vec![vec![1]]).is_some());
}

#[test]
fn clone_and_eq_agree() {
    let m = square(vec![vec![9, 8], vec![7, 6]]);
    let c = m.clone();
    assert!(c == m);
    let other = square(vec![vec![9, 8], vec![7, 5]]);
    assert!(!(other == m));
    let smaller = square(vec![vec![1]]);
    assert!(!(smaller == m));
}

#[test]
fn random_matrix_is_square_with_small_elements() {
    let m = Matrix::random(5);
    assert_eq!(m.get_dim(), 5);
    for i in 0..5 {
        for j in 0..5 {
            let v = m.get(i, j);
            assert!((0..9).contains(&v));
        }
    }
}
