use linalg::error::LinalgError;
use linalg::matrix::{
    check_square, cofactor_negated, extract_minor, identity, is_square, same_size, transpose,
};

#[test]
fn identity_of_three() {
    assert_eq!(identity(3), vec![vec![1, 0, 0], vec![0, 1, 0], vec![0, 0, 1]]);
}

#[test]
fn identity_of_one_and_zero() {
    assert_eq!(identity(1), vec![vec![1]]);
    assert!(identity(0).is_empty());
}

#[test]
fn identity_is_square() {
    for n in 0..6 {
        assert!(is_square(&identity(n)));
        assert_eq!(check_square(&identity(n)), Ok(n));
    }
}

#[test]
fn square_predicate() {
    let empty: Vec<Vec<f64>> = Vec::new();
    assert!(is_square(&empty));
    assert!(is_square(&vec![vec![1.0, 2.0], vec![3.0, 4.0]]));
    assert!(!is_square(&vec![vec![1.0, 2.0, 3.0], vec![4.0, 5.0, 6.0]]));
    assert!(!is_square(&vec![vec![1.0, 2.0], vec![3.0]]));
}

#[test]
fn non_square_is_refused() {
    let m = vec![vec![1.0, 2.0, 3.0], vec![4.0, 5.0, 6.0]];
    assert_eq!(check_square(&m), Err(LinalgError::NotSquare));
    assert_eq!(check_square(&vec![vec![1.0, 2.0], vec![3.0, 4.0]]), Ok(2));
}

#[test]
fn same_size_predicate() {
    let a = vec![vec![1.0, 2.0], vec![3.0]];
    let b = vec![vec![5.0, 6.0], vec![7.0]];
    let c = vec![vec![5.0], vec![7.0, 8.0]];
    let d = vec![vec![5.0, 6.0]];
    assert!(same_size(&a, &b));
    assert!(!same_size(&a, &c));
    assert!(!same_size(&a, &d));
}

#[test]
fn minor_of_three_by_three() {
    let m = vec![vec![1, 2, 3], vec![4, 5, 6], vec![7, 8, 9]];
    assert_eq!(extract_minor(&m, 0, 0), Ok(vec![vec![5, 6], vec![8, 9]]));
    assert_eq!(extract_minor(&m, 1, 2), Ok(vec![vec![1, 2], vec![7, 8]]));
    assert_eq!(extract_minor(&m, 2, 1), Ok(vec![vec![1, 3], vec![4, 6]]));
}

#[test]
fn minor_of_one_by_one_is_empty() {
    let m = vec![vec![7.5]];
    assert_eq!(extract_minor(&m, 0, 0), Ok(Vec::<Vec<f64>>::new()));
}

#[test]
fn minor_index_out_of_range() {
    let m = vec![vec![1, 2], vec![3, 4]];
    assert_eq!(extract_minor(&m, 2, 0), Err(LinalgError::IndexOutOfRange));
    assert_eq!(extract_minor(&m, 0, 2), Err(LinalgError::IndexOutOfRange));
}

#[test]
fn minor_of_non_square() {
    let m = vec![vec![1, 2, 3], vec![4, 5, 6]];
    assert_eq!(extract_minor(&m, 0, 0), Err(LinalgError::NotSquare));
}

#[test]
fn transpose_rectangular() {
    let m = vec![vec![1.0, 2.0, 3.0], vec![4.0, 5.0, 6.0]];
    assert_eq!(transpose(&m), vec![vec![1.0, 4.0], vec![2.0, 5.0], vec![3.0, 6.0]]);
}

#[test]
fn transpose_ragged() {
    let m = vec![vec![1, 2], vec![3], vec![4, 5, 6]];
    assert_eq!(transpose(&m), vec![vec![1, 3, 4], vec![2, 5], vec![6]]);
}

#[test]
fn transpose_empty() {
    let m: Vec<Vec<i32>> = Vec::new();
    assert!(transpose(&m).is_empty());
    assert!(transpose(&vec![Vec::<i32>::new(), Vec::new()]).is_empty());
}

#[test]
fn transpose_twice_gives_back() {
    let square = vec![vec![1.0, 2.0], vec![3.0, 4.0]];
    assert_eq!(transpose(&transpose(&square)), square);
    let wide = vec![vec![1.5, -2.0, 3.25, 0.0], vec![4.0, 5.0, 6.0, 7.0]];
    assert_eq!(transpose(&transpose(&wide)), wide);
    let tall = vec![vec![1], vec![2], vec![3]];
    assert_eq!(transpose(&transpose(&tall)), tall);
}

#[test]
fn cofactor_signs() {
    assert!(!cofactor_negated(0, 0));
    assert!(cofactor_negated(0, 1));
    assert!(cofactor_negated(1, 0));
    assert!(!cofactor_negated(1, 1));
    assert!(!cofactor_negated(2, 4));
    assert!(cofactor_negated(3, 4));
    assert!(cofactor_negated(usize::MAX, 0));
    assert!(!cofactor_negated(usize::MAX, usize::MAX));
}

#[test]
fn error_messages() {
    assert_eq!(LinalgError::DimensionMismatch.message(), "vectors must be same length");
    assert_eq!(LinalgError::NotSquare.message(), "matrix must be square");
    assert_eq!(LinalgError::NotInvertible.message(), "matrix is not invertible");
    assert_eq!(LinalgError::IndexOutOfRange.message(), "row or column index out of range");
}

#[test]
fn minor_of_four_by_four_is_square() {
    let m = vec![
        vec![1, 2, 3, 4],
        vec![5, 6, 7, 8],
        vec![9, 10, 11, 12],
        vec![13, 14, 15, 16],
    ];
    let x = extract_minor(&m, 3, 0).unwrap();
    assert_eq!(x, vec![vec![2, 3, 4], vec![6, 7, 8], vec![10, 11, 12]]);
    assert!(is_square(&x));
}

#[test]
fn same_size_of_empty() {
    let a: Vec<Vec<i32>> = Vec::new();
    assert!(same_size(&a, &Vec::new()));
    assert!(!same_size(&a, &vec![Vec::new()]));
}
