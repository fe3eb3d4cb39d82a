//! Shape mismatches and out-of-range positions signal typed faults and
//! leave the operands unchanged.

use linalg::matrix::MatError;
use linalg::matrix::Matrix;
use linalg::vector::Vector;

#[test]
fn test_new_wrong_count() {
    let r: Result<Matrix<i32>, MatError> = Matrix::new(2, 3, &vec![1, 2, 3, 4]);
    assert!(matches!(r, Err(MatError::ShapeMismatch)));
}

#[test]
fn test_add_shape_mismatch() {
    let mut a: Matrix<i32> = Matrix::new(2, 2, &vec![1, 2, 3, 4]).unwrap();
    let b: Matrix<i32> = Matrix::new(2, 3, &vec![1, 2, 3, 4, 5, 6]).unwrap();
    let before = a.duplicate();
    assert_eq!(a.add(&b), Err(MatError::ShapeMismatch));
    assert!(a.equals(&before));
}

#[test]
fn test_sub_shape_mismatch() {
    let mut a: Matrix<i32> = Matrix::new(2, 2, &vec![1, 2, 3, 4]).unwrap();
    let b: Matrix<i32> = Matrix::new(3, 2, &vec![1, 2, 3, 4, 5, 6]).unwrap();
    let before = a.duplicate();
    assert_eq!(a.sub(&b), Err(MatError::ShapeMismatch));
    assert!(a.equals(&before));
}

#[test]
fn test_hadamard_shape_mismatch() {
    let mut a: Matrix<i32> = Matrix::new(2, 2, &vec![1, 2, 3, 4]).unwrap();
    let b: Matrix<i32> = Matrix::new(1, 4, &vec![1, 2, 3, 4]).unwrap();
    let before = a.duplicate();
    assert_eq!(a.hadamard(&b), Err(MatError::ShapeMismatch));
    assert!(a.equals(&before));
}

#[test]
fn test_plus_minus_shape_mismatch() {
    let a: Matrix<i32> = Matrix::new(2, 2, &vec![1, 2, 3, 4]).unwrap();
    let b: Matrix<i32> = Matrix::new(2, 3, &vec![1, 2, 3, 4, 5, 6]).unwrap();
    assert!(matches!(a.plus(&b), Err(MatError::ShapeMismatch)));
    assert!(matches!(a.minus(&b), Err(MatError::ShapeMismatch)));
}

#[test]
fn test_vercat_shape_mismatch() {
    let mut a: Matrix<i32> = Matrix::new(2, 2, &vec![1, 2, 3, 4]).unwrap();
    let b: Matrix<i32> = Matrix::new(2, 3, &vec![1, 2, 3, 4, 5, 6]).unwrap();
    let before = a.duplicate();
    assert_eq!(a.vercat(&b), Err(MatError::ShapeMismatch));
    assert!(a.equals(&before));
}

#[test]
fn test_horcat_shape_mismatch() {
    let mut a: Matrix<i32> = Matrix::new(2, 2, &vec![1, 2, 3, 4]).unwrap();
    let b: Matrix<i32> = Matrix::new(3, 2, &vec![1, 2, 3, 4, 5, 6]).unwrap();
    let before = a.duplicate();
    assert_eq!(a.horcat(&b), Err(MatError::ShapeMismatch));
    assert!(a.equals(&before));
}

#[test]
fn test_matmul_shape_mismatch() {
    let a: Matrix<i32> = Matrix::new(2, 3, &vec![1, 2, 3, 4, 5, 6]).unwrap();
    let b: Matrix<i32> = Matrix::new(2, 2, &vec![1, 2, 3, 4]).unwrap();
    assert!(matches!(a.matmul(&b), Err(MatError::ShapeMismatch)));
}

#[test]
fn test_mul_vector_shape_mismatch() {
    let mut a: Matrix<i32> = Matrix::new(2, 2, &vec![1, 2, 3, 4]).unwrap();
    let w: Vector<i32> = Vector::new(&vec![1, 2, 3]);
    let before = a.duplicate();
    assert_eq!(a.mul_vector(&w), Err(MatError::ShapeMismatch));
    assert!(a.equals(&before));
}

#[test]
fn test_matrix_index_out_of_bounds() {
    let mut a: Matrix<i32> = Matrix::new(2, 2, &vec![1, 2, 3, 4]).unwrap();
    assert_eq!(a.get(2, 0), Err(MatError::IndexOutOfBounds));
    assert_eq!(a.get(0, 2), Err(MatError::IndexOutOfBounds));
    assert_eq!(a.set(2, 0, 9), Err(MatError::IndexOutOfBounds));
    let b: Matrix<i32> = Matrix::new(2, 2, &vec![1, 2, 3, 4]).unwrap();
    assert!(a.equals(&b));
}

#[test]
fn test_vector_add_sub_mismatch() {
    let mut a: Vector<i32> = Vector::new(&vec![1, 2, 3]);
    let b: Vector<i32> = Vector::new(&vec![1, 2]);
    let before = a.duplicate();
    assert_eq!(a.add(&b), Err(MatError::ShapeMismatch));
    assert_eq!(a.sub(&b), Err(MatError::ShapeMismatch));
    assert!(a.equals(&before));
}

#[test]
fn test_vector_dot_mismatch() {
    let a: Vector<i32> = Vector::new(&vec![1, 2, 3]);
    let b: Vector<i32> = Vector::new(&vec![1, 2]);
    assert_eq!(a.dot(&b), Err(MatError::ShapeMismatch));
}
