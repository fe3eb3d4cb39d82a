use linalg::matrix::MatError;
use linalg::matrix::Matrix;
use linalg::vector::Vector;

#[test]
fn test_new() {
    let a: Matrix<i32> = Matrix::new_zero(3, 3);
    let b: Matrix<i32> = Matrix::new_identity(3);
    let c: Matrix<i32> = Matrix::new(3, 3, &vec![1, 2, 3, 4, 5, 6, 7, 8, 9]).unwrap();
    let _ = (a, b, c);
}

#[test]
fn test_index() {
    let a: Matrix<i32> = Matrix::new(3, 3, &vec![1, 0, 0, 0, 1, 0, 0, 0, 1]).unwrap();
    let b: Matrix<i32> = Matrix::new_identity(3);
    for i in 0..3 {
        for j in 0..3 {
            assert_eq!(a.get(i, j).unwrap(), b.get(i, j).unwrap());
        }
    }
}

#[test]
fn test_add_sub() {
    let a: Matrix<i32> = Matrix::new_zero(3, 3);
    let b: Matrix<i32> = Matrix::new(3, 3, &vec![1, 2, 3, 4, 5, 6, 7, 8, 9]).unwrap();
    let c = a.plus(&b).unwrap();
    let d: Matrix<i32> = Matrix::new(3, 3, &vec![8, 7, 6, 5, 4, 3, 2, 1, 0]).unwrap();
    let e: Matrix<i32> = Matrix::new(3, 3, &vec![9, 9, 9, 9, 9, 9, 9, 9, 9]).unwrap();
    let f = d.plus(&b).unwrap();
    let g = f.minus(&d).unwrap();
    for i in 0..3 {
        for j in 0..3 {
            assert_eq!(b.get(i, j).unwrap(), c.get(i, j).unwrap());
            assert_eq!(e.get(i, j).unwrap(), f.get(i, j).unwrap());
            assert_eq!(g.get(i, j).unwrap(), b.get(i, j).unwrap());
        }
    }
}

#[test]
fn test_add_assign() {
    let mut b: Matrix<i32> = Matrix::new(3, 3, &vec![1, 2, 3, 4, 5, 6, 7, 8, 9]).unwrap();
    let c: Matrix<i32> = Matrix::new(3, 3, &vec![8, 7, 6, 5, 4, 3, 2, 1, 0]).unwrap();
    let d: Matrix<i32> = Matrix::new(3, 3, &vec![9, 9, 9, 9, 9, 9, 9, 9, 9]).unwrap();
    b.add(&c).unwrap();
    for i in 0..3 {
        for j in 0..3 {
            assert_eq!(b.get(i, j).unwrap(), d.get(i, j).unwrap());
        }
    }
}

#[test]
fn matrix_test_mul() {
    let a: Matrix<i32> = Matrix::new(2, 4, &vec![1, 3, 5, 7, 2, 4, 6, 8]).unwrap();
    let b: Matrix<i32> = Matrix::new(4, 3, &vec![1, 8, 9, 2, 7, 10, 3, 6, 11, 4, 5, 12]).unwrap();
    let c = a.matmul(&b).unwrap();
    let d: Matrix<i32> = Matrix::new(2, 3, &vec![50, 94, 178, 60, 120, 220]).unwrap();
    for i in 0..c.nrows() {
        for j in 0..c.ncols() {
            assert_eq!(c.get(i, j).unwrap(), d.get(i, j).unwrap());
        }
    }
}

#[test]
fn test_mul_scalar() {
    let mut a: Matrix<i32> = Matrix::new(3, 3, &vec![1, 2, 3, 4, 5, 6, 7, 8, 9]).unwrap();
    let b: Matrix<i32> = Matrix::new(3, 3, &vec![2, 4, 6, 8, 10, 12, 14, 16, 18]).unwrap();
    let c = a.scaled(2);
    a.scalar(2);
    for i in 0..3 {
        for j in 0..3 {
            assert_eq!(b.get(i, j).unwrap(), c.get(i, j).unwrap());
            assert_eq!(b.get(i, j).unwrap(), a.get(i, j).unwrap());
        }
    }
}

#[test]
fn test_transpose() {
    let mut a: Matrix<i32> = Matrix::new(3, 4, &vec![1, 2, 3, 4, 5, 6, 7, 8, 9, 10, 11, 12]).unwrap();
    a.transpose();
    let b: Matrix<i32> = Matrix::new(4, 3, &vec![1, 5, 9, 2, 6, 10, 3, 7, 11, 4, 8, 12]).unwrap();
    for i in 0..4 {
        for j in 0..3 {
            assert_eq!(b.get(i, j).unwrap(), a.get(i, j).unwrap());
        }
    }
}

#[test]
fn test_iter() {
    let a: Matrix<i32> = Matrix::new(3, 3, &vec![1, 2, 3, 4, 5, 6, 7, 8, 9]).unwrap();
    for (i, x) in a.iter().into_iter().enumerate() {
        assert_eq!((i + 1) as i32, x);
    }
}

#[test]
fn test_vercat() {
    let mut a: Matrix<i32> = Matrix::new(2, 3, &vec![1, 2, 3, 4, 5, 6]).unwrap();
    let b: Matrix<i32> = Matrix::new(2, 3, &vec![7, 8, 9, 10, 11, 12]).unwrap();
    a.vercat(&b).unwrap();
    assert_eq!(a.nrows(), 4);
    assert_eq!(a.ncols(), 3);
    for (i, x) in a.iter().into_iter().enumerate() {
        assert_eq!((i + 1) as i32, x);
    }
}

#[test]
fn test_horcat() {
    let mut a: Matrix<i32> = Matrix::new(3, 2, &vec![1, 2, 6, 7, 11, 12]).unwrap();
    let b: Matrix<i32> = Matrix::new(3, 3, &vec![3, 4, 5, 8, 9, 10, 13, 14, 15]).unwrap();
    a.horcat(&b).unwrap();
    for (i, x) in a.iter().into_iter().enumerate() {
        assert_eq!((i + 1) as i32, x);
    }
}

#[test]
fn test_hadamard() {
    let mut a: Matrix<i32> = Matrix::new(3, 3, &vec![1, 3, 2, 1, 0, 0, 1, 2, 2]).unwrap();
    let b: Matrix<i32> = Matrix::new(3, 3, &vec![0, 0, 2, 7, 5, 0, 2, 1, 1]).unwrap();
    let c: Matrix<i32> = Matrix::new(3, 3, &vec![0, 0, 4, 7, 0, 0, 2, 2, 2]).unwrap();
    a.hadamard(&b).unwrap();
    for i in 0..3 {
        for j in 0..3 {
            assert_eq!(a.get(i, j).unwrap(), c.get(i, j).unwrap());
        }
    }
}

#[test]
fn test_kronecker() {
    let a: Matrix<i32> = Matrix::new(2, 2, &vec![1, 2, 3, 4]).unwrap();
    let b: Matrix<i32> = Matrix::new(2, 2, &vec![0, 5, 6, 7]).unwrap();
    let c: Matrix<i32> = Matrix::new(
        4,
        4,
        &vec![0, 5, 0, 10, 6, 7, 12, 14, 0, 15, 0, 20, 18, 21, 24, 28],
    )
    .unwrap();
    let d = a.kronecker(&b);
    for i in 0..4 {
        for j in 0..4 {
            assert_eq!(c.get(i, j).unwrap(), d.get(i, j).unwrap());
        }
    }
}

#[test]
fn test_size_accessors() {
    let a: Matrix<i32> = Matrix::new(2, 3, &vec![1, 2, 3, 4, 5, 6]).unwrap();
    assert_eq!(a.size(), (2, 3));
    assert_eq!(a.nrows(), 2);
    assert_eq!(a.ncols(), 3);
    assert!(!a.is_square());
    let b: Matrix<i32> = Matrix::new_identity(4);
    assert!(b.is_square());
}

#[test]
fn test_equals_matrix() {
    let a: Matrix<i32> = Matrix::new(2, 2, &vec![1, 2, 3, 4]).unwrap();
    let b: Matrix<i32> = Matrix::new(2, 2, &vec![1, 2, 3, 4]).unwrap();
    let c: Matrix<i32> = Matrix::new(2, 2, &vec![1, 2, 3, 5]).unwrap();
    let d: Matrix<i32> = Matrix::new(1, 4, &vec![1, 2, 3, 4]).unwrap();
    assert!(a.equals(&b));
    assert!(!a.equals(&c));
    assert!(!a.equals(&d));
}

#[test]
fn test_set_entry() {
    let mut a: Matrix<i32> = Matrix::new_zero(2, 2);
    a.set(0, 1, 7).unwrap();
    a.set(1, 0, -3).unwrap();
    assert_eq!(a.get(0, 0).unwrap(), 0);
    assert_eq!(a.get(0, 1).unwrap(), 7);
    assert_eq!(a.get(1, 0).unwrap(), -3);
    assert_eq!(a.get(1, 1).unwrap(), 0);
}

#[test]
fn test_duplicate_matrix() {
    let a: Matrix<i32> = Matrix::new(2, 2, &vec![1, 2, 3, 4]).unwrap();
    let mut b = a.duplicate();
    assert!(a.equals(&b));
    b.set(0, 0, 9).unwrap();
    assert_eq!(a.get(0, 0).unwrap(), 1);
    assert_eq!(b.get(0, 0).unwrap(), 9);
}

#[test]
fn test_mul_vector_broadcast() {
    let mut a: Matrix<i32> = Matrix::new(2, 2, &vec![1, 2, 3, 4]).unwrap();
    let w: Vector<i32> = Vector::new(&vec![2, 3]);
    a.mul_vector(&w).unwrap();
    let b: Matrix<i32> = Matrix::new(2, 2, &vec![2, 4, 9, 12]).unwrap();
    assert!(a.equals(&b));
}

#[test]
fn test_from_rows() {
    let a: Matrix<i32> = Matrix::from_rows(&vec![vec![1, 2, 3], vec![4, 5, 6]]).unwrap();
    let b: Matrix<i32> = Matrix::new(2, 3, &vec![1, 2, 3, 4, 5, 6]).unwrap();
    assert!(a.equals(&b));
    let empty: Matrix<i32> = Matrix::from_rows(&vec![]).unwrap();
    assert_eq!(empty.size(), (0, 0));
    let ragged: Result<Matrix<i32>, MatError> = Matrix::from_rows(&vec![vec![1, 2], vec![3]]);
    assert!(matches!(ragged, Err(MatError::ShapeMismatch)));
}

#[test]
fn test_empty_matrix() {
    let mut a: Matrix<i32> = Matrix::new(0, 0, &vec![]).unwrap();
    let b: Matrix<i32> = Matrix::new_zero(0, 0);
    assert!(a.equals(&b));
    a.transpose();
    assert!(a.equals(&b));
    assert_eq!(a.size(), (0, 0));
    let id: Matrix<i32> = Matrix::new_identity(0);
    assert!(id.is_square());
    assert_eq!(id.size(), (0, 0));
}
