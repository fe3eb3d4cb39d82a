use linalg::matrix::MatError;
use linalg::vector::Vector;

#[test]
fn test_vector_new_len() {
    let a: Vector<i32> = Vector::new(&vec![1, 2, 3]);
    assert_eq!(a.len(), 3);
    assert_eq!(a.size(), 3);
    assert_eq!(a.get(0).unwrap(), 1);
    assert_eq!(a.get(1).unwrap(), 2);
    assert_eq!(a.get(2).unwrap(), 3);
}

#[test]
fn test_vector_new_zero() {
    let a: Vector<i32> = Vector::new_zero(4);
    assert_eq!(a.len(), 4);
    for i in 0..4 {
        assert_eq!(a.get(i).unwrap(), 0);
    }
}

#[test]
fn test_vector_add() {
    let mut a: Vector<i32> = Vector::new(&vec![1, 2, 3]);
    let b: Vector<i32> = Vector::new(&vec![10, 20, 30]);
    a.add(&b).unwrap();
    assert_eq!(a.get(0).unwrap(), 11);
    assert_eq!(a.get(1).unwrap(), 22);
    assert_eq!(a.get(2).unwrap(), 33);
}

#[test]
fn test_vector_sub() {
    let mut a: Vector<i32> = Vector::new(&vec![10, 20, 30]);
    let b: Vector<i32> = Vector::new(&vec![1, 2, 3]);
    a.sub(&b).unwrap();
    assert_eq!(a.get(0).unwrap(), 9);
    assert_eq!(a.get(1).unwrap(), 18);
    assert_eq!(a.get(2).unwrap(), 27);
}

#[test]
fn test_vector_scalar() {
    let mut a: Vector<i32> = Vector::new(&vec![1, -2, 3]);
    a.scalar(5);
    assert_eq!(a.get(0).unwrap(), 5);
    assert_eq!(a.get(1).unwrap(), -10);
    assert_eq!(a.get(2).unwrap(), 15);
}

#[test]
fn test_vector_dot() {
    let a: Vector<i32> = Vector::new(&vec![1, 2, 3]);
    let b: Vector<i32> = Vector::new(&vec![4, 5, 6]);
    assert_eq!(a.dot(&b).unwrap(), 32);
    let e1: Vector<i32> = Vector::new(&vec![]);
    let e2: Vector<i32> = Vector::new(&vec![]);
    assert_eq!(e1.dot(&e2).unwrap(), 0);
}

#[test]
fn test_vector_equals() {
    let a: Vector<i32> = Vector::new(&vec![1, 2, 3]);
    let b: Vector<i32> = Vector::new(&vec![1, 2, 3]);
    let c: Vector<i32> = Vector::new(&vec![1, 2, 4]);
    let d: Vector<i32> = Vector::new(&vec![1, 2]);
    assert!(a.equals(&b));
    assert!(!a.equals(&c));
    assert!(!a.equals(&d));
}

#[test]
fn test_vector_set_get() {
    let mut a: Vector<i32> = Vector::new_zero(3);
    a.set(1, 7).unwrap();
    assert_eq!(a.get(0).unwrap(), 0);
    assert_eq!(a.get(1).unwrap(), 7);
    assert_eq!(a.get(2).unwrap(), 0);
    assert_eq!(a.get(3), Err(MatError::IndexOutOfBounds));
}

#[test]
fn test_vector_iter() {
    let a: Vector<i32> = Vector::new(&vec![4, 5, 6]);
    let out = a.iter();
    assert_eq!(out, vec![4, 5, 6]);
}

#[test]
fn test_vector_duplicate() {
    let a: Vector<i32> = Vector::new(&vec![1, 2]);
    let mut b = a.duplicate();
    assert!(a.equals(&b));
    b.set(0, 9).unwrap();
    assert_eq!(a.get(0).unwrap(), 1);
    assert_eq!(b.get(0).unwrap(), 9);
}

#[test]
fn test_to_row_matrix() {
    let a: Vector<i32> = Vector::new(&vec![1, 2, 3]);
    let m = a.to_row_matrix();
    assert_eq!(m.size(), (1, 3));
    assert_eq!(m.get(0, 0).unwrap(), 1);
    assert_eq!(m.get(0, 1).unwrap(), 2);
    assert_eq!(m.get(0, 2).unwrap(), 3);
}

#[test]
fn test_to_col_matrix() {
    let a: Vector<i32> = Vector::new(&vec![1, 2, 3]);
    let m = a.to_col_matrix();
    assert_eq!(m.size(), (3, 1));
    assert_eq!(m.get(0, 0).unwrap(), 1);
    assert_eq!(m.get(1, 0).unwrap(), 2);
    assert_eq!(m.get(2, 0).unwrap(), 3);
}
