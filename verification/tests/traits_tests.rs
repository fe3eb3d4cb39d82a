use linalg::traits::One;
use linalg::traits::Zero;

#[test]
fn test_zero_one() {
    let zero = i32::zero();
    let one = i32::one();
    assert_eq!(zero, 0);
    assert_eq!(one, 1);
}

#[test]
fn test_zero_one_unsigned() {
    assert_eq!(u8::zero(), 0u8);
    assert_eq!(u8::one(), 1u8);
    assert_eq!(u16::zero(), 0u16);
    assert_eq!(u16::one(), 1u16);
    assert_eq!(u32::zero(), 0u32);
    assert_eq!(u32::one(), 1u32);
    assert_eq!(usize::zero(), 0usize);
    assert_eq!(usize::one(), 1usize);
}

#[test]
fn test_zero_one_signed() {
    assert_eq!(i8::zero(), 0i8);
    assert_eq!(i8::one(), 1i8);
    assert_eq!(i16::zero(), 0i16);
    assert_eq!(i16::one(), 1i16);
    assert_eq!(isize::zero(), 0isize);
    assert_eq!(isize::one(), 1isize);
}
