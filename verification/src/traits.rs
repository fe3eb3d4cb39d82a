//! Scalar element types.
//!
//! A scalar is a machine value that stands for a bounded mathematical
//! integer. The [`Scalar`] trait ties each value to the integer it
//! represents, so that every container contract can be stated over
//! mathematical integers; [`Zero`] and [`One`] supply the additive and
//! multiplicative identities.

use vstd::prelude::*;

verus! {

/// A scalar element type with exact arithmetic on the integers it
/// represents. Each operation demands that the mathematical result is
/// representable, and returns exactly that result.
pub trait Scalar: Copy + Sized {
    /// The mathematical integer this value stands for.
    spec fn as_int(self) -> int;

    /// Whether the mathematical integer `x` is representable in this type.
    spec fn in_range(x: int) -> bool;

    /// Addition: exact on the represented integers.
    fn add_val(self, other: Self) -> (r: Self)
        requires
            Self::in_range(self.as_int() + other.as_int()),
        ensures
            r.as_int() == self.as_int() + other.as_int(),
    ;

    /// Subtraction: exact on the represented integers.
    fn sub_val(self, other: Self) -> (r: Self)
        requires
            Self::in_range(self.as_int() - other.as_int()),
        ensures
            r.as_int() == self.as_int() - other.as_int(),
    ;

    /// Multiplication: exact on the represented integers.
    fn mul_val(self, other: Self) -> (r: Self)
        requires
            Self::in_range(self.as_int() * other.as_int()),
        ensures
            r.as_int() == self.as_int() * other.as_int(),
    ;

    /// Equality of the represented integers.
    fn eq_val(self, other: Self) -> (r: bool)
        ensures
            r <==> self.as_int() == other.as_int(),
    ;
}

/// A scalar type with an additive identity.
pub trait Zero: Scalar {
    /// The additive identity: the value that stands for 0.
    fn zero() -> (r: Self)
        ensures
            r.as_int() == 0,
    ;
}

/// A scalar type with a multiplicative identity.
pub trait One: Scalar {
    /// The multiplicative identity: the value that stands for 1.
    fn one() -> (r: Self)
        ensures
            r.as_int() == 1,
    ;
}

impl Scalar for u8 {
    open spec fn as_int(self) -> int {
        self as int
    }

    open spec fn in_range(x: int) -> bool {
        0 <= x <= u8::MAX
    }

    fn add_val(self, other: Self) -> (r: Self) {
        self + other
    }

    fn sub_val(self, other: Self) -> (r: Self) {
        self - other
    }

    fn mul_val(self, other: Self) -> (r: Self) {
        self * other
    }

    fn eq_val(self, other: Self) -> (r: bool) {
        self == other
    }
}

impl Zero for u8 {
    fn zero() -> (r: Self) {
        0
    }
}

impl One for u8 {
    fn one() -> (r: Self) {
        1
    }
}

impl Scalar for u16 {
    open spec fn as_int(self) -> int {
        self as int
    }

    open spec fn in_range(x: int) -> bool {
        0 <= x <= u16::MAX
    }

    fn add_val(self, other: Self) -> (r: Self) {
        self + other
    }

    fn sub_val(self, other: Self) -> (r: Self) {
        self - other
    }

    fn mul_val(self, other: Self) -> (r: Self) {
        self * other
    }

    fn eq_val(self, other: Self) -> (r: bool) {
        self == other
    }
}

impl Zero for u16 {
    fn zero() -> (r: Self) {
        0
    }
}

impl One for u16 {
    fn one() -> (r: Self) {
        1
    }
}

impl Scalar for u32 {
    open spec fn as_int(self) -> int {
        self as int
    }

    open spec fn in_range(x: int) -> bool {
        0 <= x <= u32::MAX
    }

    fn add_val(self, other: Self) -> (r: Self) {
        self + other
    }

    fn sub_val(self, other: Self) -> (r: Self) {
        self - other
    }

    fn mul_val(self, other: Self) -> (r: Self) {
        self * other
    }

    fn eq_val(self, other: Self) -> (r: bool) {
        self == other
    }
}

impl Zero for u32 {
    fn zero() -> (r: Self) {
        0
    }
}

impl One for u32 {
    fn one() -> (r: Self) {
        1
    }
}

impl Scalar for usize {
    open spec fn as_int(self) -> int {
        self as int
    }

    open spec fn in_range(x: int) -> bool {
        0 <= x <= usize::MAX
    }

    fn add_val(self, other: Self) -> (r: Self) {
        self + other
    }

    fn sub_val(self, other: Self) -> (r: Self) {
        self - other
    }

    fn mul_val(self, other: Self) -> (r: Self) {
        self * other
    }

    fn eq_val(self, other: Self) -> (r: bool) {
        self == other
    }
}

impl Zero for usize {
    fn zero() -> (r: Self) {
        0
    }
}

impl One for usize {
    fn one() -> (r: Self) {
        1
    }
}

impl Scalar for i8 {
    open spec fn as_int(self) -> int {
        self as int
    }

    open spec fn in_range(x: int) -> bool {
        i8::MIN <= x <= i8::MAX
    }

    fn add_val(self, other: Self) -> (r: Self) {
        self + other
    }

    fn sub_val(self, other: Self) -> (r: Self) {
        self - other
    }

    fn mul_val(self, other: Self) -> (r: Self) {
        self * other
    }

    fn eq_val(self, other: Self) -> (r: bool) {
        self == other
    }
}

impl Zero for i8 {
    fn zero() -> (r: Self) {
        0
    }
}

impl One for i8 {
    fn one() -> (r: Self) {
        1
    }
}

impl Scalar for i16 {
    open spec fn as_int(self) -> int {
        self as int
    }

    open spec fn in_range(x: int) -> bool {
        i16::MIN <= x <= i16::MAX
    }

    fn add_val(self, other: Self) -> (r: Self) {
        self + other
    }

    fn sub_val(self, other: Self) -> (r: Self) {
        self - other
    }

    fn mul_val(self, other: Self) -> (r: Self) {
        self * other
    }

    fn eq_val(self, other: Self) -> (r: bool) {
        self == other
    }
}

impl Zero for i16 {
    fn zero() -> (r: Self) {
        0
    }
}

impl One for i16 {
    fn one() -> (r: Self) {
        1
    }
}

impl Scalar for i32 {
    open spec fn as_int(self) -> int {
        self as int
    }

    open spec fn in_range(x: int) -> bool {
        i32::MIN <= x <= i32::MAX
    }

    fn add_val(self, other: Self) -> (r: Self) {
        self + other
    }

    fn sub_val(self, other: Self) -> (r: Self) {
        self - other
    }

    fn mul_val(self, other: Self) -> (r: Self) {
        self * other
    }

    fn eq_val(self, other: Self) -> (r: bool) {
        self == other
    }
}

impl Zero for i32 {
    fn zero() -> (r: Self) {
        0
    }
}

impl One for i32 {
    fn one() -> (r: Self) {
        1
    }
}

impl Scalar for isize {
    open spec fn as_int(self) -> int {
        self as int
    }

    open spec fn in_range(x: int) -> bool {
        isize::MIN <= x <= isize::MAX
    }

    fn add_val(self, other: Self) -> (r: Self) {
        self + other
    }

    fn sub_val(self, other: Self) -> (r: Self) {
        self - other
    }

    fn mul_val(self, other: Self) -> (r: Self) {
        self * other
    }

    fn eq_val(self, other: Self) -> (r: bool) {
        self == other
    }
}

impl Zero for isize {
    fn zero() -> (r: Self) {
        0
    }
}

impl One for isize {
    fn one() -> (r: Self) {
        1
    }
}

} // verus!
