//! The arithmetic that the network is written in.
//!
//! Every operation of the network is generic over the number type that its
//! tensors hold. `Scalar` lists the primitive operations that are used;
//! nothing is assumed of them. `Arith` is a mathematical table with one entry
//! for each primitive, and `computes` says that the primitives of a number type
//! return what the table holds. A contract of the form
//! `forall|m| computes(m) ==> result == formula(m, ..)` thus fixes the result of
//! a function for every number type, down to the order of the operations.

use vstd::prelude::*;

verus! {

/// A number type, with the primitive operations of single-precision numbers.
pub trait Scalar: Copy + Send + Sync {
    /// The number with this IEEE 754 single-precision bit pattern.
    fn from_bits(bits: u32) -> Self;

    /// The IEEE 754 single-precision bit pattern of the number.
    fn to_bits(self) -> u32;

    /// The number nearest to `n`.
    fn from_usize(n: usize) -> Self;

    /// The number nearest to `n`.
    fn from_i64(n: i64) -> Self;

    fn plus(self, other: Self) -> Self;

    fn minus(self, other: Self) -> Self;

    fn times(self, other: Self) -> Self;

    fn over(self, other: Self) -> Self;

    fn negated(self) -> Self;

    fn magnitude(self) -> Self;

    fn exponential(self) -> Self;

    fn square_root(self) -> Self;

    fn power(self, exponent: Self) -> Self;

    /// The larger of the two.
    fn larger(self, other: Self) -> Self;

    /// Rounded down to an integral number.
    fn rounded_down(self) -> Self;

    /// Rounded to the nearest integral number.
    fn rounded(self) -> Self;

    /// Whether the number is below `other`.
    fn less(self, other: Self) -> bool;

    /// Whether the two compare equal.
    fn same(self, other: Self) -> bool;

    /// Truncated to an integer, clamped to what the integer type holds.
    fn to_usize(self) -> usize;

    /// Truncated to an integer, clamped to what the integer type holds.
    fn to_isize(self) -> isize;

    /// Truncated to an integer, clamped to what the integer type holds.
    fn to_u8(self) -> u8;
}

/// A table of the primitive operations as mathematical functions.
#[verifier::reject_recursive_types(T)]
pub struct Arith<T> {
    pub bits: spec_fn(u32) -> T,
    pub to_bits: spec_fn(T) -> u32,
    pub of_usize: spec_fn(usize) -> T,
    pub of_i64: spec_fn(i64) -> T,
    pub plus: spec_fn(T, T) -> T,
    pub minus: spec_fn(T, T) -> T,
    pub times: spec_fn(T, T) -> T,
    pub over: spec_fn(T, T) -> T,
    pub negated: spec_fn(T) -> T,
    pub magnitude: spec_fn(T) -> T,
    pub exponential: spec_fn(T) -> T,
    pub square_root: spec_fn(T) -> T,
    pub power: spec_fn(T, T) -> T,
    pub larger: spec_fn(T, T) -> T,
    pub rounded_down: spec_fn(T) -> T,
    pub rounded: spec_fn(T) -> T,
    pub less: spec_fn(T, T) -> bool,
    pub same: spec_fn(T, T) -> bool,
    pub to_usize: spec_fn(T) -> usize,
    pub to_isize: spec_fn(T) -> isize,
    pub to_u8: spec_fn(T) -> u8,
}

/// The primitives of `T` return what the table `m` holds.
pub open spec fn computes<T: Scalar>(m: Arith<T>) -> bool {
    &&& forall|b: u32, r: T| #[trigger] call_ensures(T::from_bits, (b,), r) ==> r == (m.bits)(b)
    &&& forall|a: T, r: u32| #[trigger] call_ensures(T::to_bits, (a,), r) ==> r == (m.to_bits)(a)
    &&& forall|n: usize, r: T|
        #[trigger] call_ensures(T::from_usize, (n,), r) ==> r == (m.of_usize)(n)
    &&& forall|n: i64, r: T| #[trigger] call_ensures(T::from_i64, (n,), r) ==> r == (m.of_i64)(n)
    &&& forall|a: T, b: T, r: T| #[trigger] call_ensures(T::plus, (a, b), r) ==> r == (m.plus)(a, b)
    &&& forall|a: T, b: T, r: T|
        #[trigger] call_ensures(T::minus, (a, b), r) ==> r == (m.minus)(a, b)
    &&& forall|a: T, b: T, r: T|
        #[trigger] call_ensures(T::times, (a, b), r) ==> r == (m.times)(a, b)
    &&& forall|a: T, b: T, r: T| #[trigger] call_ensures(T::over, (a, b), r) ==> r == (m.over)(a, b)
    &&& forall|a: T, r: T| #[trigger] call_ensures(T::negated, (a,), r) ==> r == (m.negated)(a)
    &&& forall|a: T, r: T| #[trigger] call_ensures(T::magnitude, (a,), r) ==> r == (m.magnitude)(a)
    &&& forall|a: T, r: T|
        #[trigger] call_ensures(T::exponential, (a,), r) ==> r == (m.exponential)(a)
    &&& forall|a: T, r: T|
        #[trigger] call_ensures(T::square_root, (a,), r) ==> r == (m.square_root)(a)
    &&& forall|a: T, b: T, r: T|
        #[trigger] call_ensures(T::power, (a, b), r) ==> r == (m.power)(a, b)
    &&& forall|a: T, b: T, r: T|
        #[trigger] call_ensures(T::larger, (a, b), r) ==> r == (m.larger)(a, b)
    &&& forall|a: T, r: T|
        #[trigger] call_ensures(T::rounded_down, (a,), r) ==> r == (m.rounded_down)(a)
    &&& forall|a: T, r: T| #[trigger] call_ensures(T::rounded, (a,), r) ==> r == (m.rounded)(a)
    &&& forall|a: T, b: T, r: bool|
        #[trigger] call_ensures(T::less, (a, b), r) ==> r == (m.less)(a, b)
    &&& forall|a: T, b: T, r: bool|
        #[trigger] call_ensures(T::same, (a, b), r) ==> r == (m.same)(a, b)
    &&& forall|a: T, r: usize| #[trigger] call_ensures(
        T::to_usize,
        (a,),
        r,
    ) ==> r == (m.to_usize)(a)
    &&& forall|a: T, r: isize| #[trigger] call_ensures(
        T::to_isize,
        (a,),
        r,
    ) ==> r == (m.to_isize)(a)
    &&& forall|a: T, r: u8| #[trigger] call_ensures(T::to_u8, (a,), r) ==> r == (m.to_u8)(a)
}

/// Bit pattern of 1.
pub const ONE: u32 = 0x3f80_0000;

impl<T> Arith<T> {
    pub open spec fn zero(self) -> T {
        (self.bits)(0)
    }

    pub open spec fn one(self) -> T {
        (self.bits)(ONE)
    }

    pub open spec fn is_zero(self, a: T) -> bool {
        (self.same)(a, self.zero())
    }
}

} // verus!
