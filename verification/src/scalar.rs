//! The number type the engine computes with.

use vstd::prelude::*;

verus! {

/// Arithmetic the engine needs from its number type.
///
/// The methods carry no contract: the engine assumes nothing of them. Its own
/// contracts speak of their results through the predicates of this module,
/// each of which holds of a value exactly when the named method may have
/// returned it. Where each method has one result for given operands
/// ([`is_exact`]), those contracts leave one result to the engine's functions
/// too.
pub trait Scalar: Copy {
    /// The additive identity.
    fn zero() -> Self;

    /// The quotient `num / den`.
    fn ratio(num: u64, den: u128) -> Self;

    /// `self + rhs`.
    fn plus(self, rhs: Self) -> Self;

    /// `self - rhs`.
    fn minus(self, rhs: Self) -> Self;

    /// `self * rhs`.
    fn times(self, rhs: Self) -> Self;

    /// Whether `self < rhs`.
    fn less_than(self, rhs: Self) -> bool;
}

/// `z` is a value that `T::zero()` may return.
pub open spec fn is_zero<T: Scalar>(z: T) -> bool {
    call_ensures(T::zero, (), z)
}

/// `q` is a value that `T::ratio(num, den)` may return.
pub open spec fn is_ratio<T: Scalar>(num: u64, den: u128, q: T) -> bool {
    call_ensures(T::ratio, (num, den), q)
}

/// `s` is a value that `a.plus(b)` may return.
pub open spec fn is_sum<T: Scalar>(a: T, b: T, s: T) -> bool {
    call_ensures(T::plus, (a, b), s)
}

/// `d` is a value that `a.minus(b)` may return.
pub open spec fn is_difference<T: Scalar>(a: T, b: T, d: T) -> bool {
    call_ensures(T::minus, (a, b), d)
}

/// `p` is a value that `a.times(b)` may return.
pub open spec fn is_product<T: Scalar>(a: T, b: T, p: T) -> bool {
    call_ensures(T::times, (a, b), p)
}

/// `verdict` is an answer that `a.less_than(b)` may give.
pub open spec fn is_less<T: Scalar>(a: T, b: T, verdict: bool) -> bool {
    call_ensures(T::less_than, (a, b), verdict)
}

/// The arithmetic of `T` is exact: each operation has one result for given
/// operands.
pub open spec fn is_exact<T: Scalar>() -> bool {
    &&& forall|a: T, b: T| is_zero(a) && is_zero(b) ==> a == b
    &&& forall|num: u64, den: u128, a: T, b: T|
        #[trigger] is_ratio(num, den, a) && #[trigger] is_ratio(num, den, b) ==> a == b
    &&& forall|x: T, y: T, a: T, b: T| #[trigger] is_sum(x, y, a) && #[trigger] is_sum(x, y, b) ==> a == b
    &&& forall|x: T, y: T, a: T, b: T|
        #[trigger] is_difference(x, y, a) && #[trigger] is_difference(x, y, b) ==> a == b
    &&& forall|x: T, y: T, a: T, b: T|
        #[trigger] is_product(x, y, a) && #[trigger] is_product(x, y, b) ==> a == b
    &&& forall|x: T, y: T, a: bool, b: bool| #[trigger] is_less(x, y, a) && #[trigger] is_less(x, y, b) ==> a == b
}

} // verus!
