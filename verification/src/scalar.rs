//! The number type the solver computes with.
//!
//! Nothing in this crate fixes a numeric representation. A scalar is any type
//! with the ordinary arithmetic operators and comparisons, and every contract
//! speaks of the operators' own specifications: what `a + b` returns is
//! `plus(a, b)`, and so on. A contract therefore pins a result down to the
//! exact sequence of operations that produced it, whatever rounding each
//! operation does.
use core::ops::{Add, Div, Mul, Neg, Sub};
use vstd::prelude::*;
use vstd::std_specs::cmp::{PartialEqSpec, PartialOrdSpec};
use vstd::std_specs::convert::FromSpec;
use vstd::std_specs::ops::{AddSpec, DivSpec, MulSpec, NegSpec, SubSpec};

verus! {

/// Types with the four operations, negation and comparisons.
pub trait Scalar: Copy + Add<Output = Self> + Sub<Output = Self> + Mul<Output = Self> + Div<
    Output = Self,
> + Neg<Output = Self> + PartialOrd {

}

impl<T> Scalar for T where
    T: Copy + Add<Output = T> + Sub<Output = T> + Mul<Output = T> + Div<Output = T> + Neg<
        Output = T,
    > + PartialOrd,
 {

}

/// The additive and multiplicative unit of a scalar type.
pub struct Units<T> {
    pub zero: T,
    pub one: T,
}

impl<T: Copy> Clone for Units<T> {
    fn clone(&self) -> (r: Self)
        ensures
            r == *self,
    {
        *self
    }
}

impl<T: Copy> Copy for Units<T> {

}

/// Scalars that hold the small whole numbers.
pub trait Real: Scalar + From<u32> {

}

impl<T> Real for T where T: Scalar + From<u32> {

}

/// The scalar that stands for `k`.
pub open spec fn num<T: Real>(k: u32) -> T {
    T::from_spec(k)
}

/// The scalar that stands for `k`.
pub fn number<T: Real>(k: u32) -> (r: T)
    requires
        T::obeys_from_spec(),
    ensures
        r == num::<T>(k),
{
    T::from(k)
}

/// The scalar that stands for `p / q`.
pub open spec fn ratio<T: Real>(p: u32, q: u32) -> T {
    over(num::<T>(p), num::<T>(q))
}

/// The scalar that stands for `p / q`.
pub fn fraction<T: Real>(p: u32, q: u32) -> (r: T)
    requires
        real_ops::<T>(),
    ensures
        r == ratio::<T>(p, q),
{
    let a: T = T::from(p);
    let b: T = T::from(q);
    a / b
}

/// Zero and one of a scalar type.
pub open spec fn units<T: Real>() -> Units<T> {
    Units { zero: num::<T>(0), one: num::<T>(1) }
}

/// Zero and one of a scalar type.
pub fn units_of<T: Real>() -> (u: Units<T>)
    requires
        T::obeys_from_spec(),
    ensures
        u == units::<T>(),
{
    Units { zero: T::from(0), one: T::from(1) }
}

/// The type's operators are total, and its whole numbers what their
/// specification says.
pub open spec fn real_ops<T: Real>() -> bool {
    total::<T>() && T::obeys_from_spec()
}

/// Magnitudes at which a computation is given up.
pub struct Limits<T> {
    /// A divisor of smaller magnitude counts as zero. In double precision, `1e-300`.
    pub tiny: T,
    /// An iterate with a larger entry counts as diverged. In double precision, `1e50`.
    pub huge: T,
}

impl<T: Copy> Clone for Limits<T> {
    fn clone(&self) -> (r: Self)
        ensures
            r == *self,
    {
        *self
    }
}

impl<T: Copy> Copy for Limits<T> {

}

#[verifier::inline]
pub open spec fn plus<T: Add<Output = T>>(a: T, b: T) -> T {
    a.add_spec(b)
}

#[verifier::inline]
pub open spec fn minus<T: Sub<Output = T>>(a: T, b: T) -> T {
    a.sub_spec(b)
}

#[verifier::inline]
pub open spec fn times<T: Mul<Output = T>>(a: T, b: T) -> T {
    a.mul_spec(b)
}

#[verifier::inline]
pub open spec fn over<T: Div<Output = T>>(a: T, b: T) -> T {
    a.div_spec(b)
}

#[verifier::inline]
pub open spec fn negated<T: Neg<Output = T>>(a: T) -> T {
    a.neg_spec()
}

/// `a < b` as the type's own comparison decides it.
pub open spec fn less<T: PartialOrd>(a: T, b: T) -> bool {
    a.partial_cmp_spec(&b) == Some(core::cmp::Ordering::Less)
}

/// `a <= b` as the type's own comparison decides it.
pub open spec fn at_most<T: PartialOrd>(a: T, b: T) -> bool {
    a.partial_cmp_spec(&b) == Some(core::cmp::Ordering::Less) || a.partial_cmp_spec(&b) == Some(
        core::cmp::Ordering::Equal,
    )
}

/// `a > b` as the type's own comparison decides it.
pub open spec fn greater<T: PartialOrd>(a: T, b: T) -> bool {
    a.partial_cmp_spec(&b) == Some(core::cmp::Ordering::Greater)
}

/// `a >= b` as the type's own comparison decides it.
pub open spec fn at_least<T: PartialOrd>(a: T, b: T) -> bool {
    a.partial_cmp_spec(&b) == Some(core::cmp::Ordering::Greater) || a.partial_cmp_spec(&b) == Some(
        core::cmp::Ordering::Equal,
    )
}

/// `a == b` as the type's own equality decides it.
pub open spec fn same<T: PartialEq>(a: T, b: T) -> bool {
    a.eq_spec(&b)
}

/// The type's operators and comparisons return what their specifications say.
pub open spec fn lawful<T: Scalar>() -> bool {
    &&& T::obeys_add_spec()
    &&& T::obeys_sub_spec()
    &&& T::obeys_mul_spec()
    &&& T::obeys_div_spec()
    &&& T::obeys_neg_spec()
    &&& T::obeys_partial_cmp_spec()
    &&& T::obeys_eq_spec()
}

/// No operator of the type can fail, whatever its operands.
pub open spec fn total<T: Scalar>() -> bool {
    &&& lawful::<T>()
    &&& forall|a: T, b: T| #[trigger] a.add_req(b)
    &&& forall|a: T, b: T| #[trigger] a.sub_req(b)
    &&& forall|a: T, b: T| #[trigger] a.mul_req(b)
    &&& forall|a: T, b: T| #[trigger] a.div_req(b)
    &&& forall|a: T| #[trigger] a.neg_req()
}

/// A value is finite when subtracting it from itself leaves zero: neither an
/// infinity nor a not-a-number does.
pub open spec fn finite<T: Sub<Output = T> + PartialEq>(zero: T, x: T) -> bool {
    same(minus(x, x), zero)
}

/// Finiteness of one value.
pub fn is_finite<T: Copy + Sub<Output = T> + PartialEq>(zero: T, x: T) -> (r: bool)
    requires
        T::obeys_sub_spec(),
        T::obeys_eq_spec(),
        x.sub_req(x),
    ensures
        r == finite(zero, x),
{
    x - x == zero
}

/// The larger of `a` and `b`; the other one where one of them does not equal
/// itself, as a not-a-number does not.
pub open spec fn larger<T: PartialOrd>(a: T, b: T) -> T {
    if greater(a, b) || !same(b, b) {
        a
    } else {
        b
    }
}

/// The larger of `a` and `b`; the other one where one of them does not equal
/// itself.
pub fn max<T: Copy + PartialOrd>(a: T, b: T) -> (r: T)
    requires
        T::obeys_partial_cmp_spec(),
        T::obeys_eq_spec(),
    ensures
        r == larger(a, b),
{
    if a > b {
        a
    } else if b == b {
        b
    } else {
        a
    }
}

/// The smaller of `a` and `b`; the other one where one of them does not equal
/// itself.
pub open spec fn smaller<T: PartialOrd>(a: T, b: T) -> T {
    if less(a, b) || !same(b, b) {
        a
    } else {
        b
    }
}

/// The smaller of `a` and `b`; the other one where one of them does not equal
/// itself.
pub fn min<T: Copy + PartialOrd>(a: T, b: T) -> (r: T)
    requires
        T::obeys_partial_cmp_spec(),
        T::obeys_eq_spec(),
    ensures
        r == smaller(a, b),
{
    if a < b {
        a
    } else if b == b {
        b
    } else {
        a
    }
}

/// `x` brought into `[lo, hi]`: first up to `lo`, then down to `hi`.
pub open spec fn clamped<T: PartialOrd>(x: T, lo: T, hi: T) -> T {
    let y = if less(x, lo) {
        lo
    } else {
        x
    };
    if greater(y, hi) {
        hi
    } else {
        y
    }
}

/// `x` brought into `[lo, hi]`: first up to `lo`, then down to `hi`.
pub fn clamp<T: Copy + PartialOrd>(x: T, lo: T, hi: T) -> (r: T)
    requires
        T::obeys_partial_cmp_spec(),
    ensures
        r == clamped(x, lo, hi),
{
    let y: T = if x < lo {
        lo
    } else {
        x
    };
    if y > hi {
        hi
    } else {
        y
    }
}

/// The magnitude of `x`.
pub open spec fn magnitude<T: Sub<Output = T> + PartialOrd>(zero: T, x: T) -> T {
    if less(x, zero) {
        minus(zero, x)
    } else {
        x
    }
}

/// The magnitude of `x`.
pub fn abs<T: Copy + Sub<Output = T> + PartialOrd>(zero: T, x: T) -> (r: T)
    requires
        T::obeys_sub_spec(),
        T::obeys_partial_cmp_spec(),
        less(x, zero) ==> zero.sub_req(x),
    ensures
        r == magnitude(zero, x),
{
    if x < zero {
        zero - x
    } else {
        x
    }
}

} // verus!
