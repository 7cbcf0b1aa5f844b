//! Numeric routines that come from outside this crate.
//!
//! Matrix inversion and the elementary functions belong to whoever chooses the
//! scalar type. `Numerics` lists them without promising anything about what they
//! return. Functions that use them ask, in their `requires`, that a routine
//! return one result per argument (`repeatable`), and name that result in their
//! `ensures` (`inverse_of`, `root_of`, ...).
use crate::linalg::{shaped, Mat};
use vstd::prelude::*;

verus! {

/// Routines over a scalar type.
pub trait Numerics<T> {
    /// Inverse of a square matrix, or nothing where it has none.
    fn invert(&self, m: &Mat<T>) -> Option<Mat<T>>;

    /// Square root.
    fn sqrt(&self, x: T) -> T;

    /// Natural logarithm.
    fn log(&self, x: T) -> T;

    /// Exponential.
    fn exp(&self, x: T) -> T;

    /// `x` to the power `y`.
    fn pow(&self, x: T, y: T) -> T;
}

/// The matrix in `o`, by its model.
pub open spec fn opt_view<T>(o: Option<Mat<T>>) -> Option<Seq<Seq<T>>> {
    match o {
        Some(m) => Some(m@),
        None => None,
    }
}

/// Inverting a matrix with model `h` can return a matrix with model `v`.
pub open spec fn may_invert_to<T, C: Numerics<T>>(
    ops: &C,
    h: Seq<Seq<T>>,
    v: Option<Seq<Seq<T>>>,
) -> bool {
    exists|m: Mat<T>, o: Option<Mat<T>>|
        m@ == h && #[trigger] call_ensures(C::invert, (ops, &m), o) && opt_view(o) == v
}

/// What inverting a matrix with model `h` returns.
pub open spec fn inverse_of<T, C: Numerics<T>>(ops: &C, h: Seq<Seq<T>>) -> Option<Seq<Seq<T>>> {
    choose|v: Option<Seq<Seq<T>>>| may_invert_to(ops, h, v)
}

/// Inversion returns one result per matrix, of the matrix's shape.
pub open spec fn inversion_repeatable<T, C: Numerics<T>>(ops: &C) -> bool {
    &&& forall|h: Seq<Seq<T>>, v: Option<Seq<Seq<T>>>, w: Option<Seq<Seq<T>>>|
        #[trigger] may_invert_to(ops, h, v) && #[trigger] may_invert_to(ops, h, w) ==> v == w
    &&& forall|h: Seq<Seq<T>>, r: Seq<Seq<T>>|
        #[trigger] may_invert_to(ops, h, Some(r)) ==> shaped(r, h.len() as int, h.len() as int)
}

/// Square roots, logarithms, exponentials and powers each return one result per
/// argument.
pub open spec fn functions_repeatable<T, C: Numerics<T>>(ops: &C) -> bool {
    &&& forall|x: T, v: T, w: T|
        #[trigger] call_ensures(C::sqrt, (ops, x), v) && #[trigger] call_ensures(
            C::sqrt,
            (ops, x),
            w,
        ) ==> v == w
    &&& forall|x: T, v: T, w: T|
        #[trigger] call_ensures(C::log, (ops, x), v) && #[trigger] call_ensures(
            C::log,
            (ops, x),
            w,
        ) ==> v == w
    &&& forall|x: T, v: T, w: T|
        #[trigger] call_ensures(C::exp, (ops, x), v) && #[trigger] call_ensures(
            C::exp,
            (ops, x),
            w,
        ) ==> v == w
    &&& forall|x: T, y: T, v: T, w: T|
        #[trigger] call_ensures(C::pow, (ops, x, y), v) && #[trigger] call_ensures(
            C::pow,
            (ops, x, y),
            w,
        ) ==> v == w
}

/// Every routine returns one result per argument.
pub open spec fn repeatable<T, C: Numerics<T>>(ops: &C) -> bool {
    inversion_repeatable(ops) && functions_repeatable(ops)
}

/// What the square root of `x` is.
pub open spec fn root_of<T, C: Numerics<T>>(ops: &C, x: T) -> T {
    choose|v: T| call_ensures(C::sqrt, (ops, x), v)
}

/// What the logarithm of `x` is.
pub open spec fn log_of<T, C: Numerics<T>>(ops: &C, x: T) -> T {
    choose|v: T| call_ensures(C::log, (ops, x), v)
}

/// What the exponential of `x` is.
pub open spec fn exp_of<T, C: Numerics<T>>(ops: &C, x: T) -> T {
    choose|v: T| call_ensures(C::exp, (ops, x), v)
}

/// What `x` to the power `y` is.
pub open spec fn pow_of<T, C: Numerics<T>>(ops: &C, x: T, y: T) -> T {
    choose|v: T| call_ensures(C::pow, (ops, x, y), v)
}

/// Inverts `m`.
pub fn invert_with<T, C: Numerics<T>>(ops: &C, m: &Mat<T>) -> (o: Option<Mat<T>>)
    requires
        inversion_repeatable(ops),
    ensures
        opt_view(o) == inverse_of(ops, m@),
        o matches Some(r) ==> shaped(r@, m@.len() as int, m@.len() as int),
{
    let o: Option<Mat<T>> = ops.invert(m);
    assert(may_invert_to(ops, m@, opt_view(o)));
    o
}

/// Square root.
pub fn sqrt_with<T: Copy, C: Numerics<T>>(ops: &C, x: T) -> (v: T)
    requires
        functions_repeatable(ops),
    ensures
        v == root_of(ops, x),
{
    ops.sqrt(x)
}

/// Natural logarithm.
pub fn log_with<T: Copy, C: Numerics<T>>(ops: &C, x: T) -> (v: T)
    requires
        functions_repeatable(ops),
    ensures
        v == log_of(ops, x),
{
    ops.log(x)
}

/// Exponential.
pub fn exp_with<T: Copy, C: Numerics<T>>(ops: &C, x: T) -> (v: T)
    requires
        functions_repeatable(ops),
    ensures
        v == exp_of(ops, x),
{
    ops.exp(x)
}

/// `x` to the power `y`.
pub fn pow_with<T: Copy, C: Numerics<T>>(ops: &C, x: T, y: T) -> (v: T)
    requires
        functions_repeatable(ops),
    ensures
        v == pow_of(ops, x, y),
{
    ops.pow(x, y)
}

} // verus!
