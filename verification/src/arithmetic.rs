//! The arithmetic the engine is run with.
//!
//! The engine is written once for every way of computing with binary32
//! numbers. An embedding program supplies the operations as an
//! [`Arithmetic`]; the engine's contracts then say which operation was
//! applied to which operands, and in what order, without assuming anything
//! about what an operation returns.
use vstd::prelude::*;
use crate::scalar::Scalar;

verus! {

/// The operations on scalars that the engine needs.
///
/// Nothing is asked of an implementation: every statement the engine makes
/// about a computed number has the form "this is what the backend returned
/// for these operands".
pub trait Arithmetic {
    /// `a + b`.
    fn sum(&self, a: Scalar, b: Scalar) -> Scalar;

    /// `a - b`.
    fn difference(&self, a: Scalar, b: Scalar) -> Scalar;

    /// `a * b`.
    fn product(&self, a: Scalar, b: Scalar) -> Scalar;

    /// `a / b`.
    fn quotient(&self, a: Scalar, b: Scalar) -> Scalar;

    /// The square root of `a`.
    fn root(&self, a: Scalar) -> Scalar;

    /// The scalar nearest to the whole number `n`.
    fn from_count(&self, n: u32) -> Scalar;
}

/// `r` is what the backend gives for `a + b`.
pub open spec fn is_sum<M: Arithmetic>(m: &M, a: Scalar, b: Scalar, r: Scalar) -> bool {
    call_ensures(M::sum, (m, a, b), r)
}

/// `r` is what the backend gives for `a - b`.
pub open spec fn is_difference<M: Arithmetic>(m: &M, a: Scalar, b: Scalar, r: Scalar) -> bool {
    call_ensures(M::difference, (m, a, b), r)
}

/// `r` is what the backend gives for `a * b`.
pub open spec fn is_product<M: Arithmetic>(m: &M, a: Scalar, b: Scalar, r: Scalar) -> bool {
    call_ensures(M::product, (m, a, b), r)
}

/// `r` is what the backend gives for `a / b`.
pub open spec fn is_quotient<M: Arithmetic>(m: &M, a: Scalar, b: Scalar, r: Scalar) -> bool {
    call_ensures(M::quotient, (m, a, b), r)
}

/// `r` is what the backend gives for the square root of `a`.
pub open spec fn is_root<M: Arithmetic>(m: &M, a: Scalar, r: Scalar) -> bool {
    call_ensures(M::root, (m, a), r)
}

/// `r` is what the backend gives for the whole number `n`.
pub open spec fn is_count<M: Arithmetic>(m: &M, n: u32, r: Scalar) -> bool {
    call_ensures(M::from_count, (m, n), r)
}

/// Whether the backend computes: each operation gives one result for given
/// operands, whenever it is asked.
pub open spec fn deterministic<M: Arithmetic>(m: &M) -> bool {
    &&& forall|a: Scalar, b: Scalar, r: Scalar, s: Scalar|
        is_sum(m, a, b, r) && is_sum(m, a, b, s) ==> r == s
    &&& forall|a: Scalar, b: Scalar, r: Scalar, s: Scalar|
        is_difference(m, a, b, r) && is_difference(m, a, b, s) ==> r == s
    &&& forall|a: Scalar, b: Scalar, r: Scalar, s: Scalar|
        is_product(m, a, b, r) && is_product(m, a, b, s) ==> r == s
    &&& forall|a: Scalar, b: Scalar, r: Scalar, s: Scalar|
        is_quotient(m, a, b, r) && is_quotient(m, a, b, s) ==> r == s
    &&& forall|a: Scalar, r: Scalar, s: Scalar| is_root(m, a, r) && is_root(m, a, s) ==> r == s
    &&& forall|n: u32, r: Scalar, s: Scalar| is_count(m, n, r) && is_count(m, n, s) ==> r == s
}

} // verus!
