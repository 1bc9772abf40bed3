//! charmath: a linear-algebra library of vectors, matrices and quaternions,
//! generic over a scalar type described by the `CharMathNumeric` trait.
//!
//! Contracts throughout the crate speak of scalar values through the
//! mathematical model given by `CharMathNumeric::sval`.  The scalar
//! implementations provided here are the built-in integer types, whose
//! arithmetic the model captures exactly.  Scalar types with inexact
//! arithmetic can implement the same trait outside this crate.

use vstd::prelude::*;

pub mod linear;
pub mod numeric;

verus! {

/// Explicit copy, the library's own copying hook: `cm_copy` hands back a
/// fresh value of the target type built from `self`.
pub trait CharMathCopy<T> {
    fn cm_copy(&self) -> T;
}

} // verus!
