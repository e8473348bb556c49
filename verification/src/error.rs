//! The conditions under which an operation of this crate has no result.

use vstd::prelude::*;

verus! {

/// Why an operation has no result.
#[derive(Debug, Clone, Copy, PartialEq, Eq, Structural)]
pub enum CurveError {
    /// A division by a number that has no inverse modulo the field's
    /// modulus; in a prime field, a division by zero.
    DivisionByZero,
    /// The point at infinity has no affine coordinates.
    PointAtInfinity,
}

} // verus!
