//! The ways in which a matrix operation can fail.

use vstd::prelude::*;

verus! {

/// Why a matrix operation could not be carried out.
#[derive(Clone, Copy, Debug, PartialEq, Eq, Structural)]
pub enum MatrixError {
    /// The shapes of the operands do not fit the operation.
    DimensionMismatch,
    /// The matrix has no inverse.
    SingularMatrix,
    /// A text does not denote a number, or a chromaticity has no luminance.
    Malformed,
}

} // verus!
