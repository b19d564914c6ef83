use vstd::prelude::*;

verus! {

/// The ways in which an operation can refuse its operands.
#[derive(Debug, Clone, Copy, PartialEq, Eq, Structural)]
pub enum LinalgError {
    /// Two operands that must share a dimension do not.
    DimensionMismatch,
    /// A square-only operation was given a matrix that is not square.
    NotSquare,
    /// The matrix has determinant zero and so has no inverse.
    NotInvertible,
    /// A row or column index lies outside the matrix.
    IndexOutOfRange,
}

impl LinalgError {
    /// A short human-readable description of the failure.
    pub fn message(&self) -> (r: &'static str)
        ensures
            *self == LinalgError::DimensionMismatch ==> r@ == "vectors must be same length"@,
            *self == LinalgError::NotSquare ==> r@ == "matrix must be square"@,
            *self == LinalgError::NotInvertible ==> r@ == "matrix is not invertible"@,
            *self == LinalgError::IndexOutOfRange ==> r@ == "row or column index out of range"@,
    {
        match self {
            LinalgError::DimensionMismatch => "vectors must be same length",
            LinalgError::NotSquare => "matrix must be square",
            LinalgError::NotInvertible => "matrix is not invertible",
            LinalgError::IndexOutOfRange => "row or column index out of range",
        }
    }
}

} // verus!
