use vstd::prelude::*;

use crate::error::LinalgError;

verus! {

/// Checks that two vectors have the same length, as every element-wise
/// operation (sum, difference, dot product) requires, and returns that length.
pub fn check_same_length<T>(a: &[T], b: &[T]) -> (r: Result<usize, LinalgError>)
    ensures
        a@.len() == b@.len() ==> r == Ok::<usize, LinalgError>(a@.len() as usize),
        a@.len() != b@.len() ==> r == Err::<usize, LinalgError>(LinalgError::DimensionMismatch),
{
    if a.len() != b.len() {
        return Err(LinalgError::DimensionMismatch);
    }
    Ok(a.len())
}

} // verus!
