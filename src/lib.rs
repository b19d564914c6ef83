//! Shape rules and structural kernels of a small dense linear-algebra library.
//!
//! Vectors are `Vec<T>` and matrices are row-major `Vec<Vec<T>>`. The functions
//! here decide which operands an operation accepts, and move entries around
//! (minors, transposes, identity matrices) without doing arithmetic on them, so
//! they serve any element type the caller computes with.
pub mod error;
pub mod matrix;
pub mod vector;
