//! The library's error type.
use vstd::prelude::*;

verus! {

/// What can go wrong in this library.
#[derive(Debug, PartialEq, Eq)]
pub enum Error {
    /// The name to greet is empty once white space is trimmed from it.
    EmptyName,
    /// The column count of the left matrix differs from the row count of the right one.
    MatrixShapeMismatch { a_col: usize, b_row: usize },
    /// A worker stopped before it answered.
    WorkerGone,
    /// The two vectors of a dot product differ in length.
    DotProductLengthMismatch { a: usize, b: usize },
    /// A counter was asked for under a name that was not registered.
    UnknownMetric(String),
}

/// The result type of this library.
pub type Result<T> = core::result::Result<T, Error>;

} // verus!
