//! The conditions under which an operation gives no result.

use vstd::prelude::*;

verus! {

/// Why an operation failed.
#[derive(Debug, Copy, Clone, PartialEq, Eq, Structural)]
pub enum Error {
    /// A row or column index lies outside the shape.
    IndexOutOfRange,
    /// The matrix does not have full rank, so it has no inverse.
    NotInvertible,
}

} // verus!
