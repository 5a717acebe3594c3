//! Errors of the diff side.

use vstd::prelude::*;
use crate::io_error::IoError;

verus! {

/// Errors while producing a diff.
#[derive(Debug)]
pub enum BidiffError {
    /// I/O error
    Io(IoError),
}

/// Result of the diff side.
pub type BidiffResult<T> = Result<T, BidiffError>;

} // verus!
