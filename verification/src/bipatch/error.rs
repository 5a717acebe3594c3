//! Errors of the patch side.

use vstd::prelude::*;
use crate::io_error::IoError;

verus! {

/// Errors while decoding a patch.
#[derive(Debug, PartialEq)]
pub enum DecodeError {
    /// I/O error
    Io(IoError),
    /// The header's magic number is not `MAGIC`.
    WrongMagic(u32),
    /// The header's version is not `VERSION`.
    WrongVersion(u32),
}

/// Result of the patch side.
pub type DecodeResult<T> = Result<T, DecodeError>;

} // verus!
