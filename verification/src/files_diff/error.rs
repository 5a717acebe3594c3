//! Errors of diffing and patching.

use vstd::prelude::*;
use crate::io_error::IoError;
use crate::bipatch::DecodeError;

verus! {

/// Errors that can occur during diffing and patching: algorithm errors,
/// hash validation failures and I/O failures.
#[derive(Debug, PartialEq)]
pub enum Error {
    /// I/O error
    Io(IoError),
    /// An error in the diff algorithm.
    Bidiff(String),
    /// An error while decoding the patch.
    Bipatch(DecodeError),
    /// The hash of the source does not match the expected hash.
    BeforeHashMismatch,
    /// The hash of the generated output does not match the expected hash.
    AfterHashMismatch,
    /// The hash of the operations does not match the expected hash.
    OperationsHashMismatch,
    /// An I/O error during file operations, described.
    IoString(String),
    /// An error of the zstd compressor.
    Zstd(String),
    /// An error while serializing patch metadata, described.
    Serialize(String),
    /// An error while deserializing patch metadata, described.
    Deserialize(String),
}

/// Result of diffing and patching.
pub type Result<T> = core::result::Result<T, Error>;

} // verus!
