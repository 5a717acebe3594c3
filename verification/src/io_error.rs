//! I/O failures that the stream code reports, as plain values.

use vstd::prelude::*;

verus! {

/// Kind of an I/O failure, following the kinds of `std::io::ErrorKind` that
/// the patch code produces.
#[derive(Debug, Clone, Copy, PartialEq, Eq, Structural)]
pub enum IoErrorKind {
    UnexpectedEof,
    InvalidData,
    WriteZero,
}

/// An I/O failure of the patch code, with its cause.
#[derive(Debug, Clone, Copy, PartialEq, Eq, Structural)]
pub enum IoError {
    /// The input ended inside a varint ("Unexpected EOF while reading varint").
    VarintUnexpectedEof,
    /// A varint's value does not fit the integer type it is read into
    /// ("Varint overflow or invalid target type").
    VarintOverflow,
    /// Ten bytes were read and all of them had the continuation bit set ("Varint too long").
    VarintTooLong,
    /// A fixed-size read found fewer bytes than it needed ("failed to fill whole buffer").
    UnexpectedEof,
    /// A write found less room than it needed ("failed to write whole buffer").
    WriteZero,
    /// The patch stream wrote `written` bytes where `expected` were due.
    ShortOutput { written: usize, expected: usize },
    /// The add or copy bytes of a control run past the end of the patch.
    PatchTruncated,
    /// The add fragment of a control runs past the end of the base.
    AddPastBase,
    /// The seek of a control moves the base position out of the `i64` range.
    SeekOverflow,
    /// The fragments of the patch run past the end of the output.
    OutputOverflow,
}

/// Result of an I/O step of the patch code.
pub type IoResult<T> = core::result::Result<T, IoError>;

impl IoError {
    /// The kind of this failure.
    pub fn kind(&self) -> (k: IoErrorKind)
        ensures
            k == (match *self {
                IoError::VarintUnexpectedEof => IoErrorKind::UnexpectedEof,
                IoError::VarintOverflow => IoErrorKind::InvalidData,
                IoError::VarintTooLong => IoErrorKind::InvalidData,
                IoError::UnexpectedEof => IoErrorKind::UnexpectedEof,
                IoError::WriteZero => IoErrorKind::WriteZero,
                IoError::ShortOutput { .. } => IoErrorKind::UnexpectedEof,
                IoError::PatchTruncated => IoErrorKind::UnexpectedEof,
                IoError::AddPastBase => IoErrorKind::InvalidData,
                IoError::SeekOverflow => IoErrorKind::InvalidData,
                IoError::OutputOverflow => IoErrorKind::InvalidData,
            }),
    {
        match self {
            IoError::VarintUnexpectedEof => IoErrorKind::UnexpectedEof,
            IoError::VarintOverflow => IoErrorKind::InvalidData,
            IoError::VarintTooLong => IoErrorKind::InvalidData,
            IoError::UnexpectedEof => IoErrorKind::UnexpectedEof,
            IoError::WriteZero => IoErrorKind::WriteZero,
            IoError::ShortOutput { .. } => IoErrorKind::UnexpectedEof,
            IoError::PatchTruncated => IoErrorKind::UnexpectedEof,
            IoError::AddPastBase => IoErrorKind::InvalidData,
            IoError::SeekOverflow => IoErrorKind::InvalidData,
            IoError::OutputOverflow => IoErrorKind::InvalidData,
        }
    }
}

} // verus!
