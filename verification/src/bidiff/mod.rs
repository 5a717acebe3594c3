//! Encoding of diff controls into a patch instruction stream.

pub mod encoder;
pub mod error;

use vstd::prelude::*;

verus! {

/// One instruction of a diff: bytes to add, bytes to copy, and how far to
/// move in the base afterwards.
pub struct Control<'a> {
    pub add: &'a [u8],
    pub copy: &'a [u8],
    pub seek: i64,
}

} // verus!
