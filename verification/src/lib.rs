//! Binary diffing and patching over byte buffers: an instruction stream of
//! `Add` and `Copy` controls with varint-encoded lengths, framed by a patch
//! header (magic, version, metadata) and validated by MD5 hashes.

use vstd::prelude::*;

pub mod buffer;
pub mod io_error;
pub mod bipatch;
pub mod bidiff;
pub mod files_diff;

verus! {

/// Magic number at the start of every patch header.
pub const MAGIC: u32 = 0xB1DF;

/// Version of the patch format written into every patch header.
pub const VERSION: u32 = 0x1000;

} // verus!
