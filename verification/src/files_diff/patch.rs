//! Patch metadata.
//!
//! Binary format of a patch:
//! `MAGIC (u32 LE) | VERSION (u32 LE) | METADATA LEN (u32 LE) | METADATA | INSTRUCTION STREAM`
//! where METADATA is the MessagePack encoding of `PatchMetadata` and the
//! instruction stream is uncompressed.

use vstd::prelude::*;
use super::compress::CompressAlgorithm;

verus! {

/// Algorithms available for generating binary diffs.
#[derive(Debug, PartialEq, Eq, Clone, Copy, Structural)]
pub enum DiffAlgorithm {
    /// Bidirectional diff algorithm version 1.
    Bidiff1,
}

impl DiffAlgorithm {
    /// The name of the algorithm, as it is displayed.
    pub fn name(&self) -> (s: &'static str)
        ensures
            s@ == "Bidiff1"@,
    {
        "Bidiff1"
    }
}

/// What a patch needs besides its instructions: how it was made and the
/// hashes that validate its input and output.
#[derive(Debug, PartialEq)]
pub struct PatchMetadata {
    /// Algorithm used to generate this patch
    pub diff_algorithm: DiffAlgorithm,
    /// Compression method used for the patch data
    pub compress_algorithm: CompressAlgorithm,
    /// MD5 hash of the source file, in lowercase hex
    pub before_hash: String,
    /// MD5 hash of the target file, in lowercase hex
    pub after_hash: String,
    /// Exact length of the resulting file after the patch is applied
    pub output_size: u64,
}

} // verus!
