//! The metadata that a diff records.
//!
//! The diff algorithm itself, the search that turns two inputs into
//! controls, is not part of this library: its source is not available
//! here. What a diff records besides its controls is computed here, and
//! `header::write_patch_header` and `bidiff::encoder` write the patch.

use vstd::prelude::*;
use super::{CompressAlgorithm, DiffAlgorithm, PatchMetadata, hash, hash_of};

verus! {

/// The metadata of a patch from `before` to `after`: the diff algorithm,
/// the compression, the hashes of both inputs and the size of the output.
pub fn diff_metadata(before: &[u8], after: &[u8], compress_algorithm: CompressAlgorithm) -> (m: PatchMetadata)
    ensures
        m.diff_algorithm == DiffAlgorithm::Bidiff1,
        m.compress_algorithm == compress_algorithm,
        m.before_hash@ == hash_of(before@),
        m.after_hash@ == hash_of(after@),
        m.output_size == after@.len(),
{
    PatchMetadata {
        compress_algorithm,
        diff_algorithm: DiffAlgorithm::Bidiff1,
        before_hash: hash(before),
        after_hash: hash(after),
        output_size: after.len() as u64,
    }
}

} // verus!
