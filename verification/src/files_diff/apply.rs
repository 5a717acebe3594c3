//! Applying a patch held in memory.

use vstd::prelude::*;
use super::{Error, Result, PatchMetadata, hash, hash_of};
use super::header::read_patch_header;
use crate::bipatch::{apply_patch_stream, apply_result};

verus! {

/// Applies `patch` (whose header frames `meta`) to `base`, writing
/// `output`: reads the header, checks the hash of the base, applies the
/// instruction stream, and checks the hash of the output.
pub fn apply_mmap(base: &[u8], patch: &[u8], output: &mut [u8], meta: &PatchMetadata) -> (r: Result<()>)
    ensures
        (r, final(output)@) == apply_result(patch@, base@, old(output)@, *meta),
        r is Ok ==> hash_of(base@) == meta.before_hash@ && hash_of(final(output)@) == meta.after_hash@,
{
    match read_patch_header(patch) {
        Ok(_) => {},
        Err(e) => return Err(e),
    }
    if hash(base) != meta.before_hash {
        return Err(Error::BeforeHashMismatch);
    }
    match apply_patch_stream(patch, base, output, meta) {
        Ok(()) => {},
        Err(e) => return Err(e),
    }
    if hash(output) != meta.after_hash {
        return Err(Error::AfterHashMismatch);
    }
    Ok(())
}

} // verus!
