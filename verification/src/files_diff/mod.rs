//! Patch metadata, hashing, compression and the patch header.

pub mod apply;
pub mod compress;
pub mod diff;
pub mod error;
pub mod header;
pub mod patch;

pub use apply::apply_mmap;
pub use compress::CompressAlgorithm;
pub use diff::diff_metadata;
pub use error::{Error, Result};
pub use patch::{DiffAlgorithm, PatchMetadata};

use vstd::prelude::*;

verus! {

/// What MD5 computes for `data`.
pub uninterp spec fn md5_digest(data: Seq<u8>) -> Seq<u8>;

/// The MD5 digest of `data` with `md5::compute`. Claimed of it: the digest
/// is `md5_digest(data)`, a function of the data alone.
#[verifier::external_body]
fn md5_compute(data: &[u8]) -> (d: [u8; 16])
    ensures
        d@ == md5_digest(data@),
{
    md5::compute(data).0
}

/// The lowercase hexadecimal digit for a value below 16.
pub open spec fn hex_digit(d: nat) -> char {
    if d < 10 {
        (48 + d) as char
    } else {
        (87 + d) as char
    }
}

/// Lowercase hexadecimal text of `data`: two digits per byte, high half first.
pub open spec fn hex_lower(data: Seq<u8>) -> Seq<char>
    decreases data.len(),
{
    if data.len() == 0 {
        Seq::empty()
    } else {
        seq![hex_digit(data[0] as nat / 16), hex_digit(data[0] as nat % 16)] + hex_lower(
            data.drop_first(),
        )
    }
}

/// Lowercase hex text of `data` with `hex::encode`. Claimed of it: the text
/// is `hex_lower(data)`, two lowercase digits per byte.
#[verifier::external_body]
fn hex_encode(data: &[u8]) -> (s: String)
    ensures
        s@ == hex_lower(data@),
{
    hex::encode(data)
}

/// The hash that patches carry for their input and output: the MD5 digest
/// of the data as lowercase hex.
pub open spec fn hash_of(data: Seq<u8>) -> Seq<char> {
    hex_lower(md5_digest(data))
}

/// The MD5 digest of `data` as lowercase hex.
pub fn hash(data: &[u8]) -> (h: String)
    ensures
        h@ == hash_of(data@),
{
    let digest = md5_compute(data);
    hex_encode(digest.as_slice())
}

} // verus!
