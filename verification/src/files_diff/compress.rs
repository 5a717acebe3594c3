//! Compression of patch data.

use vstd::prelude::*;
use std::io::{Read, Write};
use super::Error;

verus! {

/// The zstd level patches are compressed with (maximum compression).
pub const ZSTD_COMPRESSION_LEVEL: i32 = 21;

/// What zstd's streaming encoder produces for `input` at `level`.
pub uninterp spec fn zstd_compressed(input: Seq<u8>, level: i32) -> Seq<u8>;

/// What zstd's streaming decoder produces for `input`.
pub uninterp spec fn zstd_decompressed(input: Seq<u8>) -> Seq<u8>;

/// The four bytes that open a Zstandard frame (the magic number
/// `0xFD2FB528`, little-endian).
pub open spec fn zstd_frame_magic() -> Seq<u8> {
    seq![0x28u8, 0xB5u8, 0x2Fu8, 0xFDu8]
}

/// Whether `s` opens with none of the four-byte magic numbers that zstd's
/// decoder accepts: those of Zstandard frames, current and legacy (whose
/// last three bytes are `B5 2F FD`), and those of skippable frames
/// (`5x 2A 4D 18`).
pub open spec fn lacks_zstd_magic(s: Seq<u8>) -> bool {
    &&& s.len() >= 4
    &&& !(s[1] == 0xB5 && s[2] == 0x2F && s[3] == 0xFD)
    &&& !(0x50 <= s[0] <= 0x5F && s[1] == 0x2A && s[2] == 0x4D && s[3] == 0x18)
}

/// Compresses `input` with zstd: `zstd::Encoder::new(Vec::new(), level)`,
/// `write_all(input)`, `finish()`. Claimed of it: for a level in zstd's
/// range it succeeds (the encoder's context is created by
/// `zstd_safe::CCtx::create`, which panics rather than fails when zstd
/// cannot allocate it, and the level and the empty dictionary are valid
/// parameters), and its output is `zstd_compressed(input, level)`, a
/// function of the input and the level alone, which is one Zstandard frame
/// and so opens with the frame magic. The message of a failure is left
/// unsaid.
#[verifier::external_body]
fn zstd_compress(input: &[u8], level: i32) -> (r: core::result::Result<Vec<u8>, String>)
    requires
        1 <= level <= 22,
    ensures
        r is Ok && r->Ok_0@ == zstd_compressed(input@, level) && r->Ok_0@.len() >= 4
            && r->Ok_0@.take(4) == zstd_frame_magic(),
{
    let mut encoder = zstd::Encoder::new(Vec::new(), level)
        .map_err(|e| format!("failed to create zstd encoder: {}", e))?;
    encoder.write_all(input).map_err(|e| format!("failed to write: {}", e))?;
    encoder.finish().map_err(|e| format!("failed to finish: {}", e))
}

/// Decompresses `input` with zstd: `zstd::Decoder::new(input)`,
/// `read_to_end`. Claimed of it: when it succeeds its output is
/// `zstd_decompressed(input)`, and that is `x` whenever `input` is what
/// zstd's encoder produced for `x` (at any level); on what zstd's encoder
/// produced, at any level, it succeeds (every level clamps to at most 22,
/// whose window of 2^27 bytes is within the decoder's default limit); on
/// input that opens with no magic number that the decoder knows it fails.
/// Whether it succeeds on other input is left unsaid.
#[verifier::external_body]
fn zstd_decompress(input: &[u8]) -> (r: core::result::Result<Vec<u8>, String>)
    ensures
        r matches Ok(out) ==> out@ == zstd_decompressed(input@) && forall|x: Seq<u8>, level: i32|
            zstd_compressed(x, level) == input@ ==> out@ == x,
        (exists|x: Seq<u8>, level: i32| zstd_compressed(x, level) == input@) ==> r is Ok,
        lacks_zstd_magic(input@) ==> r is Err,
{
    let mut output = Vec::new();
    let mut decoder = zstd::Decoder::new(input)
        .map_err(|e| format!("failed to create zstd decoder: {}", e))?;
    decoder.read_to_end(&mut output).map_err(|e| format!("failed to read: {}", e))?;
    Ok(output)
}

/// Compression algorithms available for patch data.
#[derive(Debug, PartialEq, Copy, Clone, Eq, Hash, Structural)]
pub enum CompressAlgorithm {
    /// No compression. Patch data is stored as-is.
    Uncompressed,
    /// Zstandard compression with level 21 (maximum compression).
    Zstd,
}

/// What compressing `input` with `alg` yields when it succeeds.
pub open spec fn compressed_by(alg: CompressAlgorithm, input: Seq<u8>) -> Seq<u8> {
    match alg {
        CompressAlgorithm::Uncompressed => input,
        CompressAlgorithm::Zstd => zstd_compressed(input, ZSTD_COMPRESSION_LEVEL),
    }
}

/// Patch data is compressed by zstd at level 21 (maximum compression), and
/// stored as it is without compression.
pub proof fn lemma_compressed_by_level(x: Seq<u8>)
    ensures
        compressed_by(CompressAlgorithm::Zstd, x) == zstd_compressed(x, 21),
        compressed_by(CompressAlgorithm::Uncompressed, x) == x,
{
}

impl CompressAlgorithm {
    /// The name of the algorithm, as it is displayed.
    pub fn name(&self) -> (s: &'static str)
        ensures
            s@ == (match *self {
                CompressAlgorithm::Uncompressed => "None"@,
                CompressAlgorithm::Zstd => "Zstd"@,
            }),
    {
        match self {
            CompressAlgorithm::Uncompressed => "None",
            CompressAlgorithm::Zstd => "Zstd",
        }
    }

    /// Compresses the input data using the selected algorithm.
    /// `Uncompressed` copies the input; `Zstd` compresses it at level 21
    /// into one Zstandard frame.
    pub fn compress(self, input: &[u8]) -> (r: core::result::Result<Vec<u8>, Error>)
        ensures
            r matches Ok(out) && out@ == compressed_by(self, input@),
            self == CompressAlgorithm::Uncompressed ==> (r matches Ok(out) && out@ == input@),
            self == CompressAlgorithm::Zstd ==> (r matches Ok(out) && out@.len() >= 4 && out@.take(4)
                == zstd_frame_magic()),
            self == CompressAlgorithm::Zstd ==> (r matches Ok(out) && out@ == zstd_compressed(input@, 21)),
    {
        match self {
            CompressAlgorithm::Uncompressed => Ok(vstd::slice::slice_to_vec(input)),
            CompressAlgorithm::Zstd => match zstd_compress(input, ZSTD_COMPRESSION_LEVEL) {
                Ok(out) => Ok(out),
                Err(msg) => Err(Error::Zstd(msg)),
            },
        }
    }

    /// Decompresses the input data using the selected algorithm.
    /// Decompressing what `compress` produced gives back the data that was
    /// compressed; `Zstd` succeeds on every frame that zstd's encoder
    /// produced, at any level, and fails with `Error::Zstd` on input that is
    /// not a zstd stream.
    pub fn decompress(self, input: &[u8]) -> (r: core::result::Result<Vec<u8>, Error>)
        ensures
            self == CompressAlgorithm::Uncompressed ==> (r matches Ok(out) && out@ == input@),
            self == CompressAlgorithm::Zstd ==> (r matches Ok(out) ==> out@ == zstd_decompressed(
                input@,
            )),
            r matches Ok(out) ==> forall|x: Seq<u8>|
                compressed_by(self, x) == input@ ==> out@ == x,
            (exists|x: Seq<u8>| compressed_by(self, x) == input@) ==> r is Ok,
            self == CompressAlgorithm::Zstd && (exists|x: Seq<u8>, level: i32| zstd_compressed(x, level)
                == input@) ==> (r matches Ok(out) && out@ == zstd_decompressed(input@)),
            self == CompressAlgorithm::Zstd && lacks_zstd_magic(input@) ==> (r matches Err(e) && e is Zstd),
            r matches Err(e) ==> self == CompressAlgorithm::Zstd && e is Zstd,
    {
        match self {
            CompressAlgorithm::Uncompressed => Ok(vstd::slice::slice_to_vec(input)),
            CompressAlgorithm::Zstd => match zstd_decompress(input) {
                Ok(out) => Ok(out),
                Err(msg) => Err(Error::Zstd(msg)),
            },
        }
    }
}

} // verus!
