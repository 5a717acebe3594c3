use mmap_bidiff::bipatch::{apply_patch_stream, DecodeError};
use mmap_bidiff::files_diff::header::write_patch_header;
use mmap_bidiff::files_diff::{apply_mmap, hash, CompressAlgorithm, DiffAlgorithm, Error, PatchMetadata};
use mmap_bidiff::io_error::{IoError, IoErrorKind};

fn make_patch(stream: &[u8]) -> Vec<u8> {
    let meta_bytes = [0x95u8, 0, 0];
    let mut patch = vec![0u8; 12 + meta_bytes.len() + stream.len()];
    let n = write_patch_header(&mut patch, &meta_bytes).unwrap();
    patch[n..].copy_from_slice(stream);
    patch
}

fn meta_for(base: &[u8], after: &[u8]) -> PatchMetadata {
    PatchMetadata {
        diff_algorithm: DiffAlgorithm::Bidiff1,
        compress_algorithm: CompressAlgorithm::Uncompressed,
        before_hash: hash(base),
        after_hash: hash(after),
        output_size: after.len() as u64,
    }
}

#[test]
fn stream_writes_fragments_and_succeeds() {
    let base = b"hello world";
    // add "hello " (zero deltas) over the base, copy "there", seek 0
    let mut stream = vec![6u8, 0, 0, 0, 0, 0, 0, 5];
    stream.extend_from_slice(b"there");
    stream.push(0);
    let patch = make_patch(&stream);
    let expected = b"hello there";
    let meta = meta_for(base, expected);
    let mut output = vec![0u8; expected.len()];
    assert_eq!(apply_patch_stream(&patch, base, &mut output, &meta), Ok(()));
    assert_eq!(&output, expected);
}

#[test]
fn add_bytes_are_added_wrapping() {
    let base = [10u8, 20];
    let stream = [2u8, 1, 255, 0, 0];
    let patch = make_patch(&stream);
    let meta = meta_for(&base, &[11, 19]);
    let mut output = vec![0u8; 2];
    assert_eq!(apply_patch_stream(&patch, &base, &mut output, &meta), Ok(()));
    assert_eq!(output, vec![11, 19]);
}

#[test]
fn stream_follows_seeks() {
    let base = b"abcdef";
    // add "ab", copy nothing, seek +2; add "ef", copy "!", seek 0
    let stream = [2u8, 0, 0, 0, 4, 2, 0, 0, 1, b'!', 0];
    let patch = make_patch(&stream);
    let mut output = vec![0u8; 5];
    let meta = meta_for(base, b"abef!");
    assert_eq!(apply_patch_stream(&patch, base, &mut output, &meta), Ok(()));
    assert_eq!(&output, b"abef!");
}

#[test]
fn empty_stream_patches_to_empty_output() {
    let patch = make_patch(&[]);
    let meta = meta_for(b"ab", b"");
    let mut output: [u8; 0] = [];
    assert_eq!(apply_patch_stream(&patch, b"ab", &mut output, &meta), Ok(()));
}

#[test]
fn short_output_is_reported() {
    let patch = make_patch(&[1, 0, 0, 0]);
    let meta = meta_for(b"x", b"xy");
    let mut output = vec![0u8; 2];
    let r = apply_patch_stream(&patch, b"x", &mut output, &meta);
    let expected = IoError::ShortOutput { written: 1, expected: 2 };
    assert_eq!(r, Err(Error::Bipatch(DecodeError::Io(expected))));
    assert_eq!(expected.kind(), IoErrorKind::UnexpectedEof);
    assert_eq!(output, vec![b'x', 0]);
}

#[test]
fn output_overflow_is_reported() {
    let patch = make_patch(&[2, 0, 0, 0, 0]);
    let meta = meta_for(b"xy", b"x");
    let mut output = vec![0u8; 1];
    let r = apply_patch_stream(&patch, b"xy", &mut output, &meta);
    assert_eq!(r, Err(Error::Bipatch(DecodeError::Io(IoError::OutputOverflow))));
    assert_eq!(output, vec![0u8]);
}

#[test]
fn copy_overflow_keeps_the_add_fragment() {
    let patch = make_patch(&[1, 0, 1, b'z', 0]);
    let meta = meta_for(b"x", b"x");
    let mut output = vec![0u8; 1];
    let r = apply_patch_stream(&patch, b"x", &mut output, &meta);
    assert_eq!(r, Err(Error::Bipatch(DecodeError::Io(IoError::OutputOverflow))));
    assert_eq!(output, vec![b'x']);
}

#[test]
fn add_past_base_is_reported() {
    let patch = make_patch(&[3, 0, 0, 0, 0, 0]);
    let meta = meta_for(b"x", b"xxx");
    let mut output = vec![0u8; 3];
    let r = apply_patch_stream(&patch, b"x", &mut output, &meta);
    assert_eq!(r, Err(Error::Io(IoError::AddPastBase)));
}

#[test]
fn truncated_stream_is_reported() {
    let patch = make_patch(&[0, 4, 1]);
    let meta = meta_for(b"x", b"x");
    let mut output = vec![0u8; 1];
    let r = apply_patch_stream(&patch, b"x", &mut output, &meta);
    assert_eq!(r, Err(Error::Io(IoError::PatchTruncated)));
}

#[test]
fn wrong_output_hash_is_reported() {
    let patch = make_patch(&[1, 0, 0, 0]);
    let meta = meta_for(b"x", b"y");
    let mut output = vec![0u8; 1];
    let r = apply_patch_stream(&patch, b"x", &mut output, &meta);
    assert_eq!(r, Err(Error::AfterHashMismatch));
    assert_eq!(output, vec![b'x']);
}

#[test]
fn before_hash_mismatch() {
    let patch = make_patch(&[1, 0, 0, 0]);
    let mut meta = meta_for(b"x", b"x");
    meta.before_hash = hash(b"y");
    let mut output = vec![0u8; 1];
    let r = apply_patch_stream(&patch, b"x", &mut output, &meta);
    assert!(matches!(r, Err(Error::BeforeHashMismatch)));
    assert_eq!(output, vec![0u8]);
}

#[test]
fn output_size_mismatch() {
    let patch = make_patch(&[1, 0, 0, 0]);
    let meta = meta_for(b"x", b"xy");
    let mut output = vec![0u8; 1];
    let r = apply_patch_stream(&patch, b"x", &mut output, &meta);
    assert!(matches!(r, Err(Error::AfterHashMismatch)));
}

#[test]
fn bad_header_is_reported() {
    let mut patch = make_patch(&[]);
    patch[0] = 0;
    let meta = meta_for(b"", b"");
    let mut output = vec![];
    let r = apply_patch_stream(&patch, b"", &mut output, &meta);
    assert!(matches!(r, Err(Error::Bipatch(DecodeError::WrongMagic(0xB100)))));
}

#[test]
fn apply_mmap_patches_the_base() {
    let base = b"abc";
    let patch = make_patch(&[3, 0, 0, 1, 0, 0, 0, 1, b'd', 0]);
    let meta = meta_for(base, b"abdd");
    let mut output = vec![0u8; 4];
    assert_eq!(apply_mmap(base, &patch, &mut output, &meta), Ok(()));
    assert_eq!(&output, b"abdd");
}

#[test]
fn apply_mmap_reports_the_stream_error() {
    let base = b"abc";
    let patch = make_patch(&[3, 0, 0, 0]);
    let meta = meta_for(base, b"abc");
    let mut output = vec![0u8; 3];
    let r = apply_mmap(base, &patch, &mut output, &meta);
    assert!(matches!(r, Err(Error::Io(IoError::VarintUnexpectedEof))));
    assert_eq!(&output, &[0u8, 0, 0]);
}
