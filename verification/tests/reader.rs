use mmap_bidiff::bipatch::reader::{PatchFragment, ZeroCopyReader};
use mmap_bidiff::io_error::{IoError, IoErrorKind};

fn expect_add<'a>(r: Result<Option<PatchFragment<'a>>, IoError>) -> (&'a [u8], &'a [u8]) {
    match r {
        Ok(Some(PatchFragment::Add(base, add))) => (base, add),
        _ => panic!("expected an add fragment"),
    }
}

fn expect_copy<'a>(r: Result<Option<PatchFragment<'a>>, IoError>) -> &'a [u8] {
    match r {
        Ok(Some(PatchFragment::Copy(s))) => s,
        _ => panic!("expected a copy fragment"),
    }
}

#[test]
fn reader_yields_add_then_copy_then_ends() {
    // add 2 bytes [5, 6] over the base, copy [0xAA], seek +1;
    // then add 1 byte [0], copy nothing, seek 0
    let patch = [2u8, 5, 6, 1, 0xAA, 2, 1, 0, 0, 0];
    let base = [10u8, 20, 30, 40];
    let mut r = ZeroCopyReader::new(&patch, &base).unwrap();
    assert_eq!(expect_add(r.next()), (&[10u8, 20][..], &[5u8, 6][..]));
    assert_eq!(expect_copy(r.next()), &[0xAA]);
    // base position is now 2 + 1 = 3
    assert_eq!(expect_add(r.next()), (&[40u8][..], &[0u8][..]));
    assert_eq!(expect_copy(r.next()), &[] as &[u8]);
    assert!(matches!(r.next(), Ok(None)));
    assert!(matches!(r.next(), Ok(None)));
}

#[test]
fn reader_over_one_control_then_done() {
    let patch = [1u8, 0, 0, 0];
    let mut r = ZeroCopyReader::new(&patch, b"x").unwrap();
    assert_eq!(expect_add(r.next()), (&b"x"[..], &[0u8][..]));
    assert_eq!(expect_copy(r.next()), &[] as &[u8]);
    assert!(matches!(r.next(), Ok(None)));
    assert!(matches!(r.next(), Ok(None)));
}

#[test]
fn reader_over_empty_stream_is_done() {
    let mut r = ZeroCopyReader::new(&[], b"abc").unwrap();
    assert!(matches!(r.next(), Ok(None)));
}

#[test]
fn reader_reads_back_a_negative_seek() {
    // add 3 bytes, copy 0, seek -2 (zigzag 3); then add 2 from base position 1
    let patch = [3u8, 0, 0, 0, 0, 3, 2, 0, 0, 0, 0];
    let base = [1u8, 2, 3];
    let mut r = ZeroCopyReader::new(&patch, &base).unwrap();
    assert_eq!(expect_add(r.next()).0, &[1, 2, 3]);
    assert_eq!(expect_copy(r.next()), &[] as &[u8]);
    assert_eq!(expect_add(r.next()).0, &[2, 3]);
    assert_eq!(expect_copy(r.next()), &[] as &[u8]);
    assert!(matches!(r.next(), Ok(None)));
}

#[test]
fn reader_reports_truncated_header() {
    let patch = [0x80u8];
    let base = [0u8; 1];
    let mut r = ZeroCopyReader::new(&patch, &base).unwrap();
    assert!(matches!(r.next(), Err(IoError::VarintUnexpectedEof)));
    // a failed read leaves the reader where it was
    assert!(matches!(r.next(), Err(IoError::VarintUnexpectedEof)));
}

#[test]
fn reader_reports_missing_seek() {
    let mut r = ZeroCopyReader::new(&[1u8, 0, 0], b"x").unwrap();
    assert!(matches!(r.next(), Err(IoError::VarintUnexpectedEof)));
}

#[test]
fn reader_reports_add_past_base() {
    let mut r = ZeroCopyReader::new(&[5u8, 0, 0, 0, 0, 0, 0, 0], b"ab").unwrap();
    let e = r.next().err().unwrap();
    assert_eq!(e, IoError::AddPastBase);
    assert_eq!(e.kind(), IoErrorKind::InvalidData);
}

#[test]
fn reader_reports_copy_past_patch() {
    let mut r = ZeroCopyReader::new(&[0u8, 3, 0], b"").unwrap();
    let e = r.next().err().unwrap();
    assert_eq!(e, IoError::PatchTruncated);
    assert_eq!(e.kind(), IoErrorKind::UnexpectedEof);
}

#[test]
fn reader_reports_add_bytes_past_patch() {
    let mut r = ZeroCopyReader::new(&[3u8, 1], b"abc").unwrap();
    assert_eq!(r.next().err(), Some(IoError::PatchTruncated));
}

#[test]
fn reader_reports_seek_overflow() {
    // add 1 byte, copy nothing, seek i64::MAX from base position 1
    let mut patch = vec![1u8, 0, 0];
    patch.extend_from_slice(&[0xFE, 0xFF, 0xFF, 0xFF, 0xFF, 0xFF, 0xFF, 0xFF, 0xFF, 0x01]);
    let mut r = ZeroCopyReader::new(&patch, &[7]).unwrap();
    let e = r.next().err().unwrap();
    assert_eq!(e, IoError::SeekOverflow);
    assert_eq!(e.kind(), IoErrorKind::InvalidData);
}
