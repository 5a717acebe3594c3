use mmap_bidiff::bipatch::DecodeError;
use mmap_bidiff::files_diff::header::{read_patch_header, write_patch_header};
use mmap_bidiff::files_diff::Error;
use mmap_bidiff::io_error::IoError;
use mmap_bidiff::{MAGIC, VERSION};

#[test]
fn magic_and_version_values() {
    assert_eq!(MAGIC, 0xB1DF);
    assert_eq!(VERSION, 0x1000);
}

#[test]
fn write_header_layout() {
    let mut out = [0xEEu8; 17];
    let n = write_patch_header(&mut out, &[9, 8, 7]).unwrap();
    assert_eq!(n, 15);
    assert_eq!(
        out,
        [0xDF, 0xB1, 0, 0, 0x00, 0x10, 0, 0, 3, 0, 0, 0, 9, 8, 7, 0xEE, 0xEE]
    );
}

#[test]
fn header_roundtrip() {
    let meta = [1u8, 2, 3, 4, 5];
    let mut out = [0u8; 30];
    let n = write_patch_header(&mut out, &meta).unwrap();
    let (start, end) = read_patch_header(&out).unwrap();
    assert_eq!((start, end), (12, n));
    assert_eq!(&out[start..end], &meta);
}

#[test]
fn write_header_too_short() {
    let mut out = [0u8; 6];
    let r = write_patch_header(&mut out, &[]);
    assert!(matches!(r, Err(Error::Io(IoError::WriteZero))));
    assert_eq!(out, [0xDF, 0xB1, 0, 0, 0x00, 0x10]);
}

#[test]
fn read_header_wrong_magic() {
    let data = [1u8, 0, 0, 0, 0, 0x10, 0, 0, 0, 0, 0, 0];
    assert!(matches!(
        read_patch_header(&data),
        Err(Error::Bipatch(DecodeError::WrongMagic(1)))
    ));
}

#[test]
fn read_header_wrong_version() {
    let data = [0xDFu8, 0xB1, 0, 0, 2, 0, 0, 0, 0, 0, 0, 0];
    assert!(matches!(
        read_patch_header(&data),
        Err(Error::Bipatch(DecodeError::WrongVersion(2)))
    ));
}

#[test]
fn read_header_too_short() {
    assert!(matches!(read_patch_header(&[0xDF, 0xB1]), Err(Error::Io(IoError::UnexpectedEof))));
    assert!(matches!(
        read_patch_header(&[0xDF, 0xB1, 0, 0, 0, 0x10, 0, 0, 4]),
        Err(Error::Io(IoError::UnexpectedEof))
    ));
}

#[test]
fn read_header_metadata_past_end() {
    let data = [0xDFu8, 0xB1, 0, 0, 0, 0x10, 0, 0, 0xFF, 0, 0, 0];
    assert!(matches!(read_patch_header(&data), Err(Error::Io(IoError::UnexpectedEof))));
    let data = [0xDFu8, 0xB1, 0, 0, 0, 0x10, 0, 0, 4, 0, 0, 0, 1, 2];
    assert!(matches!(read_patch_header(&data), Err(Error::Io(IoError::UnexpectedEof))));
    let data = [0xDFu8, 0xB1, 0, 0, 0, 0x10, 0, 0, 2, 0, 0, 0, 1, 2];
    assert_eq!(read_patch_header(&data), Ok((12, 14)));
}

#[test]
fn write_header_metadata_does_not_fit() {
    let mut out = [0u8; 13];
    let r = write_patch_header(&mut out, &[9, 8, 7]);
    assert_eq!(r, Err(Error::Io(IoError::WriteZero)));
    assert_eq!(out, [0xDF, 0xB1, 0, 0, 0x00, 0x10, 0, 0, 3, 0, 0, 0, 9]);
}
