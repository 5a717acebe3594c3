use integer_encoding::VarIntWriter;
use mmap_bidiff::bipatch::varint::{VarIntReader, VarIntReaderZigZag};
use mmap_bidiff::io_error::{IoError, IoErrorKind};

#[test]
fn read_single_byte_varint() {
    let data = [0x05u8, 0xAA];
    let mut s: &[u8] = &data;
    assert_eq!(s.read_varint(), Ok(5));
    assert_eq!(s, &[0xAA]);
}

#[test]
fn read_two_byte_varint() {
    let data = [0xACu8, 0x02, 0x07];
    let mut s: &[u8] = &data;
    assert_eq!(s.read_varint(), Ok(300));
    assert_eq!(s, &[0x07]);
}

#[test]
fn read_max_u64_varint() {
    let data = [0xFFu8, 0xFF, 0xFF, 0xFF, 0xFF, 0xFF, 0xFF, 0xFF, 0xFF, 0x01];
    let mut s: &[u8] = &data;
    assert_eq!(s.read_varint(), Ok(u64::MAX));
    assert!(s.is_empty());
}

#[test]
fn read_tenth_byte_keeps_low_bit_only() {
    let data = [0x80u8, 0x80, 0x80, 0x80, 0x80, 0x80, 0x80, 0x80, 0x80, 0x7F];
    let mut s: &[u8] = &data;
    assert_eq!(s.read_varint(), Ok(1u64 << 63));
}

#[test]
fn read_varint_eof() {
    let data = [0x80u8, 0x80];
    let mut s: &[u8] = &data;
    assert_eq!(s.read_varint(), Err(IoError::VarintUnexpectedEof));
    assert!(s.is_empty());
    let mut e: &[u8] = &[];
    assert_eq!(e.read_varint(), Err(IoError::VarintUnexpectedEof));
}

#[test]
fn read_varint_too_long() {
    let data = [0x80u8; 11];
    let mut s: &[u8] = &data;
    assert_eq!(s.read_varint(), Err(IoError::VarintTooLong));
    assert_eq!(s.len(), 1);
    assert_eq!(IoError::VarintTooLong.kind(), IoErrorKind::InvalidData);
    assert_eq!(IoError::VarintUnexpectedEof.kind(), IoErrorKind::UnexpectedEof);
}

#[test]
fn read_varint_usize_value() {
    let data = [0x80u8, 0x01];
    let mut s: &[u8] = &data;
    assert_eq!(s.read_varint_usize(), Ok(128usize));
}

#[test]
fn read_zigzag_values() {
    let data = [0x00u8, 0x01, 0x02, 0x03, 0xFE, 0x01];
    let mut s: &[u8] = &data;
    assert_eq!(s.read_varint_i64(), Ok(0));
    assert_eq!(s.read_varint_i64(), Ok(-1));
    assert_eq!(s.read_varint_i64(), Ok(1));
    assert_eq!(s.read_varint_i64(), Ok(-2));
    assert_eq!(s.read_varint_i64(), Ok(127));
    assert!(s.is_empty());
}

#[test]
fn read_zigzag_extremes() {
    let min = [0xFFu8, 0xFF, 0xFF, 0xFF, 0xFF, 0xFF, 0xFF, 0xFF, 0xFF, 0x01];
    let mut s: &[u8] = &min;
    assert_eq!(s.read_varint_i64(), Ok(i64::MIN));
    let max = [0xFEu8, 0xFF, 0xFF, 0xFF, 0xFF, 0xFF, 0xFF, 0xFF, 0xFF, 0x01];
    let mut s: &[u8] = &max;
    assert_eq!(s.read_varint_i64(), Ok(i64::MAX));
}

#[test]
fn varint_roundtrip_through_integer_encoding() {
    for &v in &[0u64, 1, 127, 128, 300, 16383, 16384, 1 << 35, u64::MAX - 1, u64::MAX] {
        let mut buf = vec![0u8; 12];
        let used = (&mut buf[..]).write_varint(v).unwrap();
        buf[used] = 0x42;
        let mut s: &[u8] = &buf;
        assert_eq!(s.read_varint(), Ok(v));
        assert_eq!(s[0], 0x42);
    }
}

#[test]
fn zigzag_roundtrip_through_integer_encoding() {
    for &v in &[0i64, -1, 1, -64, 64, -65, 1 << 40, i64::MIN, i64::MAX] {
        let mut buf = vec![0u8; 12];
        let used = (&mut buf[..]).write_varint(v).unwrap();
        let mut s: &[u8] = &buf[..used];
        assert_eq!(s.read_varint_i64(), Ok(v));
        assert!(s.is_empty());
    }
}
