use mmap_bidiff::files_diff::CompressAlgorithm;

#[test]
fn uncompressed_copies_input() {
    let data = b"some patch bytes";
    assert_eq!(CompressAlgorithm::Uncompressed.compress(data).unwrap(), data.to_vec());
    assert_eq!(CompressAlgorithm::Uncompressed.decompress(data).unwrap(), data.to_vec());
}

#[test]
fn zstd_compresses_and_roundtrips() {
    let data = vec![7u8; 4096];
    let packed = CompressAlgorithm::Zstd.compress(&data).unwrap();
    assert!(packed.len() < data.len());
    assert_ne!(packed, data);
    let unpacked = CompressAlgorithm::Zstd.decompress(&packed).unwrap();
    assert_eq!(unpacked, data);
}

#[test]
fn zstd_roundtrips_empty_input() {
    let packed = CompressAlgorithm::Zstd.compress(&[]).unwrap();
    assert_eq!(CompressAlgorithm::Zstd.decompress(&packed).unwrap(), Vec::<u8>::new());
}

#[test]
fn zstd_rejects_garbage() {
    let r = CompressAlgorithm::Zstd.decompress(b"not a zstd frame");
    assert!(matches!(r, Err(mmap_bidiff::files_diff::Error::Zstd(_))));
}

#[test]
fn zstd_output_is_a_zstd_frame() {
    let packed = CompressAlgorithm::Zstd.compress(b"hello world").unwrap();
    assert!(packed.len() >= 4);
    assert_eq!(&packed[..4], &[0x28, 0xB5, 0x2F, 0xFD]);
}

#[test]
fn zstd_rejects_text() {
    let r = CompressAlgorithm::Zstd.decompress(b"not zstd data");
    assert!(matches!(r, Err(mmap_bidiff::files_diff::Error::Zstd(_))));
}

#[test]
fn both_algorithms_roundtrip() {
    let data = b"hello darkness my old friend";
    for alg in [CompressAlgorithm::Uncompressed, CompressAlgorithm::Zstd] {
        let packed = alg.compress(data).unwrap();
        assert_eq!(alg.decompress(&packed).unwrap(), data.to_vec());
    }
}

#[test]
fn zstd_decompresses_frames_of_other_levels() {
    let data = b"hello darkness my old friend, hello darkness".to_vec();
    for level in [1, 3, 19, 22] {
        let frame = zstd::encode_all(&data[..], level).unwrap();
        assert_eq!(CompressAlgorithm::Zstd.decompress(&frame).unwrap(), data);
    }
}
