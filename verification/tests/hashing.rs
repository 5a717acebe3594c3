use mmap_bidiff::files_diff::{diff_metadata, hash, CompressAlgorithm, DiffAlgorithm};

#[test]
fn hash_of_empty_input() {
    assert_eq!(hash(b""), "d41d8cd98f00b204e9800998ecf8427e");
}

#[test]
fn hash_of_text() {
    assert_eq!(hash(b"hello world"), "5eb63bbbe01eeed093cb22bb8f5acdc3");
}

#[test]
fn metadata_of_a_diff() {
    let m = diff_metadata(b"hello world", b"hello darkness my old friend", CompressAlgorithm::Zstd);
    assert_eq!(m.diff_algorithm, DiffAlgorithm::Bidiff1);
    assert_eq!(m.compress_algorithm, CompressAlgorithm::Zstd);
    assert_eq!(m.before_hash, "5eb63bbbe01eeed093cb22bb8f5acdc3");
    assert_eq!(m.after_hash, hash(b"hello darkness my old friend"));
    assert_eq!(m.output_size, 28);
}

#[test]
fn algorithm_names() {
    assert_eq!(DiffAlgorithm::Bidiff1.name(), "Bidiff1");
    assert_eq!(CompressAlgorithm::Zstd.name(), "Zstd");
    assert_eq!(CompressAlgorithm::Uncompressed.name(), "None");
}
