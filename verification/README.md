# mmap_bidiff

Binary patching over byte buffers, verified with Verus.

- `src/bipatch/varint.rs`: LEB128 and ZigZag varints read from a slice, with
  the round-trip lemmas against the encoding written by `integer_encoding`.
- `src/bipatch/reader.rs`: `ZeroCopyReader`, the state machine that hands
  out add fragments (base bytes with the add bytes to add to them) and copy
  fragments (from the patch), and ends once the stream is read; malformed
  controls are errors, never panics.
- `src/bipatch/mod.rs`: `apply_patch_stream` and the specification of a
  whole stream run (`stream_run`, `apply_result`).
- `src/bidiff/encoder.rs`: `InstructionWriter`, which writes controls, with
  the lemmas that a written control reads back through the reader and
  applies as written.
- `src/files_diff/`: the patch header (byteorder), MD5/hex hashes, zstd
  compression, metadata and `apply_mmap`.
- `app/`: memory-mapped files, metadata (de)serialization with
  `rmp_serde`, error messages with `thiserror`, and `apply` on file paths.

The diff algorithm (the search that produces controls from two inputs) is
not in this library, because its source is not available here; the library
holds what surrounds it: metadata, header, control encoding, and applying.
