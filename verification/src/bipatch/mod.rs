//! Reading and applying a patch instruction stream.

pub mod error;
pub mod reader;
pub mod varint;

pub use error::DecodeError;

use vstd::prelude::*;
use crate::buffer::spliced;
use crate::files_diff::{Error, Result, PatchMetadata, hash, hash_of};
use crate::files_diff::header::{read_patch_header, parse_header};
use crate::io_error::IoError;
use reader::{
    PatchFragment, ReaderState, ReaderStep, ReaderView, reader_step, reader_wf, ZeroCopyReader, parse_control, seek_base, seek_fits,
    lemma_parse_control_consumes,
};

verus! {

/// The bytes of `base` each increased, wrapping, by the byte of `add` at the
/// same place.
pub open spec fn added(base: Seq<u8>, add: Seq<u8>) -> Seq<u8> {
    Seq::new(base.len(), |i: int| ((base[i] as int + add[i] as int) % 256) as u8)
}

/// Each byte of an add fragment is its base byte plus its own add byte,
/// wrapping, and depends on no other byte: the result has the length of the
/// base, its byte `i` is `(base[i] + add[i]) mod 256`, and adding two runs
/// side by side is adding each run.
pub proof fn lemma_added_bytewise(b1: Seq<u8>, d1: Seq<u8>, b2: Seq<u8>, d2: Seq<u8>)
    requires
        b1.len() == d1.len(),
        b2.len() == d2.len(),
    ensures
        added(b1, d1).len() == b1.len(),
        forall|i: int| 0 <= i < b1.len() ==> (added(b1, d1)[i] as int) == (b1[i] as int + d1[i] as int) % 256,
        forall|i: int| 0 <= i < b1.len() ==> added(b1, d1)[i] == b1[i].wrapping_add(d1[i]),
        added(b1 + b2, d1 + d2) == added(b1, d1) + added(b2, d2),
{
    assert forall|i: int| 0 <= i < b1.len() implies added(b1, d1)[i] == b1[i].wrapping_add(d1[i]) by {
        let x = b1[i];
        let y = d1[i];
        assert(added(b1, d1)[i] == ((x as int + y as int) % 256) as u8);
    }
    assert(added(b1 + b2, d1 + d2) =~= added(b1, d1) + added(b2, d2));
}

/// The error for fragments that run past the end of the output.
pub open spec fn output_overflow() -> Error {
    Error::Bipatch(DecodeError::Io(IoError::OutputOverflow))
}

/// What applying the rest of an instruction stream does: the output it
/// leaves, how many bytes of it were written, and the error that stopped it
/// (`None` when the stream was read to its end).
pub struct StreamOutcome {
    pub output: Seq<u8>,
    pub written: nat,
    pub error: Option<Error>,
}

/// Applying the controls of `patch` from position `pp`, with the base at
/// `bp` and `w` bytes of `out` written. For each control the add fragment
/// (the base bytes from `bp`, each increased by its add byte) and then the
/// copy fragment are written to the output, and the base position moves by
/// the seek. The stream ends successfully at the end of the patch, or with
/// the error of the first control that cannot be read or applied.
pub open spec fn stream_run(patch: Seq<u8>, base: Seq<u8>, pp: nat, bp: usize, out: Seq<u8>, w: nat) -> StreamOutcome
    decreases patch.len() - pp,
{
    if pp >= patch.len() {
        StreamOutcome { output: out, written: w, error: None }
    } else {
        match parse_control(patch.skip(pp as int)) {
            Err(e) => StreamOutcome { output: out, written: w, error: Some(Error::Io(e)) },
            Ok(l) => {
                let b1 = (bp + l.add_len) as usize;
                if bp + l.add_len > base.len() {
                    StreamOutcome { output: out, written: w, error: Some(Error::Io(IoError::AddPastBase)) }
                } else if !seek_fits(b1, l.seek) {
                    StreamOutcome { output: out, written: w, error: Some(Error::Io(IoError::SeekOverflow)) }
                } else if w + l.add_len > out.len() {
                    StreamOutcome { output: out, written: w, error: Some(output_overflow()) }
                } else {
                    let out1 = spliced(
                        out,
                        w as int,
                        added(
                            base.subrange(bp as int, b1 as int),
                            patch.subrange(pp + l.add_start as int, pp + l.add_start + l.add_len),
                        ),
                    );
                    let w1: nat = (w + l.add_len) as nat;
                    if w1 + l.copy_len > out.len() {
                        StreamOutcome { output: out1, written: w1, error: Some(output_overflow()) }
                    } else {
                        let out2 = spliced(
                            out1,
                            w1 as int,
                            patch.subrange(pp + l.copy_start as int, pp + l.copy_start + l.copy_len),
                        );
                        proof {
                            lemma_parse_control_consumes(patch.skip(pp as int));
                        }
                        stream_run(patch, base, pp + l.end, seek_base(b1, l.seek), out2, (w1 + l.copy_len) as nat)
                    }
                }
            },
        }
    }
}

/// Applying the rest of a stream when the reader stands between the add and
/// the copy fragment of a control: the copy fragment is written at `w`, the
/// base moves by the seek, and the stream goes on from the next control.
pub open spec fn copy_then_run(patch: Seq<u8>, base: Seq<u8>, v: ReaderView, out: Seq<u8>, w: nat) -> StreamOutcome {
    match v.state {
        ReaderState::Copy { len, seek_val, seek_len } => if w + len > out.len() {
            StreamOutcome { output: out, written: w, error: Some(output_overflow()) }
        } else {
            stream_run(
                patch,
                base,
                (v.patch_pos + len + seek_len) as nat,
                seek_base(v.base_pos, seek_val),
                spliced(out, w as int, patch.subrange(v.patch_pos as int, v.patch_pos + len)),
                (w + len) as nat,
            )
        },
        _ => StreamOutcome { output: out, written: w, error: None },
    }
}

/// One call of the reader, from between two controls, takes the same step
/// as applying the stream: a failure of the reader stops the stream with its
/// error, the end of the patch ends it, and an add fragment is written (or
/// overflows the output) before the rest of the control is applied.
pub proof fn lemma_stream_step(patch: Seq<u8>, base: Seq<u8>, v: ReaderView, out: Seq<u8>, w: nat)
    requires
        patch.len() <= usize::MAX,
        base.len() <= usize::MAX,
        v.state is Seek,
        reader_wf(patch, base, v),
        w <= out.len(),
    ensures
        match reader_step(patch, base, v) {
            ReaderStep::Fail(e) => stream_run(patch, base, v.patch_pos as nat, v.base_pos, out, w)
                == (StreamOutcome { output: out, written: w, error: Some(Error::Io(e)) }),
            ReaderStep::End { next } => stream_run(patch, base, v.patch_pos as nat, v.base_pos, out, w)
                == (StreamOutcome { output: out, written: w, error: None }),
            ReaderStep::Yield { add, base_bytes, patch_bytes, next } => {
                &&& base_bytes.len() == patch_bytes.len()
                &&& next.state is Copy
                &&& reader_wf(patch, base, next)
                &&& w + patch_bytes.len() > out.len() ==> stream_run(
                    patch,
                    base,
                    v.patch_pos as nat,
                    v.base_pos,
                    out,
                    w,
                ) == (StreamOutcome { output: out, written: w, error: Some(output_overflow()) })
                &&& w + patch_bytes.len() <= out.len() ==> stream_run(
                    patch,
                    base,
                    v.patch_pos as nat,
                    v.base_pos,
                    out,
                    w,
                ) == copy_then_run(
                    patch,
                    base,
                    next,
                    spliced(out, w as int, added(base_bytes, patch_bytes)),
                    w + patch_bytes.len(),
                )
            },
        },
{
    let pp = v.patch_pos as nat;
    if pp < patch.len() {
        let s = patch.skip(pp as int);
        lemma_parse_control_consumes(s);
        if let Ok(l) = parse_control(s) {
            assert(patch.subrange(pp + l.add_start as int, pp + l.add_start + l.add_len)
                =~= s.subrange(l.add_start as int, l.add_start + l.add_len));
            if v.base_pos + l.add_len <= base.len() && w + l.add_len <= out.len() {
                let b1 = (v.base_pos + l.add_len) as usize;
                let ad = added(
                    base.subrange(v.base_pos as int, b1 as int),
                    patch.subrange(pp + l.add_start as int, pp + l.add_start + l.add_len),
                );
                assert(spliced(out, w as int, ad).len() == out.len());
            }
        }
    }
}

/// The instruction stream of a patch whose header reads.
pub open spec fn instruction_stream(patch: Seq<u8>) -> Seq<u8> {
    match parse_header(patch) {
        Ok((meta_start, header_len)) => patch.skip(header_len as int),
        Err(e) => patch,
    }
}

/// What applying the whole stream of `patch` to `base` into `out` does.
pub open spec fn patch_stream_run(patch: Seq<u8>, base: Seq<u8>, out: Seq<u8>) -> StreamOutcome {
    stream_run(instruction_stream(patch), base, 0, 0, out, 0)
}

/// The result of applying `patch` (with metadata `meta`) to `base` into
/// `out`, and the output it leaves: the header must read, the base must hash
/// to the expected hash, the output must have the expected size, the stream
/// must apply to its end, fill the output exactly, and leave an output that
/// hashes to the expected hash.
pub open spec fn apply_result(patch: Seq<u8>, base: Seq<u8>, out: Seq<u8>, meta: PatchMetadata) -> (Result<()>, Seq<u8>) {
    match parse_header(patch) {
        Err(e) => (Err(e), out),
        Ok((meta_start, header_len)) => if hash_of(base) != meta.before_hash@ {
            (Err(Error::BeforeHashMismatch), out)
        } else if out.len() != meta.output_size as usize {
            (Err(Error::AfterHashMismatch), out)
        } else {
            let o = patch_stream_run(patch, base, out);
            match o.error {
                Some(e) => (Err(e), o.output),
                None => if o.written != out.len() {
                    (
                        Err(
                            Error::Bipatch(
                                DecodeError::Io(
                                    IoError::ShortOutput {
                                        written: o.written as usize,
                                        expected: out.len() as usize,
                                    },
                                ),
                            ),
                        ),
                        o.output,
                    )
                } else if hash_of(o.output) != meta.after_hash@ {
                    (Err(Error::AfterHashMismatch), o.output)
                } else {
                    (Ok(()), o.output)
                },
            }
        },
    }
}

/// A patch whose header reads, whose base hashes to the expected hash,
/// whose output has the expected size, whose stream applies to its end
/// filling the output, and whose output hashes to the expected hash,
/// applies successfully and leaves that output.
pub proof fn lemma_apply_succeeds(patch: Seq<u8>, base: Seq<u8>, out: Seq<u8>, meta: PatchMetadata, o: Seq<u8>)
    requires
        parse_header(patch) is Ok,
        hash_of(base) == meta.before_hash@,
        out.len() == meta.output_size as usize,
        stream_run(instruction_stream(patch), base, 0, 0, out, 0) == (StreamOutcome {
            output: o,
            written: out.len(),
            error: None,
        }),
        hash_of(o) == meta.after_hash@,
    ensures
        apply_result(patch, base, out, meta) == (Ok::<(), Error>(()), o),
{
}

/// Writes, at `pos` of `output`, the bytes of `base` each increased
/// (wrapping) by the byte of `add` at the same place.
fn write_added(output: &mut [u8], pos: usize, base: &[u8], add: &[u8])
    requires
        base@.len() == add@.len(),
        pos + base@.len() <= old(output)@.len(),
    ensures
        final(output)@ == spliced(old(output)@, pos as int, added(base@, add@)),
{
    let len = base.len();
    let total = output.len();
    let ghost start = output@;
    let mut i: usize = 0;
    while i < len
        invariant
            len == base@.len(),
            len == add@.len(),
            i <= len,
            start == old(output)@,
            total == start.len(),
            pos + len <= start.len(),
            output@.len() == start.len(),
            forall|j: int| 0 <= j < pos ==> output@[j] == start[j],
            forall|j: int| 0 <= j < i ==> output@[pos + j] == added(base@, add@)[j],
            forall|j: int| pos + i <= j < start.len() ==> output@[j] == start[j],
        decreases len - i,
    {
        let b = base[i].wrapping_add(add[i]);
        proof {
            assert(b == added(base@, add@)[i as int]);
        }
        output[pos + i] = b;
        i += 1;
    }
    proof {
        assert(output@ =~= spliced(start, pos as int, added(base@, add@)));
    }
}

/// Writes `bytes` into `output` at `pos`.
fn write_fragment(output: &mut [u8], pos: usize, bytes: &[u8])
    requires
        pos + bytes@.len() <= old(output)@.len(),
    ensures
        final(output)@ == spliced(old(output)@, pos as int, bytes@),
{
    let len = bytes.len();
    let total = output.len();
    let ghost start = output@;
    let mut i: usize = 0;
    while i < len
        invariant
            len == bytes@.len(),
            i <= len,
            start == old(output)@,
            total == start.len(),
            pos + len <= start.len(),
            output@.len() == start.len(),
            forall|j: int| 0 <= j < pos ==> output@[j] == start[j],
            forall|j: int| 0 <= j < i ==> output@[pos + j] == bytes@[j],
            forall|j: int| pos + i <= j < start.len() ==> output@[j] == start[j],
        decreases len - i,
    {
        output[pos + i] = bytes[i];
        i += 1;
    }
    proof {
        assert(output@ =~= spliced(start, pos as int, bytes@));
    }
}

/// The checks after the stream is exhausted: all of the output written,
/// and the output hashing to the expected hash.
fn check_output(output: &[u8], write_pos: usize, meta: &PatchMetadata) -> (r: Result<()>)
    ensures
        write_pos != output@.len() ==> r == Err::<(), Error>(
            Error::Bipatch(DecodeError::Io(IoError::ShortOutput { written: write_pos, expected: output@.len() as usize })),
        ),
        write_pos == output@.len() && hash_of(output@) != meta.after_hash@ ==> r == Err::<(), Error>(Error::AfterHashMismatch),
        write_pos == output@.len() && hash_of(output@) == meta.after_hash@ ==> r == Ok::<(), Error>(()),
{
    if write_pos != output.len() {
        return Err(
            Error::Bipatch(DecodeError::Io(IoError::ShortOutput { written: write_pos, expected: output.len() })),
        );
    }
    if hash(output) != meta.after_hash {
        return Err(Error::AfterHashMismatch);
    }
    Ok(())
}

/// Applies the instruction stream of `patch` to `base`, writing `output`.
/// `meta` is the metadata that the patch header frames. Reads the header,
/// checks the hash of the base and the size of the output, writes the
/// fragments of every control in turn, and once the stream is read to its
/// end checks that the output is full and hashes to the expected hash.
pub fn apply_patch_stream(patch: &[u8], base: &[u8], output: &mut [u8], meta: &PatchMetadata) -> (r: Result<()>)
    ensures
        (r, final(output)@) == apply_result(patch@, base@, old(output)@, *meta),
        r is Ok ==> hash_of(base@) == meta.before_hash@ && hash_of(final(output)@) == meta.after_hash@
            && final(output)@.len() == meta.output_size as usize,
{
    let (_meta_start, header_len) = match read_patch_header(patch) {
        Ok(h) => h,
        Err(e) => return Err(e),
    };
    if hash(base) != meta.before_hash {
        return Err(Error::BeforeHashMismatch);
    }
    if output.len() != meta.output_size as usize {
        return Err(Error::AfterHashMismatch);
    }
    let stream = vstd::slice::slice_subrange(patch, header_len, patch.len());
    let mut reader = match ZeroCopyReader::new(stream, base) {
        Ok(rd) => rd,
        Err(e) => return Err(Error::Io(e)),
    };
    let mut write_pos: usize = 0;
    let ghost target = stream_run(stream@, base@, 0, 0, output@, 0);
    let out_len = output.len();
    let stream_len = stream.len();
    let base_len = base.len();
    proof {
        assert(stream@ == instruction_stream(patch@));
    }
    loop
        invariant
            target == patch_stream_run(patch@, base@, old(output)@),
            stream@ == instruction_stream(patch@),
            parse_header(patch@) is Ok,
            hash_of(base@) == meta.before_hash@,
            old(output)@.len() == meta.output_size as usize,
            reader.wf(),
            reader.patch() == stream@,
            reader.base() == base@,
            output@.len() == out_len,
            out_len == old(output)@.len(),
            stream_len == stream@.len(),
            base_len == base@.len(),
            write_pos <= out_len,
            reader@.state is Seek || reader@.state is Copy,
            reader@.state is Seek ==> stream_run(
                stream@,
                base@,
                reader@.patch_pos as nat,
                reader@.base_pos,
                output@,
                write_pos as nat,
            ) == target,
            reader@.state is Copy ==> copy_then_run(stream@, base@, reader@, output@, write_pos as nat)
                == target,
        decreases 2 * (stream@.len() - reader@.patch_pos) + (if reader@.state is Seek {
            1int
        } else {
            0int
        }),
    {
        let ghost v = reader@;
        let ghost w = write_pos;
        let ghost out0 = output@;
        proof {
            if v.state is Seek {
                lemma_stream_step(stream@, base@, v, output@, w as nat);
            }
        }
        match reader.next() {
            Err(e) => return Err(Error::Io(e)),
            Ok(None) => return check_output(output, write_pos, meta),
            Ok(Some(fragment)) => match fragment {
                PatchFragment::Add(base_slice, add_slice) => {
                    if base_slice.len() > out_len - write_pos {
                        return Err(Error::Bipatch(DecodeError::Io(IoError::OutputOverflow)));
                    }
                    write_added(output, write_pos, base_slice, add_slice);
                    write_pos += base_slice.len();
                },
                PatchFragment::Copy(copy_slice) => {
                    if copy_slice.len() > out_len - write_pos {
                        return Err(Error::Bipatch(DecodeError::Io(IoError::OutputOverflow)));
                    }
                    write_fragment(output, write_pos, copy_slice);
                    write_pos += copy_slice.len();
                },
            },
        }
    }
}

} // verus!
