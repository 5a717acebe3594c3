//! Writes controls into a caller-provided byte buffer.

use vstd::prelude::*;
use integer_encoding::VarIntWriter;
use super::Control;
use crate::io_error::IoError;
use crate::buffer::{spliced, lemma_spliced_twice, lemma_spliced_take};
use crate::bipatch::{StreamOutcome, added, stream_run};
use crate::bipatch::varint::{leb128, zigzag, lemma_leb128_len_u64};
use crate::bipatch::reader::{
    ReaderState, ReaderStep, ReaderView, parse_control, reader_step, seek_base, seek_fits,
    lemma_seek_moves_base,
    lemma_control_roundtrip,
};

verus! {

/// Writes `n` as a varint at `offset` of `buf` with integer_encoding's
/// `VarIntWriter::write_varint` on the tail slice `buf[offset..]`.
/// Claimed of it: when the LEB128 encoding of `n` fits in the tail it is
/// written there and its length returned; otherwise as much of the encoding
/// as fits is written and the write fails with `WriteZero` (what
/// `write_all` does on a `&mut [u8]` that is too short). Bytes before
/// `offset` never change.
#[verifier::external_body]
fn write_varint_usize(buf: &mut [u8], offset: usize, n: usize) -> (r: Result<usize, IoError>)
    requires
        offset <= old(buf)@.len(),
    ensures
        offset + leb128(n as nat).len() <= old(buf)@.len() ==> r is Ok && r->Ok_0 == leb128(n as nat).len()
            && final(buf)@ == spliced(old(buf)@, offset as int, leb128(n as nat)),
        offset + leb128(n as nat).len() > old(buf)@.len() ==> r is Err && r->Err_0 == IoError::WriteZero
            && final(buf)@ == old(buf)@.take(offset as int) + leb128(n as nat).take(old(buf)@.len() - offset),
{
    match (&mut buf[offset..]).write_varint(n) {
        Ok(used) => Ok(used),
        Err(_) => Err(IoError::WriteZero),
    }
}

/// Writes `n` as a ZigZag varint at `offset` of `buf` with integer_encoding's
/// `VarIntWriter::write_varint` (its `i64` encoding) on the tail slice
/// `buf[offset..]`. Claimed of it: as for `write_varint_usize`, with the
/// LEB128 encoding of `zigzag(n)`.
#[verifier::external_body]
fn write_varint_i64(buf: &mut [u8], offset: usize, n: i64) -> (r: Result<usize, IoError>)
    requires
        offset <= old(buf)@.len(),
    ensures
        offset + leb128(zigzag(n as int)).len() <= old(buf)@.len() ==> r is Ok && r->Ok_0 == leb128(
            zigzag(n as int),
        ).len() && final(buf)@ == spliced(old(buf)@, offset as int, leb128(zigzag(n as int))),
        offset + leb128(zigzag(n as int)).len() > old(buf)@.len() ==> r is Err && r->Err_0
            == IoError::WriteZero && final(buf)@ == old(buf)@.take(offset as int) + leb128(
            zigzag(n as int),
        ).take(old(buf)@.len() - offset),
{
    match (&mut buf[offset..]).write_varint(n) {
        Ok(used) => Ok(used),
        Err(_) => Err(IoError::WriteZero),
    }
}

/// A write cut short after the parts `x` of a run `x + e + rest` leaves the
/// run's prefix of the length that fits.
proof fn lemma_cut_run(x: Seq<u8>, e: Seq<u8>, rest: Seq<u8>, m: int)
    requires
        0 <= m < e.len(),
    ensures
        (x + e + rest).take(x.len() + m) == x + e.take(m),
{
    assert((x + e + rest).take(x.len() + m) =~= x + e.take(m));
}

/// The bytes that one control takes in the stream: the varint of the add
/// length, the add bytes, the varint of the copy length, the copy bytes and
/// the ZigZag varint of the seek.
pub open spec fn control_bytes(add: Seq<u8>, copy: Seq<u8>, seek: i64) -> Seq<u8> {
    leb128(add.len()) + add + leb128(copy.len()) + copy + leb128(zigzag(seek as int))
}

/// A control written at `pp` of a patch reads back, through the reader, as
/// written: standing before it, the reader hands out an add fragment whose
/// add bytes are the control's add bytes (over the base bytes they apply
/// to), then a copy fragment whose bytes are the control's copy bytes, and
/// then stands after the control with the base moved by its seek.
pub proof fn lemma_written_control_reads_back(
    patch: Seq<u8>,
    base: Seq<u8>,
    v: ReaderView,
    add: Seq<u8>,
    copy: Seq<u8>,
    seek: i64,
    rest: Seq<u8>,
)
    requires
        patch.len() <= usize::MAX,
        base.len() <= usize::MAX,
        v.state == ReaderState::Seek,
        v.patch_pos <= patch.len(),
        patch.skip(v.patch_pos as int) == control_bytes(add, copy, seek) + rest,
        v.base_pos + add.len() <= base.len(),
        copy.len() <= usize::MAX,
        seek_fits((v.base_pos + add.len()) as usize, seek),
    ensures
        ({
            &&& reader_step(patch, base, v) matches ReaderStep::Yield {
                add: is_add,
                base_bytes,
                patch_bytes,
                next,
            }
            &&& is_add
            &&& base_bytes == base.subrange(v.base_pos as int, v.base_pos + add.len())
            &&& patch_bytes == add
            &&& next.state is Copy
            &&& ({
                &&& reader_step(patch, base, next) matches ReaderStep::Yield {
                    add: is_add2,
                    base_bytes: b2,
                    patch_bytes: copied,
                    next: after,
                }
                &&& !is_add2
                &&& copied == copy
                &&& after == (ReaderView {
                    patch_pos: (v.patch_pos + control_bytes(add, copy, seek).len()) as usize,
                    base_pos: seek_base((v.base_pos + add.len()) as usize, seek),
                    state: ReaderState::Seek,
                })
                &&& v.base_pos + add.len() <= i64::MAX && 0 <= v.base_pos + add.len() + seek
                    <= usize::MAX ==> after.base_pos as int == v.base_pos + add.len() + seek
            })
        }),
{
    let cb = control_bytes(add, copy, seek);
    if v.base_pos + add.len() <= i64::MAX && 0 <= v.base_pos + add.len() + seek <= usize::MAX {
        lemma_seek_moves_base((v.base_pos + add.len()) as usize, seek);
    }
    lemma_control_roundtrip(add, copy, seek, rest);
    lemma_leb128_len_u64(add.len() as u64);
    let s = patch.skip(v.patch_pos as int);
    let l = parse_control(s)->Ok_0;
    assert(s.len() >= cb.len());
    assert(patch.subrange(v.patch_pos + l.add_start, v.patch_pos + l.add_start + l.add_len)
        =~= s.subrange(l.add_start as int, l.add_start + l.add_len));
    assert(patch.subrange(v.patch_pos + l.copy_start, v.patch_pos + l.copy_start + l.copy_len)
        =~= s.subrange(l.copy_start as int, l.copy_start + l.copy_len));
}

/// A control written at `pp` of a patch applies as written: its add bytes
/// are added to the base bytes from `bp` and written at `w`, its copy bytes
/// follow them, the base position moves by its seek, and the stream goes on
/// after the control.
pub proof fn lemma_written_control_applies(
    patch: Seq<u8>,
    base: Seq<u8>,
    pp: nat,
    bp: usize,
    out: Seq<u8>,
    w: nat,
    add: Seq<u8>,
    copy: Seq<u8>,
    seek: i64,
    rest: Seq<u8>,
)
    requires
        pp <= patch.len(),
        patch.skip(pp as int) == control_bytes(add, copy, seek) + rest,
        bp + add.len() <= base.len(),
        base.len() <= usize::MAX,
        copy.len() <= usize::MAX,
        w + add.len() + copy.len() <= out.len(),
        seek_fits((bp + add.len()) as usize, seek),
    ensures
        stream_run(patch, base, pp, bp, out, w) == stream_run(
            patch,
            base,
            pp + control_bytes(add, copy, seek).len(),
            seek_base((bp + add.len()) as usize, seek),
            spliced(
                spliced(out, w as int, added(base.subrange(bp as int, bp + add.len()), add)),
                w + add.len() as int,
                copy,
            ),
            w + add.len() + copy.len(),
        ),
{
    let cb = control_bytes(add, copy, seek);
    lemma_control_roundtrip(add, copy, seek, rest);
    lemma_leb128_len_u64(add.len() as u64);
    let s = patch.skip(pp as int);
    let l = parse_control(s)->Ok_0;
    assert(s.len() >= cb.len());
    assert(patch.subrange(pp + l.add_start as int, pp + l.add_start + l.add_len)
        =~= s.subrange(l.add_start as int, l.add_start + l.add_len));
    assert(patch.subrange(pp + l.copy_start as int, pp + l.copy_start + l.copy_len)
        =~= s.subrange(l.copy_start as int, l.copy_start + l.copy_len));
    let ad = added(base.subrange(bp as int, bp + add.len()), add);
    assert(spliced(out, w as int, ad).len() == out.len());
}

/// A stream that is read to its end applies without error: the output and
/// the count of bytes written stay as they are.
pub proof fn lemma_finished_stream_applies(patch: Seq<u8>, base: Seq<u8>, bp: usize, out: Seq<u8>, w: nat)
    ensures
        stream_run(patch, base, patch.len(), bp, out, w) == (StreamOutcome {
            output: out,
            written: w,
            error: None,
        }),
{
}

/// Where the five parts of a control written at `o` end: after the add
/// length, the add bytes, the copy length, the copy bytes and the seek.
pub open spec fn part_ends(o: nat, add: Seq<u8>, copy: Seq<u8>, seek: i64) -> (nat, nat, nat, nat, nat) {
    let p1 = o + leb128(add.len()).len();
    let p2 = p1 + add.len();
    let p3 = p2 + leb128(copy.len()).len();
    let p4 = p3 + copy.len();
    let p5 = p4 + leb128(zigzag(seek as int)).len();
    (p1, p2, p3, p4, p5)
}

/// Writes controls one after the other into a buffer.
pub struct InstructionWriter<'a> {
    buf: &'a mut [u8],
    offset: usize,
}

impl<'a> InstructionWriter<'a> {
    /// The contents of the buffer.
    pub closed spec fn buffer(&self) -> Seq<u8> {
        self.buf@
    }

    /// How many bytes have been written so far.
    pub closed spec fn position(&self) -> nat {
        self.offset as nat
    }

    /// The write position lies within the buffer.
    pub closed spec fn wf(&self) -> bool {
        self.offset <= self.buf@.len()
    }

    /// A writer at the start of `buf`.
    pub fn new(buf: &'a mut [u8]) -> (w: Self)
        ensures
            w.wf(),
            w.position() == 0,
            w.buffer() == old(buf)@,
    {
        Self { buf, offset: 0 }
    }

    /// The number of bytes written so far.
    pub fn bytes_written(&self) -> (n: usize)
        ensures
            n == self.position(),
    {
        self.offset
    }

    /// The bytes written so far.
    pub fn written(&self) -> (s: &[u8])
        requires
            self.wf(),
        ensures
            s@ == self.buffer().take(self.position() as int),
    {
        vstd::slice::slice_subrange(&*self.buf, 0, self.offset)
    }

    /// Copies the first `count` bytes of `src` into the buffer at the write
    /// position.
    fn put_bytes(&mut self, src: &[u8], count: usize)
        requires
            old(self).wf(),
            count <= src@.len(),
            old(self).position() + count <= old(self).buffer().len(),
        ensures
            final(self).position() == old(self).position(),
            final(self).buffer() == spliced(old(self).buffer(), old(self).position() as int, src@.take(count as int)),
    {
        let total = self.buf.len();
        let ghost start = self.buf@;
        let mut i: usize = 0;
        while i < count
            invariant
                count <= src@.len(),
                i <= count,
                start == old(self).buf@,
                self.offset == old(self).offset,
                total == start.len(),
                self.offset + count <= start.len(),
                self.buf@.len() == start.len(),
                forall|j: int| 0 <= j < self.offset ==> self.buf@[j] == start[j],
                forall|j: int| 0 <= j < i ==> self.buf@[self.offset + j] == src@[j],
                forall|j: int| self.offset + i <= j < start.len() ==> self.buf@[j] == start[j],
            decreases count - i,
        {
            self.buf[self.offset + i] = src[i];
            i += 1;
        }
        proof {
            assert(self.buf@ =~= spliced(start, self.offset as int, src@.take(count as int)));
        }
    }

    /// The buffer holds `before` with the parts `acc` written at `o`, and
    /// the write position stands right after them.
    closed spec fn holds(&self, before: Seq<u8>, o: int, acc: Seq<u8>) -> bool {
        &&& 0 <= o
        &&& o + acc.len() <= before.len()
        &&& self.buf@.len() == before.len()
        &&& self.offset == o + acc.len()
        &&& self.buf@ == spliced(before, o, acc)
    }

    /// Writes the bytes of `src` as the next part of a run `acc + src + rest`
    /// that started at `o`; when they do not fit, writes what fits and fails.
    fn put_part_bytes(
        &mut self,
        src: &[u8],
        Ghost(before): Ghost<Seq<u8>>,
        Ghost(o): Ghost<int>,
        Ghost(acc): Ghost<Seq<u8>>,
        Ghost(rest): Ghost<Seq<u8>>,
    ) -> (r: Result<(), IoError>)
        requires
            old(self).holds(before, o, acc),
        ensures
            o + acc.len() + src@.len() <= before.len() ==> r is Ok && final(self).holds(
                before,
                o,
                acc + src@,
            ),
            o + acc.len() + src@.len() > before.len() ==> r == Err::<(), IoError>(IoError::WriteZero)
                && final(self).offset == old(self).offset && final(self).buf@ == before.take(o) + (acc
                + src@ + rest).take(before.len() - o),
    {
        let room = self.buf.len() - self.offset;
        proof {
            lemma_spliced_take(before, o, acc);
        }
        if src.len() > room {
            self.put_bytes(src, room);
            proof {
                lemma_cut_run(acc, src@, rest, room as int);
                assert(self.buf@ =~= before.take(o) + (acc + src@.take(room as int)));
            }
            return Err(IoError::WriteZero);
        }
        self.put_bytes(src, src.len());
        self.offset += src.len();
        proof {
            assert(src@.take(src@.len() as int) =~= src@);
            lemma_spliced_twice(before, o, acc, src@);
        }
        Ok(())
    }

    /// Writes the varint of `n` as the next part of a run `acc + e + rest`
    /// (with `e` that varint) that started at `o`; when it does not fit,
    /// writes what fits and fails.
    fn put_part_usize(
        &mut self,
        n: usize,
        Ghost(before): Ghost<Seq<u8>>,
        Ghost(o): Ghost<int>,
        Ghost(acc): Ghost<Seq<u8>>,
        Ghost(rest): Ghost<Seq<u8>>,
    ) -> (r: Result<(), IoError>)
        requires
            old(self).holds(before, o, acc),
        ensures
            o + acc.len() + leb128(n as nat).len() <= before.len() ==> r is Ok && final(self).holds(
                before,
                o,
                acc + leb128(n as nat),
            ),
            o + acc.len() + leb128(n as nat).len() > before.len() ==> r == Err::<(), IoError>(
                IoError::WriteZero,
            ) && final(self).offset == old(self).offset && final(self).buf@ == before.take(o) + (acc
                + leb128(n as nat) + rest).take(before.len() - o),
    {
        let ghost e = leb128(n as nat);
        let total = self.buf.len();
        proof {
            lemma_spliced_take(before, o, acc);
        }
        match write_varint_usize(self.buf, self.offset, n) {
            Ok(used) => {
                self.offset += used;
                proof {
                    lemma_spliced_twice(before, o, acc, e);
                }
                Ok(())
            },
            Err(err) => {
                proof {
                    lemma_cut_run(acc, e, rest, before.len() - o - acc.len());
                    assert(self.buf@ =~= before.take(o) + (acc + e.take(before.len() - o - acc.len())));
                }
                Err(err)
            },
        }
    }

    /// Writes the ZigZag varint of `n` as the next part of a run
    /// `acc + e + rest` (with `e` that varint) that started at `o`; when it
    /// does not fit, writes what fits and fails.
    fn put_part_i64(
        &mut self,
        n: i64,
        Ghost(before): Ghost<Seq<u8>>,
        Ghost(o): Ghost<int>,
        Ghost(acc): Ghost<Seq<u8>>,
        Ghost(rest): Ghost<Seq<u8>>,
    ) -> (r: Result<(), IoError>)
        requires
            old(self).holds(before, o, acc),
        ensures
            o + acc.len() + leb128(zigzag(n as int)).len() <= before.len() ==> r is Ok && final(self).holds(
                before,
                o,
                acc + leb128(zigzag(n as int)),
            ),
            o + acc.len() + leb128(zigzag(n as int)).len() > before.len() ==> r == Err::<(), IoError>(
                IoError::WriteZero,
            ) && final(self).offset == old(self).offset && final(self).buf@ == before.take(o) + (acc
                + leb128(zigzag(n as int)) + rest).take(before.len() - o),
    {
        let ghost e = leb128(zigzag(n as int));
        let total = self.buf.len();
        proof {
            lemma_spliced_take(before, o, acc);
        }
        match write_varint_i64(self.buf, self.offset, n) {
            Ok(used) => {
                self.offset += used;
                proof {
                    lemma_spliced_twice(before, o, acc, e);
                }
                Ok(())
            },
            Err(err) => {
                proof {
                    lemma_cut_run(acc, e, rest, before.len() - o - acc.len());
                    assert(self.buf@ =~= before.take(o) + (acc + e.take(before.len() - o - acc.len())));
                }
                Err(err)
            },
        }
    }

    /// Writes one control at the write position: the varint of the add
    /// length, the add bytes, the varint of the copy length, the copy bytes
    /// and the ZigZag varint of the seek, advancing past each part as it is
    /// written. When the buffer is too short, as much of the control as fits
    /// is written, the position stays after the last whole part, and the
    /// write fails with `WriteZero`.
    pub fn write_control(&mut self, control: &Control) -> (r: Result<(), IoError>)
        requires
            old(self).wf(),
        ensures
            ({
                let o = old(self).position();
                let len = old(self).buffer().len();
                let (p1, p2, p3, p4, p5) = part_ends(o, control.add@, control.copy@, control.seek);
                let before = old(self).buffer();
                let cb = control_bytes(control.add@, control.copy@, control.seek);
                &&& final(self).wf()
                &&& final(self).buffer().len() == len
                &&& p5 <= len ==> r is Ok && final(self).position() == p5 && final(self).buffer()
                    == spliced(before, o as int, cb)
                &&& p5 > len ==> r == Err::<(), IoError>(IoError::WriteZero) && final(self).buffer()
                    == before.take(o as int) + cb.take(len - o)
                &&& p1 > len ==> final(self).position() == o
                &&& p1 <= len < p2 ==> final(self).position() == p1
                &&& p2 <= len < p3 ==> final(self).position() == p2
                &&& p3 <= len < p4 ==> final(self).position() == p3
                &&& p4 <= len < p5 ==> final(self).position() == p4
            }),
    {
        let ghost before = self.buf@;
        let ghost o = self.offset as int;
        let ghost a = leb128(control.add@.len());
        let ghost add = control.add@;
        let ghost c = leb128(control.copy@.len());
        let ghost copy = control.copy@;
        let ghost sk = leb128(zigzag(control.seek as int));
        let ghost cb = control_bytes(add, copy, control.seek);
        let ghost empty = Seq::<u8>::empty();
        proof {
            assert(spliced(before, o, empty) =~= before);
            assert(empty + a + (add + c + copy + sk) =~= cb);
            assert(a + add + (c + copy + sk) =~= cb);
            assert(a + add + c + (copy + sk) =~= cb);
            assert(a + add + c + copy + sk =~= cb);
            assert(a + add + c + copy + sk + empty =~= cb);
            assert(empty + a =~= a);
        }
        let r1 = self.put_part_usize(control.add.len(), Ghost(before), Ghost(o), Ghost(empty), Ghost(add + c + copy + sk));
        if r1.is_err() {
            return r1;
        }
        let r2 = self.put_part_bytes(control.add, Ghost(before), Ghost(o), Ghost(a), Ghost(c + copy + sk));
        if r2.is_err() {
            return r2;
        }
        let r3 = self.put_part_usize(control.copy.len(), Ghost(before), Ghost(o), Ghost(a + add), Ghost(copy + sk));
        if r3.is_err() {
            return r3;
        }
        let r4 = self.put_part_bytes(control.copy, Ghost(before), Ghost(o), Ghost(a + add + c), Ghost(sk));
        if r4.is_err() {
            return r4;
        }
        let r5 = self.put_part_i64(control.seek, Ghost(before), Ghost(o), Ghost(a + add + c + copy), Ghost(empty));
        r5
    }
}

} // verus!
