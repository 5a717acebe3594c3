//! A zero-copy reader over a patch instruction stream.
//!
//! Each control of the stream is laid out as the writer writes it: the
//! varint add length, the add bytes, the varint copy length, the copy bytes
//! and the ZigZag varint seek. The reader hands out, for each control, an
//! add fragment (the base bytes it applies to, and the add bytes) and then a
//! copy fragment (the copy bytes), and moves the base position by the seek.

use vstd::prelude::*;
use crate::io_error::IoError;
use super::varint::{
    VarIntReader, VarIntReaderZigZag, decode_varint, decode_varint_usize, decode_varint_i64,
    lemma_decode_varint_consumes, leb128, zigzag, lemma_varint_roundtrip, lemma_varint_i64_roundtrip,
    lemma_leb128_len_u64,
};

verus! {

/// A piece of output that the reader hands out, borrowed from the base and
/// the patch without copying. `Add(base, add)` stands for the bytes of
/// `base` each increased (wrapping) by the byte of `add` at the same place;
/// `Copy(bytes)` stands for `bytes` as they are.
pub enum PatchFragment<'a> {
    Add(&'a [u8], &'a [u8]),
    Copy(&'a [u8]),
}

impl<'a> PatchFragment<'a> {
    /// Whether the fragment is an add fragment.
    pub open spec fn is_add(&self) -> bool {
        self is Add
    }

    /// The base bytes of the fragment (none for a copy fragment).
    pub open spec fn base_bytes(&self) -> Seq<u8> {
        match self {
            PatchFragment::Add(b, d) => b@,
            PatchFragment::Copy(s) => Seq::empty(),
        }
    }

    /// The patch bytes of the fragment: the add bytes or the copy bytes.
    pub open spec fn patch_bytes(&self) -> Seq<u8> {
        match self {
            PatchFragment::Add(b, d) => d@,
            PatchFragment::Copy(s) => s@,
        }
    }
}

/// Where the reader stands between two controls or inside one.
#[derive(Debug, Clone, Copy, PartialEq, Eq, Structural)]
pub enum ReaderState {
    /// Before the next control.
    Seek,
    /// The add fragment is out; the copy fragment of `len` bytes comes next,
    /// followed by the `seek_len` bytes of the seek `seek_val`.
    Copy { len: usize, seek_val: i64, seek_len: usize },
    /// The stream is over.
    Done,
}

/// The positions and state of a reader.
#[derive(Debug, Clone, Copy, PartialEq, Eq, Structural)]
pub struct ReaderView {
    pub patch_pos: usize,
    pub base_pos: usize,
    pub state: ReaderState,
}

/// Where the parts of one control lie, relative to its start.
pub struct ControlLayout {
    pub add_len: usize,
    pub copy_len: usize,
    pub seek: i64,
    /// Where the add bytes start.
    pub add_start: nat,
    /// Where the copy bytes start.
    pub copy_start: nat,
    /// Where the control ends.
    pub end: nat,
}

/// What reading one control from the front of `s` gives: its layout, or the
/// reason it failed (a varint that does not read, or add or copy bytes that
/// run past the end).
pub open spec fn parse_control(s: Seq<u8>) -> Result<ControlLayout, IoError> {
    match decode_varint_usize(s) {
        Err(e) => Err(e),
        Ok((add_len, n1)) => if n1 + add_len > s.len() {
            Err(IoError::PatchTruncated)
        } else {
            let p2 = n1 + add_len;
            match decode_varint_usize(s.skip(p2 as int)) {
                Err(e) => Err(e),
                Ok((copy_len, n2)) => if p2 + n2 + copy_len > s.len() {
                    Err(IoError::PatchTruncated)
                } else {
                    let p4 = p2 + n2 + copy_len;
                    match decode_varint_i64(s.skip(p4 as int)) {
                        Err(e) => Err(e),
                        Ok((seek, n3)) => Ok(
                            ControlLayout {
                                add_len,
                                copy_len,
                                seek,
                                add_start: n1,
                                copy_start: (p2 + n2) as nat,
                                end: (p4 + n3) as nat,
                            },
                        ),
                    }
                },
            }
        },
    }
}

/// The outcome of one call of `next`.
pub enum ReaderStep {
    /// The call fails with this error and leaves the reader as it was.
    Fail(IoError),
    /// The call hands out a fragment and moves the reader to `next`.
    Yield { add: bool, base_bytes: Seq<u8>, patch_bytes: Seq<u8>, next: ReaderView },
    /// The stream is over; the reader moves to `next`.
    End { next: ReaderView },
}

/// Where the base position lands after a seek: the position taken as an
/// `i64`, moved by `seek`, taken back as a `usize`.
pub open spec fn seek_base(base_pos: usize, seek: i64) -> usize {
    ((base_pos as i64) + seek) as usize
}

/// Whether a seek from `base_pos` stays within `i64`.
pub open spec fn seek_fits(base_pos: usize, seek: i64) -> bool {
    i64::MIN <= (base_pos as i64) + seek <= i64::MAX
}

/// What one call of `next` does on a reader over `patch` and `base` that
/// stands at `v`. From `Seek` at the end of the patch the stream is over.
/// Otherwise the next control is read and checked: its add fragment must lie
/// inside the base and its seek must stay within `i64`. Then its add
/// fragment is handed out; the following call hands out its copy fragment
/// and moves the base position by the seek.
pub open spec fn reader_step(patch: Seq<u8>, base: Seq<u8>, v: ReaderView) -> ReaderStep {
    match v.state {
        ReaderState::Seek => if v.patch_pos >= patch.len() {
            ReaderStep::End { next: ReaderView { state: ReaderState::Done, ..v } }
        } else {
            match parse_control(patch.skip(v.patch_pos as int)) {
                Err(e) => ReaderStep::Fail(e),
                Ok(l) => if v.base_pos + l.add_len > base.len() {
                    ReaderStep::Fail(IoError::AddPastBase)
                } else if !seek_fits((v.base_pos + l.add_len) as usize, l.seek) {
                    ReaderStep::Fail(IoError::SeekOverflow)
                } else {
                    ReaderStep::Yield {
                        add: true,
                        base_bytes: base.subrange(v.base_pos as int, v.base_pos + l.add_len),
                        patch_bytes: patch.subrange(
                            v.patch_pos + l.add_start,
                            v.patch_pos + l.add_start + l.add_len,
                        ),
                        next: ReaderView {
                            patch_pos: (v.patch_pos + l.copy_start) as usize,
                            base_pos: (v.base_pos + l.add_len) as usize,
                            state: ReaderState::Copy {
                                len: l.copy_len,
                                seek_val: l.seek,
                                seek_len: (l.end - l.copy_start - l.copy_len) as usize,
                            },
                        },
                    }
                },
            }
        },
        ReaderState::Copy { len, seek_val, seek_len } => ReaderStep::Yield {
            add: false,
            base_bytes: Seq::empty(),
            patch_bytes: patch.subrange(v.patch_pos as int, v.patch_pos + len),
            next: ReaderView {
                patch_pos: (v.patch_pos + len + seek_len) as usize,
                base_pos: seek_base(v.base_pos, seek_val),
                state: ReaderState::Seek,
            },
        },
        ReaderState::Done => ReaderStep::End { next: v },
    }
}

/// A seek moves the base position by exactly the seek, as integers, when
/// the position is a non-negative `i64`, the sum stays within `i64` and
/// lands on a non-negative position that fits in a `usize`.
pub proof fn lemma_seek_moves_base(bp: usize, s: i64)
    requires
        bp <= i64::MAX,
        seek_fits(bp, s),
        0 <= bp + s <= usize::MAX,
    ensures
        seek_base(bp, s) as int == bp + s,
{
}

/// A copy fragment moves the base position by the control's seek: after
/// the call that hands it out, the reader stands at the old base position
/// plus the seek.
pub proof fn lemma_copy_step_moves_base(patch: Seq<u8>, base: Seq<u8>, v: ReaderView)
    requires
        v.state is Copy,
        v.base_pos <= i64::MAX,
        seek_fits(v.base_pos, v.state->seek_val),
        0 <= v.base_pos + v.state->seek_val <= usize::MAX,
    ensures
        reader_step(patch, base, v) matches ReaderStep::Yield { next, .. } && next.base_pos as int
            == v.base_pos + v.state->seek_val && next.state == ReaderState::Seek,
{
    lemma_seek_moves_base(v.base_pos, v.state->seek_val);
}

/// The states a reader over `patch` and `base` can be in: its position
/// inside the patch, and in `Copy` the rest of the control inside the patch,
/// at least one byte of seek, and a seek that stays within `i64`.
pub open spec fn reader_wf(patch: Seq<u8>, base: Seq<u8>, v: ReaderView) -> bool {
    &&& v.patch_pos <= patch.len()
    &&& match v.state {
        ReaderState::Copy { len, seek_val, seek_len } => {
            &&& v.patch_pos + len + seek_len <= patch.len()
            &&& seek_len >= 1
            &&& seek_fits(v.base_pos, seek_val)
        },
        _ => true,
    }
}

/// Reading one control consumes at least its three varints and stays inside
/// the input.
pub proof fn lemma_parse_control_consumes(s: Seq<u8>)
    ensures
        parse_control(s) matches Ok(l) ==> 1 <= l.add_start && l.add_start + l.add_len + 1
            <= l.copy_start && l.copy_start + l.copy_len + 1 <= l.end <= s.len(),
{
    lemma_decode_varint_consumes(s);
    if let Ok((a, n1)) = decode_varint(s) {
        let p2 = n1 + a;
        if p2 <= s.len() {
            lemma_decode_varint_consumes(s.skip(p2 as int));
            if let Ok((c, n2)) = decode_varint(s.skip(p2 as int)) {
                let p4 = p2 + n2 + c;
                if p4 <= s.len() {
                    lemma_decode_varint_consumes(s.skip(p4 as int));
                }
            }
        }
    }
}

/// A written control reads back as written: its add length, add bytes, copy
/// length, copy bytes and seek, whatever follows it.
pub proof fn lemma_control_roundtrip(add: Seq<u8>, copy: Seq<u8>, seek: i64, rest: Seq<u8>)
    requires
        add.len() <= usize::MAX,
        copy.len() <= usize::MAX,
    ensures
        ({
            let ea = leb128(add.len());
            let ec = leb128(copy.len());
            let es = leb128(zigzag(seek as int));
            let cb = ea + add + ec + copy + es;
            &&& parse_control(cb + rest) matches Ok(l)
            &&& l.add_len == add.len() && l.copy_len == copy.len() && l.seek == seek
            &&& l.add_start == ea.len()
            &&& l.copy_start == ea.len() + add.len() + ec.len()
            &&& l.end == cb.len()
            &&& (cb + rest).subrange(l.add_start as int, l.add_start + l.add_len) == add
            &&& (cb + rest).subrange(l.copy_start as int, l.copy_start + l.copy_len) == copy
        }),
{
    let ea = leb128(add.len());
    let ec = leb128(copy.len());
    let es = leb128(zigzag(seek as int));
    let cb = ea + add + ec + copy + es;
    let s = cb + rest;
    lemma_leb128_len_u64(add.len() as u64);
    lemma_leb128_len_u64(copy.len() as u64);
    assert(s =~= ea + (add + ec + copy + es + rest));
    lemma_varint_roundtrip(add.len() as u64, add + ec + copy + es + rest);
    let p2 = ea.len() + add.len();
    assert(s.skip(p2 as int) =~= ec + (copy + es + rest));
    lemma_varint_roundtrip(copy.len() as u64, copy + es + rest);
    let p4 = p2 + ec.len() + copy.len();
    assert(s.skip(p4 as int) =~= es + rest);
    lemma_varint_i64_roundtrip(seek, rest);
    assert(s.subrange(ea.len() as int, ea.len() + add.len() as int) =~= add);
    assert(s.subrange(p2 + ec.len() as int, p4 as int) =~= copy);
}

/// A reader that interprets a patch stream and yields output fragments
/// without copying them.
pub struct ZeroCopyReader<'a> {
    patch: &'a [u8],
    base: &'a [u8],
    patch_pos: usize,
    base_pos: usize,
    state: ReaderState,
}

impl<'a> View for ZeroCopyReader<'a> {
    type V = ReaderView;

    closed spec fn view(&self) -> ReaderView {
        ReaderView { patch_pos: self.patch_pos, base_pos: self.base_pos, state: self.state }
    }
}

impl<'a> ZeroCopyReader<'a> {
    /// The patch stream being read.
    pub closed spec fn patch(&self) -> Seq<u8> {
        self.patch@
    }

    /// The base that add fragments are taken from.
    pub closed spec fn base(&self) -> Seq<u8> {
        self.base@
    }

    /// The reader stands in a state it can reach (see `reader_wf`).
    pub open spec fn wf(&self) -> bool {
        reader_wf(self.patch(), self.base(), self@)
    }

    /// A reader at the start of `patch` and `base`, before the first control.
    pub fn new(patch: &'a [u8], base: &'a [u8]) -> (r: Result<Self, IoError>)
        ensures
            r matches Ok(rd) && rd.wf() && rd.patch() == patch@ && rd.base() == base@ && rd@
                == (ReaderView { patch_pos: 0, base_pos: 0, state: ReaderState::Seek }),
    {
        Ok(Self { patch, base, patch_pos: 0, base_pos: 0, state: ReaderState::Seek })
    }

    /// Hands out the next fragment (see `reader_step`): the add fragment of
    /// the next control, its copy fragment, or `None` once the patch is
    /// exhausted. A control that cannot be read, or whose add fragment runs
    /// past the base, or whose seek leaves `i64`, fails with its error.
    pub fn next(&mut self) -> (r: Result<Option<PatchFragment<'a>>, IoError>)
        requires
            old(self).wf(),
        ensures
            final(self).wf(),
            final(self).patch() == old(self).patch(),
            final(self).base() == old(self).base(),
            match reader_step(old(self).patch(), old(self).base(), old(self)@) {
                ReaderStep::Fail(e) => r matches Err(x) && x == e && final(self)@ == old(self)@,
                ReaderStep::Yield { add, base_bytes, patch_bytes, next } => r matches Ok(Some(f))
                    && f.is_add() == add && f.base_bytes() == base_bytes && f.patch_bytes()
                    == patch_bytes && final(self)@ == next,
                ReaderStep::End { next } => r matches Ok(None) && final(self)@ == next,
            },
    {
        let patch_len = self.patch.len();
        let base_len = self.base.len();
        match self.state {
            ReaderState::Seek => {
                if self.patch_pos >= patch_len {
                    self.state = ReaderState::Done;
                    return Ok(None);
                }
                let rest: &[u8] = vstd::slice::slice_subrange(self.patch, self.patch_pos, patch_len);
                let rest_len = rest.len();
                let mut slice: &[u8] = rest;
                proof {
                    lemma_parse_control_consumes(rest@);
                    lemma_decode_varint_consumes(rest@);
                }
                let add_len: usize = match slice.read_varint_usize() {
                    Ok(v) => v,
                    Err(e) => return Err(e),
                };
                if add_len > slice.len() {
                    return Err(IoError::PatchTruncated);
                }
                let add_start = rest_len - slice.len();
                slice = vstd::slice::slice_subrange(slice, add_len, slice.len());
                let ghost p2: nat = (add_start + add_len) as nat;
                proof {
                    assert(slice@ =~= rest@.skip(p2 as int));
                    lemma_decode_varint_consumes(slice@);
                }
                let copy_len: usize = match slice.read_varint_usize() {
                    Ok(v) => v,
                    Err(e) => return Err(e),
                };
                if copy_len > slice.len() {
                    return Err(IoError::PatchTruncated);
                }
                let copy_start = rest_len - slice.len();
                slice = vstd::slice::slice_subrange(slice, copy_len, slice.len());
                proof {
                    assert(slice@ =~= rest@.skip(copy_start + copy_len));
                }
                let seek_val: i64 = match slice.read_varint_i64() {
                    Ok(v) => v,
                    Err(e) => return Err(e),
                };
                let end = rest_len - slice.len();
                let bp = self.base_pos;
                if add_len > base_len || bp > base_len - add_len {
                    return Err(IoError::AddPastBase);
                }
                let b1 = bp + add_len;
                if (b1 as i64).checked_add(seek_val).is_none() {
                    return Err(IoError::SeekOverflow);
                }
                let base_slice = vstd::slice::slice_subrange(self.base, bp, b1);
                let add_slice = vstd::slice::slice_subrange(
                    self.patch,
                    self.patch_pos + add_start,
                    self.patch_pos + add_start + add_len,
                );
                self.base_pos = b1;
                self.patch_pos = self.patch_pos + copy_start;
                self.state = ReaderState::Copy {
                    len: copy_len,
                    seek_val,
                    seek_len: end - copy_start - copy_len,
                };
                Ok(Some(PatchFragment::Add(base_slice, add_slice)))
            },
            ReaderState::Copy { len, seek_val, seek_len } => {
                let start = self.patch_pos;
                let out_slice = vstd::slice::slice_subrange(self.patch, start, start + len);
                self.patch_pos = start + len + seek_len;
                self.base_pos = (self.base_pos as i64 + seek_val) as usize;
                self.state = ReaderState::Seek;
                Ok(Some(PatchFragment::Copy(out_slice)))
            },
            ReaderState::Done => Ok(None),
        }
    }
}

} // verus!
