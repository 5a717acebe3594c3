//! The patch header: magic, version, metadata length and metadata bytes.

use vstd::prelude::*;
use byteorder::{LittleEndian, ReadBytesExt, WriteBytesExt};
use super::{Error, Result};
use crate::{MAGIC, VERSION};
use crate::bipatch::DecodeError;
use crate::io_error::{IoError, IoResult};
use crate::buffer::{spliced, lemma_spliced_twice, lemma_spliced_take};

verus! {

/// The four bytes of `x`, least significant first.
pub open spec fn le_bytes(x: u32) -> Seq<u8> {
    seq![
        (x & 0xff) as u8,
        ((x >> 8u32) & 0xff) as u8,
        ((x >> 16u32) & 0xff) as u8,
        ((x >> 24u32) & 0xff) as u8,
    ]
}

/// The `u32` whose bytes, least significant first, are the first four of `b`.
pub open spec fn le_u32(b: Seq<u8>) -> u32 {
    (b[0] as u32) | ((b[1] as u32) << 8u32) | ((b[2] as u32) << 16u32) | ((b[3] as u32) << 24u32)
}

/// Reading back little-endian bytes gives the value written.
pub proof fn lemma_le_roundtrip(x: u32)
    ensures
        le_bytes(x).len() == 4,
        le_u32(le_bytes(x)) == x,
{
    let b0 = (x & 0xff) as u8;
    let b1 = ((x >> 8u32) & 0xff) as u8;
    let b2 = ((x >> 16u32) & 0xff) as u8;
    let b3 = ((x >> 24u32) & 0xff) as u8;
    assert((b0 as u32) | ((b1 as u32) << 8u32) | ((b2 as u32) << 16u32) | ((b3 as u32) << 24u32) == x)
        by (bit_vector)
        requires
            b0 == (x & 0xff) as u8,
            b1 == ((x >> 8u32) & 0xff) as u8,
            b2 == ((x >> 16u32) & 0xff) as u8,
            b3 == ((x >> 24u32) & 0xff) as u8,
    ;
}

/// Reads a little-endian `u32` from `data[offset..]` with byteorder's
/// `ReadBytesExt::read_u32::<LittleEndian>`. Claimed of it: with four bytes
/// available it returns their little-endian value; with fewer it fails with
/// `UnexpectedEof` (the error `read_exact` gives on a short `&[u8]`).
#[verifier::external_body]
fn read_u32_le(data: &[u8], offset: usize) -> (r: IoResult<u32>)
    requires
        offset <= data@.len(),
    ensures
        offset + 4 <= data@.len() ==> r is Ok && r->Ok_0 == le_u32(data@.skip(offset as int)),
        offset + 4 > data@.len() ==> r is Err && r->Err_0 == IoError::UnexpectedEof,
{
    match (&data[offset..]).read_u32::<LittleEndian>() {
        Ok(v) => Ok(v),
        Err(_) => Err(IoError::UnexpectedEof),
    }
}

/// Writes `n` little-endian at `offset` of `buf` with byteorder's
/// `WriteBytesExt::write_u32::<LittleEndian>` on the tail slice
/// `buf[offset..]`. Claimed of it: with four bytes of room the bytes of `n`
/// are written there; with less, as many of them as fit are written and the
/// write fails with `WriteZero` (what `write_all` does on a `&mut [u8]` that
/// is too short). Bytes before `offset` never change.
#[verifier::external_body]
fn write_u32_le(buf: &mut [u8], offset: usize, n: u32) -> (r: IoResult<()>)
    requires
        offset <= old(buf)@.len(),
    ensures
        offset + 4 <= old(buf)@.len() ==> r is Ok && final(buf)@ == spliced(old(buf)@, offset as int, le_bytes(n)),
        offset + 4 > old(buf)@.len() ==> r is Err && r->Err_0 == IoError::WriteZero && final(buf)@
            == old(buf)@.take(offset as int) + le_bytes(n).take(old(buf)@.len() - offset),
{
    match (&mut buf[offset..]).write_u32::<LittleEndian>(n) {
        Ok(()) => Ok(()),
        Err(_) => Err(IoError::WriteZero),
    }
}

/// The header that frames `meta`: magic, version and the metadata length
/// (as a `u32`), little-endian, then the metadata bytes.
pub open spec fn header_bytes(meta: Seq<u8>) -> Seq<u8> {
    le_bytes(MAGIC) + le_bytes(VERSION) + le_bytes(meta.len() as u32) + meta
}

/// What reading the header at the front of `data` gives: where the
/// metadata starts and where the header ends, or the reason it failed.
pub open spec fn parse_header(data: Seq<u8>) -> core::result::Result<(nat, nat), Error> {
    if data.len() < 4 {
        Err(Error::Io(IoError::UnexpectedEof))
    } else if le_u32(data.subrange(0, 4)) != MAGIC {
        Err(Error::Bipatch(DecodeError::WrongMagic(le_u32(data.subrange(0, 4)))))
    } else if data.len() < 8 {
        Err(Error::Io(IoError::UnexpectedEof))
    } else if le_u32(data.subrange(4, 8)) != VERSION {
        Err(Error::Bipatch(DecodeError::WrongVersion(le_u32(data.subrange(4, 8)))))
    } else if data.len() < 12 {
        Err(Error::Io(IoError::UnexpectedEof))
    } else if 12 + le_u32(data.subrange(8, 12)) as nat > data.len() {
        Err(Error::Io(IoError::UnexpectedEof))
    } else {
        Ok((12, 12 + le_u32(data.subrange(8, 12)) as nat))
    }
}

/// Writes the header that frames `meta_bytes` at the start of `out` and
/// returns its length. When `out` is too short for the whole header, as
/// much of it as fits is written and the write fails with `WriteZero`.
pub fn write_patch_header(out: &mut [u8], meta_bytes: &[u8]) -> (r: Result<usize>)
    ensures
        final(out)@.len() == old(out)@.len(),
        old(out)@.len() >= 12 + meta_bytes@.len() ==> (r matches Ok(n) && n == 12 + meta_bytes@.len()
            && final(out)@ == spliced(old(out)@, 0, header_bytes(meta_bytes@))),
        old(out)@.len() < 12 + meta_bytes@.len() ==> (r matches Err(e) && e == Error::Io(IoError::WriteZero))
            && final(out)@ == header_bytes(meta_bytes@).take(old(out)@.len() as int),
{
    let total = out.len();
    let ghost before = out@;
    let ghost hb = header_bytes(meta_bytes@);
    let mut offset: usize = 0;
    match write_u32_le(out, offset, MAGIC) {
        Ok(()) => {},
        Err(e) => {
            proof {
                assert(out@ =~= hb.take(before.len() as int));
            }
            return Err(Error::Io(e));
        },
    }
    offset += 4;
    proof {
        lemma_spliced_take(before, 0, le_bytes(MAGIC));
    }
    match write_u32_le(out, offset, VERSION) {
        Ok(()) => {},
        Err(e) => {
            proof {
                assert(out@ =~= hb.take(before.len() as int));
            }
            return Err(Error::Io(e));
        },
    }
    offset += 4;
    proof {
        lemma_spliced_twice(before, 0, le_bytes(MAGIC), le_bytes(VERSION));
        lemma_spliced_take(before, 0, le_bytes(MAGIC) + le_bytes(VERSION));
        assert(out@.take(4) =~= le_bytes(MAGIC));
    }
    let len = meta_bytes.len();
    match write_u32_le(out, offset, len as u32) {
        Ok(()) => {},
        Err(e) => {
            proof {
                assert(out@ =~= hb.take(before.len() as int));
            }
            return Err(Error::Io(e));
        },
    }
    offset += 4;
    let ghost fixed = le_bytes(MAGIC) + le_bytes(VERSION) + le_bytes(len as u32);
    proof {
        lemma_spliced_twice(before, 0, le_bytes(MAGIC) + le_bytes(VERSION), le_bytes(len as u32));
    }
    let ghost mid = out@;
    let room = total - 12;
    let count = if len <= room { len } else { room };
    let mut i: usize = 0;
    while i < count
        invariant
            len == meta_bytes@.len(),
            offset == 12,
            12 + count <= total,
            count <= len,
            total == before.len(),
            out@.len() == total,
            i <= len,
            mid == spliced(before, 0, fixed),
            fixed.len() == 12,
            forall|j: int| 0 <= j < 12 ==> out@[j] == mid[j],
            forall|j: int| 0 <= j < i ==> out@[12 + j] == meta_bytes@[j],
            forall|j: int| 12 + i <= j < total ==> out@[j] == before[j],
        decreases count - i,
    {
        out[offset + i] = meta_bytes[i];
        i += 1;
    }
    proof {
        assert(header_bytes(meta_bytes@) =~= fixed + meta_bytes@);
        assert(forall|j: int| 0 <= j < 12 ==> mid[j] == fixed[j]);
    }
    if count < len {
        proof {
            assert(out@ =~= hb.take(before.len() as int));
        }
        return Err(Error::Io(IoError::WriteZero));
    }
    proof {
        assert(out@ =~= spliced(before, 0, header_bytes(meta_bytes@)));
    }
    Ok(offset + len)
}

/// Reads the fixed part of the header at the front of `data`: checks the
/// magic number and the version, reads the metadata length and checks that
/// the metadata is all there. Returns where the metadata starts and where
/// the header ends; the metadata bytes are `data[meta_start..header_len]`.
pub fn read_patch_header(data: &[u8]) -> (r: Result<(usize, usize)>)
    ensures
        match parse_header(data@) {
            Ok((meta_start, header_len)) => r matches Ok((m, h)) && m == meta_start && h == header_len,
            Err(e) => r matches Err(x) && x == e,
        },
{
    let _total = data.len();
    proof {
        if data@.len() >= 4 {
            assert(le_u32(data@.skip(0)) == le_u32(data@.subrange(0, 4)));
        }
        if data@.len() >= 8 {
            assert(le_u32(data@.skip(4)) == le_u32(data@.subrange(4, 8)));
        }
        if data@.len() >= 12 {
            assert(le_u32(data@.skip(8)) == le_u32(data@.subrange(8, 12)));
        }
    }
    let mut offset: usize = 0;
    let magic = match read_u32_le(data, offset) {
        Ok(v) => v,
        Err(e) => return Err(Error::Io(e)),
    };
    offset += 4;
    if magic != MAGIC {
        return Err(Error::Bipatch(DecodeError::WrongMagic(magic)));
    }
    let version = match read_u32_le(data, offset) {
        Ok(v) => v,
        Err(e) => return Err(Error::Io(e)),
    };
    offset += 4;
    if version != VERSION {
        return Err(Error::Bipatch(DecodeError::WrongVersion(version)));
    }
    let meta_len = match read_u32_le(data, offset) {
        Ok(v) => v,
        Err(e) => return Err(Error::Io(e)),
    } as usize;
    offset += 4;
    if meta_len > data.len() - offset {
        return Err(Error::Io(IoError::UnexpectedEof));
    }
    let meta_start = offset;
    offset += meta_len;
    Ok((meta_start, offset))
}

/// The header written for `meta` reads back: its metadata stands at
/// `12..12 + len`, whatever follows the header.
pub proof fn lemma_header_roundtrip(meta: Seq<u8>, rest: Seq<u8>)
    requires
        meta.len() <= u32::MAX,
    ensures
        parse_header(header_bytes(meta) + rest) == Ok::<(nat, nat), Error>((12, 12 + meta.len())),
        (header_bytes(meta) + rest).subrange(12, 12 + meta.len() as int) == meta,
{
    let d = header_bytes(meta) + rest;
    lemma_le_roundtrip(MAGIC);
    lemma_le_roundtrip(VERSION);
    lemma_le_roundtrip(meta.len() as u32);
    assert(d.subrange(0, 4) =~= le_bytes(MAGIC));
    assert(d.subrange(4, 8) =~= le_bytes(VERSION));
    assert(d.subrange(8, 12) =~= le_bytes(meta.len() as u32));
    assert(d.subrange(12, 12 + meta.len() as int) =~= meta);
}

} // verus!
