//! Unsigned LEB128 varints and their ZigZag-encoded signed form, read from
//! the front of a byte slice.

use vstd::prelude::*;
use vstd::arithmetic::power2::{pow2, lemma_pow2_adds, lemma_pow2_pos, lemma2_to64};
use vstd::bits::{lemma_u64_shl_is_mul, lemma_u64_shr_is_div};
use crate::io_error::IoError;

verus! {

/// Largest number of bytes one varint may take.
pub const MAX_VARINT_BYTES: usize = 10;

/// The value of the 7-bit groups of the first `n` bytes of `s`, least
/// significant group first: byte `j` contributes `(s[j] % 128) * 2^(7j)`.
pub open spec fn group_sum(s: Seq<u8>, n: nat) -> nat
    decreases n,
{
    if n == 0 {
        0
    } else {
        group_sum(s, (n - 1) as nat) + (s[n - 1] as nat % 128) * pow2((7 * (n - 1)) as nat)
    }
}

/// Decoding of a varint whose first `k` bytes all carry the continuation bit.
pub open spec fn decode_varint_from(s: Seq<u8>, k: nat) -> Result<(u64, nat), IoError>
    decreases 10 - k,
{
    if k >= 10 {
        Err(IoError::VarintTooLong)
    } else if k >= s.len() {
        Err(IoError::VarintUnexpectedEof)
    } else if s[k as int] < 128 {
        Ok(((group_sum(s, k + 1) % pow2(64)) as u64, k + 1))
    } else {
        decode_varint_from(s, k + 1)
    }
}

/// What reading one varint from the front of `s` gives: the value, reduced
/// modulo 2^64, and the number of bytes it took; or the reason it failed.
pub open spec fn decode_varint(s: Seq<u8>) -> Result<(u64, nat), IoError> {
    decode_varint_from(s, 0)
}

/// The bytes that a failed read consumed: all of them when input ran out,
/// the ten examined bytes when the varint was too long.
pub open spec fn consumed_on_error(s: Seq<u8>, e: IoError) -> nat {
    if e == IoError::VarintTooLong {
        10
    } else {
        s.len()
    }
}

/// The unsigned LEB128 encoding of `v`: seven bits per byte, least
/// significant group first, the high bit set on every byte but the last.
pub open spec fn leb128(v: nat) -> Seq<u8>
    decreases v,
{
    if v < 128 {
        seq![v as u8]
    } else {
        seq![(v % 128 + 128) as u8] + leb128(v / 128)
    }
}

/// ZigZag mapping of a signed integer onto the naturals: 0, -1, 1, -2, ...
/// map to 0, 1, 2, 3, ...
pub open spec fn zigzag(n: int) -> nat {
    if n >= 0 {
        (2 * n) as nat
    } else {
        (-2 * n - 1) as nat
    }
}

/// Inverse of `zigzag`.
pub open spec fn unzigzag(raw: nat) -> int {
    if raw % 2 == 0 {
        (raw / 2) as int
    } else {
        -((raw / 2) as int) - 1
    }
}

/// What reading one ZigZag varint from the front of `s` gives.
pub open spec fn decode_varint_i64(s: Seq<u8>) -> Result<(i64, nat), IoError> {
    match decode_varint(s) {
        Ok((raw, n)) => Ok((unzigzag(raw as nat) as i64, n)),
        Err(e) => Err(e),
    }
}

/// What reading one varint into a `usize` from the front of `s` gives: a
/// value beyond `usize::MAX` is refused as an overflow.
pub open spec fn decode_varint_usize(s: Seq<u8>) -> Result<(usize, nat), IoError> {
    match decode_varint(s) {
        Ok((v, n)) => if v <= usize::MAX {
            Ok((v as usize, n))
        } else {
            Err(IoError::VarintOverflow)
        },
        Err(e) => Err(e),
    }
}

/// The bytes that reading a `usize` varint consumed when it failed: those of
/// the varint itself when only the conversion failed.
pub open spec fn consumed_on_usize_error(s: Seq<u8>) -> nat {
    match decode_varint(s) {
        Ok((v, n)) => n,
        Err(e) => consumed_on_error(s, e),
    }
}

/// A successful read consumes at least one byte and no more than there are.
pub proof fn lemma_decode_varint_consumes(s: Seq<u8>)
    ensures
        decode_varint(s) matches Ok((v, n)) ==> 1 <= n <= s.len() && n <= 10,
{
    lemma_decode_varint_from_consumes(s, 0);
}

proof fn lemma_decode_varint_from_consumes(s: Seq<u8>, k: nat)
    ensures
        decode_varint_from(s, k) matches Ok((v, n)) ==> k + 1 <= n <= s.len() && n <= 10,
    decreases 10 - k,
{
    if k < 10 && k < s.len() && s[k as int] >= 128 {
        lemma_decode_varint_from_consumes(s, k + 1);
    }
}

/// Reading an unsigned varint from a byte slice, advancing past it.
pub trait VarIntReader {
    fn read_varint(&mut self) -> Result<u64, IoError>;

    fn read_varint_usize(&mut self) -> Result<usize, IoError>;
}

/// Reading a ZigZag-encoded signed varint from a byte slice, advancing past it.
pub trait VarIntReaderZigZag {
    fn read_varint_i64(&mut self) -> Result<i64, IoError>;
}

proof fn lemma_decode_skips_continued(s: Seq<u8>, k: nat)
    requires
        k <= 10,
        k <= s.len(),
        forall|j: int| 0 <= j < k ==> s[j] >= 128,
    ensures
        decode_varint(s) == decode_varint_from(s, k),
    decreases k,
{
    if k > 0 {
        lemma_decode_skips_continued(s, (k - 1) as nat);
    }
}

/// One step of accumulating a 7-bit group into a u64 with a bitwise or.
proof fn lemma_or_group(r: u64, c: u64, k: u64)
    requires
        k <= 9,
        c < 128,
        r < pow2((7 * k) as nat),
    ensures
        (r | (c << ((7 * k) as u64))) as int == (r as int + c as int * pow2((7 * k) as nat) as int) % (pow2(64) as int),
{
    let s: u64 = (7 * k) as u64;
    lemma2_to64();
    lemma_pow2_pos(s as nat);
    if k <= 8 {
        vstd::bits::lemma_u64_pow2_no_overflow(s as nat);
        assert(pow2(s as nat) <= pow2(56)) by {
            if s < 56 {
                vstd::arithmetic::power2::lemma_pow2_strictly_increases(s as nat, 56);
            }
        }
        lemma_pow2_adds(56, 8);
        assert(c * pow2(s as nat) <= 127 * pow2(56)) by (nonlinear_arith)
            requires c < 128, pow2(s as nat) <= pow2(56), 0 < pow2(s as nat);
        lemma_u64_shl_is_mul(c, s);
        lemma_u64_shl_is_mul(1, s);
        assert(r < (1u64 << s));
        assert(r | (c << s) == r + (c << s)) by (bit_vector)
            requires r < (1u64 << s), s < 64, c < 128;
        assert(r + c * pow2(s as nat) < pow2(64)) by (nonlinear_arith)
            requires r < pow2(s as nat), c < 128, pow2(s as nat) <= pow2(56), pow2(56) * pow2(8) == pow2(64), pow2(8) == 256;
        vstd::arithmetic::div_mod::lemma_small_mod((r + c * pow2(s as nat)) as nat, pow2(64));
    } else {
        assert(s == 63);
        vstd::arithmetic::power2::lemma2_to64_rest();
        lemma_pow2_adds(63, 1);
        assert(r | (c << 63u64) == r + (c & 1) * 0x8000_0000_0000_0000u64) by (bit_vector)
            requires r < 0x8000_0000_0000_0000u64, c < 128;
        assert(c & 1 == c % 2) by (bit_vector);
        let q = c / 2;
        assert(c == 2 * q + c % 2);
        assert(c * pow2(63) == q * pow2(64) + (c % 2) * pow2(63)) by (nonlinear_arith)
            requires c == 2 * q + c % 2, pow2(64) == 2 * pow2(63);
        assert(r + c * pow2(63) == q * pow2(64) + (r + (c % 2) * pow2(63)));
        vstd::arithmetic::div_mod::lemma_mod_multiples_vanish(
            q as int,
            (r + (c % 2) * pow2(63)) as int,
            pow2(64) as int,
        );
        vstd::arithmetic::div_mod::lemma_small_mod((r + (c % 2) * pow2(63)) as nat, pow2(64));
    }
}

impl<'a> VarIntReader for &'a [u8] {
    /// Reads one unsigned LEB128 varint (at most ten bytes) from the front of
    /// the slice and advances the slice past the bytes it consumed.
    fn read_varint(&mut self) -> (r: Result<u64, IoError>)
        ensures
            match decode_varint(old(self)@) {
                Ok((v, n)) => r matches Ok(x) && x == v && final(self)@ == old(self)@.skip(n as int),
                Err(e) => r matches Err(x) && x == e
                    && final(self)@ == old(self)@.skip(consumed_on_error(old(self)@, e) as int),
            },
    {
        let ghost orig = self@;
        let mut result: u64 = 0;
        let mut shift: u64 = 0;
        let mut bytes_read: usize = 0;
        proof {
            lemma2_to64();
        }
        while bytes_read < MAX_VARINT_BYTES
            invariant
                bytes_read <= 10,
                bytes_read <= orig.len(),
                orig == old(self)@,
                shift == 7 * bytes_read,
                self@ == orig.skip(bytes_read as int),
                forall|j: int| 0 <= j < bytes_read ==> orig[j] >= 128,
                result as nat == group_sum(orig, bytes_read as nat) % pow2(64),
                bytes_read <= 9 ==> group_sum(orig, bytes_read as nat) < pow2(shift as nat),
            decreases 10 - bytes_read,
        {
            proof {
                lemma2_to64();
                lemma_decode_skips_continued(orig, bytes_read as nat);
            }
            if self.is_empty() {
                proof {
                    assert(bytes_read == orig.len());
                    assert(self@ =~= orig.skip(orig.len() as int));
                }
                return Err(IoError::VarintUnexpectedEof);
            }
            let byte = self[0];
            *self = vstd::slice::slice_subrange(*self, 1, self.len());
            let ghost k = bytes_read as nat;
            bytes_read += 1;
            let c: u64 = (byte & 0x7F) as u64;
            proof {
                assert(byte & 0x7F == byte % 128) by (bit_vector);
                assert(orig[k as int] == byte);
                assert(group_sum(orig, k) < pow2(64)) by {
                    if k < 9 {
                        vstd::arithmetic::power2::lemma_pow2_strictly_increases((7 * k) as nat, 64);
                    } else {
                        vstd::arithmetic::power2::lemma_pow2_strictly_increases(63, 64);
                    }
                }
                vstd::arithmetic::div_mod::lemma_small_mod(group_sum(orig, k), pow2(64));
                lemma_or_group(result, c, k as u64);
                assert(group_sum(orig, k + 1) == group_sum(orig, k) + c * pow2((7 * k) as nat));
                assert(self@ =~= orig.skip(bytes_read as int));
                if k < 9 {
                    lemma_pow2_adds((7 * k) as nat, 7);
                    assert(pow2(7) == 128);
                    assert(group_sum(orig, k + 1) < pow2((7 * (k + 1)) as nat)) by (nonlinear_arith)
                        requires
                            group_sum(orig, k + 1) == group_sum(orig, k) + c * pow2((7 * k) as nat),
                            group_sum(orig, k) < pow2((7 * k) as nat),
                            c < 128,
                            pow2((7 * (k + 1)) as nat) == pow2((7 * k) as nat) * 128;
                }
            }
            result = result | (c << shift);
            if byte & 0x80 == 0 {
                proof {
                    assert(byte & 0x80 == 0 ==> byte < 128) by (bit_vector);
                }
                return Ok(result);
            }
            proof {
                assert(byte & 0x80 != 0 ==> byte >= 128) by (bit_vector);
            }
            shift += 7;
        }
        proof {
            lemma_decode_skips_continued(orig, 10);
        }
        Err(IoError::VarintTooLong)
    }

    /// Reads one varint as a `usize`, refusing a value that does not fit
    /// with `VarintOverflow` after consuming its bytes.
    fn read_varint_usize(&mut self) -> (r: Result<usize, IoError>)
        ensures
            match decode_varint_usize(old(self)@) {
                Ok((v, n)) => r matches Ok(x) && x == v && final(self)@ == old(self)@.skip(n as int),
                Err(e) => r matches Err(x) && x == e
                    && final(self)@ == old(self)@.skip(consumed_on_usize_error(old(self)@) as int),
            },
    {
        let v = self.read_varint()?;
        if v > usize::MAX as u64 {
            return Err(IoError::VarintOverflow);
        }
        Ok(v as usize)
    }
}

/// The bitwise form of ZigZag decoding agrees with `unzigzag`.
proof fn lemma_unzigzag_bits(raw: u64, neg: i64)
    requires
        neg == -((raw % 2) as int),
    ensures
        ((raw >> 1u64) as i64) ^ neg == unzigzag(raw as nat),
{
    lemma_u64_shr_is_div(raw, 1);
    lemma2_to64();
    assert((raw >> 1u64) <= 0x7fff_ffff_ffff_ffffu64) by (bit_vector);
    let h = (raw >> 1u64) as i64;
    assert(h as int == raw as int / 2);
    if raw % 2 == 0 {
        assert(neg == 0);
        assert(h ^ 0i64 == h) by (bit_vector);
    } else {
        assert(neg == -1);
        assert(h ^ (-1i64) == -h - 1) by (bit_vector);
    }
}

impl<'a> VarIntReaderZigZag for &'a [u8] {
    /// Reads one ZigZag-encoded signed varint from the front of the slice and
    /// advances the slice past the bytes it consumed.
    fn read_varint_i64(&mut self) -> (r: Result<i64, IoError>)
        ensures
            match decode_varint_i64(old(self)@) {
                Ok((v, n)) => r matches Ok(x) && x == v && final(self)@ == old(self)@.skip(n as int),
                Err(e) => r matches Err(x) && x == e
                    && final(self)@ == old(self)@.skip(consumed_on_error(old(self)@, e) as int),
            },
    {
        let raw: u64 = self.read_varint()?;
        proof {
            assert(raw & 1 == raw % 2) by (bit_vector);
        }
        let low: i64 = (raw & 1) as i64;
        let neg: i64 = -low;
        proof {
            lemma_unzigzag_bits(raw, neg);
        }
        let decoded = ((raw >> 1) as i64) ^ neg;
        Ok(decoded)
    }
}

/// Dropping the first byte of a sequence shifts its groups down by seven bits.
proof fn lemma_group_sum_cons(b: u8, t: Seq<u8>, n: nat)
    requires
        n <= t.len(),
    ensures
        group_sum(seq![b] + t, n + 1) == (b as nat % 128) + 128 * group_sum(t, n),
    decreases n,
{
    let x = seq![b] + t;
    lemma2_to64();
    if n == 0 {
        assert(x[0] == b);
        assert(group_sum(x, 1) == group_sum(x, 0) + (x[0] as nat % 128) * pow2(0));
        assert(group_sum(t, 0) == 0);
    } else {
        lemma_group_sum_cons(b, t, (n - 1) as nat);
        assert(x[n as int] == t[n - 1]);
        lemma_pow2_adds(7, (7 * (n - 1)) as nat);
        assert(pow2((7 * n) as nat) == 128 * pow2((7 * (n - 1)) as nat));
        let g = group_sum(t, (n - 1) as nat);
        let d = t[n - 1] as nat % 128;
        let p = pow2((7 * (n - 1)) as nat);
        assert(128 * (g + d * p) == 128 * g + d * (128 * p)) by (nonlinear_arith);
        assert(group_sum(x, n + 1) == group_sum(x, n) + (x[n as int] as nat % 128) * pow2((7 * n) as nat));
        assert(group_sum(t, n) == g + d * p);
    }
}

/// The groups of a prefix do not depend on what follows it.
proof fn lemma_group_sum_prefix(e: Seq<u8>, rest: Seq<u8>, n: nat)
    requires
        n <= e.len(),
    ensures
        group_sum(e + rest, n) == group_sum(e, n),
    decreases n,
{
    if n > 0 {
        lemma_group_sum_prefix(e, rest, (n - 1) as nat);
        assert((e + rest)[n - 1] == e[n - 1]);
    }
}

/// Shape of an LEB128 encoding: every byte but the last carries the
/// continuation bit, and the groups add up to the value.
proof fn lemma_leb128_shape(v: nat)
    ensures
        leb128(v).len() >= 1,
        forall|j: int| 0 <= j < leb128(v).len() - 1 ==> leb128(v)[j] >= 128,
        leb128(v)[leb128(v).len() - 1] < 128,
        group_sum(leb128(v), leb128(v).len()) == v,
    decreases v,
{
    lemma2_to64();
    if v < 128 {
        let e = leb128(v);
        assert(e[0] == v as u8);
        assert(group_sum(e, 1) == group_sum(e, 0) + (e[0] as nat % 128) * pow2(0));
    } else {
        let t = leb128(v / 128);
        let b = (v % 128 + 128) as u8;
        lemma_leb128_shape(v / 128);
        assert(leb128(v) == seq![b] + t);
        lemma_group_sum_cons(b, t, t.len());
        assert(forall|j: int| 1 <= j < leb128(v).len() ==> leb128(v)[j] == t[j - 1]);
    }
}

/// A value below 2^(7k) takes at most `k` bytes.
proof fn lemma_leb128_len_bound(v: nat, k: nat)
    requires
        k >= 1,
        v < pow2(7 * k),
    ensures
        leb128(v).len() <= k,
    decreases v,
{
    lemma2_to64();
    if v >= 128 {
        if k == 1 {
            assert(false);
        } else {
            lemma_pow2_adds(7, (7 * (k - 1)) as nat);
            assert(pow2(7 * k) == 128 * pow2((7 * (k - 1)) as nat));
            assert(v / 128 < pow2((7 * (k - 1)) as nat)) by (nonlinear_arith)
                requires v < 128 * pow2((7 * (k - 1)) as nat);
            lemma_leb128_len_bound(v / 128, (k - 1) as nat);
        }
    }
}

/// A 64-bit value takes at most ten bytes.
pub proof fn lemma_leb128_len_u64(v: u64)
    ensures
        1 <= leb128(v as nat).len() <= 10,
{
    lemma2_to64();
    lemma_leb128_shape(v as nat);
    lemma_pow2_adds(64, 6);
    vstd::arithmetic::power2::lemma_pow2_pos(6);
    lemma_leb128_len_bound(v as nat, 10);
}

/// Reading a varint gives back the value whose LEB128 encoding stands at the
/// front of the input, whatever follows it, and consumes exactly that encoding.
pub proof fn lemma_varint_roundtrip(v: u64, rest: Seq<u8>)
    ensures
        decode_varint(leb128(v as nat) + rest) matches Ok((x, m)) && x == v && m == leb128(v as nat).len(),
{
    let e = leb128(v as nat);
    let s = e + rest;
    lemma_leb128_shape(v as nat);
    lemma_leb128_len_u64(v);
    lemma2_to64();
    assert(forall|j: int| 0 <= j < e.len() - 1 ==> s[j] == e[j]);
    lemma_decode_skips_continued(s, (e.len() - 1) as nat);
    assert(s[e.len() - 1] == e[e.len() - 1]);
    lemma_group_sum_prefix(e, rest, e.len());
    vstd::arithmetic::div_mod::lemma_small_mod(v as nat, pow2(64));
}

/// ZigZag decoding undoes ZigZag encoding.
pub proof fn lemma_zigzag_roundtrip(n: i64)
    ensures
        zigzag(n as int) <= u64::MAX,
        unzigzag(zigzag(n as int)) == n as int,
{
}

/// Reading a signed varint gives back the value whose ZigZag LEB128
/// encoding stands at the front of the input, whatever follows it.
pub proof fn lemma_varint_i64_roundtrip(n: i64, rest: Seq<u8>)
    ensures
        decode_varint_i64(leb128(zigzag(n as int)) + rest) matches Ok((x, m)) && x == n && m
            == leb128(zigzag(n as int)).len(),
{
    lemma_zigzag_roundtrip(n);
    let raw = zigzag(n as int) as u64;
    lemma_varint_roundtrip(raw, rest);
}

} // verus!
