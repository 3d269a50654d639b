//! Wire-level primitives: bounds-checked byte ranges, little-endian integers
//! and unsigned LEB128 varints.
use vstd::prelude::*;

use crate::error::{fails_with, CoveError, ErrorCode};

verus! {

// ---------------------------------------------------------------------------
// Little-endian integers
// ---------------------------------------------------------------------------

/// The `u16` stored little-endian at `s[i..i + 2]`.
pub open spec fn spec_u16_at(s: Seq<u8>, i: int) -> u16 {
    (s[i] as int + 256 * s[i + 1] as int) as u16
}

/// The `u32` stored little-endian at `s[i..i + 4]`.
pub open spec fn spec_u32_at(s: Seq<u8>, i: int) -> u32 {
    (s[i] as int + 0x100 * s[i + 1] as int + 0x1_0000 * s[i + 2] as int + 0x100_0000
        * s[i + 3] as int) as u32
}

/// The `u64` stored little-endian at `s[i..i + 8]`.
pub open spec fn spec_u64_at(s: Seq<u8>, i: int) -> u64 {
    (spec_u32_at(s, i) as int + 0x1_0000_0000 * spec_u32_at(s, i + 4) as int) as u64
}

/// Little-endian bytes of a `u16`.
pub open spec fn u16_le_bytes(x: u16) -> Seq<u8> {
    seq![(x % 256) as u8, (x / 256) as u8]
}

/// Little-endian bytes of a `u32`.
pub open spec fn u32_le_bytes(x: u32) -> Seq<u8> {
    seq![
        (x % 0x100) as u8,
        ((x / 0x100) % 0x100) as u8,
        ((x / 0x1_0000) % 0x100) as u8,
        (x / 0x100_0000) as u8,
    ]
}

/// Little-endian bytes of a `u64`.
pub open spec fn u64_le_bytes(x: u64) -> Seq<u8> {
    u32_le_bytes((x % 0x1_0000_0000) as u32) + u32_le_bytes((x / 0x1_0000_0000) as u32)
}

pub proof fn lemma_u16_roundtrip(x: u16, s: Seq<u8>, i: int)
    requires
        0 <= i,
        i + 2 <= s.len(),
        s.subrange(i, i + 2) == u16_le_bytes(x),
    ensures
        spec_u16_at(s, i) == x,
{
    assert(s[i] == s.subrange(i, i + 2)[0]);
    assert(s[i + 1] == s.subrange(i, i + 2)[1]);
}

pub proof fn lemma_u32_roundtrip(x: u32, s: Seq<u8>, i: int)
    requires
        0 <= i,
        i + 4 <= s.len(),
        s.subrange(i, i + 4) == u32_le_bytes(x),
    ensures
        spec_u32_at(s, i) == x,
{
    let t = s.subrange(i, i + 4);
    assert(s[i] == t[0] && s[i + 1] == t[1] && s[i + 2] == t[2] && s[i + 3] == t[3]);
    let x0 = x % 0x100;
    let x1 = (x / 0x100) % 0x100;
    let x2 = (x / 0x1_0000) % 0x100;
    let x3 = x / 0x100_0000;
    assert(x0 + 0x100 * x1 + 0x1_0000 * x2 + 0x100_0000 * x3 == x) by (nonlinear_arith)
        requires
            x0 == x % 0x100,
            x1 == (x / 0x100) % 0x100,
            x2 == (x / 0x1_0000) % 0x100,
            x3 == x / 0x100_0000,
            x <= 0xffff_ffff,
    {
        assert(x == x % 0x100 + 0x100 * (x / 0x100));
        assert(x / 0x100 == (x / 0x100) % 0x100 + 0x100 * (x / 0x1_0000));
        assert(x / 0x1_0000 == (x / 0x1_0000) % 0x100 + 0x100 * (x / 0x100_0000));
    }
}

pub proof fn lemma_u64_roundtrip(x: u64, s: Seq<u8>, i: int)
    requires
        0 <= i,
        i + 8 <= s.len(),
        s.subrange(i, i + 8) == u64_le_bytes(x),
    ensures
        spec_u64_at(s, i) == x,
{
    let lo = (x % 0x1_0000_0000) as u32;
    let hi = (x / 0x1_0000_0000) as u32;
    let t = s.subrange(i, i + 8);
    assert(s.subrange(i, i + 4) =~= t.subrange(0, 4));
    assert(s.subrange(i + 4, i + 8) =~= t.subrange(4, 8));
    assert(t.subrange(0, 4) =~= u32_le_bytes(lo));
    assert(t.subrange(4, 8) =~= u32_le_bytes(hi));
    lemma_u32_roundtrip(lo, s, i);
    lemma_u32_roundtrip(hi, s, i + 4);
    assert(lo as int + 0x1_0000_0000 * hi as int == x) by (nonlinear_arith)
        requires
            lo == x % 0x1_0000_0000,
            hi == x / 0x1_0000_0000,
    ;
}

/// The `len` bytes at `offset`: `ArithOverflow` when the end overflows
/// `usize`, `OffsetRange` when it lies past the end of `b`.
pub open spec fn spec_range(b: Seq<u8>, offset: int, len: int) -> Result<Seq<u8>, ErrorCode> {
    if offset + len > usize::MAX {
        Err(ErrorCode::ArithOverflow)
    } else if offset + len > b.len() {
        Err(ErrorCode::OffsetRange)
    } else {
        Ok(b.subrange(offset, offset + len))
    }
}

/// The little-endian `u32` at `offset`, or why it cannot be read.
pub open spec fn spec_read_u32(b: Seq<u8>, offset: int) -> Result<u32, ErrorCode> {
    match spec_range(b, offset, 4) {
        Ok(_) => Ok(spec_u32_at(b, offset)),
        Err(e) => Err(e),
    }
}

/// The little-endian `u64` at `offset`, or why it cannot be read.
pub open spec fn spec_read_u64(b: Seq<u8>, offset: int) -> Result<u64, ErrorCode> {
    match spec_range(b, offset, 8) {
        Ok(_) => Ok(spec_u64_at(b, offset)),
        Err(e) => Err(e),
    }
}

/// Reads `len` bytes at `offset`, failing instead of panicking when the range
/// leaves `bytes`.
pub fn read_range_checked(bytes: &[u8], offset: usize, len: usize) -> (res: Result<
    &[u8],
    CoveError,
>)
    ensures
        offset + len > usize::MAX ==> fails_with(res, ErrorCode::ArithOverflow),
        offset + len <= usize::MAX && offset + len > bytes@.len() ==> fails_with(res, ErrorCode::OffsetRange),
        offset + len <= bytes@.len() ==> (res matches Ok(r) && r@ == bytes@.subrange(
            offset as int,
            offset + len,
        )),
        match spec_range(bytes@, offset as int, len as int) {
            Ok(r) => (res matches Ok(v) && v@ == r),
            Err(c) => fails_with(res, c),
        },
{
    let blen = bytes.len();
    let end = match offset.checked_add(len) {
        Some(end) => end,
        None => return Err(CoveError::ArithOverflow),
    };
    if end > blen {
        return Err(CoveError::OffsetRange);
    }
    Ok(&bytes[offset..end])
}

/// Reads a little-endian `u16` at `offset`.
pub fn read_u16_le(bytes: &[u8], offset: usize) -> (res: Result<u16, CoveError>)
    ensures
        offset + 2 > usize::MAX ==> fails_with(res, ErrorCode::ArithOverflow),
        offset + 2 <= usize::MAX && offset + 2 > bytes@.len() ==> fails_with(res, ErrorCode::OffsetRange),
        offset + 2 <= bytes@.len() ==> res == Ok::<u16, CoveError>(
            spec_u16_at(bytes@, offset as int),
        ),
{
    let s = read_range_checked(bytes, offset, 2)?;
    Ok(s[0] as u16 + 256 * (s[1] as u16))
}

/// Reads a little-endian `u32` at `offset`.
pub fn read_u32_le(bytes: &[u8], offset: usize) -> (res: Result<u32, CoveError>)
    ensures
        offset + 4 > usize::MAX ==> fails_with(res, ErrorCode::ArithOverflow),
        offset + 4 <= usize::MAX && offset + 4 > bytes@.len() ==> fails_with(res, ErrorCode::OffsetRange),
        offset + 4 <= bytes@.len() ==> res == Ok::<u32, CoveError>(
            spec_u32_at(bytes@, offset as int),
        ),
        match spec_read_u32(bytes@, offset as int) {
            Ok(v) => res == Ok::<u32, CoveError>(v),
            Err(c) => fails_with(res, c),
        },
{
    let s = read_range_checked(bytes, offset, 4)?;
    Ok(s[0] as u32 + 0x100 * (s[1] as u32) + 0x1_0000 * (s[2] as u32) + 0x100_0000 * (
    s[3] as u32))
}

/// Reads a little-endian `u64` at `offset`.
pub fn read_u64_le(bytes: &[u8], offset: usize) -> (res: Result<u64, CoveError>)
    ensures
        offset + 8 > usize::MAX ==> fails_with(res, ErrorCode::ArithOverflow),
        offset + 8 <= usize::MAX && offset + 8 > bytes@.len() ==> fails_with(res, ErrorCode::OffsetRange),
        offset + 8 <= bytes@.len() ==> res == Ok::<u64, CoveError>(
            spec_u64_at(bytes@, offset as int),
        ),
        match spec_read_u64(bytes@, offset as int) {
            Ok(v) => res == Ok::<u64, CoveError>(v),
            Err(c) => fails_with(res, c),
        },
{
    let s = read_range_checked(bytes, offset, 8)?;
    let lo = s[0] as u64 + 0x100 * (s[1] as u64) + 0x1_0000 * (s[2] as u64) + 0x100_0000 * (
    s[3] as u64);
    let hi = s[4] as u64 + 0x100 * (s[5] as u64) + 0x1_0000 * (s[6] as u64) + 0x100_0000 * (
    s[7] as u64);
    Ok(lo + 0x1_0000_0000 * hi)
}

/// The little-endian `u16` at `offset`, which the caller has bounds-checked.
pub fn get_u16_le(bytes: &[u8], offset: usize) -> (res: u16)
    requires
        offset + 2 <= bytes@.len(),
    ensures
        res == spec_u16_at(bytes@, offset as int),
{
    bytes[offset] as u16 + 256 * (bytes[offset + 1] as u16)
}

/// The little-endian `u32` at `offset`, which the caller has bounds-checked.
pub fn get_u32_le(bytes: &[u8], offset: usize) -> (res: u32)
    requires
        offset + 4 <= bytes@.len(),
    ensures
        res == spec_u32_at(bytes@, offset as int),
{
    bytes[offset] as u32 + 0x100 * (bytes[offset + 1] as u32) + 0x1_0000 * (
    bytes[offset + 2] as u32) + 0x100_0000 * (bytes[offset + 3] as u32)
}

/// The little-endian `u64` at `offset`, which the caller has bounds-checked.
pub fn get_u64_le(bytes: &[u8], offset: usize) -> (res: u64)
    requires
        offset + 8 <= bytes@.len(),
    ensures
        res == spec_u64_at(bytes@, offset as int),
{
    let _ = bytes.len();
    let lo = get_u32_le(bytes, offset) as u64;
    let hi = get_u32_le(bytes, offset + 4) as u64;
    lo + 0x1_0000_0000 * hi
}

/// Appends `src` to `out`.
pub fn append_bytes(out: &mut Vec<u8>, src: &[u8])
    ensures
        final(out)@ == old(out)@ + src@,
{
    let ghost start = out@;
    let mut i: usize = 0;
    while i < src.len()
        invariant
            i <= src@.len(),
            out@ == start + src@.subrange(0, i as int),
        decreases src@.len() - i,
    {
        out.push(src[i]);
        i = i + 1;
        assert(out@ =~= start + src@.subrange(0, i as int));
    }
    assert(src@.subrange(0, src@.len() as int) =~= src@);
}

/// Appends the little-endian bytes of `x`.
pub fn push_u16_le(out: &mut Vec<u8>, x: u16)
    ensures
        final(out)@ == old(out)@ + u16_le_bytes(x),
{
    out.push((x % 256) as u8);
    out.push((x / 256) as u8);
    assert(out@ =~= old(out)@ + u16_le_bytes(x));
}

/// Appends the little-endian bytes of `x`.
pub fn push_u32_le(out: &mut Vec<u8>, x: u32)
    ensures
        final(out)@ == old(out)@ + u32_le_bytes(x),
{
    out.push((x % 0x100) as u8);
    out.push(((x / 0x100) % 0x100) as u8);
    out.push(((x / 0x1_0000) % 0x100) as u8);
    out.push((x / 0x100_0000) as u8);
    assert(out@ =~= old(out)@ + u32_le_bytes(x));
}

/// Appends the little-endian bytes of `x`.
pub fn push_u64_le(out: &mut Vec<u8>, x: u64)
    ensures
        final(out)@ == old(out)@ + u64_le_bytes(x),
{
    push_u32_le(out, (x % 0x1_0000_0000) as u32);
    push_u32_le(out, (x / 0x1_0000_0000) as u32);
    assert(out@ =~= old(out)@ + u64_le_bytes(x));
}

// ---------------------------------------------------------------------------
// Unsigned LEB128
// ---------------------------------------------------------------------------

/// Maximum number of bytes an unsigned 64-bit LEB128 value may occupy.
pub const LEB128_MAX_BYTES: usize = 10;

/// `128^n`.
pub open spec fn pow128(n: nat) -> nat
    decreases n,
{
    if n == 0 {
        1
    } else {
        128 * pow128((n - 1) as nat)
    }
}

/// The value of the first `n` seven-bit groups of `s`, least significant first.
pub open spec fn leb_value(s: Seq<u8>, n: nat) -> nat
    decreases n,
{
    if n == 0 {
        0
    } else {
        (s[0] % 128) as nat + 128 * leb_value(s.drop_first(), (n - 1) as nat)
    }
}

/// The index of the first byte at or after `i` without the continuation bit,
/// looking no further than the first ten bytes.
pub open spec fn leb_scan(s: Seq<u8>, i: nat) -> Option<nat>
    decreases 10 - i,
{
    if i >= 10 || i >= s.len() {
        None
    } else if s[i as int] < 128 {
        Some(i)
    } else {
        leb_scan(s, i + 1)
    }
}

/// Decoding an unsigned LEB128 varint at the start of `s`: the value and the
/// number of bytes it occupies, or why it cannot be decoded.
pub open spec fn spec_leb_decode(s: Seq<u8>) -> Result<(u64, nat), ErrorCode> {
    match leb_scan(s, 0) {
        Some(k) => if leb_value(s, k + 1) <= u64::MAX {
            Ok((leb_value(s, k + 1) as u64, k + 1))
        } else {
            Err(ErrorCode::ArithOverflow)
        },
        None => if s.len() < 10 {
            Err(ErrorCode::BufferTooShort)
        } else {
            Err(ErrorCode::ArithOverflow)
        },
    }
}

/// The canonical unsigned LEB128 encoding of `v`.
pub open spec fn spec_leb_encode(v: nat) -> Seq<u8>
    decreases v,
{
    if v < 128 {
        seq![v as u8]
    } else {
        seq![(v % 128 + 128) as u8] + spec_leb_encode(v / 128)
    }
}

proof fn lemma_pow128_bound(n: nat)
    requires
        n <= 10,
    ensures
        pow128(n) <= pow128(10),
        pow128(10) == 0x40_0000_0000_0000_0000,
        pow128(9) == 0x8000_0000_0000_0000,
    decreases 10 - n,
{
    reveal_with_fuel(pow128, 11);
    if n < 10 {
        lemma_pow128_bound(n + 1);
    }
}

proof fn lemma_leb_value_step(s: Seq<u8>, n: nat)
    requires
        n < s.len(),
    ensures
        leb_value(s, n + 1) == leb_value(s, n) + (s[n as int] % 128) as nat * pow128(n),
    decreases n,
{
    let d = (s[n as int] % 128) as nat;
    if n == 0 {
        assert(leb_value(s.drop_first(), 0) == 0);
        assert(leb_value(s, 1) == d);
        assert(pow128(0) == 1);
        assert(d * 1 == d);
    } else {
        lemma_leb_value_step(s.drop_first(), (n - 1) as nat);
        assert(s.drop_first()[(n - 1) as int] == s[n as int]);
        let a = leb_value(s.drop_first(), (n - 1) as nat);
        let p = pow128((n - 1) as nat);
        assert(((n + 1) - 1) as nat == n);
        assert(leb_value(s, n + 1) == (s[0] % 128) as nat + 128 * leb_value(s.drop_first(), n));
        assert(leb_value(s.drop_first(), n) == a + d * p);
        assert(leb_value(s, n) == (s[0] % 128) as nat + 128 * a);
        assert(pow128(n) == 128 * p);
        assert(128 * (a + d * p) == 128 * a + d * (128 * p)) by (nonlinear_arith);
    }
}

proof fn lemma_leb_value_bound(s: Seq<u8>, n: nat)
    requires
        n <= s.len(),
    ensures
        leb_value(s, n) < pow128(n),
    decreases n,
{
    if n > 0 {
        lemma_leb_value_bound(s.drop_first(), (n - 1) as nat);
        let a = leb_value(s.drop_first(), (n - 1) as nat);
        let p = pow128((n - 1) as nat);
        let d = (s[0] % 128) as nat;
        assert(d + 128 * a < 128 * p) by (nonlinear_arith)
            requires
                d < 128,
                a < p,
        ;
    }
}

proof fn lemma_leb_scan_skip(s: Seq<u8>, i: nat)
    requires
        i <= 10,
        i <= s.len(),
        forall|j: int| 0 <= j < i ==> s[j] >= 128,
    ensures
        leb_scan(s, 0) == leb_scan(s, i),
    decreases i,
{
    if i > 0 {
        lemma_leb_scan_skip(s, (i - 1) as nat);
    }
}

proof fn lemma_leb_scan_bound(s: Seq<u8>, i: nat)
    ensures
        leb_scan(s, i) matches Some(k) ==> i <= k && k < s.len() && k < 10,
    decreases 10 - i,
{
    if i < 10 && i < s.len() && s[i as int] >= 128 {
        lemma_leb_scan_bound(s, i + 1);
    }
}

/// A decoded varint occupies between one and ten bytes of its input.
pub proof fn lemma_leb_decode_len(s: Seq<u8>)
    ensures
        spec_leb_decode(s) matches Ok((_, n)) ==> 1 <= n <= s.len() && n <= 10,
{
    lemma_leb_scan_bound(s, 0);
}

/// Decodes an unsigned LEB128 varint at the start of `bytes`, returning the
/// value and the number of bytes consumed.
pub fn decode_u64_leb128(bytes: &[u8]) -> (res: Result<(u64, usize), CoveError>)
    ensures
        match spec_leb_decode(bytes@) {
            Ok((v, n)) => res == Ok::<(u64, usize), CoveError>((v, n as usize)),
            Err(c) => fails_with(res, c),
        },
        res matches Ok((_, n)) ==> 1 <= n <= bytes@.len() && n <= 10,
{
    let mut acc: u128 = 0;
    let mut mult: u128 = 1;
    let mut i: usize = 0;
    while i < bytes.len() && i < LEB128_MAX_BYTES
        invariant
            i <= 10,
            i <= bytes@.len(),
            acc == leb_value(bytes@, i as nat),
            mult == pow128(i as nat),
            forall|j: int| 0 <= j < i ==> bytes@[j] >= 128,
        decreases 10 - i,
    {
        let b = bytes[i];
        proof {
            lemma_leb_value_step(bytes@, i as nat);
            lemma_leb_value_bound(bytes@, i as nat);
            lemma_pow128_bound(i as nat);
            lemma_pow128_bound((i + 1) as nat);
            assert((b % 128) as nat * mult <= 127 * mult) by (nonlinear_arith)
                requires
                    b % 128 <= 127,
            ;
        }
        acc = acc + (b % 128) as u128 * mult;
        if b < 128 {
            proof {
                lemma_leb_scan_skip(bytes@, i as nat);
            }
            if acc > u64::MAX as u128 {
                return Err(CoveError::ArithOverflow);
            }
            return Ok((acc as u64, i + 1));
        }
        mult = mult * 128;
        i = i + 1;
    }
    proof {
        lemma_leb_scan_skip(bytes@, i as nat);
    }
    if bytes.len() < LEB128_MAX_BYTES {
        Err(CoveError::BufferTooShort)
    } else {
        Err(CoveError::ArithOverflow)
    }
}

/// Encodes `value` as canonical unsigned LEB128.
pub fn encode_u64_leb128(value: u64) -> (res: Vec<u8>)
    ensures
        res@ == spec_leb_encode(value as nat),
{
    let mut out: Vec<u8> = Vec::new();
    let mut v = value;
    loop
        invariant
            out@ + spec_leb_encode(v as nat) == spec_leb_encode(value as nat),
        decreases v,
    {
        if v < 128 {
            out.push(v as u8);
            return out;
        }
        out.push((v % 128 + 128) as u8);
        let ghost before = out@;
        v = v / 128;
        assert(before + spec_leb_encode(v as nat) =~= spec_leb_encode(value as nat));
    }
}

proof fn lemma_leb_encode_shape(v: nat, rest: Seq<u8>)
    ensures
        spec_leb_encode(v).len() >= 1,
        forall|j: int|
            0 <= j < spec_leb_encode(v).len() - 1 ==> #[trigger] (spec_leb_encode(v) + rest)[j]
                >= 128,
        (spec_leb_encode(v) + rest)[spec_leb_encode(v).len() - 1] < 128,
        leb_value(spec_leb_encode(v) + rest, spec_leb_encode(v).len()) == v,
    decreases v,
{
    let e = spec_leb_encode(v);
    let s = e + rest;
    if v >= 128 {
        let t = spec_leb_encode(v / 128);
        lemma_leb_encode_shape(v / 128, rest);
        assert(s.drop_first() =~= t + rest);
        assert forall|j: int| 0 <= j < e.len() - 1 implies #[trigger] s[j] >= 128 by {
            if j > 0 {
                assert(s[j] == (t + rest)[j - 1]);
            }
        }
        assert(s[e.len() - 1] == (t + rest)[t.len() - 1]);
        assert(s[0] == e[0]);
        assert(leb_value(s, e.len()) == (s[0] % 128) as nat + 128 * leb_value(
            s.drop_first(),
            (e.len() - 1) as nat,
        ));
        assert((e.len() - 1) as nat == t.len());
        assert(v % 128 + 128 * (v / 128) == v);
    } else {
        assert(s[0] == e[0]);
        assert(leb_value(s.drop_first(), 0) == 0);
    }
}

proof fn lemma_leb_encode_len(v: nat, k: nat)
    requires
        v < pow128(k),
        k >= 1,
    ensures
        spec_leb_encode(v).len() <= k,
    decreases v,
{
    if v >= 128 {
        assert(k >= 2) by {
            if k == 1 {
                reveal_with_fuel(pow128, 2);
            }
        }
        assert(v / 128 < pow128((k - 1) as nat)) by {
            assert(pow128(k) == 128 * pow128((k - 1) as nat));
        }
        lemma_leb_encode_len(v / 128, (k - 1) as nat);
    }
}

proof fn lemma_leb_scan_finds(s: Seq<u8>, i: nat, k: nat)
    requires
        i <= k,
        k < 10,
        k < s.len(),
        s[k as int] < 128,
        forall|j: int| i <= j < k ==> s[j] >= 128,
    ensures
        leb_scan(s, i) == Some(k),
    decreases k - i,
{
    if i < k {
        lemma_leb_scan_finds(s, i + 1, k);
    }
}

/// Decoding reads back what encoding wrote: for every `u64`, the canonical
/// LEB128 bytes followed by any other bytes decode to the value and the
/// encoding's length.
pub proof fn lemma_leb_roundtrip(v: u64, rest: Seq<u8>)
    ensures
        spec_leb_decode(spec_leb_encode(v as nat) + rest) == Ok::<(u64, nat), ErrorCode>(
            (v, spec_leb_encode(v as nat).len()),
        ),
        spec_leb_encode(v as nat).len() <= 10,
{
    let e = spec_leb_encode(v as nat);
    lemma_pow128_bound(10);
    lemma_leb_encode_len(v as nat, 10);
    lemma_leb_encode_shape(v as nat, rest);
    let s = e + rest;
    assert forall|j: int| 0 <= j < (e.len() - 1) as nat implies s[j] >= 128 by {
        assert(s[j] == (e + rest)[j]);
    }
    lemma_leb_scan_finds(s, 0, (e.len() - 1) as nat);
}

} // verus!
