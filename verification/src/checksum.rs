//! CRC32C (Castagnoli) checksums used by section headers and manifests.
use vstd::prelude::*;

verus! {

/// Reflected CRC32C polynomial.
pub const CRC32C_POLY: u32 = 0x82F6_3B78;

/// One bit step of the reflected CRC register.
pub open spec fn crc_shift(c: u32) -> u32 {
    if c & 1 == 1 {
        (c >> 1) ^ CRC32C_POLY
    } else {
        c >> 1
    }
}

/// Feeding one byte into the CRC register.
pub open spec fn crc_byte(c: u32, b: u8) -> u32 {
    let x0 = c ^ (b as u32);
    crc_shift(crc_shift(crc_shift(crc_shift(crc_shift(crc_shift(crc_shift(crc_shift(x0))))))))
}

/// Feeding a byte sequence, first byte first, into the CRC register.
pub open spec fn crc_update(c: u32, s: Seq<u8>) -> u32
    decreases s.len(),
{
    if s.len() == 0 {
        c
    } else {
        crc_byte(crc_update(c, s.drop_last()), s.last())
    }
}

/// The CRC32C of `s`: initial register all ones, final complement.
pub open spec fn spec_crc32c(s: Seq<u8>) -> u32 {
    crc_update(0xFFFF_FFFF, s) ^ 0xFFFF_FFFF
}

fn shift_register(c: u32) -> (r: u32)
    ensures
        r == crc_shift(c),
{
    if c & 1 == 1 {
        (c >> 1) ^ CRC32C_POLY
    } else {
        c >> 1
    }
}

/// Computes the CRC32C of `data`.
pub fn crc32c(data: &[u8]) -> (res: u32)
    ensures
        res == spec_crc32c(data@),
{
    let mut c: u32 = 0xFFFF_FFFF;
    let mut i: usize = 0;
    while i < data.len()
        invariant
            i <= data@.len(),
            c == crc_update(0xFFFF_FFFF, data@.subrange(0, i as int)),
        decreases data@.len() - i,
    {
        let x0 = c ^ (data[i] as u32);
        let x1 = shift_register(x0);
        let x2 = shift_register(x1);
        let x3 = shift_register(x2);
        let x4 = shift_register(x3);
        let x5 = shift_register(x4);
        let x6 = shift_register(x5);
        let x7 = shift_register(x6);
        let x = shift_register(x7);
        let ghost prev = data@.subrange(0, i as int);
        assert(data@.subrange(0, i + 1).drop_last() =~= prev);
        c = x;
        i = i + 1;
    }
    assert(data@.subrange(0, data@.len() as int) =~= data@);
    c ^ 0xFFFF_FFFF
}


/// One step of the register loses nothing: its top bit tells whether the
/// polynomial was folded in, so the step before can be recovered.
proof fn lemma_shift_injective(a: u32, b: u32)
    ensures
        crc_shift(a) == crc_shift(b) ==> a == b,
{
    assert(((if a & 1 == 1 { (a >> 1) ^ 0x82F6_3B78u32 } else { a >> 1 }) == (if b & 1 == 1 {
        (b >> 1) ^ 0x82F6_3B78u32
    } else {
        b >> 1
    })) ==> a == b) by (bit_vector);
}

/// Feeding a byte into two registers keeps them apart, and feeding two
/// different bytes into one register gives different registers.
proof fn lemma_byte_injective(c: u32, d: u32, x: u8, y: u8)
    ensures
        crc_byte(c, x) == crc_byte(d, y) ==> (c ^ (x as u32)) == (d ^ (y as u32)),
{
    let a0 = c ^ (x as u32);
    let b0 = d ^ (y as u32);
    let a1 = crc_shift(a0);
    let b1 = crc_shift(b0);
    let a2 = crc_shift(a1);
    let b2 = crc_shift(b1);
    let a3 = crc_shift(a2);
    let b3 = crc_shift(b2);
    let a4 = crc_shift(a3);
    let b4 = crc_shift(b3);
    let a5 = crc_shift(a4);
    let b5 = crc_shift(b4);
    let a6 = crc_shift(a5);
    let b6 = crc_shift(b5);
    let a7 = crc_shift(a6);
    let b7 = crc_shift(b6);
    lemma_shift_injective(a7, b7);
    lemma_shift_injective(a6, b6);
    lemma_shift_injective(a5, b5);
    lemma_shift_injective(a4, b4);
    lemma_shift_injective(a3, b3);
    lemma_shift_injective(a2, b2);
    lemma_shift_injective(a1, b1);
    lemma_shift_injective(a0, b0);
}

proof fn lemma_xor_cancel(c: u32, d: u32, x: u8, y: u8)
    ensures
        (c == d && x != y) ==> (c ^ (x as u32)) != (d ^ (y as u32)),
        (c != d && x == y) ==> (c ^ (x as u32)) != (d ^ (y as u32)),
{
    let xx = x as u32;
    let yy = y as u32;
    assert(xx != yy ==> (c ^ xx) != (c ^ yy)) by (bit_vector);
    assert(c != d ==> (c ^ xx) != (d ^ xx)) by (bit_vector);
}

/// Registers that differ stay different while the same bytes are fed.
proof fn lemma_update_keeps_apart(c: u32, d: u32, s: Seq<u8>)
    requires
        c != d,
    ensures
        crc_update(c, s) != crc_update(d, s),
    decreases s.len(),
{
    if s.len() > 0 {
        lemma_update_keeps_apart(c, d, s.drop_last());
        let p = crc_update(c, s.drop_last());
        let q = crc_update(d, s.drop_last());
        lemma_byte_injective(p, q, s.last(), s.last());
        lemma_xor_cancel(p, q, s.last(), s.last());
    }
}

/// CRC-32C tells apart any two byte strings of the same length that differ
/// in exactly one byte.
pub proof fn lemma_crc_detects_one_byte_change(s: Seq<u8>, t: Seq<u8>, p: int)
    requires
        s.len() == t.len(),
        0 <= p < s.len(),
        s[p] != t[p],
        forall|i: int| 0 <= i < s.len() && i != p ==> s[i] == t[i],
    ensures
        spec_crc32c(s) != spec_crc32c(t),
{
    let head_s = s.subrange(0, p);
    let head_t = t.subrange(0, p);
    assert(head_s =~= head_t);
    lemma_update_split(0xFFFF_FFFF, s, p + 1);
    lemma_update_split(0xFFFF_FFFF, t, p + 1);
    let c = crc_update(0xFFFF_FFFF, head_s);
    assert(s.subrange(0, p + 1).drop_last() =~= head_s);
    assert(t.subrange(0, p + 1).drop_last() =~= head_t);
    lemma_byte_injective(c, c, s[p], t[p]);
    lemma_xor_cancel(c, c, s[p], t[p]);
    let tail_s = s.subrange(p + 1, s.len() as int);
    let tail_t = t.subrange(p + 1, t.len() as int);
    assert(tail_s =~= tail_t);
    lemma_update_keeps_apart(crc_byte(c, s[p]), crc_byte(c, t[p]), tail_s);
    let us = crc_update(0xFFFF_FFFF, s);
    let ut = crc_update(0xFFFF_FFFF, t);
    assert(us != ut);
    assert(us ^ 0xFFFF_FFFFu32 != ut ^ 0xFFFF_FFFFu32) by (bit_vector)
        requires
            us != ut,
    ;
}

/// Feeding `s` is feeding its first `k` bytes, then the rest.
proof fn lemma_update_split(c: u32, s: Seq<u8>, k: int)
    requires
        0 <= k <= s.len(),
    ensures
        crc_update(c, s) == crc_update(crc_update(c, s.subrange(0, k)), s.subrange(k, s.len() as int)),
    decreases s.len(),
{
    if s.len() > k {
        lemma_update_split(c, s.drop_last(), k);
        assert(s.drop_last().subrange(0, k) =~= s.subrange(0, k));
        let rest = s.subrange(k, s.len() as int);
        assert(rest.drop_last() =~= s.drop_last().subrange(k, s.drop_last().len() as int));
        assert(rest.last() == s.last());
    } else {
        assert(s.subrange(0, k) =~= s);
        assert(s.subrange(k, s.len() as int) =~= Seq::<u8>::empty());
    }
}

} // verus!
