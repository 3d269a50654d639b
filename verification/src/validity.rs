//! Null bitmaps.
//!
//! A COVE null bitmap marks null rows (bit set means null); an Arrow validity
//! bitmap marks valid rows (bit set means valid). Both are least significant
//! bit first: row `i` is bit `i % 8` of byte `i / 8`. This module reads and
//! builds COVE bitmaps and converts between the two conventions.
use vstd::prelude::*;

use crate::error::{fails_with, CoveError, ErrorCode};

verus! {

/// Bit `j` (0 = least significant) of `b`.
pub open spec fn bit_of(b: u8, j: u8) -> bool {
    (b >> j) & 1u8 == 1u8
}

/// The bit for row `i` in a least-significant-bit-first bitmap.
pub open spec fn bit_at(bytes: Seq<u8>, i: int) -> bool {
    bit_of(bytes[i / 8], (i % 8) as u8)
}

/// Bytes needed for `n` one-bit rows.
pub open spec fn bitmap_bytes(n: int) -> int {
    (n + 7) / 8
}

proof fn lemma_bit_set(b: u8, k: u8, j: u8)
    requires
        k < 8,
        j < 8,
    ensures
        bit_of(b | (1u8 << k), j) == (j == k || bit_of(b, j)),
{
    assert(((b | (1u8 << k)) >> j) & 1u8 == 1u8 <==> (j == k || (b >> j) & 1u8 == 1u8))
        by (bit_vector)
        requires
            k < 8,
            j < 8,
    ;
}

proof fn lemma_zero_bits(j: u8)
    requires
        j < 8,
    ensures
        !bit_of(0u8, j),
{
    assert((0u8 >> j) & 1u8 != 1u8) by (bit_vector)
        requires
            j < 8,
    ;
}

proof fn lemma_bits_determine_byte(a: u8, b: u8)
    requires
        forall|j: u8| j < 8 ==> bit_of(a, j) == bit_of(b, j),
    ensures
        a == b,
{
    assert(bit_of(a, 0) == bit_of(b, 0));
    assert(bit_of(a, 1) == bit_of(b, 1));
    assert(bit_of(a, 2) == bit_of(b, 2));
    assert(bit_of(a, 3) == bit_of(b, 3));
    assert(bit_of(a, 4) == bit_of(b, 4));
    assert(bit_of(a, 5) == bit_of(b, 5));
    assert(bit_of(a, 6) == bit_of(b, 6));
    assert(bit_of(a, 7) == bit_of(b, 7));
    assert(a == b) by (bit_vector)
        requires
            (a >> 0u8) & 1u8 == 1u8 <==> (b >> 0u8) & 1u8 == 1u8,
            (a >> 1u8) & 1u8 == 1u8 <==> (b >> 1u8) & 1u8 == 1u8,
            (a >> 2u8) & 1u8 == 1u8 <==> (b >> 2u8) & 1u8 == 1u8,
            (a >> 3u8) & 1u8 == 1u8 <==> (b >> 3u8) & 1u8 == 1u8,
            (a >> 4u8) & 1u8 == 1u8 <==> (b >> 4u8) & 1u8 == 1u8,
            (a >> 5u8) & 1u8 == 1u8 <==> (b >> 5u8) & 1u8 == 1u8,
            (a >> 6u8) & 1u8 == 1u8 <==> (b >> 6u8) & 1u8 == 1u8,
            (a >> 7u8) & 1u8 == 1u8 <==> (b >> 7u8) & 1u8 == 1u8,
    ;
}

/// Whether bit `b` of `byte` is set.
fn test_bit(byte: u8, b: u8) -> (res: bool)
    requires
        b < 8,
    ensures
        res == bit_of(byte, b),
{
    (byte >> b) & 1 == 1
}

/// Bytes needed for `n` one-bit rows.
pub fn bitmap_len(n: usize) -> (res: usize)
    ensures
        res == bitmap_bytes(n as int),
{
    n / 8 + if n % 8 == 0 {
        0
    } else {
        1
    }
}

/// Sets the bit for row `i`, leaving every other bit as it was.
pub(crate) fn set_row_bit(bytes: &mut Vec<u8>, i: u64)
    requires
        i / 8 < old(bytes)@.len(),
    ensures
        final(bytes)@.len() == old(bytes)@.len(),
        forall|r: int|
            0 <= r < 8 * old(bytes)@.len() ==> #[trigger] bit_at(final(bytes)@, r) == (r == i
                || bit_at(old(bytes)@, r)),
{
    let len = bytes.len();
    assert(i / 8 < len);
    let idx = (i / 8) as usize;
    assert(idx as int == i / 8);
    let k = (i % 8) as u8;
    let old_byte = bytes[idx];
    bytes.set(idx, old_byte | (1u8 << k));
    proof {
        assert forall|r: int| 0 <= r < 8 * old(bytes)@.len() implies #[trigger] bit_at(
            bytes@,
            r,
        ) == (r == i || bit_at(old(bytes)@, r)) by {
            assert(r == 8 * (r / 8) + r % 8);
            assert(i == 8 * (i / 8) + i % 8);
            assert(idx as int == i / 8);
            if r / 8 == idx {
                lemma_bit_set(old_byte, k, (r % 8) as u8);
                assert((r % 8) as u8 == k <==> r == i);
            } else {
                assert(bytes@[r / 8] == old(bytes)@[r / 8]);
                assert(r != i);
            }
        }
    }
}

/// `n` rows' worth of zero bytes.
pub(crate) fn zero_bitmap(len: usize) -> (res: Vec<u8>)
    ensures
        res@.len() == len,
        forall|r: int| 0 <= r < 8 * len ==> !#[trigger] bit_at(res@, r),
{
    let mut out: Vec<u8> = Vec::new();
    let mut i: usize = 0;
    while i < len
        invariant
            i <= len,
            out@.len() == i,
            forall|k: int| 0 <= k < i ==> out@[k] == 0u8,
        decreases len - i,
    {
        out.push(0u8);
        i = i + 1;
    }
    proof {
        assert forall|r: int| 0 <= r < 8 * len implies !#[trigger] bit_at(out@, r) by {
            lemma_zero_bits((r % 8) as u8);
        }
    }
    out
}

/// A borrowed COVE null bitmap over `row_count` rows.
#[derive(Debug, Clone, Copy, PartialEq, Eq)]
pub struct ValidityBitmap<'a> {
    bytes: &'a [u8],
    row_count: u64,
}

/// Whether row `row` of a bitmap is null, or why it cannot be read:
/// `OffsetRange` past the last row, `BufferTooShort` when its byte is missing.
pub open spec fn spec_is_null(bytes: Seq<u8>, row_count: u64, row: u64) -> Result<bool, ErrorCode> {
    if row >= row_count {
        Err(ErrorCode::OffsetRange)
    } else if row / 8 >= bytes.len() {
        Err(ErrorCode::BufferTooShort)
    } else {
        Ok(bit_at(bytes, row as int))
    }
}

/// The number of set bits among the first `n` rows.
pub open spec fn count_set_bits(bytes: Seq<u8>, n: nat) -> nat
    decreases n,
{
    if n == 0 {
        0
    } else {
        count_set_bits(bytes, (n - 1) as nat) + if bit_at(bytes, n - 1) {
            1nat
        } else {
            0nat
        }
    }
}

/// At most `n` of the first `n` rows are set.
pub(crate) proof fn lemma_count_set_bits_bound(bytes: Seq<u8>, n: nat)
    ensures
        count_set_bits(bytes, n) <= n,
    decreases n,
{
    if n > 0 {
        lemma_count_set_bits_bound(bytes, (n - 1) as nat);
    }
}

impl<'a> ValidityBitmap<'a> {
    /// The null bitmap `bytes` over `row_count` rows.
    pub fn new(bytes: &'a [u8], row_count: u64) -> (res: Self)
        ensures
            res.bytes() == bytes@,
            res.row_count() == row_count,
    {
        ValidityBitmap { bytes, row_count }
    }

    /// The bitmap's bytes.
    pub closed spec fn bytes(&self) -> Seq<u8> {
        self.bytes@
    }

    /// The number of rows the bitmap covers.
    pub closed spec fn row_count(&self) -> u64 {
        self.row_count
    }

    /// Whether `row` is null.
    pub fn is_null(&self, row: u64) -> (res: Result<bool, CoveError>)
        ensures
            match spec_is_null(self.bytes(), self.row_count(), row) {
                Ok(b) => res == Ok::<bool, CoveError>(b),
                Err(c) => fails_with(res, c),
            },
    {
        if row >= self.row_count {
            return Err(CoveError::OffsetRange);
        }
        let idx = row / 8;
        if idx >= self.bytes.len() as u64 {
            return Err(CoveError::BufferTooShort);
        }
        Ok(test_bit(self.bytes[idx as usize], (row % 8) as u8))
    }

    /// Whether `row` is valid (not null).
    pub fn is_valid(&self, row: u64) -> (res: Result<bool, CoveError>)
        ensures
            match spec_is_null(self.bytes(), self.row_count(), row) {
                Ok(b) => res == Ok::<bool, CoveError>(!b),
                Err(c) => fails_with(res, c),
            },
    {
        match self.is_null(row) {
            Ok(b) => Ok(!b),
            Err(e) => Err(e),
        }
    }

    /// Checks that the bitmap holds a bit for each of `row_count` rows.
    pub fn validate_len(&self, row_count: u64) -> (res: Result<(), CoveError>)
        ensures
            res is Ok <==> bitmap_bytes(row_count as int) <= self.bytes().len(),
            res is Err ==> fails_with(res, ErrorCode::BufferTooShort),
    {
        let needed = row_count / 8 + if row_count % 8 == 0 {
            0
        } else {
            1
        };
        if needed > self.bytes.len() as u64 {
            return Err(CoveError::BufferTooShort);
        }
        Ok(())
    }

    /// The number of null rows; `BufferTooShort` when the bitmap lacks a bit
    /// for some row.
    pub fn null_count(&self) -> (res: Result<u64, CoveError>)
        ensures
            bitmap_bytes(self.row_count() as int) <= self.bytes().len() ==> res == Ok::<
                u64,
                CoveError,
            >(count_set_bits(self.bytes(), self.row_count() as nat) as u64),
            bitmap_bytes(self.row_count() as int) > self.bytes().len() ==> fails_with(
                res,
                ErrorCode::BufferTooShort,
            ),
    {
        match self.validate_len(self.row_count) {
            Ok(()) => {},
            Err(e) => return Err(e),
        }
        let mut count: u64 = 0;
        let mut row: u64 = 0;
        while row < self.row_count
            invariant
                row <= self.row_count,
                bitmap_bytes(self.row_count as int) <= self.bytes@.len(),
                count == count_set_bits(self.bytes@, row as nat),
                count <= row,
            decreases self.row_count - row,
        {
            let idx = row / 8;
            let bit = test_bit(self.bytes[idx as usize], (row % 8) as u8);
            if bit {
                count = count + 1;
            }
            row = row + 1;
        }
        Ok(count)
    }
}

/// What a bitmap over `bitmap_rows` rows gives as one validity flag per row
/// for the first `row_count` rows (`true` for a valid row):
/// `BufferTooShort` when its bytes do not cover those rows, `OffsetRange`
/// when it covers fewer rows.
pub open spec fn spec_valid_flags(bytes: Seq<u8>, bitmap_rows: u64, row_count: nat) -> Result<
    Seq<bool>,
    ErrorCode,
> {
    if bytes.len() < bitmap_bytes(row_count as int) {
        Err(ErrorCode::BufferTooShort)
    } else if bitmap_rows < row_count {
        Err(ErrorCode::OffsetRange)
    } else {
        Ok(Seq::new(row_count, |r: int| !bit_at(bytes, r)))
    }
}

impl<'a> ValidityBitmap<'a> {
    /// One validity flag per row for the first `row_count` rows, `true` for
    /// a valid row; the bitmap must hold a bit for each of them.
    pub fn valid_flags(&self, row_count: usize) -> (res: Result<Vec<bool>, CoveError>)
        ensures
            match spec_valid_flags(self.bytes(), self.row_count(), row_count as nat) {
                Ok(f) => (res matches Ok(v) && v@ == f),
                Err(c) => fails_with(res, c),
            },
    {
        match self.validate_len(row_count as u64) {
            Ok(()) => {},
            Err(e) => return Err(e),
        }
        let mut flags: Vec<bool> = Vec::new();
        let mut row: usize = 0;
        while row < row_count
            invariant
                row <= row_count,
                bitmap_bytes(row_count as int) <= self.bytes@.len(),
                flags@.len() == row,
                forall|r: int| 0 <= r < row ==> #[trigger] flags@[r] == !bit_at(self.bytes@, r),
                row <= self.row_count,
            decreases row_count - row,
        {
            let valid = match self.is_valid(row as u64) {
                Ok(b) => b,
                Err(e) => {
                    proof {
                        assert((row as int) / 8 < bitmap_bytes(row_count as int)) by (nonlinear_arith)
                            requires
                                row < row_count,
                        ;
                    }
                    return Err(e);
                },
            };
            flags.push(valid);
            row = row + 1;
        }
        proof {
            assert(flags@ =~= Seq::new(row_count as nat, |r: int| !bit_at(self.bytes@, r)));
        }
        Ok(flags)
    }
}

/// A COVE null bitmap under construction: every row starts valid.
#[derive(Debug, Clone, PartialEq, Eq)]
pub struct ValidityBitmapBuilder {
    bytes: Vec<u8>,
    row_count: u64,
}

impl ValidityBitmapBuilder {
    /// The bytes built so far.
    pub closed spec fn bytes(&self) -> Seq<u8> {
        self.bytes@
    }

    /// The number of rows being built.
    pub closed spec fn row_count(&self) -> u64 {
        self.row_count
    }

    /// A builder for `row_count` rows, all valid; `ArithOverflow` when the
    /// bitmap would not fit in memory.
    pub fn new(row_count: u64) -> (res: Result<Self, CoveError>)
        ensures
            bitmap_bytes(row_count as int) <= usize::MAX ==> (res matches Ok(b) && b.row_count()
                == row_count && b.bytes().len() == bitmap_bytes(row_count as int) && forall|r: int|
                0 <= r < 8 * b.bytes().len() ==> !#[trigger] bit_at(b.bytes(), r)),
            bitmap_bytes(row_count as int) > usize::MAX ==> fails_with(
                res,
                ErrorCode::ArithOverflow,
            ),
    {
        let needed = row_count / 8 + if row_count % 8 == 0 {
            0
        } else {
            1
        };
        if needed > usize::MAX as u64 {
            return Err(CoveError::ArithOverflow);
        }
        let bytes = zero_bitmap(needed as usize);
        Ok(ValidityBitmapBuilder { bytes, row_count })
    }

    /// Marks `row` null; `OffsetRange` past the last row.
    pub fn set_null(&mut self, row: u64) -> (res: Result<(), CoveError>)
        requires
            old(self).bytes().len() == bitmap_bytes(old(self).row_count() as int),
        ensures
            final(self).row_count() == old(self).row_count(),
            final(self).bytes().len() == old(self).bytes().len(),
            row < old(self).row_count() ==> res is Ok && forall|r: int|
                0 <= r < 8 * old(self).bytes().len() ==> #[trigger] bit_at(final(self).bytes(), r)
                    == (r == row || bit_at(old(self).bytes(), r)),
            row >= old(self).row_count() ==> fails_with(res, ErrorCode::OffsetRange),
            row >= old(self).row_count() ==> final(self).bytes() == old(self).bytes(),
    {
        if row >= self.row_count {
            return Err(CoveError::OffsetRange);
        }
        set_row_bit(&mut self.bytes, row);
        Ok(())
    }

    /// The finished bitmap bytes.
    pub fn into_bytes(self) -> (res: Vec<u8>)
        ensures
            res@ == self.bytes(),
    {
        self.bytes
    }
}

/// Whether `out` holds, for each of the first `n` rows, the opposite of the
/// bit in `src`, and zero bits for the rest of its bytes.
pub open spec fn inverts_rows(out: Seq<u8>, src: Seq<u8>, n: int) -> bool {
    &&& out.len() == bitmap_bytes(n)
    &&& forall|r: int| 0 <= r < n ==> #[trigger] bit_at(out, r) == !bit_at(src, r)
    &&& forall|r: int| n <= r < 8 * out.len() ==> !#[trigger] bit_at(out, r)
}

/// Inverts the first `row_count` bits of `src` into a fresh bitmap of
/// exactly the bytes those rows need; `BufferTooShort` when `src` is shorter.
fn invert_bitmap(src: &[u8], row_count: usize) -> (res: Result<Vec<u8>, CoveError>)
    ensures
        src@.len() < bitmap_bytes(row_count as int) ==> fails_with(res, ErrorCode::BufferTooShort),
        src@.len() >= bitmap_bytes(row_count as int) ==> (res matches Ok(out) && inverts_rows(
            out@,
            src@,
            row_count as int,
        )),
{
    let needed = bitmap_len(row_count);
    if src.len() < needed {
        return Err(CoveError::BufferTooShort);
    }
    let mut out = zero_bitmap(needed);
    let mut i: usize = 0;
    while i < row_count
        invariant
            i <= row_count,
            needed == bitmap_bytes(row_count as int),
            src@.len() >= needed,
            out@.len() == needed,
            forall|r: int| 0 <= r < i ==> #[trigger] bit_at(out@, r) == !bit_at(src@, r),
            forall|r: int| i <= r < 8 * needed ==> !#[trigger] bit_at(out@, r),
        decreases row_count - i,
    {
        let bit = test_bit(src[i / 8], (i % 8) as u8);
        if !bit {
            let ghost before = out@;
            set_row_bit(&mut out, i as u64);
            proof {
                assert forall|r: int| 0 <= r < i + 1 implies #[trigger] bit_at(out@, r)
                    == !bit_at(src@, r) by {
                    assert(bit_at(out@, r) == (r == i || bit_at(before, r)));
                }
                assert forall|r: int| i + 1 <= r < 8 * needed implies !#[trigger] bit_at(
                    out@,
                    r,
                ) by {
                    assert(bit_at(out@, r) == (r == i || bit_at(before, r)));
                }
            }
        }
        i = i + 1;
    }
    Ok(out)
}

/// Converts a COVE null bitmap (bit set means null) for `row_count` rows
/// into an Arrow validity bitmap (bit set means valid). Only the first
/// `row_count` bits are read; the output has exactly the bytes those rows
/// need and its bits past the last row are zero.
pub fn cove_null_to_arrow_validity(cove: &[u8], row_count: usize) -> (res: Result<
    Vec<u8>,
    CoveError,
>)
    ensures
        cove@.len() < bitmap_bytes(row_count as int) ==> fails_with(res, ErrorCode::BufferTooShort),
        cove@.len() >= bitmap_bytes(row_count as int) ==> (res matches Ok(out) && inverts_rows(
            out@,
            cove@,
            row_count as int,
        )),
{
    invert_bitmap(cove, row_count)
}

/// Converts an Arrow validity bitmap (bit set means valid) for `row_count`
/// rows into a COVE null bitmap (bit set means null), under the same rules
/// as [`cove_null_to_arrow_validity`].
pub fn arrow_validity_to_cove_null(arrow: &[u8], row_count: usize) -> (res: Result<
    Vec<u8>,
    CoveError,
>)
    ensures
        arrow@.len() < bitmap_bytes(row_count as int) ==> fails_with(res, ErrorCode::BufferTooShort),
        arrow@.len() >= bitmap_bytes(row_count as int) ==> (res matches Ok(out) && inverts_rows(
            out@,
            arrow@,
            row_count as int,
        )),
{
    invert_bitmap(arrow, row_count)
}

/// Converting a null bitmap to a validity bitmap and back restores it: the
/// result is exactly the original whenever the original has exactly the
/// bytes its rows need and zero bits past its last row.
pub proof fn lemma_bitmap_inversion_roundtrip(cove: Seq<u8>, arrow: Seq<u8>, back: Seq<u8>, n: int)
    requires
        0 <= n,
        cove.len() == bitmap_bytes(n),
        forall|r: int| n <= r < 8 * cove.len() ==> !#[trigger] bit_at(cove, r),
        inverts_rows(arrow, cove, n),
        inverts_rows(back, arrow, n),
    ensures
        back == cove,
{
    assert forall|k: int| 0 <= k < cove.len() implies back[k] == cove[k] by {
        assert forall|j: u8| j < 8 implies bit_of(back[k], j) == bit_of(cove[k], j) by {
            let r = 8 * k + j;
            assert(r / 8 == k && r % 8 == j);
            assert(bit_at(back, r) == bit_of(back[k], j));
            assert(bit_at(cove, r) == bit_of(cove[k], j));
            if r < n {
                assert(bit_at(back, r) == !bit_at(arrow, r));
                assert(bit_at(arrow, r) == !bit_at(cove, r));
            } else {
                assert(!bit_at(back, r));
                assert(!bit_at(cove, r));
            }
        }
        lemma_bits_determine_byte(back[k], cove[k]);
    }
    assert(back =~= cove);
}

} // verus!
