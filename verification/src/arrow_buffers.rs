//! Arrow-ready buffers from plain fixed-width pages: NumCode values as
//! `u64` or `i64`, booleans packed eight to a byte, and the validity bitmap
//! of the selected rows. Rows are visited in selection order; the first row
//! that fails decides the error.
use vstd::prelude::*;

use crate::array::{logical_type_fixed_width, spec_fixed_width, EncodedArray};
use crate::collation::{le_signed, read_signed};
use crate::constants::{CoveEncodingKind, CoveLogicalType};
use crate::arrow_export::{
    array_has_nulls, bitpacked_len, checked_bool_byte, fixed_width_payload_prefix, set_packed_bit,
    ArrowValidityBuilder,
};
use crate::error::{fails_with, CoveError, ErrorCode};
use crate::selection::{
    lemma_selected_rows_on_page, spec_selected_rows, spec_visit_rows, ArrowRowSelection,
};
use crate::validity::{bit_at, bitmap_bytes, count_set_bits};
use crate::util::text;
use crate::wire::{append_bytes, get_u32_le, read_u64_le, spec_u32_at, spec_u64_at};

verus! {

/// Whether any row of the array is null: `BufferTooShort` when its bitmap
/// cannot hold its own rows.
pub open spec fn spec_has_nulls(array: &EncodedArray) -> Result<bool, ErrorCode> {
    match array.validity {
        None => Ok(false),
        Some(bm) => if bitmap_bytes(bm.row_count() as int) <= bm.bytes().len() {
            Ok(count_set_bits(bm.bytes(), bm.row_count() as nat) > 0)
        } else {
            Err(ErrorCode::BufferTooShort)
        },
    }
}

/// Whether the array has nulls and which rows a fixed-width export of
/// `width`-byte values visits: the row count must fit in memory, the page
/// must hold `row_count * width` bytes and the selection must fit the page.
pub open spec fn spec_fixed_rows(array: &EncodedArray, selection: ArrowRowSelection, width: nat) -> Result<
    (bool, Seq<int>),
    ErrorCode,
> {
    if array.row_count > usize::MAX {
        Err(ErrorCode::ArithOverflow)
    } else if array.row_count * width > usize::MAX {
        Err(ErrorCode::ArithOverflow)
    } else if array.data@.len() < array.row_count * width {
        Err(ErrorCode::OffsetRange)
    } else {
        match spec_has_nulls(array) {
            Err(e) => Err(e),
            Ok(h) => match spec_selected_rows(selection, array.row_count) {
                Ok(rows) => Ok((h, rows)),
                Err(e) => Err(e),
            },
        }
    }
}

/// Whether `row` reads as null; rows are only looked up when the array has
/// nulls at all.
pub open spec fn spec_row_null(array: &EncodedArray, has_nulls: bool, row: int) -> Result<
    bool,
    ErrorCode,
> {
    if has_nulls {
        array.spec_null(row as u64)
    } else {
        Ok(false)
    }
}

/// The null flags of the visited rows.
pub open spec fn row_nulls(array: &EncodedArray, has_nulls: bool, rows: Seq<int>) -> Seq<bool> {
    Seq::new(
        rows.len(),
        |k: int| spec_row_null(array, has_nulls, rows[k]) == Ok::<bool, ErrorCode>(true),
    )
}

/// The number of set flags.
pub open spec fn count_true(s: Seq<bool>) -> nat
    decreases s.len(),
{
    if s.len() == 0 {
        0
    } else {
        count_true(s.drop_last()) + if s.last() {
            1nat
        } else {
            0nat
        }
    }
}

/// Whether `v` is the Arrow validity of rows with null flags `nulls`: none
/// when no row is null, otherwise the packed valid bits (least significant
/// first, unused bits clear), the row count and the number of nulls.
pub open spec fn validity_of(v: Option<(Vec<u8>, usize, usize)>, nulls: Seq<bool>) -> bool {
    match v {
        None => count_true(nulls) == 0,
        Some((b, l, n)) => {
            &&& count_true(nulls) > 0
            &&& l == nulls.len()
            &&& n == count_true(nulls)
            &&& b@.len() == bitmap_bytes(l as int)
            &&& forall|k: int| 0 <= k < l ==> #[trigger] bit_at(b@, k) == !nulls[k]
            &&& forall|r: int| l <= r < 8 * b@.len() ==> !#[trigger] bit_at(b@, r)
        },
    }
}

/// The validity of rows with null flags `nulls`.
pub(crate) fn validity_from_nulls(nulls: &Vec<bool>) -> (res: Option<(Vec<u8>, usize, usize)>)
    requires
        nulls@.len() + 7 <= usize::MAX,
    ensures
        validity_of(res, nulls@),
{
    let n = nulls.len();
    let mut builder = match ArrowValidityBuilder::new(n) {
        Ok(b) => b,
        Err(_) => {
            assert(false);
            return None;
        },
    };
    let mut i: usize = 0;
    while i < n
        invariant
            n == nulls@.len(),
            i <= n,
            builder.wf(),
            builder.len() == n,
            builder.pos() == i,
            builder.nulls() == count_true(nulls@.take(i as int)),
            forall|k: int| 0 <= k < i ==> #[trigger] bit_at(builder.bits(), k) == !nulls@[k],
        decreases n - i,
    {
        builder.append(!nulls[i]);
        assert(nulls@.take(i + 1).drop_last() =~= nulls@.take(i as int));
        i = i + 1;
    }
    assert(nulls@.take(n as int) =~= nulls@);
    builder.finish()
}

// ---------------------------------------------------------------------------
// NumCodes
// ---------------------------------------------------------------------------

/// The NumCode stored for `row`: eight little-endian bytes.
pub open spec fn numcode_at(array: &EncodedArray, row: int) -> u64 {
    spec_u64_at(array.data@, row * 8)
}

/// The first failure among the first `n` visited rows: a null lookup that
/// fails, or, for signed output, a non-null value above `i64::MAX`
/// (`PageCorrupt`).
pub open spec fn numcode_fault(
    array: &EncodedArray,
    has_nulls: bool,
    rows: Seq<int>,
    n: nat,
    signed: bool,
) -> Option<ErrorCode>
    decreases n,
{
    if n == 0 {
        None
    } else {
        match numcode_fault(array, has_nulls, rows, (n - 1) as nat, signed) {
            Some(e) => Some(e),
            None => match spec_row_null(array, has_nulls, rows[n - 1]) {
                Err(e) => Some(e),
                Ok(null) => if signed && !null && numcode_at(array, rows[n - 1]) > i64::MAX {
                    Some(ErrorCode::PageCorrupt)
                } else {
                    None
                },
            },
        }
    }
}

/// The visited rows' NumCodes, zero for null rows.
pub open spec fn numcode_values(array: &EncodedArray, nulls: Seq<bool>, rows: Seq<int>) -> Seq<u64> {
    Seq::new(rows.len(), |k: int| if nulls[k] { 0 } else { numcode_at(array, rows[k]) })
}

/// Whether `res` is what exporting the selected NumCodes gives: the rows'
/// values (signed ones must fit in `i64`) and their validity.
pub open spec fn numcode_export<T>(
    array: &EncodedArray,
    selection: ArrowRowSelection,
    signed: bool,
    res: Result<(Vec<T>, Option<(Vec<u8>, usize, usize)>), CoveError>,
    values_ok: spec_fn(Seq<T>, Seq<u64>) -> bool,
) -> bool {
    match spec_fixed_rows(array, selection, 8) {
        Err(e) => fails_with(res, e),
        Ok((has_nulls, rows)) => if has_nulls && rows.len() + 7 > usize::MAX {
            fails_with(res, ErrorCode::ArithOverflow)
        } else {
            match numcode_fault(array, has_nulls, rows, rows.len(), signed) {
                Some(e) => fails_with(res, e),
                None => (res matches Ok((v, validity)) && values_ok(
                    v@,
                    numcode_values(array, row_nulls(array, has_nulls, rows), rows),
                ) && validity_of(validity, row_nulls(array, has_nulls, rows))),
            }
        }
    }
}

proof fn lemma_numcode_fault_persists(
    array: &EncodedArray,
    has_nulls: bool,
    rows: Seq<int>,
    k: nat,
    n: nat,
    signed: bool,
)
    requires
        k <= n,
        numcode_fault(array, has_nulls, rows, k, signed) is Some,
    ensures
        numcode_fault(array, has_nulls, rows, n, signed) == numcode_fault(
            array,
            has_nulls,
            rows,
            k,
            signed,
        ),
    decreases n - k,
{
    if k < n {
        lemma_numcode_fault_persists(array, has_nulls, rows, k, (n - 1) as nat, signed);
    }
}

proof fn lemma_row_in_prefix(row: int, row_count: int)
    requires
        0 <= row < row_count,
    ensures
        row * 8 + 8 <= row_count * 8,
{
    assert(row * 8 + 8 <= row_count * 8) by (nonlinear_arith)
        requires
            0 <= row < row_count,
    ;
}

/// The rows to visit and whether the array has nulls, checked as
/// [`spec_fixed_rows`] says.
fn fixed_rows(array: &EncodedArray<'_>, selection: ArrowRowSelection<'_>, width: usize) -> (res:
    Result<(bool, Vec<usize>), CoveError>)
    requires
        width > 0,
    ensures
        match spec_fixed_rows(array, selection, width as nat) {
            Err(e) => fails_with(res, e),
            Ok((h, rows)) => (res matches Ok((h2, v)) && h2 == h && v@.len() == rows.len() && forall|
                k: int,
            | 0 <= k < rows.len() ==> #[trigger] v@[k] as int == rows[k] && 0 <= rows[k]
                < array.row_count),
        },
{
    if array.row_count > usize::MAX as u64 {
        return Err(CoveError::ArithOverflow);
    }
    let row_count = array.row_count as usize;
    match fixed_width_payload_prefix(array.data, row_count, width) {
        Ok(_) => {},
        Err(e) => return Err(e),
    }
    let has_nulls = match array_has_nulls(array) {
        Ok(h) => h,
        Err(e) => return Err(e),
    };
    let rows = match selection.selected_rows(array.row_count) {
        Ok(r) => r,
        Err(e) => return Err(e),
    };
    proof {
        lemma_selected_rows_on_page(selection, array.row_count);
    }
    Ok((has_nulls, rows))
}

/// The selected rows' NumCodes as `u64`, zero for null rows, with their
/// validity.
pub fn collect_numcode_u64_buffers(array: &EncodedArray<'_>, selection: ArrowRowSelection<'_>) -> (res:
    Result<(Vec<u64>, Option<(Vec<u8>, usize, usize)>), CoveError>)
    ensures
        numcode_export(array, selection, false, res, |v: Seq<u64>, e: Seq<u64>| v == e),
{
    let fixed = fixed_rows(array, selection, 8);
    let (has_nulls, rows) = match fixed {
        Ok(r) => r,
        Err(e) => return Err(e),
    };
    assert(spec_fixed_rows(array, selection, 8) is Ok);
    let ghost srows = spec_fixed_rows(array, selection, 8)->Ok_0.1;
    assert(spec_fixed_rows(array, selection, 8)->Ok_0.0 == has_nulls);
    let ghost nulls_all = row_nulls(array, has_nulls, srows);
    if has_nulls && rows.len() > usize::MAX - 7 {
        return Err(CoveError::ArithOverflow);
    }
    assert forall|j: int| 0 <= j < srows.len() implies 0 <= #[trigger] srows[j] < array.row_count by {
        assert(rows@[j] as int == srows[j]);
    }
    let data_len = array.data.len();
    let mut values: Vec<u64> = Vec::new();
    let mut nulls: Vec<bool> = Vec::new();
    let mut k: usize = 0;
    while k < rows.len()
        invariant
            k <= rows@.len(),
            rows@.len() == srows.len(),
            forall|j: int| 0 <= j < srows.len() ==> #[trigger] rows@[j] as int == srows[j] && 0
                <= srows[j] < array.row_count,
            array.row_count * 8 <= array.data@.len(),
            data_len == array.data@.len(),
            spec_fixed_rows(array, selection, 8) == Ok::<(bool, Seq<int>), ErrorCode>(
                (has_nulls, srows),
            ),
            !(has_nulls && srows.len() + 7 > usize::MAX),
            nulls_all == row_nulls(array, has_nulls, srows),
            numcode_fault(array, has_nulls, srows, k as nat, false) is None,
            values@.len() == k,
            nulls@.len() == k,
            forall|j: int| 0 <= j < k ==> #[trigger] nulls@[j] == nulls_all[j],
            forall|j: int|
                0 <= j < k ==> #[trigger] values@[j] == numcode_values(array, nulls_all, srows)[j],
        decreases rows@.len() - k,
    {
        let row = rows[k];
        let is_null = if has_nulls {
            match array.is_null(row as u64) {
                Ok(b) => b,
                Err(e) => {
                    proof {
                        assert(spec_row_null(array, has_nulls, srows[k as int]) is Err);
                        assert(numcode_fault(array, has_nulls, srows, (k + 1) as nat, false) == Some(e.code()));
                        lemma_numcode_fault_persists(
                            array,
                            has_nulls,
                            srows,
                            (k + 1) as nat,
                            srows.len(),
                            false,
                        );
                    }
                    return Err(e);
                },
            }
        } else {
            false
        };
        let value = if is_null {
            0
        } else {
            proof {
                lemma_row_in_prefix(row as int, array.row_count as int);
            }
            match read_u64_le(array.data, row * 8) {
                Ok(v) => v,
                Err(_) => {
                    assert(false);
                    0
                },
            }
        };
        values.push(value);
        nulls.push(is_null);
        k = k + 1;
    }
    let validity = if has_nulls {
        validity_from_nulls(&nulls)
    } else {
        None
    };
    proof {
        assert(values@ =~= numcode_values(array, nulls_all, srows));
        assert(nulls@ =~= nulls_all);
        if !has_nulls {
            lemma_no_true(nulls_all);
        }
    }
    Ok((values, validity))
}

pub(crate) proof fn lemma_no_true(s: Seq<bool>)
    requires
        forall|k: int| 0 <= k < s.len() ==> !#[trigger] s[k],
    ensures
        count_true(s) == 0,
    decreases s.len(),
{
    if s.len() > 0 {
        lemma_no_true(s.drop_last());
    }
}

/// The selected rows' NumCodes as `i64`, zero for null rows, with their
/// validity; `PageCorrupt` for a non-null value above `i64::MAX`.
pub fn collect_numcode_i64_buffers(array: &EncodedArray<'_>, selection: ArrowRowSelection<'_>) -> (res:
    Result<(Vec<i64>, Option<(Vec<u8>, usize, usize)>), CoveError>)
    ensures
        numcode_export(
            array,
            selection,
            true,
            res,
            |v: Seq<i64>, e: Seq<u64>| v.len() == e.len() && forall|k: int|
                0 <= k < e.len() ==> #[trigger] v[k] as int == e[k] as int,
        ),
{
    let fixed = fixed_rows(array, selection, 8);
    let (has_nulls, rows) = match fixed {
        Ok(r) => r,
        Err(e) => return Err(e),
    };
    assert(spec_fixed_rows(array, selection, 8) is Ok);
    let ghost srows = spec_fixed_rows(array, selection, 8)->Ok_0.1;
    assert(spec_fixed_rows(array, selection, 8)->Ok_0.0 == has_nulls);
    let ghost nulls_all = row_nulls(array, has_nulls, srows);
    if has_nulls && rows.len() > usize::MAX - 7 {
        return Err(CoveError::ArithOverflow);
    }
    assert forall|j: int| 0 <= j < srows.len() implies 0 <= #[trigger] srows[j] < array.row_count by {
        assert(rows@[j] as int == srows[j]);
    }
    let data_len = array.data.len();
    let mut values: Vec<i64> = Vec::new();
    let mut nulls: Vec<bool> = Vec::new();
    let mut k: usize = 0;
    while k < rows.len()
        invariant
            k <= rows@.len(),
            rows@.len() == srows.len(),
            forall|j: int| 0 <= j < srows.len() ==> #[trigger] rows@[j] as int == srows[j] && 0
                <= srows[j] < array.row_count,
            array.row_count * 8 <= array.data@.len(),
            data_len == array.data@.len(),
            spec_fixed_rows(array, selection, 8) == Ok::<(bool, Seq<int>), ErrorCode>(
                (has_nulls, srows),
            ),
            !(has_nulls && srows.len() + 7 > usize::MAX),
            nulls_all == row_nulls(array, has_nulls, srows),
            numcode_fault(array, has_nulls, srows, k as nat, true) is None,
            values@.len() == k,
            nulls@.len() == k,
            forall|j: int| 0 <= j < k ==> #[trigger] nulls@[j] == nulls_all[j],
            forall|j: int|
                0 <= j < k ==> #[trigger] values@[j] as int == numcode_values(
                    array,
                    nulls_all,
                    srows,
                )[j] as int,
        decreases rows@.len() - k,
    {
        let row = rows[k];
        let is_null = if has_nulls {
            match array.is_null(row as u64) {
                Ok(b) => b,
                Err(e) => {
                    proof {
                        assert(spec_row_null(array, has_nulls, srows[k as int]) is Err);
                        assert(numcode_fault(array, has_nulls, srows, (k + 1) as nat, true) == Some(e.code()));
                        lemma_numcode_fault_persists(
                            array,
                            has_nulls,
                            srows,
                            (k + 1) as nat,
                            srows.len(),
                            true,
                        );
                    }
                    return Err(e);
                },
            }
        } else {
            false
        };
        let value: i64 = if is_null {
            0
        } else {
            proof {
                lemma_row_in_prefix(row as int, array.row_count as int);
            }
            let raw = match read_u64_le(array.data, row * 8) {
                Ok(v) => v,
                Err(_) => {
                    assert(false);
                    0
                },
            };
            if raw > i64::MAX as u64 {
                proof {
                    lemma_numcode_fault_persists(
                        array,
                        has_nulls,
                        srows,
                        (k + 1) as nat,
                        srows.len(),
                        true,
                    );
                }
                return Err(CoveError::PageCorrupt);
            }
            raw as i64
        };
        values.push(value);
        nulls.push(is_null);
        k = k + 1;
    }
    let validity = if has_nulls {
        validity_from_nulls(&nulls)
    } else {
        None
    };
    proof {
        assert(nulls@ =~= nulls_all);
        if !has_nulls {
            lemma_no_true(nulls_all);
        }
    }
    Ok((values, validity))
}

// ---------------------------------------------------------------------------
// Booleans
// ---------------------------------------------------------------------------

/// The first failure among the first `n` visited rows: a stored byte other
/// than 0 or 1 (`PageCorrupt`), then a null lookup that fails.
pub open spec fn bool_fault(array: &EncodedArray, has_nulls: bool, rows: Seq<int>, n: nat) -> Option<
    ErrorCode,
>
    decreases n,
{
    if n == 0 {
        None
    } else {
        match bool_fault(array, has_nulls, rows, (n - 1) as nat) {
            Some(e) => Some(e),
            None => if array.data@[rows[n - 1]] > 1 {
                Some(ErrorCode::PageCorrupt)
            } else {
                match spec_row_null(array, has_nulls, rows[n - 1]) {
                    Err(e) => Some(e),
                    Ok(_) => None,
                }
            },
        }
    }
}

/// Whether `res` is what exporting the selected booleans gives: the values
/// packed eight to a byte (null rows false, unused bits clear), their number
/// and their validity.
pub open spec fn bool_export(
    array: &EncodedArray,
    selection: ArrowRowSelection,
    res: Result<(Vec<u8>, usize, Option<(Vec<u8>, usize, usize)>), CoveError>,
) -> bool {
    match spec_fixed_rows(array, selection, 1) {
        Err(e) => fails_with(res, e),
        Ok((has_nulls, rows)) => if rows.len() + 7 > usize::MAX {
            fails_with(res, ErrorCode::ArithOverflow)
        } else {
            match bool_fault(array, has_nulls, rows, rows.len()) {
                Some(e) => fails_with(res, e),
                None => {
                    let nulls = row_nulls(array, has_nulls, rows);
                    &&& res matches Ok((bits, n, validity))
                    &&& n == rows.len()
                    &&& bits@.len() == bitmap_bytes(n as int)
                    &&& forall|k: int|
                        0 <= k < n ==> #[trigger] bit_at(bits@, k) == (!nulls[k] && array.data@[rows[k]]
                            == 1)
                    &&& forall|r: int| n <= r < 8 * bits@.len() ==> !#[trigger] bit_at(bits@, r)
                    &&& validity_of(validity, nulls)
                },
            }
        }
    }
}

proof fn lemma_bool_fault_persists(array: &EncodedArray, has_nulls: bool, rows: Seq<int>, k: nat, n: nat)
    requires
        k <= n,
        bool_fault(array, has_nulls, rows, k) is Some,
    ensures
        bool_fault(array, has_nulls, rows, n) == bool_fault(array, has_nulls, rows, k),
    decreases n - k,
{
    if k < n {
        lemma_bool_fault_persists(array, has_nulls, rows, k, (n - 1) as nat);
    }
}

/// The selected plain booleans packed eight to a byte, their number and
/// their validity.
pub fn collect_bool_buffers(array: &EncodedArray<'_>, selection: ArrowRowSelection<'_>) -> (res:
    Result<(Vec<u8>, usize, Option<(Vec<u8>, usize, usize)>), CoveError>)
    ensures
        bool_export(array, selection, res),
{
    let fixed = fixed_rows(array, selection, 1);
    let (has_nulls, rows) = match fixed {
        Ok(r) => r,
        Err(e) => return Err(e),
    };
    assert(spec_fixed_rows(array, selection, 1) is Ok);
    let ghost srows = spec_fixed_rows(array, selection, 1)->Ok_0.1;
    assert(spec_fixed_rows(array, selection, 1)->Ok_0.0 == has_nulls);
    let ghost nulls_all = row_nulls(array, has_nulls, srows);
    let n = rows.len();
    let packed_len = match bitpacked_len(n) {
        Ok(p) => p,
        Err(e) => return Err(e),
    };
    let mut bits = crate::validity::zero_bitmap(packed_len);
    assert forall|j: int| 0 <= j < srows.len() implies 0 <= #[trigger] srows[j] < array.row_count by {
        assert(rows@[j] as int == srows[j]);
    }
    let mut nulls: Vec<bool> = Vec::new();
    let mut k: usize = 0;
    while k < n
        invariant
            n == rows@.len(),
            k <= n,
            rows@.len() == srows.len(),
            forall|j: int| 0 <= j < srows.len() ==> #[trigger] rows@[j] as int == srows[j],
            forall|j: int| 0 <= j < srows.len() ==> 0 <= #[trigger] srows[j] < array.row_count,
            array.row_count <= array.data@.len(),
            spec_fixed_rows(array, selection, 1) == Ok::<(bool, Seq<int>), ErrorCode>(
                (has_nulls, srows),
            ),
            n + 7 <= usize::MAX,
            packed_len == (n + 7) / 8,
            bits@.len() == packed_len,
            nulls_all == row_nulls(array, has_nulls, srows),
            bool_fault(array, has_nulls, srows, k as nat) is None,
            nulls@.len() == k,
            forall|j: int| 0 <= j < k ==> #[trigger] nulls@[j] == nulls_all[j],
            forall|j: int|
                0 <= j < k ==> #[trigger] bit_at(bits@, j) == (!nulls_all[j] && array.data@[srows[j]]
                    == 1),
            forall|r: int| k <= r < 8 * bits@.len() ==> !#[trigger] bit_at(bits@, r),
        decreases n - k,
    {
        let row = rows[k];
        let bit = match checked_bool_byte(array.data[row]) {
            Ok(b) => b,
            Err(e) => {
                proof {
                    lemma_bool_fault_persists(array, has_nulls, srows, (k + 1) as nat, srows.len());
                }
                return Err(e);
            },
        };
        let is_null = if has_nulls {
            match array.is_null(row as u64) {
                Ok(b) => b,
                Err(e) => {
                    proof {
                        lemma_bool_fault_persists(
                            array,
                            has_nulls,
                            srows,
                            (k + 1) as nat,
                            srows.len(),
                        );
                    }
                    return Err(e);
                },
            }
        } else {
            false
        };
        if !is_null && bit {
            set_packed_bit(&mut bits, k);
        }
        nulls.push(is_null);
        k = k + 1;
    }
    let validity = if has_nulls {
        validity_from_nulls(&nulls)
    } else {
        None
    };
    proof {
        assert(nulls@ =~= nulls_all);
        if !has_nulls {
            lemma_no_true(nulls_all);
        }
    }
    Ok((bits, n, validity))
}

// ---------------------------------------------------------------------------
// Plain fixed-width values
// ---------------------------------------------------------------------------

/// What a plain fixed-width page is exported as.
#[derive(Debug, Clone, Copy, PartialEq, Eq, Structural)]
pub enum PlainFixedTarget {
    /// Native values of this many bytes, little-endian, back to back.
    Native(usize),
    /// `i128` decimals, from Decimal64 or Decimal128 columns.
    Decimal128,
    /// The stored values as they are.
    FixedSizeBinary,
}

/// Exported plain fixed-width values.
#[derive(Debug, Clone, PartialEq, Eq)]
pub enum PlainFixedValues {
    /// Values back to back, zeros for null rows.
    Bytes(Vec<u8>),
    /// Decimals, zero for null rows.
    Decimal128(Vec<i128>),
}

/// The width of a plain fixed-width page's values, if the page is one: the
/// row count must fit in memory, the logical type must have a fixed width
/// (`UnsupportedEncoding`) and the page must hold every row.
pub open spec fn spec_plain_fixed_width(array: &EncodedArray) -> Result<Option<nat>, ErrorCode> {
    if array.encoding != CoveEncodingKind::PlainFixed {
        Ok(None)
    } else if array.row_count > usize::MAX {
        Err(ErrorCode::ArithOverflow)
    } else {
        match spec_fixed_width(array.logical) {
            None => Err(ErrorCode::UnsupportedEncoding),
            Some(w) => if array.row_count * w > usize::MAX {
                Err(ErrorCode::ArithOverflow)
            } else if array.data@.len() < array.row_count * w {
                Err(ErrorCode::OffsetRange)
            } else {
                Ok(Some(w))
            },
        }
    }
}

/// Whether a decimal export reads the column: only Decimal64 and
/// Decimal128 columns are decimals.
pub open spec fn decimal_column(l: CoveLogicalType) -> bool {
    l == CoveLogicalType::Decimal64 || l == CoveLogicalType::Decimal128
}

/// Whether a non-null value of `width` bytes cannot be read as `target`
/// (`PageCorrupt`).
pub open spec fn fixed_decode_fails(l: CoveLogicalType, width: nat, target: PlainFixedTarget) -> bool {
    match target {
        PlainFixedTarget::Native(t) => t != width,
        PlainFixedTarget::Decimal128 => if l == CoveLogicalType::Decimal64 {
            width != 8
        } else {
            width != 16
        },
        PlainFixedTarget::FixedSizeBinary => false,
    }
}

/// The first failure among the first `n` visited rows: a listed row off the
/// page (`OffsetRange`), a null lookup that fails, or a non-null value that
/// cannot be read as the target.
pub open spec fn fixed_rows_fault(
    array: &EncodedArray,
    has_nulls: bool,
    width: nat,
    target: PlainFixedTarget,
    rows: Seq<int>,
    n: nat,
) -> Option<ErrorCode>
    decreases n,
{
    if n == 0 {
        None
    } else {
        match fixed_rows_fault(array, has_nulls, width, target, rows, (n - 1) as nat) {
            Some(e) => Some(e),
            None => if rows[n - 1] >= array.row_count {
                Some(ErrorCode::OffsetRange)
            } else {
                match spec_row_null(array, has_nulls, rows[n - 1]) {
                    Err(e) => Some(e),
                    Ok(null) => if !null && fixed_decode_fails(array.logical, width, target) {
                        Some(ErrorCode::PageCorrupt)
                    } else {
                        None
                    },
                }
            },
        }
    }
}

/// The stored bytes of row `row`.
pub open spec fn fixed_value(array: &EncodedArray, width: nat, row: int) -> Seq<u8> {
    array.data@.subrange(row * width, row * width + width)
}

/// The first `n` visited rows back to back, `size` zero bytes for a null
/// row.
pub open spec fn fixed_chunks(
    array: &EncodedArray,
    width: nat,
    size: nat,
    rows: Seq<int>,
    nulls: Seq<bool>,
    n: nat,
) -> Seq<u8>
    decreases n,
{
    if n == 0 {
        Seq::empty()
    } else {
        fixed_chunks(array, width, size, rows, nulls, (n - 1) as nat) + if nulls[n - 1] {
            Seq::new(size, |i: int| 0u8)
        } else {
            fixed_value(array, width, rows[n - 1])
        }
    }
}

/// The exported values of the visited rows.
pub open spec fn spec_fixed_values(
    array: &EncodedArray,
    width: nat,
    target: PlainFixedTarget,
    rows: Seq<int>,
    nulls: Seq<bool>,
) -> PlainFixedValuesView {
    match target {
        PlainFixedTarget::Decimal128 => PlainFixedValuesView::Decimal128(
            Seq::new(rows.len(), |k: int| if nulls[k] { 0 } else { le_signed(fixed_value(array, width, rows[k])) }),
        ),
        PlainFixedTarget::Native(t) => PlainFixedValuesView::Bytes(
            fixed_chunks(array, width, t as nat, rows, nulls, rows.len()),
        ),
        PlainFixedTarget::FixedSizeBinary => PlainFixedValuesView::Bytes(
            fixed_chunks(array, width, width, rows, nulls, rows.len()),
        ),
    }
}

/// Exported plain fixed-width values as mathematical values.
pub enum PlainFixedValuesView {
    Bytes(Seq<u8>),
    Decimal128(Seq<int>),
}

impl View for PlainFixedValues {
    type V = PlainFixedValuesView;

    open spec fn view(&self) -> PlainFixedValuesView {
        match self {
            PlainFixedValues::Bytes(b) => PlainFixedValuesView::Bytes(b@),
            PlainFixedValues::Decimal128(v) => PlainFixedValuesView::Decimal128(
                Seq::new(v@.len(), |k: int| v@[k] as int),
            ),
        }
    }
}

/// The first failure of exporting the rows a selection visits from a plain
/// fixed-width page with values of `width` bytes: a decimal export of a
/// non-decimal column, the bitmap, the selection, the size of a fixed-size
/// binary export, the validity, then the visited rows.
pub open spec fn fixed_export_fault(
    array: &EncodedArray,
    selection: ArrowRowSelection,
    width: nat,
    target: PlainFixedTarget,
) -> Option<ErrorCode> {
    if target == PlainFixedTarget::Decimal128 && !decimal_column(array.logical) {
        Some(ErrorCode::UnsupportedEncoding)
    } else {
        match spec_has_nulls(array) {
            Err(e) => Some(e),
            Ok(h) => match spec_visit_rows(selection, array.row_count) {
                Err(e) => Some(e),
                Ok(rows) => if target == PlainFixedTarget::FixedSizeBinary && rows.len() * width
                    > usize::MAX {
                    Some(ErrorCode::ArithOverflow)
                } else if h && rows.len() + 7 > usize::MAX {
                    Some(ErrorCode::ArithOverflow)
                } else {
                    fixed_rows_fault(array, h, width, target, rows, rows.len())
                },
            },
        }
    }
}

proof fn lemma_fixed_rows_fault_persists(
    array: &EncodedArray,
    has_nulls: bool,
    width: nat,
    target: PlainFixedTarget,
    rows: Seq<int>,
    k: nat,
    n: nat,
)
    requires
        k <= n,
        fixed_rows_fault(array, has_nulls, width, target, rows, k) is Some,
    ensures
        fixed_rows_fault(array, has_nulls, width, target, rows, n) == fixed_rows_fault(
            array,
            has_nulls,
            width,
            target,
            rows,
            k,
        ),
    decreases n - k,
{
    if k < n {
        lemma_fixed_rows_fault_persists(array, has_nulls, width, target, rows, k, (n - 1) as nat);
    }
}

proof fn lemma_row_slot(row: int, width: int, row_count: int)
    requires
        0 <= row < row_count,
        0 <= width,
    ensures
        row * width + width <= row_count * width,
        0 <= row * width,
{
    assert(row * width + width <= row_count * width) by (nonlinear_arith)
        requires
            0 <= row < row_count,
            0 <= width,
    ;
    assert(0 <= row * width) by (nonlinear_arith)
        requires
            0 <= row,
            0 <= width,
    ;
}

/// The rows a selection visits on a plain fixed-width page, exported as
/// `target` with their validity; `None` for pages of other encodings (see
/// [`spec_plain_fixed_width`] and [`fixed_export_fault`]).
#[verifier::rlimit(60)]
pub fn plain_fixed_values(
    array: &EncodedArray<'_>,
    selection: ArrowRowSelection<'_>,
    target: PlainFixedTarget,
) -> (res: Result<Option<(PlainFixedValues, Option<(Vec<u8>, usize, usize)>)>, CoveError>)
    ensures
        match spec_plain_fixed_width(array) {
            Err(e) => fails_with(res, e),
            Ok(None) => res == Ok::<Option<(PlainFixedValues, Option<(Vec<u8>, usize, usize)>)>, CoveError>(
                None,
            ),
            Ok(Some(w)) => match fixed_export_fault(array, selection, w, target) {
                Some(e) => fails_with(res, e),
                None => {
                    let rows = spec_visit_rows(selection, array.row_count)->Ok_0;
                    let nulls = row_nulls(array, spec_has_nulls(array)->Ok_0, rows);
                    res matches Ok(Some((v, validity))) && v@ == spec_fixed_values(
                        array,
                        w,
                        target,
                        rows,
                        nulls,
                    ) && validity_of(validity, nulls)
                },
            },
        },
{
    if array.encoding != CoveEncodingKind::PlainFixed {
        return Ok(None);
    }
    if array.row_count > usize::MAX as u64 {
        return Err(CoveError::ArithOverflow);
    }
    let row_count = array.row_count as usize;
    let width = match logical_type_fixed_width(array.logical) {
        Some(w) => w,
        None => {
            return Err(
                CoveError::UnsupportedEncoding(
                    text("PlainFixed Arrow export requires fixed-width logical type"),
                ),
            );
        },
    };
    match fixed_width_payload_prefix(array.data, row_count, width) {
        Ok(_) => {},
        Err(e) => return Err(e),
    }
    let decimal64 = array.logical == CoveLogicalType::Decimal64;
    if target == PlainFixedTarget::Decimal128 && !(decimal64 || array.logical
        == CoveLogicalType::Decimal128) {
        return Err(
            CoveError::UnsupportedEncoding(text("Decimal128 Arrow export from a non-decimal column")),
        );
    }
    let has_nulls = match array_has_nulls(array) {
        Ok(h) => h,
        Err(e) => return Err(e),
    };
    let list = match selection.visit_list(array.row_count) {
        Ok(l) => l,
        Err(e) => return Err(e),
    };
    let ghost rows = spec_visit_rows(selection, array.row_count)->Ok_0;
    let n = list.len();
    if target == PlainFixedTarget::FixedSizeBinary {
        if n.checked_mul(width).is_none() {
            return Err(CoveError::ArithOverflow);
        }
    }
    if has_nulls && n > usize::MAX - 7 {
        return Err(CoveError::ArithOverflow);
    }
    let size = match target {
        PlainFixedTarget::Native(t) => t,
        _ => width,
    };
    let ghost nulls_all = row_nulls(array, has_nulls, rows);
    let data = array.data;
    let mut bytes: Vec<u8> = Vec::new();
    let mut decimals: Vec<i128> = Vec::new();
    let mut nulls: Vec<bool> = Vec::new();
    let mut k: usize = 0;
    while k < n
        invariant
            n == list@.len(),
            n == rows.len(),
            k <= n,
            forall|j: int| 0 <= j < n ==> #[trigger] list@[j] as int == rows[j],
            data@ == array.data@,
            row_count == array.row_count,
            width as nat == spec_fixed_width(array.logical)->Some_0,
            spec_fixed_width(array.logical) is Some,
            row_count * width <= data@.len(),
            size == (match target {
                PlainFixedTarget::Native(t) => t,
                _ => width,
            }),
            decimal64 == (array.logical == CoveLogicalType::Decimal64),
            target == PlainFixedTarget::Decimal128 ==> decimal_column(array.logical),
            spec_has_nulls(array) == Ok::<bool, ErrorCode>(has_nulls),
            spec_visit_rows(selection, array.row_count) == Ok::<Seq<int>, ErrorCode>(rows),
            !(target == PlainFixedTarget::FixedSizeBinary && n * width > usize::MAX),
            !(has_nulls && n + 7 > usize::MAX),
            spec_plain_fixed_width(array) == Ok::<Option<nat>, ErrorCode>(Some(width as nat)),
            nulls_all == row_nulls(array, has_nulls, rows),
            nulls_all.len() == n,
            fixed_rows_fault(array, has_nulls, width as nat, target, rows, k as nat) is None,
            target != PlainFixedTarget::Decimal128 ==> bytes@ == fixed_chunks(
                array,
                width as nat,
                size as nat,
                rows,
                nulls_all,
                k as nat,
            ),
            target == PlainFixedTarget::Decimal128 ==> decimals@.len() == k && forall|j: int|
                0 <= j < k ==> #[trigger] decimals@[j] as int == (if nulls_all[j] {
                    0
                } else {
                    le_signed(fixed_value(array, width as nat, rows[j]))
                }),
            nulls@.len() == k,
            forall|j: int| 0 <= j < k ==> #[trigger] nulls@[j] == nulls_all[j],
        decreases n - k,
    {
        let row = list[k];
        if row as u64 >= array.row_count {
            proof {
                assert(fixed_rows_fault(array, has_nulls, width as nat, target, rows, (k + 1) as nat)
                    is Some);
                lemma_fixed_rows_fault_persists(
                    array,
                    has_nulls,
                    width as nat,
                    target,
                    rows,
                    (k + 1) as nat,
                    n as nat,
                );
            }
            return Err(CoveError::OffsetRange);
        }
        let is_null = if has_nulls {
            match array.is_null(row as u64) {
                Ok(b) => b,
                Err(e) => {
                    proof {
                        assert(fixed_rows_fault(
                            array,
                            has_nulls,
                            width as nat,
                            target,
                            rows,
                            (k + 1) as nat,
                        ) is Some);
                        lemma_fixed_rows_fault_persists(
                            array,
                            has_nulls,
                            width as nat,
                            target,
                            rows,
                            (k + 1) as nat,
                            n as nat,
                        );
                    }
                    return Err(e);
                },
            }
        } else {
            false
        };
        assert(nulls_all[k as int] == is_null);
        let fails = match target {
            PlainFixedTarget::Native(t) => t != width,
            PlainFixedTarget::Decimal128 => if decimal64 {
                width != 8
            } else {
                width != 16
            },
            PlainFixedTarget::FixedSizeBinary => false,
        };
        if !is_null && fails {
            proof {
                assert(fixed_rows_fault(array, has_nulls, width as nat, target, rows, (k + 1) as nat)
                    is Some);
                lemma_fixed_rows_fault_persists(
                    array,
                    has_nulls,
                    width as nat,
                    target,
                    rows,
                    (k + 1) as nat,
                    n as nat,
                );
            }
            return Err(CoveError::PageCorrupt);
        }
        let ghost before = bytes@;
        if is_null {
            if target == PlainFixedTarget::Decimal128 {
                decimals.push(0);
            } else {
                let mut z: usize = 0;
                while z < size
                    invariant
                        z <= size,
                        bytes@ == before + Seq::new(z as nat, |i: int| 0u8),
                    decreases size - z,
                {
                    bytes.push(0);
                    z = z + 1;
                    assert(bytes@ =~= before + Seq::new(z as nat, |i: int| 0u8));
                }
            }
        } else {
            proof {
                lemma_row_slot(row as int, width as int, row_count as int);
            }
            let value = &data[row * width..row * width + width];
            assert(value@ =~= fixed_value(array, width as nat, row as int));
            if target == PlainFixedTarget::Decimal128 {
                decimals.push(read_signed(value));
            } else {
                append_bytes(&mut bytes, value);
            }
        }
        nulls.push(is_null);
        k = k + 1;
    }
    let validity = if has_nulls {
        validity_from_nulls(&nulls)
    } else {
        None
    };
    proof {
        assert(nulls@ =~= nulls_all);
        if !has_nulls {
            lemma_no_true(nulls_all);
        }
    }
    let values = if target == PlainFixedTarget::Decimal128 {
        let out = PlainFixedValues::Decimal128(decimals);
        proof {
            assert(out@ == spec_fixed_values(array, width as nat, target, rows, nulls_all)) by {
                if let PlainFixedValuesView::Decimal128(d) = out@ {
                    assert(d =~= Seq::new(
                        rows.len(),
                        |k: int| if nulls_all[k] { 0 } else { le_signed(fixed_value(array, width as nat, rows[k])) },
                    ));
                }
            }
        }
        out
    } else {
        PlainFixedValues::Bytes(bytes)
    };
    Ok(Some((values, validity)))
}

// ---------------------------------------------------------------------------
// FileCode keys
// ---------------------------------------------------------------------------

/// The first failure among the first `n` visited rows of a FileCode page: a
/// listed row off the page (`OffsetRange`) or a null lookup that fails.
pub open spec fn key_rows_fault(array: &EncodedArray, has_nulls: bool, rows: Seq<int>, n: nat) -> Option<
    ErrorCode,
>
    decreases n,
{
    if n == 0 {
        None
    } else {
        match key_rows_fault(array, has_nulls, rows, (n - 1) as nat) {
            Some(e) => Some(e),
            None => if rows[n - 1] >= array.row_count {
                Some(ErrorCode::OffsetRange)
            } else {
                match spec_row_null(array, has_nulls, rows[n - 1]) {
                    Err(e) => Some(e),
                    Ok(_) => None,
                }
            },
        }
    }
}

/// The first failure of reading the FileCode keys of the rows a selection
/// visits: the page must hold a 4-byte code per row, then the bitmap, the
/// selection, the validity and every visited row.
pub open spec fn key_export_fault(array: &EncodedArray, selection: ArrowRowSelection) -> Option<
    ErrorCode,
> {
    if array.row_count > usize::MAX || array.row_count * 4 > usize::MAX {
        Some(ErrorCode::ArithOverflow)
    } else if array.data@.len() < array.row_count * 4 {
        Some(ErrorCode::OffsetRange)
    } else {
        match spec_has_nulls(array) {
            Err(e) => Some(e),
            Ok(h) => match spec_visit_rows(selection, array.row_count) {
                Err(e) => Some(e),
                Ok(rows) => if h && rows.len() + 7 > usize::MAX {
                    Some(ErrorCode::ArithOverflow)
                } else {
                    key_rows_fault(array, h, rows, rows.len())
                },
            },
        }
    }
}

proof fn lemma_key_rows_fault_persists(
    array: &EncodedArray,
    has_nulls: bool,
    rows: Seq<int>,
    k: nat,
    n: nat,
)
    requires
        k <= n,
        key_rows_fault(array, has_nulls, rows, k) is Some,
    ensures
        key_rows_fault(array, has_nulls, rows, n) == key_rows_fault(array, has_nulls, rows, k),
    decreases n - k,
{
    if k < n {
        lemma_key_rows_fault_persists(array, has_nulls, rows, k, (n - 1) as nat);
    }
}

/// The FileCode keys of the rows a selection visits, zero for null rows,
/// with their validity (see [`key_export_fault`]).
#[verifier::rlimit(40)]
pub fn filecode_keys(array: &EncodedArray<'_>, selection: ArrowRowSelection<'_>) -> (res: Result<
    (Vec<u32>, Option<(Vec<u8>, usize, usize)>),
    CoveError,
>)
    ensures
        match key_export_fault(array, selection) {
            Some(e) => fails_with(res, e),
            None => {
                let rows = spec_visit_rows(selection, array.row_count)->Ok_0;
                let nulls = row_nulls(array, spec_has_nulls(array)->Ok_0, rows);
                res matches Ok((keys, validity)) && keys@ == Seq::new(
                    rows.len(),
                    |k: int| if nulls[k] { 0 } else { spec_u32_at(array.data@, rows[k] * 4) },
                ) && validity_of(validity, nulls)
            },
        },
{
    if array.row_count > usize::MAX as u64 {
        return Err(CoveError::ArithOverflow);
    }
    let row_count = array.row_count as usize;
    match fixed_width_payload_prefix(array.data, row_count, 4) {
        Ok(_) => {},
        Err(e) => return Err(e),
    }
    let has_nulls = match array_has_nulls(array) {
        Ok(h) => h,
        Err(e) => return Err(e),
    };
    let list = match selection.visit_list(array.row_count) {
        Ok(l) => l,
        Err(e) => return Err(e),
    };
    let ghost rows = spec_visit_rows(selection, array.row_count)->Ok_0;
    let n = list.len();
    if has_nulls && n > usize::MAX - 7 {
        return Err(CoveError::ArithOverflow);
    }
    let ghost nulls_all = row_nulls(array, has_nulls, rows);
    let data = array.data;
    let mut keys: Vec<u32> = Vec::new();
    let mut nulls: Vec<bool> = Vec::new();
    let mut k: usize = 0;
    while k < n
        invariant
            n == list@.len(),
            n == rows.len(),
            k <= n,
            forall|j: int| 0 <= j < n ==> #[trigger] list@[j] as int == rows[j],
            data@ == array.data@,
            row_count == array.row_count,
            row_count * 4 <= data@.len(),
            array.row_count * 4 <= usize::MAX,
            spec_has_nulls(array) == Ok::<bool, ErrorCode>(has_nulls),
            spec_visit_rows(selection, array.row_count) == Ok::<Seq<int>, ErrorCode>(rows),
            !(has_nulls && n + 7 > usize::MAX),
            nulls_all == row_nulls(array, has_nulls, rows),
            nulls_all.len() == n,
            key_rows_fault(array, has_nulls, rows, k as nat) is None,
            keys@.len() == k,
            forall|j: int|
                0 <= j < k ==> #[trigger] keys@[j] == (if nulls_all[j] {
                    0
                } else {
                    spec_u32_at(array.data@, rows[j] * 4)
                }),
            nulls@.len() == k,
            forall|j: int| 0 <= j < k ==> #[trigger] nulls@[j] == nulls_all[j],
        decreases n - k,
    {
        let row = list[k];
        if row as u64 >= array.row_count {
            proof {
                assert(key_rows_fault(array, has_nulls, rows, (k + 1) as nat) is Some);
                lemma_key_rows_fault_persists(array, has_nulls, rows, (k + 1) as nat, n as nat);
            }
            return Err(CoveError::OffsetRange);
        }
        let is_null = if has_nulls {
            match array.is_null(row as u64) {
                Ok(b) => b,
                Err(e) => {
                    proof {
                        assert(key_rows_fault(array, has_nulls, rows, (k + 1) as nat) is Some);
                        lemma_key_rows_fault_persists(
                            array,
                            has_nulls,
                            rows,
                            (k + 1) as nat,
                            n as nat,
                        );
                    }
                    return Err(e);
                },
            }
        } else {
            false
        };
        assert(nulls_all[k as int] == is_null);
        let key = if is_null {
            0
        } else {
            proof {
                lemma_row_slot(row as int, 4, row_count as int);
            }
            get_u32_le(data, row * 4)
        };
        keys.push(key);
        nulls.push(is_null);
        k = k + 1;
    }
    let validity = if has_nulls {
        validity_from_nulls(&nulls)
    } else {
        None
    };
    proof {
        assert(nulls@ =~= nulls_all);
        if !has_nulls {
            lemma_no_true(nulls_all);
        }
    }
    Ok((keys, validity))
}

// ---------------------------------------------------------------------------
// Decoded value slices
// ---------------------------------------------------------------------------

/// What decoded unsigned values may become: booleans (0 or 1), or integers
/// no larger than a bound.
#[derive(Debug, Clone, Copy, PartialEq, Eq, Structural)]
pub enum SliceTarget {
    Boolean,
    UpTo(u64),
}

/// The largest value a target accepts.
pub open spec fn target_max(t: SliceTarget) -> u64 {
    match t {
        SliceTarget::Boolean => 1,
        SliceTarget::UpTo(m) => m,
    }
}

/// The target decoded unsigned values take for an Arrow type: the type's
/// range as seen from non-negative values (signed types go through `i64`
/// first); decimals only from Decimal64 columns; `None` for other types.
pub open spec fn spec_slice_target(t: crate::arrow_types::ArrowType, l: CoveLogicalType) -> Option<
    SliceTarget,
> {
    match t {
        crate::arrow_types::ArrowType::UInt8 => Some(SliceTarget::UpTo(0xff)),
        crate::arrow_types::ArrowType::UInt16 => Some(SliceTarget::UpTo(0xffff)),
        crate::arrow_types::ArrowType::UInt32 => Some(SliceTarget::UpTo(0xffff_ffff)),
        crate::arrow_types::ArrowType::UInt64 => Some(SliceTarget::UpTo(0xffff_ffff_ffff_ffff)),
        crate::arrow_types::ArrowType::Boolean => Some(SliceTarget::Boolean),
        crate::arrow_types::ArrowType::Int8 => Some(SliceTarget::UpTo(0x7f)),
        crate::arrow_types::ArrowType::Int16 => Some(SliceTarget::UpTo(0x7fff)),
        crate::arrow_types::ArrowType::Int32 | crate::arrow_types::ArrowType::Date32 => Some(
            SliceTarget::UpTo(0x7fff_ffff),
        ),
        crate::arrow_types::ArrowType::Int64
        | crate::arrow_types::ArrowType::TimestampMicros
        | crate::arrow_types::ArrowType::TimestampNanos => Some(
            SliceTarget::UpTo(0x7fff_ffff_ffff_ffff),
        ),
        crate::arrow_types::ArrowType::Decimal128(_, _) => if l == CoveLogicalType::Decimal64 {
            Some(SliceTarget::UpTo(0x7fff_ffff_ffff_ffff))
        } else {
            None
        },
        _ => None,
    }
}

/// The target decoded unsigned values take for an Arrow type.
pub fn slice_target(t: crate::arrow_types::ArrowType, logical: CoveLogicalType) -> (res: Option<
    SliceTarget,
>)
    ensures
        res == spec_slice_target(t, logical),
{
    match t {
        crate::arrow_types::ArrowType::UInt8 => Some(SliceTarget::UpTo(0xff)),
        crate::arrow_types::ArrowType::UInt16 => Some(SliceTarget::UpTo(0xffff)),
        crate::arrow_types::ArrowType::UInt32 => Some(SliceTarget::UpTo(0xffff_ffff)),
        crate::arrow_types::ArrowType::UInt64 => Some(SliceTarget::UpTo(0xffff_ffff_ffff_ffff)),
        crate::arrow_types::ArrowType::Boolean => Some(SliceTarget::Boolean),
        crate::arrow_types::ArrowType::Int8 => Some(SliceTarget::UpTo(0x7f)),
        crate::arrow_types::ArrowType::Int16 => Some(SliceTarget::UpTo(0x7fff)),
        crate::arrow_types::ArrowType::Int32 | crate::arrow_types::ArrowType::Date32 => Some(
            SliceTarget::UpTo(0x7fff_ffff),
        ),
        crate::arrow_types::ArrowType::Int64
        | crate::arrow_types::ArrowType::TimestampMicros
        | crate::arrow_types::ArrowType::TimestampNanos => Some(
            SliceTarget::UpTo(0x7fff_ffff_ffff_ffff),
        ),
        crate::arrow_types::ArrowType::Decimal128(_, _) => if logical == CoveLogicalType::Decimal64 {
            Some(SliceTarget::UpTo(0x7fff_ffff_ffff_ffff))
        } else {
            None
        },
        _ => None,
    }
}

/// The first failure among the first `n` visited rows: a listed row off the
/// page (`OffsetRange`), a null lookup that fails, or a non-null value above
/// `max` (`PageCorrupt`).
pub open spec fn slice_rows_fault(
    array: &EncodedArray,
    has_nulls: bool,
    values: Seq<u64>,
    max: u64,
    rows: Seq<int>,
    n: nat,
) -> Option<ErrorCode>
    decreases n,
{
    if n == 0 {
        None
    } else {
        match slice_rows_fault(array, has_nulls, values, max, rows, (n - 1) as nat) {
            Some(e) => Some(e),
            None => if rows[n - 1] >= array.row_count {
                Some(ErrorCode::OffsetRange)
            } else {
                match spec_row_null(array, has_nulls, rows[n - 1]) {
                    Err(e) => Some(e),
                    Ok(null) => if !null && values[rows[n - 1]] > max {
                        Some(ErrorCode::PageCorrupt)
                    } else {
                        None
                    },
                }
            },
        }
    }
}

/// The first failure of exporting the rows a selection visits from a page's
/// decoded values as `target`: the bitmap, the selection, the packed
/// booleans and the validity must fit, then every visited row.
pub open spec fn slice_export_fault(
    array: &EncodedArray,
    values: Seq<u64>,
    selection: ArrowRowSelection,
    target: SliceTarget,
) -> Option<ErrorCode> {
    match spec_has_nulls(array) {
        Err(e) => Some(e),
        Ok(h) => match spec_visit_rows(selection, array.row_count) {
            Err(e) => Some(e),
            Ok(rows) => if (target == SliceTarget::Boolean || h) && rows.len() + 7 > usize::MAX {
                Some(ErrorCode::ArithOverflow)
            } else {
                slice_rows_fault(array, h, values, target_max(target), rows, rows.len())
            },
        },
    }
}

proof fn lemma_slice_rows_fault_persists(
    array: &EncodedArray,
    has_nulls: bool,
    values: Seq<u64>,
    max: u64,
    rows: Seq<int>,
    k: nat,
    n: nat,
)
    requires
        k <= n,
        slice_rows_fault(array, has_nulls, values, max, rows, k) is Some,
    ensures
        slice_rows_fault(array, has_nulls, values, max, rows, n) == slice_rows_fault(
            array,
            has_nulls,
            values,
            max,
            rows,
            k,
        ),
    decreases n - k,
{
    if k < n {
        lemma_slice_rows_fault_persists(array, has_nulls, values, max, rows, k, (n - 1) as nat);
    }
}

/// The rows a selection visits, taken from the page's decoded `values` for
/// an Arrow type: each non-null value must fit the type (see
/// [`spec_slice_target`]), null rows read 0; `None` for types the values
/// cannot become. `PageCorrupt` when there is not one value per row.
#[verifier::rlimit(40)]
pub fn direct_u64_slice_values(
    array: &EncodedArray<'_>,
    values: &[u64],
    selection: ArrowRowSelection<'_>,
    data_type: crate::arrow_types::ArrowType,
) -> (res: Result<Option<(Vec<u64>, Option<(Vec<u8>, usize, usize)>)>, CoveError>)
    ensures
        array.row_count > usize::MAX ==> fails_with(res, ErrorCode::ArithOverflow),
        array.row_count <= usize::MAX && values@.len() != array.row_count ==> fails_with(
            res,
            ErrorCode::PageCorrupt,
        ),
        array.row_count <= usize::MAX && values@.len() == array.row_count ==> match spec_slice_target(
            data_type,
            array.logical,
        ) {
            None => res == Ok::<Option<(Vec<u64>, Option<(Vec<u8>, usize, usize)>)>, CoveError>(None),
            Some(t) => match slice_export_fault(array, values@, selection, t) {
                Some(e) => fails_with(res, e),
                None => {
                    let rows = spec_visit_rows(selection, array.row_count)->Ok_0;
                    let nulls = row_nulls(array, spec_has_nulls(array)->Ok_0, rows);
                    res matches Ok(Some((out, validity))) && out@ == Seq::new(
                        rows.len(),
                        |k: int| if nulls[k] { 0 } else { values@[rows[k]] },
                    ) && validity_of(validity, nulls)
                },
            },
        },
{
    if array.row_count > usize::MAX as u64 {
        return Err(CoveError::ArithOverflow);
    }
    if values.len() != array.row_count as usize {
        return Err(CoveError::PageCorrupt);
    }
    let target = match slice_target(data_type, array.logical) {
        Some(t) => t,
        None => return Ok(None),
    };
    let max = match target {
        SliceTarget::Boolean => 1,
        SliceTarget::UpTo(m) => m,
    };
    let has_nulls = match array_has_nulls(array) {
        Ok(h) => h,
        Err(e) => return Err(e),
    };
    let list = match selection.visit_list(array.row_count) {
        Ok(l) => l,
        Err(e) => return Err(e),
    };
    let ghost rows = spec_visit_rows(selection, array.row_count)->Ok_0;
    let n = list.len();
    let boolean = match target {
        SliceTarget::Boolean => true,
        _ => false,
    };
    if (boolean || has_nulls) && n > usize::MAX - 7 {
        return Err(CoveError::ArithOverflow);
    }
    let ghost nulls_all = row_nulls(array, has_nulls, rows);
    let mut out: Vec<u64> = Vec::new();
    let mut nulls: Vec<bool> = Vec::new();
    let mut k: usize = 0;
    while k < n
        invariant
            n == list@.len(),
            n == rows.len(),
            k <= n,
            forall|j: int| 0 <= j < n ==> #[trigger] list@[j] as int == rows[j],
            values@.len() == array.row_count,
            array.row_count <= usize::MAX,
            spec_slice_target(data_type, array.logical) == Some(target),
            max == target_max(target),
            boolean == (target == SliceTarget::Boolean),
            spec_has_nulls(array) == Ok::<bool, ErrorCode>(has_nulls),
            spec_visit_rows(selection, array.row_count) == Ok::<Seq<int>, ErrorCode>(rows),
            !((boolean || has_nulls) && n + 7 > usize::MAX),
            nulls_all == row_nulls(array, has_nulls, rows),
            nulls_all.len() == n,
            slice_rows_fault(array, has_nulls, values@, max, rows, k as nat) is None,
            out@.len() == k,
            forall|j: int|
                0 <= j < k ==> #[trigger] out@[j] == (if nulls_all[j] {
                    0
                } else {
                    values@[rows[j]]
                }),
            nulls@.len() == k,
            forall|j: int| 0 <= j < k ==> #[trigger] nulls@[j] == nulls_all[j],
        decreases n - k,
    {
        let row = list[k];
        if row as u64 >= array.row_count {
            proof {
                assert(slice_rows_fault(array, has_nulls, values@, max, rows, (k + 1) as nat) is Some);
                lemma_slice_rows_fault_persists(
                    array,
                    has_nulls,
                    values@,
                    max,
                    rows,
                    (k + 1) as nat,
                    n as nat,
                );
            }
            return Err(CoveError::OffsetRange);
        }
        let is_null = if has_nulls {
            match array.is_null(row as u64) {
                Ok(b) => b,
                Err(e) => {
                    proof {
                        assert(slice_rows_fault(
                            array,
                            has_nulls,
                            values@,
                            max,
                            rows,
                            (k + 1) as nat,
                        ) is Some);
                        lemma_slice_rows_fault_persists(
                            array,
                            has_nulls,
                            values@,
                            max,
                            rows,
                            (k + 1) as nat,
                            n as nat,
                        );
                    }
                    return Err(e);
                },
            }
        } else {
            false
        };
        assert(nulls_all[k as int] == is_null);
        let value = if is_null {
            0
        } else {
            let v = values[row];
            if v > max {
                proof {
                    assert(slice_rows_fault(array, has_nulls, values@, max, rows, (k + 1) as nat)
                        is Some);
                    lemma_slice_rows_fault_persists(
                        array,
                        has_nulls,
                        values@,
                        max,
                        rows,
                        (k + 1) as nat,
                        n as nat,
                    );
                }
                return Err(CoveError::PageCorrupt);
            }
            v
        };
        out.push(value);
        nulls.push(is_null);
        k = k + 1;
    }
    let validity = if has_nulls {
        validity_from_nulls(&nulls)
    } else {
        None
    };
    proof {
        assert(nulls@ =~= nulls_all);
        if !has_nulls {
            lemma_no_true(nulls_all);
        }
    }
    Ok(Some((out, validity)))
}

// ---------------------------------------------------------------------------
// Decoded signed value slices
// ---------------------------------------------------------------------------

/// The range decoded signed values must fall in to become an Arrow type:
/// booleans are 0 or 1, integers the type's range (unsigned types from 0),
/// dates 32-bit, timestamps 64-bit; decimals only from Decimal64 columns;
/// `None` for types the values cannot become.
pub open spec fn spec_i64_range(t: crate::arrow_types::ArrowType, l: CoveLogicalType) -> Option<(int, int)> {
    match t {
        crate::arrow_types::ArrowType::Boolean => Some((0, 1)),
        crate::arrow_types::ArrowType::Int8 => Some((-0x80, 0x7f)),
        crate::arrow_types::ArrowType::Int16 => Some((-0x8000, 0x7fff)),
        crate::arrow_types::ArrowType::Int32 | crate::arrow_types::ArrowType::Date32 => Some(
            (-0x8000_0000, 0x7fff_ffff),
        ),
        crate::arrow_types::ArrowType::Int64
        | crate::arrow_types::ArrowType::TimestampMicros
        | crate::arrow_types::ArrowType::TimestampNanos => Some((i64::MIN as int, i64::MAX as int)),
        crate::arrow_types::ArrowType::UInt8 => Some((0, 0xff)),
        crate::arrow_types::ArrowType::UInt16 => Some((0, 0xffff)),
        crate::arrow_types::ArrowType::UInt32 => Some((0, 0xffff_ffff)),
        crate::arrow_types::ArrowType::UInt64 => Some((0, i64::MAX as int)),
        crate::arrow_types::ArrowType::Decimal128(_, _) => if l == CoveLogicalType::Decimal64 {
            Some((i64::MIN as int, i64::MAX as int))
        } else {
            None
        },
        _ => None,
    }
}

/// The range decoded signed values must fall in to become an Arrow type.
pub fn i64_range(t: crate::arrow_types::ArrowType, logical: CoveLogicalType) -> (res: Option<(i64, i64)>)
    ensures
        match spec_i64_range(t, logical) {
            Some((lo, hi)) => (res matches Some((a, b)) && a == lo && b == hi),
            None => res is None,
        },
{
    match t {
        crate::arrow_types::ArrowType::Boolean => Some((0, 1)),
        crate::arrow_types::ArrowType::Int8 => Some((-0x80, 0x7f)),
        crate::arrow_types::ArrowType::Int16 => Some((-0x8000, 0x7fff)),
        crate::arrow_types::ArrowType::Int32 | crate::arrow_types::ArrowType::Date32 => Some(
            (-0x8000_0000, 0x7fff_ffff),
        ),
        crate::arrow_types::ArrowType::Int64
        | crate::arrow_types::ArrowType::TimestampMicros
        | crate::arrow_types::ArrowType::TimestampNanos => Some((i64::MIN, i64::MAX)),
        crate::arrow_types::ArrowType::UInt8 => Some((0, 0xff)),
        crate::arrow_types::ArrowType::UInt16 => Some((0, 0xffff)),
        crate::arrow_types::ArrowType::UInt32 => Some((0, 0xffff_ffff)),
        crate::arrow_types::ArrowType::UInt64 => Some((0, i64::MAX)),
        crate::arrow_types::ArrowType::Decimal128(_, _) => if logical == CoveLogicalType::Decimal64 {
            Some((i64::MIN, i64::MAX))
        } else {
            None
        },
        _ => None,
    }
}

/// The first failure among the first `n` visited rows: a listed row off the
/// page (`OffsetRange`), a null lookup that fails, or a non-null value
/// outside `[lo, hi]` (`PageCorrupt`).
pub open spec fn i64_rows_fault(
    array: &EncodedArray,
    has_nulls: bool,
    values: Seq<i64>,
    lo: int,
    hi: int,
    rows: Seq<int>,
    n: nat,
) -> Option<ErrorCode>
    decreases n,
{
    if n == 0 {
        None
    } else {
        match i64_rows_fault(array, has_nulls, values, lo, hi, rows, (n - 1) as nat) {
            Some(e) => Some(e),
            None => if rows[n - 1] >= array.row_count {
                Some(ErrorCode::OffsetRange)
            } else {
                match spec_row_null(array, has_nulls, rows[n - 1]) {
                    Err(e) => Some(e),
                    Ok(null) => if !null && !(lo <= values[rows[n - 1]] <= hi) {
                        Some(ErrorCode::PageCorrupt)
                    } else {
                        None
                    },
                }
            },
        }
    }
}

/// The first failure of exporting the rows a selection visits from a
/// page's decoded signed values within `[lo, hi]`: the bitmap, the
/// selection, the packed booleans (for a boolean target) and the validity
/// must fit, then every visited row.
pub open spec fn i64_export_fault(
    array: &EncodedArray,
    values: Seq<i64>,
    selection: ArrowRowSelection,
    boolean: bool,
    lo: int,
    hi: int,
) -> Option<ErrorCode> {
    match spec_has_nulls(array) {
        Err(e) => Some(e),
        Ok(h) => match spec_visit_rows(selection, array.row_count) {
            Err(e) => Some(e),
            Ok(rows) => if (boolean || h) && rows.len() + 7 > usize::MAX {
                Some(ErrorCode::ArithOverflow)
            } else {
                i64_rows_fault(array, h, values, lo, hi, rows, rows.len())
            },
        },
    }
}

proof fn lemma_i64_rows_fault_persists(
    array: &EncodedArray,
    has_nulls: bool,
    values: Seq<i64>,
    lo: int,
    hi: int,
    rows: Seq<int>,
    k: nat,
    n: nat,
)
    requires
        k <= n,
        i64_rows_fault(array, has_nulls, values, lo, hi, rows, k) is Some,
    ensures
        i64_rows_fault(array, has_nulls, values, lo, hi, rows, n) == i64_rows_fault(
            array,
            has_nulls,
            values,
            lo,
            hi,
            rows,
            k,
        ),
    decreases n - k,
{
    if k < n {
        lemma_i64_rows_fault_persists(array, has_nulls, values, lo, hi, rows, k, (n - 1) as nat);
    }
}

/// The rows a selection visits, taken from the page's decoded signed
/// `values` for an Arrow type: each non-null value must lie in the type's
/// range (see [`spec_i64_range`]), null rows read 0; `None` for types the
/// values cannot become. `PageCorrupt` when there is not one value per row.
#[verifier::rlimit(40)]
pub fn direct_i64_slice_values(
    array: &EncodedArray<'_>,
    values: &[i64],
    selection: ArrowRowSelection<'_>,
    data_type: crate::arrow_types::ArrowType,
) -> (res: Result<Option<(Vec<i64>, Option<(Vec<u8>, usize, usize)>)>, CoveError>)
    ensures
        array.row_count > usize::MAX ==> fails_with(res, ErrorCode::ArithOverflow),
        array.row_count <= usize::MAX && values@.len() != array.row_count ==> fails_with(
            res,
            ErrorCode::PageCorrupt,
        ),
        array.row_count <= usize::MAX && values@.len() == array.row_count ==> match spec_i64_range(
            data_type,
            array.logical,
        ) {
            None => res == Ok::<Option<(Vec<i64>, Option<(Vec<u8>, usize, usize)>)>, CoveError>(None),
            Some((lo, hi)) => match i64_export_fault(
                array,
                values@,
                selection,
                data_type == crate::arrow_types::ArrowType::Boolean,
                lo,
                hi,
            ) {
                Some(e) => fails_with(res, e),
                None => {
                    let rows = spec_visit_rows(selection, array.row_count)->Ok_0;
                    let nulls = row_nulls(array, spec_has_nulls(array)->Ok_0, rows);
                    res matches Ok(Some((out, validity))) && out@ == Seq::new(
                        rows.len(),
                        |k: int| if nulls[k] { 0 } else { values@[rows[k]] },
                    ) && validity_of(validity, nulls)
                },
            },
        },
{
    if array.row_count > usize::MAX as u64 {
        return Err(CoveError::ArithOverflow);
    }
    if values.len() != array.row_count as usize {
        return Err(CoveError::PageCorrupt);
    }
    let (lo, hi) = match i64_range(data_type, array.logical) {
        Some(r) => r,
        None => return Ok(None),
    };
    let boolean = match data_type {
        crate::arrow_types::ArrowType::Boolean => true,
        _ => false,
    };
    let has_nulls = match array_has_nulls(array) {
        Ok(h) => h,
        Err(e) => return Err(e),
    };
    let list = match selection.visit_list(array.row_count) {
        Ok(l) => l,
        Err(e) => return Err(e),
    };
    let ghost rows = spec_visit_rows(selection, array.row_count)->Ok_0;
    let n = list.len();
    if (boolean || has_nulls) && n > usize::MAX - 7 {
        return Err(CoveError::ArithOverflow);
    }
    let ghost nulls_all = row_nulls(array, has_nulls, rows);
    let mut out: Vec<i64> = Vec::new();
    let mut nulls: Vec<bool> = Vec::new();
    let mut k: usize = 0;
    while k < n
        invariant
            n == list@.len(),
            n == rows.len(),
            k <= n,
            forall|j: int| 0 <= j < n ==> #[trigger] list@[j] as int == rows[j],
            values@.len() == array.row_count,
            array.row_count <= usize::MAX,
            spec_i64_range(data_type, array.logical) == Some((lo as int, hi as int)),
            boolean == (data_type == crate::arrow_types::ArrowType::Boolean),
            spec_has_nulls(array) == Ok::<bool, ErrorCode>(has_nulls),
            spec_visit_rows(selection, array.row_count) == Ok::<Seq<int>, ErrorCode>(rows),
            !((boolean || has_nulls) && n + 7 > usize::MAX),
            nulls_all == row_nulls(array, has_nulls, rows),
            nulls_all.len() == n,
            i64_rows_fault(array, has_nulls, values@, lo as int, hi as int, rows, k as nat) is None,
            out@.len() == k,
            forall|j: int|
                0 <= j < k ==> #[trigger] out@[j] == (if nulls_all[j] {
                    0
                } else {
                    values@[rows[j]]
                }),
            nulls@.len() == k,
            forall|j: int| 0 <= j < k ==> #[trigger] nulls@[j] == nulls_all[j],
        decreases n - k,
    {
        let row = list[k];
        if row as u64 >= array.row_count {
            proof {
                assert(i64_rows_fault(array, has_nulls, values@, lo as int, hi as int, rows, (k + 1) as nat) is Some);
                lemma_i64_rows_fault_persists(
                    array,
                    has_nulls,
                    values@,
                    lo as int,
                    hi as int,
                    rows,
                    (k + 1) as nat,
                    n as nat,
                );
            }
            return Err(CoveError::OffsetRange);
        }
        let is_null = if has_nulls {
            match array.is_null(row as u64) {
                Ok(b) => b,
                Err(e) => {
                    proof {
                        assert(i64_rows_fault(
                            array,
                            has_nulls,
                            values@,
                            lo as int,
                            hi as int,
                            rows,
                            (k + 1) as nat,
                        ) is Some);
                        lemma_i64_rows_fault_persists(
                            array,
                            has_nulls,
                            values@,
                            lo as int,
                            hi as int,
                            rows,
                            (k + 1) as nat,
                            n as nat,
                        );
                    }
                    return Err(e);
                },
            }
        } else {
            false
        };
        assert(nulls_all[k as int] == is_null);
        let value = if is_null {
            0
        } else {
            let v = values[row];
            if v < lo || v > hi {
                proof {
                    assert(i64_rows_fault(array, has_nulls, values@, lo as int, hi as int, rows, (k + 1) as nat)
                        is Some);
                    lemma_i64_rows_fault_persists(
                        array,
                        has_nulls,
                        values@,
                        lo as int,
                        hi as int,
                        rows,
                        (k + 1) as nat,
                        n as nat,
                    );
                }
                return Err(CoveError::PageCorrupt);
            }
            v
        };
        out.push(value);
        nulls.push(is_null);
        k = k + 1;
    }
    let validity = if has_nulls {
        validity_from_nulls(&nulls)
    } else {
        None
    };
    proof {
        assert(nulls@ =~= nulls_all);
        if !has_nulls {
            lemma_no_true(nulls_all);
        }
    }
    Ok(Some((out, validity)))
}

} // verus!
