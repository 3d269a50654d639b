//! Arrow offsets and values from length-prefixed byte pages: each exported
//! row contributes its value bytes (nothing when null), the offsets count
//! the bytes so far as `i32`, and the validity marks the null rows.
use vstd::prelude::*;

use crate::array::EncodedArray;
use crate::arrow_buffers::{
    count_true, lemma_no_true, row_nulls, spec_has_nulls, spec_row_null, validity_from_nulls,
    validity_of,
};
use crate::selection::{
    lemma_bitset_selection_visits_marked_rows, lemma_selected_rows_on_page, spec_visit_rows,
    ArrowRowSelection,
};
use crate::arrow_export::{
    spec_validate_utf8_offsets, validate_utf8_offsets_slice, ArrowStringValidationPolicy,
    array_has_nulls, lemma_payload_ranges_err_persists, ranges_end, read_leb128_len_prefixed_range,
    read_u32_len_prefixed_range, spec_payload_range, spec_payload_ranges, BytePayloadLayout,
    BytePayloadPlan,
};
use crate::error::{fails_with, CoveError, ErrorCode};
use crate::wire::{append_bytes, spec_u32_at};

verus! {

/// Arrow-ready byte rows: `i32` offsets, the value bytes and the validity.
pub type ByteRows = (Vec<i32>, Vec<u8>, Option<(Vec<u8>, usize, usize)>);

/// The null flags of a page's rows.
pub open spec fn page_nulls(array: &EncodedArray, has_nulls: bool) -> Seq<bool> {
    Seq::new(
        array.row_count as nat,
        |k: int| spec_row_null(array, has_nulls, k) == Ok::<bool, ErrorCode>(true),
    )
}

/// The bytes the first `n` rows contribute: row `k`'s value range `rs[k]`,
/// or nothing when `nulls[k]`.
pub open spec fn kept_concat(data: Seq<u8>, rs: Seq<(int, int)>, nulls: Seq<bool>, n: nat) -> Seq<u8>
    decreases n,
{
    if n == 0 {
        Seq::empty()
    } else {
        kept_concat(data, rs, nulls, (n - 1) as nat) + if nulls[n - 1] {
            Seq::<u8>::empty()
        } else {
            data.subrange(rs[n - 1].0, rs[n - 1].1)
        }
    }
}

/// Whether `res` holds exactly the rows given by ranges `rs` and null flags
/// `nulls`: offsets counting the kept bytes, the kept bytes, and the
/// validity of `nulls`.
pub open spec fn holds_rows(res: ByteRows, data: Seq<u8>, rs: Seq<(int, int)>, nulls: Seq<bool>) -> bool {
    let n = nulls.len();
    &&& res.0@.len() == n + 1
    &&& forall|k: int| 0 <= k <= n ==> #[trigger] res.0@[k] as int == kept_concat(data, rs, nulls, k as nat).len()
    &&& res.1@ == kept_concat(data, rs, nulls, n)
    &&& validity_of(res.2, nulls)
}

proof fn lemma_kept_prefix(
    data: Seq<u8>,
    rs1: Seq<(int, int)>,
    rs2: Seq<(int, int)>,
    nulls: Seq<bool>,
    n: nat,
)
    requires
        forall|k: int| 0 <= k < n ==> #[trigger] rs1[k] == rs2[k],
    ensures
        kept_concat(data, rs1, nulls, n) == kept_concat(data, rs2, nulls, n),
    decreases n,
{
    if n > 0 {
        lemma_kept_prefix(data, rs1, rs2, nulls, (n - 1) as nat);
    }
}

// ---------------------------------------------------------------------------
// Every row
// ---------------------------------------------------------------------------

/// The first failure among the first `n` rows when every row is exported
/// one by one: reading its range, looking up whether it is null, or the
/// values outgrowing `i32` offsets (`ArithOverflow`).
pub open spec fn all_rows_fault(
    layout: BytePayloadLayout,
    array: &EncodedArray,
    has_nulls: bool,
    n: nat,
) -> Option<ErrorCode>
    decreases n,
{
    if n == 0 {
        None
    } else {
        match all_rows_fault(layout, array, has_nulls, (n - 1) as nat) {
            Some(e) => Some(e),
            None => match spec_payload_ranges(layout, array.data@, n) {
                Err(e) => Some(e),
                Ok(rs) => match spec_row_null(array, has_nulls, n - 1) {
                    Err(e) => Some(e),
                    Ok(_) => if kept_concat(array.data@, rs, page_nulls(array, has_nulls), n).len()
                        > i32::MAX {
                        Some(ErrorCode::ArithOverflow)
                    } else {
                        None
                    },
                },
            },
        }
    }
}

/// The first failure of the row-by-row export of a whole page: the offsets
/// and the validity must fit in memory, every row must export, and the
/// values must end exactly at the end of the page.
pub open spec fn all_rows_generic_fault(
    layout: BytePayloadLayout,
    array: &EncodedArray,
    has_nulls: bool,
) -> Option<ErrorCode> {
    let n = array.row_count as nat;
    if n + 1 > usize::MAX {
        Some(ErrorCode::ArithOverflow)
    } else if has_nulls && n + 7 > usize::MAX {
        Some(ErrorCode::ArithOverflow)
    } else {
        match all_rows_fault(layout, array, has_nulls, n) {
            Some(e) => Some(e),
            None => if ranges_end(spec_payload_ranges(layout, array.data@, n)->Ok_0)
                != array.data@.len() {
                Some(ErrorCode::PageCorrupt)
            } else {
                None
            },
        }
    }
}

/// The first failure among the first `n` rows of a `u32`-prefixed page
/// without nulls whose values take `value_len` bytes: a range that does not
/// fit (`OffsetRange`), or values beyond `value_len` (`PageCorrupt`).
pub open spec fn dense_rows_fault(data: Seq<u8>, nulls: Seq<bool>, n: nat, value_len: int) -> Option<
    ErrorCode,
>
    decreases n,
{
    if n == 0 {
        None
    } else {
        match dense_rows_fault(data, nulls, (n - 1) as nat, value_len) {
            Some(e) => Some(e),
            None => match spec_payload_ranges(BytePayloadLayout::U32LengthPrefixed, data, n) {
                Err(_) => Some(ErrorCode::OffsetRange),
                Ok(rs) => if kept_concat(data, rs, nulls, n).len() > value_len {
                    Some(ErrorCode::PageCorrupt)
                } else {
                    None
                },
            },
        }
    }
}

/// Whether every one of the `n` rows of a `u32`-prefixed page has a value
/// of `f` bytes, the pages holding nothing else.
pub open spec fn all_same_length(data: Seq<u8>, n: nat, f: int) -> bool {
    &&& n * (f + 4) == data.len()
    &&& forall|k: int| 0 <= k < n ==> #[trigger] spec_u32_at(data, k * (f + 4)) == f
}

/// The length shared by every value of a small `u32`-prefixed page, when
/// they all have the same length: `OffsetRange` when a row cannot even hold
/// its prefix, `ArithOverflow` when the page size would overflow.
pub open spec fn spec_fixed_u32_len(data: Seq<u8>, n: nat) -> Result<Option<int>, ErrorCode> {
    if n == 0 {
        Ok(None)
    } else if data.len() < 4 {
        Err(ErrorCode::OffsetRange)
    } else {
        let f = spec_u32_at(data, 0) as int;
        if f + 4 > usize::MAX || n * (f + 4) > usize::MAX {
            Err(ErrorCode::ArithOverflow)
        } else if all_same_length(data, n, f) {
            Ok(Some(f))
        } else {
            Ok(None)
        }
    }
}

/// The first failure of the export of a `u32`-prefixed page without
/// nulls: small pages first look for a shared value length; the prefixes
/// must fit, the values must fit in `i32` offsets, every row must fit and
/// the values must end exactly at the end of the page.
pub open spec fn dense_page_fault(array: &EncodedArray) -> Option<ErrorCode> {
    let data = array.data@;
    let n = array.row_count as nat;
    let fixed = if n <= 16 && data.len() <= 1024 {
        spec_fixed_u32_len(data, n)
    } else {
        Ok(None)
    };
    if fixed is Err {
        Some(fixed->Err_0)
    } else if n * 4 > usize::MAX {
        Some(ErrorCode::ArithOverflow)
    } else if n * 4 > data.len() {
        Some(ErrorCode::OffsetRange)
    } else if data.len() - n * 4 > i32::MAX {
        Some(ErrorCode::ArithOverflow)
    } else {
        match dense_rows_fault(data, page_nulls(array, false), n, data.len() - n * 4) {
            Some(e) => Some(e),
            None => if ranges_end(
                spec_payload_ranges(BytePayloadLayout::U32LengthPrefixed, data, n)->Ok_0,
            ) != data.len() {
                Some(ErrorCode::PageCorrupt)
            } else {
                None
            },
        }
    }
}

/// The first failure of exporting every row of `array`: pages without
/// nulls in the `u32` layout take the dense path, others go row by row.
pub open spec fn all_rows_export_fault(layout: BytePayloadLayout, array: &EncodedArray) -> Option<
    ErrorCode,
> {
    if array.row_count > usize::MAX {
        Some(ErrorCode::ArithOverflow)
    } else {
        match spec_has_nulls(array) {
            Err(e) => Some(e),
            Ok(h) => if !h && layout == BytePayloadLayout::U32LengthPrefixed {
                dense_page_fault(array)
            } else {
                all_rows_generic_fault(layout, array, h)
            },
        }
    }
}

proof fn lemma_all_rows_fault_persists(
    layout: BytePayloadLayout,
    array: &EncodedArray,
    has_nulls: bool,
    k: nat,
    n: nat,
)
    requires
        k <= n,
        all_rows_fault(layout, array, has_nulls, k) is Some,
    ensures
        all_rows_fault(layout, array, has_nulls, n) == all_rows_fault(layout, array, has_nulls, k),
    decreases n - k,
{
    if k < n {
        lemma_all_rows_fault_persists(layout, array, has_nulls, k, (n - 1) as nat);
    }
}

proof fn lemma_dense_fault_persists(data: Seq<u8>, nulls: Seq<bool>, k: nat, n: nat, value_len: int)
    requires
        k <= n,
        dense_rows_fault(data, nulls, k, value_len) is Some,
    ensures
        dense_rows_fault(data, nulls, n, value_len) == dense_rows_fault(data, nulls, k, value_len),
    decreases n - k,
{
    if k < n {
        lemma_dense_fault_persists(data, nulls, k, (n - 1) as nat, value_len);
    }
}

/// The value range of the row whose prefix sits at `pos`.
fn payload_range(layout: BytePayloadLayout, data: &[u8], pos: usize) -> (res: Result<
    (usize, usize),
    CoveError,
>)
    ensures
        match spec_payload_range(layout, data@, pos as int) {
            Ok((s, e)) => res == Ok::<(usize, usize), CoveError>((s as usize, e as usize)),
            Err(c) => fails_with(res, c),
        },
{
    match layout {
        BytePayloadLayout::U32LengthPrefixed => read_u32_len_prefixed_range(data, pos),
        BytePayloadLayout::Leb128LengthPrefixed => read_leb128_len_prefixed_range(data, pos),
    }
}

proof fn lemma_range_bounds(layout: BytePayloadLayout, b: Seq<u8>, pos: int)
    requires
        spec_payload_range(layout, b, pos) is Ok,
    ensures
        pos <= spec_payload_range(layout, b, pos)->Ok_0.0 <= spec_payload_range(layout, b, pos)->Ok_0.1
            <= b.len(),
{
    if layout == BytePayloadLayout::Leb128LengthPrefixed {
        crate::wire::lemma_leb_decode_len(b.subrange(pos, b.len() as int));
    }
}

proof fn lemma_kept_step(
    data: Seq<u8>,
    rs: Seq<(int, int)>,
    r: (int, int),
    nulls: Seq<bool>,
    k: nat,
)
    requires
        rs.len() == k,
    ensures
        forall|j: int|
            0 <= j <= k ==> #[trigger] kept_concat(data, rs.push(r), nulls, j as nat) == kept_concat(
                data,
                rs,
                nulls,
                j as nat,
            ),
{
    assert forall|j: int| 0 <= j <= k implies #[trigger] kept_concat(
        data,
        rs.push(r),
        nulls,
        j as nat,
    ) == kept_concat(data, rs, nulls, j as nat) by {
        lemma_kept_prefix(data, rs.push(r), rs, nulls, j as nat);
    }
}

impl BytePayloadPlan {
    /// Every row of `array` as Arrow offsets, values and validity (see
    /// [`all_rows_export_fault`] for when it fails).
    #[verifier::rlimit(40)]
    pub fn materialize_all_rows(&self, array: &EncodedArray<'_>) -> (res: Result<ByteRows, CoveError>)
        ensures
            match all_rows_export_fault(self.layout, array) {
                Some(e) => fails_with(res, e),
                None => (res matches Ok(rows) && holds_rows(
                    rows,
                    array.data@,
                    spec_payload_ranges(self.layout, array.data@, array.row_count as nat)->Ok_0,
                    page_nulls(array, spec_has_nulls(array)->Ok_0),
                )),
            },
    {
        if array.row_count > usize::MAX as u64 {
            return Err(CoveError::ArithOverflow);
        }
        let row_count = array.row_count as usize;
        let has_nulls = match array_has_nulls(array) {
            Ok(h) => h,
            Err(e) => return Err(e),
        };
        if !has_nulls && self.layout == BytePayloadLayout::U32LengthPrefixed {
            return self.materialize_dense(array, row_count);
        }
        if row_count == usize::MAX {
            return Err(CoveError::ArithOverflow);
        }
        if has_nulls && row_count > usize::MAX - 7 {
            return Err(CoveError::ArithOverflow);
        }
        let layout = self.layout;
        let data = array.data;
        let ghost nulls_all = page_nulls(array, has_nulls);
        let mut offsets: Vec<i32> = Vec::new();
        offsets.push(0);
        let mut values: Vec<u8> = Vec::new();
        let mut nulls: Vec<bool> = Vec::new();
        let mut pos: usize = 0;
        let mut k: usize = 0;
        let ghost mut rs: Seq<(int, int)> = Seq::empty();
        while k < row_count
            invariant
                k <= row_count,
                row_count == array.row_count,
                data@ == array.data@,
                layout == self.layout,
                spec_has_nulls(array) == Ok::<bool, ErrorCode>(has_nulls),
                !(has_nulls && row_count + 7 > usize::MAX),
                row_count + 1 <= usize::MAX,
                !(!has_nulls && layout == BytePayloadLayout::U32LengthPrefixed),
                nulls_all == page_nulls(array, has_nulls),
                spec_payload_ranges(layout, data@, k as nat) == Ok::<Seq<(int, int)>, ErrorCode>(rs),
                rs.len() == k,
                ranges_end(rs) == pos,
                all_rows_fault(layout, array, has_nulls, k as nat) is None,
                values@ == kept_concat(data@, rs, nulls_all, k as nat),
                offsets@.len() == k + 1,
                forall|j: int|
                    0 <= j <= k ==> #[trigger] offsets@[j] as int == kept_concat(
                        data@,
                        rs,
                        nulls_all,
                        j as nat,
                    ).len(),
                nulls@.len() == k,
                forall|j: int| 0 <= j < k ==> #[trigger] nulls@[j] == nulls_all[j],
            decreases row_count - k,
        {
            let (start, end) = match payload_range(layout, data, pos) {
                Ok(r) => r,
                Err(e) => {
                    proof {
                        assert(all_rows_fault(layout, array, has_nulls, (k + 1) as nat) is Some);
                        lemma_all_rows_fault_persists(
                            layout,
                            array,
                            has_nulls,
                            (k + 1) as nat,
                            row_count as nat,
                        );
                    }
                    return Err(e);
                },
            };
            proof {
                lemma_range_bounds(layout, data@, pos as int);
            }
            let ghost rs2 = rs.push((start as int, end as int));
            assert(spec_payload_ranges(layout, data@, (k + 1) as nat) == Ok::<
                Seq<(int, int)>,
                ErrorCode,
            >(rs2));
            let is_null = if has_nulls {
                match array.is_null(k as u64) {
                    Ok(b) => b,
                    Err(e) => {
                        proof {
                            assert(all_rows_fault(layout, array, has_nulls, (k + 1) as nat) is Some);
                            lemma_all_rows_fault_persists(
                                layout,
                                array,
                                has_nulls,
                                (k + 1) as nat,
                                row_count as nat,
                            );
                        }
                        return Err(e);
                    },
                }
            } else {
                false
            };
            assert(nulls_all[k as int] == is_null);
            proof {
                lemma_kept_step(data@, rs, (start as int, end as int), nulls_all, k as nat);
            }
            assert(kept_concat(data@, rs2, nulls_all, k as nat) == kept_concat(
                data@,
                rs,
                nulls_all,
                k as nat,
            ));
            assert(kept_concat(data@, rs2, nulls_all, (k + 1) as nat) == kept_concat(
                data@,
                rs2,
                nulls_all,
                k as nat,
            ) + if nulls_all[k as int] {
                Seq::<u8>::empty()
            } else {
                data@.subrange(start as int, end as int)
            });
            if !is_null {
                let slice = &data[start..end];
                append_bytes(&mut values, slice);
            }
            assert(values@ =~= kept_concat(data@, rs2, nulls_all, (k + 1) as nat));
            if values.len() > 0x7fff_ffff {
                proof {
                    assert(all_rows_fault(layout, array, has_nulls, (k + 1) as nat) is Some);
                    lemma_all_rows_fault_persists(
                        layout,
                        array,
                        has_nulls,
                        (k + 1) as nat,
                        row_count as nat,
                    );
                }
                return Err(CoveError::ArithOverflow);
            }
            offsets.push(values.len() as i32);
            nulls.push(is_null);
            pos = end;
            k = k + 1;
            proof {
                rs = rs2;
            }
        }
        if pos != data.len() {
            return Err(CoveError::PageCorrupt);
        }
        let validity = if has_nulls {
            validity_from_nulls(&nulls)
        } else {
            None
        };
        proof {
            assert(nulls@ =~= nulls_all);
            if !has_nulls {
                lemma_no_true(nulls_all);
            }
        }
        Ok((offsets, values, validity))
    }

    /// The shared length of every value of a small `u32`-prefixed page, if
    /// any (see [`spec_fixed_u32_len`]).
    pub fn fixed_u32_no_nulls_len(data: &[u8], row_count: usize) -> (res: Result<
        Option<usize>,
        CoveError,
    >)
        ensures
            match spec_fixed_u32_len(data@, row_count as nat) {
                Ok(Some(f)) => res == Ok::<Option<usize>, CoveError>(Some(f as usize)),
                Ok(None) => res == Ok::<Option<usize>, CoveError>(None),
                Err(e) => fails_with(res, e),
            },
    {
        if row_count == 0 {
            return Ok(None);
        }
        if data.len() < 4 {
            return Err(CoveError::OffsetRange);
        }
        let fixed_len = crate::wire::get_u32_le(data, 0) as usize;
        let stride = match fixed_len.checked_add(4) {
            Some(s) => s,
            None => return Err(CoveError::ArithOverflow),
        };
        let expected_len = match row_count.checked_mul(stride) {
            Some(v) => v,
            None => return Err(CoveError::ArithOverflow),
        };
        if expected_len != data.len() {
            return Ok(None);
        }
        let dlen = data.len();
        let mut row: usize = 1;
        while row < row_count
            invariant
                1 <= row <= row_count,
                dlen == data@.len(),
                dlen >= 4,
                stride == fixed_len + 4,
                fixed_len == spec_u32_at(data@, 0),
                row_count * stride == data@.len(),
                forall|k: int| 0 <= k < row ==> #[trigger] spec_u32_at(data@, k * stride) == fixed_len,
            decreases row_count - row,
        {
            assert(row * stride + 4 <= row_count * stride) by (nonlinear_arith)
                requires
                    row < row_count,
                    stride >= 4,
            ;
            let pos = row * stride;
            let len = crate::wire::get_u32_le(data, pos) as usize;
            if len != fixed_len {
                proof {
                    assert(row as int * (fixed_len as int + 4) == pos as int);
                    assert(spec_u32_at(data@, row as int * (fixed_len as int + 4)) != fixed_len as int);
                    assert(!all_same_length(data@, row_count as nat, fixed_len as int));
                }
                return Ok(None);
            }
            row = row + 1;
        }
        assert(all_same_length(data@, row_count as nat, fixed_len as int)) by {
            assert(spec_u32_at(data@, 0 * (fixed_len + 4)) == fixed_len);
        }
        Ok(Some(fixed_len))
    }

    /// Every row of a `u32`-prefixed page without nulls.
    fn materialize_dense(&self, array: &EncodedArray<'_>, row_count: usize) -> (res: Result<
        ByteRows,
        CoveError,
    >)
        requires
            row_count == array.row_count,
            spec_has_nulls(array) == Ok::<bool, ErrorCode>(false),
            self.layout == BytePayloadLayout::U32LengthPrefixed,
        ensures
            match dense_page_fault(array) {
                Some(e) => fails_with(res, e),
                None => (res matches Ok(rows) && holds_rows(
                    rows,
                    array.data@,
                    spec_payload_ranges(self.layout, array.data@, array.row_count as nat)->Ok_0,
                    page_nulls(array, false),
                )),
            },
    {
        let data = array.data;
        if row_count <= 16 && data.len() <= 1024 {
            match Self::fixed_u32_no_nulls_len(data, row_count) {
                Ok(_) => {},
                Err(e) => return Err(e),
            }
        }
        let prefix_bytes = match row_count.checked_mul(4) {
            Some(p) => p,
            None => return Err(CoveError::ArithOverflow),
        };
        if prefix_bytes > data.len() {
            return Err(CoveError::OffsetRange);
        }
        let value_len = data.len() - prefix_bytes;
        if value_len > 0x7fff_ffff {
            return Err(CoveError::ArithOverflow);
        }
        let layout = self.layout;
        let ghost nulls_all = page_nulls(array, false);
        let mut offsets: Vec<i32> = Vec::new();
        offsets.push(0);
        let mut values: Vec<u8> = Vec::new();
        let mut pos: usize = 0;
        let mut k: usize = 0;
        let ghost mut rs: Seq<(int, int)> = Seq::empty();
        while k < row_count
            invariant
                k <= row_count,
                row_count == array.row_count,
                data@ == array.data@,
                layout == BytePayloadLayout::U32LengthPrefixed,
                dense_page_fault(array) == (match dense_rows_fault(
                    data@,
                    nulls_all,
                    row_count as nat,
                    value_len as int,
                ) {
                    Some(e) => Some(e),
                    None => if ranges_end(
                        spec_payload_ranges(
                            BytePayloadLayout::U32LengthPrefixed,
                            data@,
                            row_count as nat,
                        )->Ok_0,
                    ) != data@.len() {
                        Some(ErrorCode::PageCorrupt)
                    } else {
                        None
                    },
                }),
                value_len == data@.len() - row_count * 4,
                value_len <= i32::MAX,
                nulls_all == page_nulls(array, false),
                spec_payload_ranges(layout, data@, k as nat) == Ok::<Seq<(int, int)>, ErrorCode>(rs),
                rs.len() == k,
                ranges_end(rs) == pos,
                dense_rows_fault(data@, nulls_all, k as nat, value_len as int) is None,
                values@ == kept_concat(data@, rs, nulls_all, k as nat),
                values@.len() <= value_len,
                offsets@.len() == k + 1,
                forall|j: int|
                    0 <= j <= k ==> #[trigger] offsets@[j] as int == kept_concat(
                        data@,
                        rs,
                        nulls_all,
                        j as nat,
                    ).len(),
            decreases row_count - k,
        {
            let (start, end) = match read_u32_len_prefixed_range(data, pos) {
                Ok(r) => r,
                Err(_) => {
                    proof {
                        assert(dense_rows_fault(data@, nulls_all, (k + 1) as nat, value_len as int)
                            is Some);
                        lemma_dense_fault_persists(
                            data@,
                            nulls_all,
                            (k + 1) as nat,
                            row_count as nat,
                            value_len as int,
                        );
                    }
                    return Err(CoveError::OffsetRange);
                },
            };
            proof {
                lemma_range_bounds(layout, data@, pos as int);
            }
            let ghost rs2 = rs.push((start as int, end as int));
            assert(spec_payload_ranges(layout, data@, (k + 1) as nat) == Ok::<
                Seq<(int, int)>,
                ErrorCode,
            >(rs2));
            assert(!nulls_all[k as int]);
            proof {
                lemma_kept_step(data@, rs, (start as int, end as int), nulls_all, k as nat);
            }
            assert(kept_concat(data@, rs2, nulls_all, k as nat) == kept_concat(
                data@,
                rs,
                nulls_all,
                k as nat,
            ));
            assert(kept_concat(data@, rs2, nulls_all, (k + 1) as nat) == kept_concat(
                data@,
                rs2,
                nulls_all,
                k as nat,
            ) + data@.subrange(start as int, end as int));
            let len = end - start;
            if len > value_len - values.len() {
                proof {
                    assert(kept_concat(data@, rs2, nulls_all, (k + 1) as nat).len() == values@.len()
                        + len);
                    assert(dense_rows_fault(data@, nulls_all, (k + 1) as nat, value_len as int)
                        is Some);
                    lemma_dense_fault_persists(
                        data@,
                        nulls_all,
                        (k + 1) as nat,
                        row_count as nat,
                        value_len as int,
                    );
                }
                return Err(CoveError::PageCorrupt);
            }
            let slice = &data[start..end];
            append_bytes(&mut values, slice);
            assert(values@ =~= kept_concat(data@, rs2, nulls_all, (k + 1) as nat));
            offsets.push(values.len() as i32);
            pos = end;
            k = k + 1;
            proof {
                rs = rs2;
            }
        }
        if pos != data.len() {
            return Err(CoveError::PageCorrupt);
        }
        proof {
            lemma_no_true(nulls_all);
        }
        Ok((offsets, values, None))
    }
}

// ---------------------------------------------------------------------------
// Selected rows
// ---------------------------------------------------------------------------

/// The value ranges of the visited rows.
pub open spec fn picked_ranges(rs: Seq<(int, int)>, rows: Seq<int>) -> Seq<(int, int)> {
    Seq::new(rows.len(), |k: int| rs[rows[k]])
}

/// Every range lies inside the page, start before end.
pub open spec fn ranges_inside(rs: Seq<(int, int)>, len: int) -> bool {
    forall|k: int| 0 <= k < rs.len() ==> 0 <= (#[trigger] rs[k]).0 <= rs[k].1 <= len
}

/// Every range of a page split lies inside the page.
pub(crate) proof fn lemma_ranges_inside_pub(layout: BytePayloadLayout, b: Seq<u8>, n: nat)
    requires
        spec_payload_ranges(layout, b, n) is Ok,
    ensures
        ranges_inside(spec_payload_ranges(layout, b, n)->Ok_0, b.len() as int),
        spec_payload_ranges(layout, b, n)->Ok_0.len() == n,
{
    lemma_ranges_inside(layout, b, n);
}

proof fn lemma_ranges_inside(layout: BytePayloadLayout, b: Seq<u8>, n: nat)
    requires
        spec_payload_ranges(layout, b, n) is Ok,
    ensures
        ranges_inside(spec_payload_ranges(layout, b, n)->Ok_0, b.len() as int),
        spec_payload_ranges(layout, b, n)->Ok_0.len() == n,
    decreases n,
{
    if n > 0 {
        lemma_ranges_inside(layout, b, (n - 1) as nat);
        let prev = spec_payload_ranges(layout, b, (n - 1) as nat)->Ok_0;
        let pos = if n - 1 == 0 {
            0
        } else {
            prev.last().1
        };
        lemma_range_bounds(layout, b, pos);
    }
}

/// The first failure among the first `n` visited rows when the selected
/// values are first measured: a listed row off the page (`OffsetRange`), a
/// null lookup that fails, or a total that does not fit in memory
/// (`ArithOverflow`).
pub open spec fn picked_fault(
    array: &EncodedArray,
    has_nulls: bool,
    rs: Seq<(int, int)>,
    rows: Seq<int>,
    n: nat,
) -> Option<ErrorCode>
    decreases n,
{
    if n == 0 {
        None
    } else {
        match picked_fault(array, has_nulls, rs, rows, (n - 1) as nat) {
            Some(e) => Some(e),
            None => if rows[n - 1] >= array.row_count {
                Some(ErrorCode::OffsetRange)
            } else {
                match spec_row_null(array, has_nulls, rows[n - 1]) {
                    Err(e) => Some(e),
                    Ok(_) => if kept_concat(
                        array.data@,
                        picked_ranges(rs, rows),
                        row_nulls(array, has_nulls, rows),
                        n,
                    ).len() > usize::MAX {
                        Some(ErrorCode::ArithOverflow)
                    } else {
                        None
                    },
                }
            },
        }
    }
}

/// The first failure of exporting the visited rows `rows` of a page whose
/// value ranges are `rs`: measuring them, then offsets that do not fit in
/// `i32`, then offsets or a validity that do not fit in memory.
pub open spec fn picked_export_fault(
    array: &EncodedArray,
    has_nulls: bool,
    rs: Seq<(int, int)>,
    rows: Seq<int>,
) -> Option<ErrorCode> {
    match picked_fault(array, has_nulls, rs, rows, rows.len()) {
        Some(e) => Some(e),
        None => {
            let nulls = row_nulls(array, has_nulls, rows);
            if kept_concat(array.data@, picked_ranges(rs, rows), nulls, rows.len()).len() > i32::MAX {
                Some(ErrorCode::ArithOverflow)
            } else if rows.len() + 1 > usize::MAX {
                Some(ErrorCode::ArithOverflow)
            } else if count_true(nulls) > 0 && rows.len() + 7 > usize::MAX {
                Some(ErrorCode::ArithOverflow)
            } else {
                None
            }
        },
    }
}

/// The first failure of exporting the rows a selection visits once the
/// whole page has been split into the ranges `rs`.
pub open spec fn selected_after_ranges_fault(
    array: &EncodedArray,
    selection: ArrowRowSelection,
    rs: Seq<(int, int)>,
) -> Option<ErrorCode> {
    match spec_visit_rows(selection, array.row_count) {
        Err(e) => Some(e),
        Ok(rows) => match spec_has_nulls(array) {
            Err(e) => Some(e),
            Ok(h) => picked_export_fault(array, h, rs, rows),
        },
    }
}

proof fn lemma_picked_fault_persists(
    array: &EncodedArray,
    has_nulls: bool,
    rs: Seq<(int, int)>,
    rows: Seq<int>,
    k: nat,
    n: nat,
)
    requires
        k <= n,
        picked_fault(array, has_nulls, rs, rows, k) is Some,
    ensures
        picked_fault(array, has_nulls, rs, rows, n) == picked_fault(array, has_nulls, rs, rows, k),
    decreases n - k,
{
    if k < n {
        lemma_picked_fault_persists(array, has_nulls, rs, rows, k, (n - 1) as nat);
    }
}

proof fn lemma_kept_len_step(data: Seq<u8>, rs: Seq<(int, int)>, nulls: Seq<bool>, k: nat)
    requires
        k < rs.len(),
        0 <= rs[k as int].0 <= rs[k as int].1 <= data.len(),
    ensures
        kept_concat(data, rs, nulls, k + 1).len() == kept_concat(data, rs, nulls, k).len() + if nulls[k as int] {
            0
        } else {
            rs[k as int].1 - rs[k as int].0
        },
{
    assert(kept_concat(data, rs, nulls, k + 1) == kept_concat(data, rs, nulls, k) + if nulls[k as int] {
        Seq::<u8>::empty()
    } else {
        data.subrange(rs[k as int].0, rs[k as int].1)
    });
}

proof fn lemma_count_true_step(s: Seq<bool>, k: int)
    requires
        0 <= k < s.len(),
    ensures
        count_true(s.take(k + 1)) == count_true(s.take(k)) + if s[k] {
            1nat
        } else {
            0nat
        },
{
    assert(s.take(k + 1).drop_last() =~= s.take(k));
}

impl BytePayloadPlan {
    /// The visited rows of a page already split into `ranges`, measured
    /// first and then copied (see [`selected_after_ranges_fault`]).
    #[verifier::rlimit(40)]
    fn materialize_selected(
        &self,
        array: &EncodedArray<'_>,
        selection: ArrowRowSelection<'_>,
        ranges: &Vec<(usize, usize)>,
    ) -> (res: Result<ByteRows, CoveError>)
        requires
            array.row_count <= usize::MAX,
            spec_payload_ranges(self.layout, array.data@, array.row_count as nat) is Ok,
            ranges@.len() == array.row_count,
            forall|k: int|
                0 <= k < ranges@.len() ==> (#[trigger] ranges@[k]).0 as int == spec_payload_ranges(
                    self.layout,
                    array.data@,
                    array.row_count as nat,
                )->Ok_0[k].0 && ranges@[k].1 as int == spec_payload_ranges(
                    self.layout,
                    array.data@,
                    array.row_count as nat,
                )->Ok_0[k].1,
        ensures
            ({
                let rs = spec_payload_ranges(self.layout, array.data@, array.row_count as nat)->Ok_0;
                match selected_after_ranges_fault(array, selection, rs) {
                    Some(e) => fails_with(res, e),
                    None => (res matches Ok(out) && holds_rows(
                        out,
                        array.data@,
                        picked_ranges(rs, spec_visit_rows(selection, array.row_count)->Ok_0),
                        row_nulls(
                            array,
                            spec_has_nulls(array)->Ok_0,
                            spec_visit_rows(selection, array.row_count)->Ok_0,
                        ),
                    )),
                }
            }),
    {
        let ghost rs = spec_payload_ranges(self.layout, array.data@, array.row_count as nat)->Ok_0;
        proof {
            lemma_ranges_inside(self.layout, array.data@, array.row_count as nat);
        }
        let list = match selection.visit_list(array.row_count) {
            Ok(l) => l,
            Err(e) => return Err(e),
        };
        let ghost rows = spec_visit_rows(selection, array.row_count)->Ok_0;
        let has_nulls = match array_has_nulls(array) {
            Ok(h) => h,
            Err(e) => return Err(e),
        };
        let ghost nulls_all = row_nulls(array, has_nulls, rows);
        let ghost picked = picked_ranges(rs, rows);
        let data = array.data;
        let n = list.len();
        let mut total: usize = 0;
        let mut any_null = false;
        let mut nulls: Vec<bool> = Vec::new();
        let mut k: usize = 0;
        while k < n
            invariant
                n == list@.len(),
                n == rows.len(),
                k <= n,
                forall|j: int| 0 <= j < n ==> #[trigger] list@[j] as int == rows[j],
                data@ == array.data@,
                array.row_count <= usize::MAX,
                ranges@.len() == array.row_count,
                rs.len() == array.row_count,
                ranges_inside(rs, data@.len() as int),
                forall|j: int|
                    0 <= j < ranges@.len() ==> (#[trigger] ranges@[j]).0 as int == rs[j].0
                        && ranges@[j].1 as int == rs[j].1,
                picked == picked_ranges(rs, rows),
                rs == spec_payload_ranges(self.layout, array.data@, array.row_count as nat)->Ok_0,
                nulls_all == row_nulls(array, has_nulls, rows),
                nulls_all.len() == n,
                spec_has_nulls(array) == Ok::<bool, ErrorCode>(has_nulls),
                spec_visit_rows(selection, array.row_count) == Ok::<Seq<int>, ErrorCode>(rows),
                forall|j: int| 0 <= j < k ==> 0 <= #[trigger] rows[j] < array.row_count,
                picked_fault(array, has_nulls, rs, rows, k as nat) is None,
                total == kept_concat(data@, picked, nulls_all, k as nat).len(),
                nulls@ == nulls_all.take(k as int),
                any_null == (count_true(nulls_all.take(k as int)) > 0),
            decreases n - k,
        {
            let row = list[k];
            if row as u64 >= array.row_count {
                proof {
                    assert(picked_fault(array, has_nulls, rs, rows, (k + 1) as nat) is Some);
                    lemma_picked_fault_persists(array, has_nulls, rs, rows, (k + 1) as nat, n as nat);
                }
                return Err(CoveError::OffsetRange);
            }
            let is_null = if has_nulls {
                match array.is_null(row as u64) {
                    Ok(b) => b,
                    Err(e) => {
                        proof {
                            assert(picked_fault(array, has_nulls, rs, rows, (k + 1) as nat) is Some);
                            lemma_picked_fault_persists(
                                array,
                                has_nulls,
                                rs,
                                rows,
                                (k + 1) as nat,
                                n as nat,
                            );
                        }
                        return Err(e);
                    },
                }
            } else {
                false
            };
            assert(nulls_all[k as int] == is_null);
            let (start, end) = ranges[row];
            assert(picked[k as int] == rs[row as int]);
            proof {
                lemma_kept_len_step(data@, picked, nulls_all, k as nat);
                lemma_count_true_step(nulls_all, k as int);
            }
            if !is_null {
                total = match total.checked_add(end - start) {
                    Some(t) => t,
                    None => {
                        proof {
                            assert(picked_fault(array, has_nulls, rs, rows, (k + 1) as nat) is Some);
                            lemma_picked_fault_persists(
                                array,
                                has_nulls,
                                rs,
                                rows,
                                (k + 1) as nat,
                                n as nat,
                            );
                        }
                        return Err(CoveError::ArithOverflow);
                    },
                };
            }
            if is_null {
                any_null = true;
            }
            nulls.push(is_null);
            assert(nulls@ =~= nulls_all.take(k + 1));
            k = k + 1;
        }
        assert(nulls_all.take(n as int) =~= nulls_all);
        if total > 0x7fff_ffff {
            return Err(CoveError::ArithOverflow);
        }
        if n == usize::MAX {
            return Err(CoveError::ArithOverflow);
        }
        if any_null && n > usize::MAX - 7 {
            return Err(CoveError::ArithOverflow);
        }
        let mut offsets: Vec<i32> = Vec::new();
        offsets.push(0);
        let mut values: Vec<u8> = Vec::new();
        let mut k: usize = 0;
        while k < n
            invariant
                n == list@.len(),
                n == rows.len(),
                k <= n,
                forall|j: int| 0 <= j < n ==> #[trigger] list@[j] as int == rows[j],
                forall|j: int| 0 <= j < n ==> 0 <= #[trigger] rows[j] < array.row_count,
                data@ == array.data@,
                ranges@.len() == array.row_count,
                rs.len() == array.row_count,
                ranges_inside(rs, data@.len() as int),
                forall|j: int|
                    0 <= j < ranges@.len() ==> (#[trigger] ranges@[j]).0 as int == rs[j].0
                        && ranges@[j].1 as int == rs[j].1,
                picked == picked_ranges(rs, rows),
                nulls@ == nulls_all,
                nulls_all.len() == n,
                kept_concat(data@, picked, nulls_all, n as nat).len() <= i32::MAX,
                values@ == kept_concat(data@, picked, nulls_all, k as nat),
                offsets@.len() == k + 1,
                forall|j: int|
                    0 <= j <= k ==> #[trigger] offsets@[j] as int == kept_concat(
                        data@,
                        picked,
                        nulls_all,
                        j as nat,
                    ).len(),
            decreases n - k,
        {
            let row = list[k];
            let (start, end) = ranges[row];
            assert(picked[k as int] == rs[row as int]);
            proof {
                lemma_kept_len_step(data@, picked, nulls_all, k as nat);
                lemma_kept_mono(data@, picked, nulls_all, (k + 1) as nat, n as nat);
            }
            assert(kept_concat(data@, picked, nulls_all, (k + 1) as nat) == kept_concat(
                data@,
                picked,
                nulls_all,
                k as nat,
            ) + if nulls_all[k as int] {
                Seq::<u8>::empty()
            } else {
                data@.subrange(start as int, end as int)
            });
            if !nulls[k] {
                let slice = &data[start..end];
                append_bytes(&mut values, slice);
            }
            assert(values@ =~= kept_concat(data@, picked, nulls_all, (k + 1) as nat));
            offsets.push(values.len() as i32);
            k = k + 1;
        }
        let validity = if any_null {
            validity_from_nulls(&nulls)
        } else {
            proof {
                assert(count_true(nulls_all) == 0);
            }
            None
        };
        Ok((offsets, values, validity))
    }
}

proof fn lemma_kept_mono(data: Seq<u8>, rs: Seq<(int, int)>, nulls: Seq<bool>, k: nat, n: nat)
    requires
        k <= n,
    ensures
        kept_concat(data, rs, nulls, k).len() <= kept_concat(data, rs, nulls, n).len(),
    decreases n - k,
{
    if k < n {
        lemma_kept_mono(data, rs, nulls, k, (n - 1) as nat);
    }
}

// ---------------------------------------------------------------------------
// Selected rows in page order
// ---------------------------------------------------------------------------

/// Whether a row list is strictly increasing.
pub open spec fn strictly_increasing(rows: Seq<u32>) -> bool {
    forall|i: int, j: int| 0 <= i < j < rows.len() ==> rows[i] < rows[j]
}

/// Whether a non-empty selection can be exported in one pass over the
/// page: a bitset, or a strictly increasing row list.
pub open spec fn forward_applies(selection: ArrowRowSelection) -> bool {
    match selection {
        ArrowRowSelection::Bitset { .. } => true,
        ArrowRowSelection::Rows(rows) => strictly_increasing(rows@),
        ArrowRowSelection::All => false,
    }
}

/// The first failure among the first `n` visited rows of the one-pass
/// export of a `u32`-prefixed page: a range up to the row that cannot be
/// read, a null lookup that fails, or offsets that outgrow `i32`.
pub open spec fn forward_fault(array: &EncodedArray, has_nulls: bool, rows: Seq<int>, n: nat) -> Option<
    ErrorCode,
>
    decreases n,
{
    if n == 0 {
        None
    } else {
        match forward_fault(array, has_nulls, rows, (n - 1) as nat) {
            Some(e) => Some(e),
            None => match spec_payload_ranges(
                BytePayloadLayout::U32LengthPrefixed,
                array.data@,
                (rows[n - 1] + 1) as nat,
            ) {
                Err(e) => Some(e),
                Ok(rs) => match spec_row_null(array, has_nulls, rows[n - 1]) {
                    Err(e) => Some(e),
                    Ok(_) => if kept_concat(
                        array.data@,
                        picked_ranges(rs, rows),
                        row_nulls(array, has_nulls, rows),
                        n,
                    ).len() > i32::MAX {
                        Some(ErrorCode::ArithOverflow)
                    } else {
                        None
                    },
                },
            },
        }
    }
}

/// The first failure of the one-pass export of the non-empty ascending
/// visited rows `rows`: the last row must lie on the page, the offsets and
/// validity must fit in memory, every row must export, and a pass that
/// reaches the last row of the page must end exactly at its end.
pub open spec fn forward_export_fault(array: &EncodedArray, rows: Seq<int>) -> Option<ErrorCode> {
    let last = rows.last();
    if last >= array.row_count {
        Some(ErrorCode::OffsetRange)
    } else {
        match spec_has_nulls(array) {
            Err(e) => Some(e),
            Ok(h) => if rows.len() + 1 > usize::MAX {
                Some(ErrorCode::ArithOverflow)
            } else if h && rows.len() + 7 > usize::MAX {
                Some(ErrorCode::ArithOverflow)
            } else {
                match forward_fault(array, h, rows, rows.len()) {
                    Some(e) => Some(e),
                    None => if array.row_count > usize::MAX {
                        Some(ErrorCode::ArithOverflow)
                    } else if last + 1 == array.row_count && ranges_end(
                        spec_payload_ranges(
                            BytePayloadLayout::U32LengthPrefixed,
                            array.data@,
                            (last + 1) as nat,
                        )->Ok_0,
                    ) != array.data@.len() {
                        Some(ErrorCode::PageCorrupt)
                    } else {
                        None
                    },
                }
            },
        }
    }
}

/// What the one-pass export gives: nothing for other layouts or unsorted
/// row lists, empty rows for an empty selection, else the visited rows.
pub open spec fn forward_outcome(
    layout: BytePayloadLayout,
    array: &EncodedArray,
    selection: ArrowRowSelection,
    res: Result<Option<ByteRows>, CoveError>,
) -> bool {
    if layout != BytePayloadLayout::U32LengthPrefixed {
        res == Ok::<Option<ByteRows>, CoveError>(None)
    } else {
        match spec_visit_rows(selection, array.row_count) {
            Err(e) => fails_with(res, e),
            Ok(rows) => if rows.len() == 0 {
                res matches Ok(Some(out)) && holds_rows(out, array.data@, Seq::empty(), Seq::empty())
            } else if !forward_applies(selection) {
                res == Ok::<Option<ByteRows>, CoveError>(None)
            } else {
                match forward_export_fault(array, rows) {
                    Some(e) => fails_with(res, e),
                    None => (res matches Ok(Some(out)) && holds_rows(
                        out,
                        array.data@,
                        picked_ranges(
                            spec_payload_ranges(
                                layout,
                                array.data@,
                                (rows.last() + 1) as nat,
                            )->Ok_0,
                            rows,
                        ),
                        row_nulls(array, spec_has_nulls(array)->Ok_0, rows),
                    )),
                }
            },
        }
    }
}

proof fn lemma_forward_fault_persists(
    array: &EncodedArray,
    has_nulls: bool,
    rows: Seq<int>,
    k: nat,
    n: nat,
)
    requires
        k <= n,
        forward_fault(array, has_nulls, rows, k) is Some,
    ensures
        forward_fault(array, has_nulls, rows, n) == forward_fault(array, has_nulls, rows, k),
    decreases n - k,
{
    if k < n {
        lemma_forward_fault_persists(array, has_nulls, rows, k, (n - 1) as nat);
    }
}

impl BytePayloadPlan {
    /// The rows a non-`All` selection visits, in one pass over a
    /// `u32`-prefixed page that stops at the last selected row (see
    /// [`forward_outcome`]).
    #[verifier::rlimit(60)]
    fn materialize_selected_forward_u32(
        &self,
        array: &EncodedArray<'_>,
        selection: ArrowRowSelection<'_>,
    ) -> (res: Result<Option<ByteRows>, CoveError>)
        requires
            !(selection is All),
        ensures
            forward_outcome(self.layout, array, selection, res),
    {
        if self.layout != BytePayloadLayout::U32LengthPrefixed {
            return Ok(None);
        }
        let list = match selection.visit_list(array.row_count) {
            Ok(l) => l,
            Err(e) => return Err(e),
        };
        let ghost rows = spec_visit_rows(selection, array.row_count)->Ok_0;
        let n = list.len();
        if n == 0 {
            let mut offsets: Vec<i32> = Vec::new();
            offsets.push(0);
            let out: ByteRows = (offsets, Vec::new(), None);
            proof {
                assert(count_true(Seq::<bool>::empty()) == 0);
            }
            return Ok(Some(out));
        }
        proof {
            lemma_selected_rows_on_page(selection, array.row_count);
            if let ArrowRowSelection::Bitset { words, len } = selection {
                lemma_bitset_selection_visits_marked_rows(words@, len as nat);
            }
        }
        match selection {
            ArrowRowSelection::Rows(listed) => {
                let mut i: usize = 1;
                while i < n
                    invariant
                        selection == ArrowRowSelection::Rows(listed),
                        rows == crate::selection::listed_rows(listed@),
                        1 <= i <= n,
                        n == list@.len(),
                        n == rows.len(),
                        forall|j: int| 0 <= j < n ==> #[trigger] list@[j] as int == rows[j],
                        forall|a: int, b: int| 0 <= a < b < i ==> rows[a] < rows[b],
                    decreases n - i,
                {
                    if list[i - 1] >= list[i] {
                        proof {
                            assert(rows[i - 1] >= rows[i as int]);
                            assert(listed@[i - 1] >= listed@[i as int]);
                            assert(!strictly_increasing(listed@));
                        }
                        return Ok(None);
                    }
                    i = i + 1;
                }
                proof {
                    assert forall|a: int, b: int| 0 <= a < b < listed@.len() implies listed@[a]
                        < listed@[b] by {
                        assert(rows[a] < rows[b]);
                    }
                }
            },
            _ => {},
        }
        assert(forall|a: int, b: int| 0 <= a < b < n ==> rows[a] < rows[b]);
        let last = list[n - 1];
        if last as u64 >= array.row_count {
            return Err(CoveError::OffsetRange);
        }
        assert(forall|j: int| 0 <= j < n ==> 0 <= #[trigger] rows[j] < array.row_count) by {
            assert forall|j: int| 0 <= j < n implies 0 <= #[trigger] rows[j] < array.row_count by {
                if j < n - 1 {
                    assert(rows[j] < rows[n - 1]);
                }
                assert(list@[j] as int == rows[j]);
            }
        }
        let has_nulls = match array_has_nulls(array) {
            Ok(h) => h,
            Err(e) => return Err(e),
        };
        if n == usize::MAX {
            return Err(CoveError::ArithOverflow);
        }
        if has_nulls && n > usize::MAX - 7 {
            return Err(CoveError::ArithOverflow);
        }
        let ghost nulls_all = row_nulls(array, has_nulls, rows);
        let data = array.data;
        let layout = self.layout;
        let mut offsets: Vec<i32> = Vec::new();
        offsets.push(0);
        let mut values: Vec<u8> = Vec::new();
        let mut nulls: Vec<bool> = Vec::new();
        let mut pos: usize = 0;
        let mut p: u64 = 0;
        let ghost mut rs: Seq<(int, int)> = Seq::empty();
        let mut k: usize = 0;
        while k < n
            invariant
                n == list@.len(),
                n == rows.len(),
                n > 0,
                k <= n,
                forall|j: int| 0 <= j < n ==> #[trigger] list@[j] as int == rows[j],
                forall|a: int, b: int| 0 <= a < b < n ==> rows[a] < rows[b],
                forall|j: int| 0 <= j < n ==> 0 <= #[trigger] rows[j] < array.row_count,
                data@ == array.data@,
                layout == BytePayloadLayout::U32LengthPrefixed,
                self.layout == layout,
                spec_visit_rows(selection, array.row_count) == Ok::<Seq<int>, ErrorCode>(rows),
                forward_applies(selection),
                spec_has_nulls(array) == Ok::<bool, ErrorCode>(has_nulls),
                !(has_nulls && n + 7 > usize::MAX),
                n + 1 <= usize::MAX,
                last as int == rows[n - 1],
                nulls_all == row_nulls(array, has_nulls, rows),
                nulls_all.len() == n,
                k == 0 ==> p == 0,
                k > 0 ==> p == rows[k - 1] + 1,
                spec_payload_ranges(layout, data@, p as nat) == Ok::<Seq<(int, int)>, ErrorCode>(rs),
                rs.len() == p,
                ranges_end(rs) == pos,
                ranges_inside(rs, data@.len() as int),
                forward_fault(array, has_nulls, rows, k as nat) is None,
                values@ == kept_concat(data@, picked_ranges(rs, rows), nulls_all, k as nat),
                offsets@.len() == k + 1,
                forall|j: int|
                    0 <= j <= k ==> #[trigger] offsets@[j] as int == kept_concat(
                        data@,
                        picked_ranges(rs, rows),
                        nulls_all,
                        j as nat,
                    ).len(),
                nulls@.len() == k,
                forall|j: int| 0 <= j < k ==> #[trigger] nulls@[j] == nulls_all[j],
            decreases n - k,
        {
            let target = list[k];
            let ghost rs_before = rs;
            while p < target as u64
                invariant
                    p <= target,
                    target as int == rows[k as int],
                    target < array.row_count,
                    data@ == array.data@,
                    layout == BytePayloadLayout::U32LengthPrefixed,
                    spec_payload_ranges(layout, data@, p as nat) == Ok::<Seq<(int, int)>, ErrorCode>(
                        rs,
                    ),
                    rs.len() == p,
                    ranges_end(rs) == pos,
                    ranges_inside(rs, data@.len() as int),
                    forall|j: int| 0 <= j < rs_before.len() ==> #[trigger] rs[j] == rs_before[j],
                    rs_before.len() <= rs.len(),
                    forward_fault(array, has_nulls, rows, k as nat) is None,
                    k < n,
                    n == rows.len(),
                    self.layout == layout,
                    spec_visit_rows(selection, array.row_count) == Ok::<Seq<int>, ErrorCode>(rows),
                    forward_applies(selection),
                    spec_has_nulls(array) == Ok::<bool, ErrorCode>(has_nulls),
                    !(has_nulls && n + 7 > usize::MAX),
                    n + 1 <= usize::MAX,
                    last as int == rows[n - 1],
                    forall|j: int| 0 <= j < n ==> 0 <= #[trigger] rows[j] < array.row_count,
                decreases target - p,
            {
                let (_start, end) = match read_u32_len_prefixed_range(data, pos) {
                    Ok(r) => r,
                    Err(e) => {
                        proof {
                            lemma_payload_ranges_err_persists(
                                layout,
                                data@,
                                (p + 1) as nat,
                                (rows[k as int] + 1) as nat,
                            );
                            assert(forward_fault(array, has_nulls, rows, (k + 1) as nat) is Some);
                            lemma_forward_fault_persists(
                                array,
                                has_nulls,
                                rows,
                                (k + 1) as nat,
                                n as nat,
                            );
                        }
                        return Err(e);
                    },
                };
                proof {
                    lemma_range_bounds(layout, data@, pos as int);
                    let rs2 = rs.push((_start as int, end as int));
                    assert(spec_payload_ranges(layout, data@, (p + 1) as nat) == Ok::<
                        Seq<(int, int)>,
                        ErrorCode,
                    >(rs2));
                    rs = rs2;
                }
                pos = end;
                p = p + 1;
            }
            let (start, end) = match read_u32_len_prefixed_range(data, pos) {
                Ok(r) => r,
                Err(e) => {
                    proof {
                        assert(p == rows[k as int]);
                        assert(forward_fault(array, has_nulls, rows, (k + 1) as nat) is Some);
                        lemma_forward_fault_persists(array, has_nulls, rows, (k + 1) as nat, n as nat);
                    }
                    return Err(e);
                },
            };
            proof {
                lemma_range_bounds(layout, data@, pos as int);
            }
            let ghost rs2 = rs.push((start as int, end as int));
            assert(spec_payload_ranges(layout, data@, (p + 1) as nat) == Ok::<
                Seq<(int, int)>,
                ErrorCode,
            >(rs2));
            let is_null = if has_nulls {
                match array.is_null(target as u64) {
                    Ok(b) => b,
                    Err(e) => {
                        proof {
                            assert(forward_fault(array, has_nulls, rows, (k + 1) as nat) is Some);
                            lemma_forward_fault_persists(
                                array,
                                has_nulls,
                                rows,
                                (k + 1) as nat,
                                n as nat,
                            );
                        }
                        return Err(e);
                    },
                }
            } else {
                false
            };
            assert(nulls_all[k as int] == is_null);
            proof {
                assert forall|j: int| 0 <= j < k implies #[trigger] picked_ranges(rs2, rows)[j]
                    == picked_ranges(rs_before, rows)[j] by {
                    assert(rows[j] < rows[k as int]);
                    if k > 0 && j < k - 1 {
                        assert(rows[j] < rows[k - 1]);
                    }
                }
                assert forall|j: int| 0 <= j <= k implies #[trigger] kept_concat(
                    data@,
                    picked_ranges(rs2, rows),
                    nulls_all,
                    j as nat,
                ) == kept_concat(data@, picked_ranges(rs_before, rows), nulls_all, j as nat) by {
                    lemma_kept_prefix(
                        data@,
                        picked_ranges(rs2, rows),
                        picked_ranges(rs_before, rows),
                        nulls_all,
                        j as nat,
                    );
                }
                assert(picked_ranges(rs2, rows)[k as int] == (start as int, end as int));
            }
            assert(kept_concat(data@, picked_ranges(rs2, rows), nulls_all, (k + 1) as nat)
                == kept_concat(data@, picked_ranges(rs2, rows), nulls_all, k as nat) + if nulls_all[k as int] {
                Seq::<u8>::empty()
            } else {
                data@.subrange(start as int, end as int)
            });
            if !is_null {
                let slice = &data[start..end];
                append_bytes(&mut values, slice);
            }
            assert(values@ =~= kept_concat(data@, picked_ranges(rs2, rows), nulls_all, (k + 1) as nat));
            if values.len() > 0x7fff_ffff {
                proof {
                    assert(forward_fault(array, has_nulls, rows, (k + 1) as nat) is Some);
                    lemma_forward_fault_persists(array, has_nulls, rows, (k + 1) as nat, n as nat);
                }
                return Err(CoveError::ArithOverflow);
            }
            offsets.push(values.len() as i32);
            nulls.push(is_null);
            pos = end;
            p = p + 1;
            k = k + 1;
            proof {
                rs = rs2;
                lemma_ranges_inside(layout, data@, p as nat);
            }
        }
        if array.row_count > usize::MAX as u64 {
            return Err(CoveError::ArithOverflow);
        }
        if last as u64 + 1 == array.row_count && pos != data.len() {
            return Err(CoveError::PageCorrupt);
        }
        let validity = if has_nulls {
            validity_from_nulls(&nulls)
        } else {
            None
        };
        proof {
            assert(nulls@ =~= nulls_all);
            if !has_nulls {
                lemma_no_true(nulls_all);
            }
        }
        Ok(Some((offsets, values, validity)))
    }
}

// ---------------------------------------------------------------------------
// Any selection
// ---------------------------------------------------------------------------

/// Whether the one-pass export settles a non-`All` selection: on a
/// `u32`-prefixed page, a selection that cannot be walked, an empty one, a
/// bitset or a strictly increasing row list.
pub open spec fn forward_decides(
    layout: BytePayloadLayout,
    array: &EncodedArray,
    selection: ArrowRowSelection,
) -> bool {
    layout == BytePayloadLayout::U32LengthPrefixed && match spec_visit_rows(
        selection,
        array.row_count,
    ) {
        Err(_) => true,
        Ok(rows) => rows.len() == 0 || forward_applies(selection),
    }
}

/// Whether `res` is what exporting the rows `selection` visits gives: every
/// row in one pass, a one-pass walk when it settles the selection, else the
/// whole page split into ranges first and the visited rows measured, then
/// copied.
pub open spec fn materialize_outcome(
    layout: BytePayloadLayout,
    array: &EncodedArray,
    selection: ArrowRowSelection,
    res: Result<ByteRows, CoveError>,
) -> bool {
    let data = array.data@;
    if selection is All {
        match all_rows_export_fault(layout, array) {
            Some(e) => fails_with(res, e),
            None => (res matches Ok(out) && holds_rows(
                out,
                data,
                spec_payload_ranges(layout, data, array.row_count as nat)->Ok_0,
                page_nulls(array, spec_has_nulls(array)->Ok_0),
            )),
        }
    } else if forward_decides(layout, array, selection) {
        match spec_visit_rows(selection, array.row_count) {
            Err(e) => fails_with(res, e),
            Ok(rows) => if rows.len() == 0 {
                res matches Ok(out) && holds_rows(out, data, Seq::empty(), Seq::empty())
            } else {
                match forward_export_fault(array, rows) {
                    Some(e) => fails_with(res, e),
                    None => (res matches Ok(out) && holds_rows(
                        out,
                        data,
                        picked_ranges(
                            spec_payload_ranges(layout, data, (rows.last() + 1) as nat)->Ok_0,
                            rows,
                        ),
                        row_nulls(array, spec_has_nulls(array)->Ok_0, rows),
                    )),
                }
            },
        }
    } else if array.row_count > usize::MAX {
        fails_with(res, ErrorCode::ArithOverflow)
    } else {
        match spec_payload_ranges(layout, data, array.row_count as nat) {
            Err(e) => fails_with(res, e),
            Ok(rs) => if ranges_end(rs) != data.len() {
                fails_with(res, ErrorCode::PageCorrupt)
            } else {
                match selected_after_ranges_fault(array, selection, rs) {
                    Some(e) => fails_with(res, e),
                    None => (res matches Ok(out) && holds_rows(
                        out,
                        data,
                        picked_ranges(rs, spec_visit_rows(selection, array.row_count)->Ok_0),
                        row_nulls(
                            array,
                            spec_has_nulls(array)->Ok_0,
                            spec_visit_rows(selection, array.row_count)->Ok_0,
                        ),
                    )),
                }
            },
        }
    }
}

/// The offsets that rows `rs` with null flags `nulls` get.
pub open spec fn kept_offsets(data: Seq<u8>, rs: Seq<(int, int)>, nulls: Seq<bool>) -> Seq<i32> {
    Seq::new(nulls.len() + 1, |k: int| kept_concat(data, rs, nulls, k as nat).len() as i32)
}

impl BytePayloadPlan {
    /// The rows `selection` visits as Arrow offsets, values and validity
    /// (see [`materialize_outcome`]).
    pub fn materialize(&self, array: &EncodedArray<'_>, selection: ArrowRowSelection<'_>) -> (res:
        Result<ByteRows, CoveError>)
        ensures
            materialize_outcome(self.layout, array, selection, res),
    {
        if let ArrowRowSelection::All = selection {
            return self.materialize_all_rows(array);
        }
        match self.materialize_selected_forward_u32(array, selection) {
            Err(e) => return Err(e),
            Ok(Some(out)) => return Ok(out),
            Ok(None) => {},
        }
        let ranges = match self.parse_ranges(array) {
            Ok(r) => r,
            Err(e) => return Err(e),
        };
        proof {
            lemma_ranges_inside(self.layout, array.data@, array.row_count as nat);
        }
        self.materialize_selected(array, selection, &ranges)
    }

    /// The rows `selection` visits, for a UTF-8 array: every value is
    /// checked unless the policy trusts a page-level proof. Whole pages
    /// without nulls in the `u32` layout take the dense path.
    pub fn materialize_utf8(
        &self,
        array: &EncodedArray<'_>,
        selection: ArrowRowSelection<'_>,
        policy: ArrowStringValidationPolicy,
    ) -> (res: Result<ByteRows, CoveError>)
        ensures
            array.row_count > usize::MAX ==> fails_with(res, ErrorCode::ArithOverflow),
            array.row_count <= usize::MAX ==> match spec_has_nulls(array) {
                Err(e) => fails_with(res, e),
                Ok(h) => {
                    let strict = policy != ArrowStringValidationPolicy::TrustedPageProof;
                    let data = array.data@;
                    if selection is All && !h && self.layout
                        == BytePayloadLayout::U32LengthPrefixed {
                        let rs = spec_payload_ranges(self.layout, data, array.row_count as nat)->Ok_0;
                        let nulls = page_nulls(array, false);
                        match dense_page_fault(array) {
                            Some(e) => fails_with(res, e),
                            None => if strict && spec_validate_utf8_offsets(
                                kept_offsets(data, rs, nulls),
                                kept_concat(data, rs, nulls, nulls.len()),
                            ) is Err {
                                fails_with(
                                    res,
                                    spec_validate_utf8_offsets(
                                        kept_offsets(data, rs, nulls),
                                        kept_concat(data, rs, nulls, nulls.len()),
                                    )->Err_0,
                                )
                            } else {
                                res matches Ok(out) && holds_rows(out, data, rs, nulls)
                            },
                        }
                    } else {
                        exists|r: Result<ByteRows, CoveError>|
                            #[trigger] materialize_outcome(self.layout, array, selection, r) && (
                            match r {
                                Err(e) => res == Err::<ByteRows, CoveError>(e),
                                Ok(out) => if strict && spec_validate_utf8_offsets(out.0@, out.1@)
                                    is Err {
                                    fails_with(res, spec_validate_utf8_offsets(out.0@, out.1@)->Err_0)
                                } else {
                                    res == Ok::<ByteRows, CoveError>(out)
                                },
                            })
                    }
                },
            },
    {
        if array.row_count > usize::MAX as u64 {
            return Err(CoveError::ArithOverflow);
        }
        let row_count = array.row_count as usize;
        let has_nulls = match array_has_nulls(array) {
            Ok(h) => h,
            Err(e) => return Err(e),
        };
        let strict = match policy {
            ArrowStringValidationPolicy::TrustedPageProof => false,
            _ => true,
        };
        if let ArrowRowSelection::All = selection {
            if !has_nulls && self.layout == BytePayloadLayout::U32LengthPrefixed {
                let out = match self.materialize_dense(array, row_count) {
                    Ok(o) => o,
                    Err(e) => return Err(e),
                };
                if strict {
                    proof {
                        let rs = spec_payload_ranges(
                            self.layout,
                            array.data@,
                            array.row_count as nat,
                        )->Ok_0;
                        let nulls = page_nulls(array, false);
                        assert(out.0@ =~= kept_offsets(array.data@, rs, nulls));
                    }
                    match validate_utf8_offsets_slice(out.0.as_slice(), out.1.as_slice()) {
                        Ok(()) => {},
                        Err(e) => return Err(e),
                    }
                }
                return Ok(out);
            }
        }
        let r = self.materialize(array, selection);
        match r {
            Err(e) => Err(e),
            Ok(out) => {
                if strict {
                    match validate_utf8_offsets_slice(out.0.as_slice(), out.1.as_slice()) {
                        Ok(()) => {},
                        Err(e) => return Err(e),
                    }
                }
                Ok(out)
            },
        }
    }
}

/// Exporting every row and exporting the row list `0, 1, .., n - 1` of an
/// `n`-row `u32`-prefixed page describe the same rows: the one-pass walk
/// over the listed rows picks exactly the page's ranges and null flags.
pub proof fn lemma_listed_rows_match_all_rows(array: &EncodedArray, listed: Seq<u32>, has_nulls: bool)
    requires
        listed.len() == array.row_count,
        listed.len() > 0,
        forall|k: int| 0 <= k < listed.len() ==> #[trigger] listed[k] == k,
        spec_payload_ranges(
            BytePayloadLayout::U32LengthPrefixed,
            array.data@,
            array.row_count as nat,
        ) is Ok,
    ensures
        picked_ranges(
            spec_payload_ranges(
                BytePayloadLayout::U32LengthPrefixed,
                array.data@,
                (crate::selection::listed_rows(listed).last() + 1) as nat,
            )->Ok_0,
            crate::selection::listed_rows(listed),
        ) == spec_payload_ranges(
            BytePayloadLayout::U32LengthPrefixed,
            array.data@,
            array.row_count as nat,
        )->Ok_0,
        row_nulls(array, has_nulls, crate::selection::listed_rows(listed)) == page_nulls(
            array,
            has_nulls,
        ),
        strictly_increasing(listed),
{
    let rows = crate::selection::listed_rows(listed);
    let n = array.row_count as nat;
    assert(rows.last() + 1 == n);
    lemma_ranges_inside(BytePayloadLayout::U32LengthPrefixed, array.data@, n);
    let rs = spec_payload_ranges(BytePayloadLayout::U32LengthPrefixed, array.data@, n)->Ok_0;
    assert(picked_ranges(rs, rows) =~= rs);
    assert(row_nulls(array, has_nulls, rows) =~= page_nulls(array, has_nulls));
}

} // verus!
