//! Arrow byte views from length-prefixed pages: a value of at most twelve
//! bytes is stored inline in its 128-bit view; a longer one is described by
//! its length, its first four bytes and its offset into the page (buffer 0).
//! Null rows get an all-zero view.
use vstd::prelude::*;

use crate::array::EncodedArray;
use crate::arrow_buffers::{lemma_no_true, row_nulls, spec_has_nulls, spec_row_null, validity_from_nulls, validity_of};
use crate::arrow_export::{
    array_has_nulls, lemma_payload_ranges_err_persists, ranges_end, spec_payload_ranges,
    BytePayloadPlan,
};
use crate::collation::{le_unsigned, lemma_le_unsigned_bound, lemma_pow256_16, lemma_pow256_mono, pow256, read_unsigned_prefix};
use crate::error::{fails_with, CoveError, ErrorCode};
use crate::payload_export::{page_nulls, picked_ranges, ranges_inside};
use crate::selection::{spec_visit_rows, ArrowRowSelection};
use crate::wire::{get_u32_le, spec_u32_at};

verus! {

/// The longest value stored inline in its view.
pub const MAX_INLINE_VIEW_LEN: u32 = 12;

/// The 128-bit view of a value stored out of line in buffer 0: the length
/// in bits 0..32, the four prefix bytes (little-endian) in bits 32..64,
/// buffer index 0 in bits 64..96 and the offset in bits 96..128.
fn buffered_view(length: u32, prefix: &[u8], offset: u32) -> (res: u128)
    requires
        length > MAX_INLINE_VIEW_LEN,
        prefix@.len() == 4,
    ensures
        res == length as int + 0x1_0000_0000 * spec_u32_at(prefix@, 0) as int
            + 0x1_0000_0000_0000_0000_0000_0000 * offset as int,
{
    let p: u32 = get_u32_le(prefix, 0);
    let hi: u128 = 0x1_0000_0000_0000_0000_0000_0000u128;
    assert(0x1_0000_0000 * (p as int) <= 0x1_0000_0000 * 0xffff_ffff) by (nonlinear_arith)
        requires
            p <= 0xffff_ffff,
    ;
    assert(0x1_0000_0000_0000_0000_0000_0000 * (offset as int) <= 0x1_0000_0000_0000_0000_0000_0000
        * 0xffff_ffff) by (nonlinear_arith)
        requires
            offset <= 0xffff_ffff,
    ;
    (length as u128) + 0x1_0000_0000u128 * (p as u128) + hi * (offset as u128)
}

/// The view of the value `data[start..end]`: inline when it has at most
/// twelve bytes; otherwise it must fit `u32` lengths and offsets
/// (`ArithOverflow`). A range that ends before it starts is `PageCorrupt`.
pub open spec fn spec_view(data: Seq<u8>, start: int, end: int) -> Result<u128, ErrorCode> {
    let len = end - start;
    if start > end {
        Err(ErrorCode::PageCorrupt)
    } else if len > u32::MAX {
        Err(ErrorCode::ArithOverflow)
    } else if len <= MAX_INLINE_VIEW_LEN {
        Ok((len + 0x1_0000_0000 * le_unsigned(data.subrange(start, end))) as u128)
    } else if start > u32::MAX {
        Err(ErrorCode::ArithOverflow)
    } else {
        Ok(
            (len + 0x1_0000_0000 * spec_u32_at(data, start) as int
                + 0x1_0000_0000_0000_0000_0000_0000 * start) as u128,
        )
    }
}

/// The view of `data[start..end]` (see [`spec_view`]).
pub fn byte_view_for_range(data: &[u8], start: usize, end: usize) -> (res: Result<u128, CoveError>)
    requires
        end <= data@.len(),
    ensures
        match spec_view(data@, start as int, end as int) {
            Ok(v) => res == Ok::<u128, CoveError>(v),
            Err(e) => fails_with(res, e),
        },
{
    if start > end {
        return Err(CoveError::PageCorrupt);
    }
    let len = end - start;
    if len > u32::MAX as usize {
        return Err(CoveError::ArithOverflow);
    }
    if len as u32 <= MAX_INLINE_VIEW_LEN {
        let bytes = &data[start..end];
        let packed = read_unsigned_prefix(bytes, len);
        proof {
            assert(bytes@.subrange(0, len as int) =~= data@.subrange(start as int, end as int));
            lemma_le_unsigned_bound(bytes@.subrange(0, len as int));
            lemma_pow256_mono(len as nat, 12);
            assert(pow256(12) == 0x1_0000_0000_0000_0000_0000_0000) by {
                reveal_with_fuel(pow256, 13);
            }
        }
        return Ok(len as u128 + 0x1_0000_0000 * packed);
    }
    if start > u32::MAX as usize {
        return Err(CoveError::ArithOverflow);
    }
    let prefix = &data[start..start + 4];
    proof {
        assert(spec_u32_at(prefix@, 0) == spec_u32_at(data@, start as int));
    }
    Ok(buffered_view(len as u32, prefix, start as u32))
}

/// The views of rows with value ranges `rs` and null flags `nulls`.
pub open spec fn spec_views(data: Seq<u8>, rs: Seq<(int, int)>, nulls: Seq<bool>) -> Seq<u128> {
    Seq::new(
        nulls.len(),
        |k: int| if nulls[k] { 0 } else { spec_view(data, rs[k].0, rs[k].1)->Ok_0 },
    )
}

/// Arrow-ready byte views: the views and the validity.
pub type ByteViews = (Vec<u128>, Option<(Vec<u8>, usize, usize)>);

/// Whether `res` holds the views of rows `rs` with null flags `nulls` and
/// their validity.
pub open spec fn holds_views(res: ByteViews, data: Seq<u8>, rs: Seq<(int, int)>, nulls: Seq<bool>) -> bool {
    &&& res.0@ == spec_views(data, rs, nulls)
    &&& validity_of(res.1, nulls)
}

/// The first failure among the first `n` rows of a whole page: reading a
/// range, looking up whether the row is null, or the view of a non-null
/// value.
pub open spec fn view_rows_fault(plan: BytePayloadPlan, array: &EncodedArray, has_nulls: bool, n: nat) -> Option<
    ErrorCode,
>
    decreases n,
{
    if n == 0 {
        None
    } else {
        match view_rows_fault(plan, array, has_nulls, (n - 1) as nat) {
            Some(e) => Some(e),
            None => match spec_payload_ranges(plan.layout, array.data@, n) {
                Err(e) => Some(e),
                Ok(rs) => match spec_row_null(array, has_nulls, n - 1) {
                    Err(e) => Some(e),
                    Ok(null) => if !null && spec_view(array.data@, rs[n - 1].0, rs[n - 1].1) is Err {
                        Some(spec_view(array.data@, rs[n - 1].0, rs[n - 1].1)->Err_0)
                    } else {
                        None
                    },
                },
            },
        }
    }
}

/// The first failure of viewing every row of a page: the row count must fit
/// in memory, the bitmap must hold its rows, the validity must fit in
/// memory, every row must be viewed and the values must end exactly at the
/// end of the page.
pub open spec fn all_views_fault(plan: BytePayloadPlan, array: &EncodedArray) -> Option<ErrorCode> {
    let n = array.row_count as nat;
    if array.row_count > usize::MAX {
        Some(ErrorCode::ArithOverflow)
    } else {
        match spec_has_nulls(array) {
            Err(e) => Some(e),
            Ok(h) => if h && n + 7 > usize::MAX {
                Some(ErrorCode::ArithOverflow)
            } else {
                match view_rows_fault(plan, array, h, n) {
                    Some(e) => Some(e),
                    None => if ranges_end(spec_payload_ranges(plan.layout, array.data@, n)->Ok_0)
                        != array.data@.len() {
                        Some(ErrorCode::PageCorrupt)
                    } else {
                        None
                    },
                }
            },
        }
    }
}

/// The first failure among the first `n` visited rows: a listed row off the
/// page (`OffsetRange`), a null lookup that fails, or the view of a non-null
/// value.
pub open spec fn picked_views_fault(
    array: &EncodedArray,
    has_nulls: bool,
    rs: Seq<(int, int)>,
    rows: Seq<int>,
    n: nat,
) -> Option<ErrorCode>
    decreases n,
{
    if n == 0 {
        None
    } else {
        match picked_views_fault(array, has_nulls, rs, rows, (n - 1) as nat) {
            Some(e) => Some(e),
            None => if rows[n - 1] >= array.row_count {
                Some(ErrorCode::OffsetRange)
            } else {
                match spec_row_null(array, has_nulls, rows[n - 1]) {
                    Err(e) => Some(e),
                    Ok(null) => if !null && spec_view(
                        array.data@,
                        rs[rows[n - 1]].0,
                        rs[rows[n - 1]].1,
                    ) is Err {
                        Some(spec_view(array.data@, rs[rows[n - 1]].0, rs[rows[n - 1]].1)->Err_0)
                    } else {
                        None
                    },
                }
            },
        }
    }
}

/// The first failure of viewing the rows a selection visits: the whole page
/// is split into ranges first; then the selection, the bitmap, the validity
/// and every visited row.
pub open spec fn selected_views_fault(
    plan: BytePayloadPlan,
    array: &EncodedArray,
    selection: ArrowRowSelection,
) -> Option<ErrorCode> {
    let data = array.data@;
    if array.row_count > usize::MAX {
        Some(ErrorCode::ArithOverflow)
    } else {
        match spec_payload_ranges(plan.layout, data, array.row_count as nat) {
            Err(e) => Some(e),
            Ok(rs) => if ranges_end(rs) != data.len() {
                Some(ErrorCode::PageCorrupt)
            } else {
                match spec_visit_rows(selection, array.row_count) {
                    Err(e) => Some(e),
                    Ok(rows) => match spec_has_nulls(array) {
                        Err(e) => Some(e),
                        Ok(h) => if h && rows.len() + 7 > usize::MAX {
                            Some(ErrorCode::ArithOverflow)
                        } else {
                            picked_views_fault(array, h, rs, rows, rows.len())
                        },
                    },
                }
            },
        }
    }
}

proof fn lemma_view_rows_fault_persists(
    plan: BytePayloadPlan,
    array: &EncodedArray,
    has_nulls: bool,
    k: nat,
    n: nat,
)
    requires
        k <= n,
        view_rows_fault(plan, array, has_nulls, k) is Some,
    ensures
        view_rows_fault(plan, array, has_nulls, n) == view_rows_fault(plan, array, has_nulls, k),
    decreases n - k,
{
    if k < n {
        lemma_view_rows_fault_persists(plan, array, has_nulls, k, (n - 1) as nat);
    }
}

proof fn lemma_picked_views_fault_persists(
    array: &EncodedArray,
    has_nulls: bool,
    rs: Seq<(int, int)>,
    rows: Seq<int>,
    k: nat,
    n: nat,
)
    requires
        k <= n,
        picked_views_fault(array, has_nulls, rs, rows, k) is Some,
    ensures
        picked_views_fault(array, has_nulls, rs, rows, n) == picked_views_fault(
            array,
            has_nulls,
            rs,
            rows,
            k,
        ),
    decreases n - k,
{
    if k < n {
        lemma_picked_views_fault_persists(array, has_nulls, rs, rows, k, (n - 1) as nat);
    }
}

proof fn lemma_ranges_inside_all(plan: BytePayloadPlan, b: Seq<u8>, n: nat)
    requires
        spec_payload_ranges(plan.layout, b, n) is Ok,
    ensures
        ranges_inside(spec_payload_ranges(plan.layout, b, n)->Ok_0, b.len() as int),
        spec_payload_ranges(plan.layout, b, n)->Ok_0.len() == n,
{
    crate::payload_export::lemma_ranges_inside_pub(plan.layout, b, n);
}

impl BytePayloadPlan {
    /// The views of every row of `array` (see [`all_views_fault`]).
    #[verifier::rlimit(40)]
    pub fn materialize_view_all_rows(&self, array: &EncodedArray<'_>) -> (res: Result<
        ByteViews,
        CoveError,
    >)
        ensures
            match all_views_fault(*self, array) {
                Some(e) => fails_with(res, e),
                None => (res matches Ok(out) && holds_views(
                    out,
                    array.data@,
                    spec_payload_ranges(self.layout, array.data@, array.row_count as nat)->Ok_0,
                    page_nulls(array, spec_has_nulls(array)->Ok_0),
                )),
            },
    {
        if array.row_count > usize::MAX as u64 {
            return Err(CoveError::ArithOverflow);
        }
        let row_count = array.row_count as usize;
        let has_nulls = match array_has_nulls(array) {
            Ok(h) => h,
            Err(e) => return Err(e),
        };
        if has_nulls && row_count > usize::MAX - 7 {
            return Err(CoveError::ArithOverflow);
        }
        let data = array.data;
        let ghost nulls_all = page_nulls(array, has_nulls);
        let mut views: Vec<u128> = Vec::new();
        let mut nulls: Vec<bool> = Vec::new();
        let mut pos: usize = 0;
        let mut k: usize = 0;
        let ghost mut rs: Seq<(int, int)> = Seq::empty();
        while k < row_count
            invariant
                k <= row_count,
                row_count == array.row_count,
                data@ == array.data@,
                spec_has_nulls(array) == Ok::<bool, ErrorCode>(has_nulls),
                !(has_nulls && row_count + 7 > usize::MAX),
                nulls_all == page_nulls(array, has_nulls),
                spec_payload_ranges(self.layout, data@, k as nat) == Ok::<Seq<(int, int)>, ErrorCode>(
                    rs,
                ),
                rs.len() == k,
                ranges_end(rs) == pos,
                view_rows_fault(*self, array, has_nulls, k as nat) is None,
                views@.len() == k,
                forall|j: int|
                    0 <= j < k ==> #[trigger] views@[j] == (if nulls_all[j] {
                        0
                    } else {
                        spec_view(data@, rs[j].0, rs[j].1)->Ok_0
                    }),
                nulls@.len() == k,
                forall|j: int| 0 <= j < k ==> #[trigger] nulls@[j] == nulls_all[j],
            decreases row_count - k,
        {
            let r = match self.layout {
                crate::arrow_export::BytePayloadLayout::U32LengthPrefixed => {
                    crate::arrow_export::read_u32_len_prefixed_range(data, pos)
                },
                crate::arrow_export::BytePayloadLayout::Leb128LengthPrefixed => {
                    crate::arrow_export::read_leb128_len_prefixed_range(data, pos)
                },
            };
            let (start, end) = match r {
                Ok(v) => v,
                Err(e) => {
                    proof {
                        assert(view_rows_fault(*self, array, has_nulls, (k + 1) as nat) is Some);
                        lemma_view_rows_fault_persists(
                            *self,
                            array,
                            has_nulls,
                            (k + 1) as nat,
                            row_count as nat,
                        );
                    }
                    return Err(e);
                },
            };
            let ghost rs2 = rs.push((start as int, end as int));
            assert(spec_payload_ranges(self.layout, data@, (k + 1) as nat) == Ok::<
                Seq<(int, int)>,
                ErrorCode,
            >(rs2));
            proof {
                lemma_ranges_inside_all(*self, data@, (k + 1) as nat);
                assert(rs2[k as int] == (start as int, end as int));
            }
            let is_null = if has_nulls {
                match array.is_null(k as u64) {
                    Ok(b) => b,
                    Err(e) => {
                        proof {
                            assert(view_rows_fault(*self, array, has_nulls, (k + 1) as nat) is Some);
                            lemma_view_rows_fault_persists(
                                *self,
                                array,
                                has_nulls,
                                (k + 1) as nat,
                                row_count as nat,
                            );
                        }
                        return Err(e);
                    },
                }
            } else {
                false
            };
            assert(nulls_all[k as int] == is_null);
            let view = if is_null {
                0
            } else {
                match byte_view_for_range(data, start, end) {
                    Ok(v) => v,
                    Err(e) => {
                        proof {
                            assert(view_rows_fault(*self, array, has_nulls, (k + 1) as nat) is Some);
                            lemma_view_rows_fault_persists(
                                *self,
                                array,
                                has_nulls,
                                (k + 1) as nat,
                                row_count as nat,
                            );
                        }
                        return Err(e);
                    },
                }
            };
            views.push(view);
            nulls.push(is_null);
            pos = end;
            k = k + 1;
            proof {
                rs = rs2;
            }
        }
        if pos != data.len() {
            return Err(CoveError::PageCorrupt);
        }
        let validity = if has_nulls {
            validity_from_nulls(&nulls)
        } else {
            None
        };
        proof {
            assert(nulls@ =~= nulls_all);
            assert(views@ =~= spec_views(data@, rs, nulls_all));
            if !has_nulls {
                lemma_no_true(nulls_all);
            }
        }
        Ok((views, validity))
    }

    /// The views of the rows a selection visits, after splitting the whole
    /// page into ranges (see [`selected_views_fault`]).
    #[verifier::rlimit(40)]
    pub fn materialize_view(&self, array: &EncodedArray<'_>, selection: ArrowRowSelection<'_>) -> (res:
        Result<ByteViews, CoveError>)
        ensures
            selection is All ==> match all_views_fault(*self, array) {
                Some(e) => fails_with(res, e),
                None => (res matches Ok(out) && holds_views(
                    out,
                    array.data@,
                    spec_payload_ranges(self.layout, array.data@, array.row_count as nat)->Ok_0,
                    page_nulls(array, spec_has_nulls(array)->Ok_0),
                )),
            },
            !(selection is All) ==> match selected_views_fault(*self, array, selection) {
                Some(e) => fails_with(res, e),
                None => (res matches Ok(out) && holds_views(
                    out,
                    array.data@,
                    picked_ranges(
                        spec_payload_ranges(self.layout, array.data@, array.row_count as nat)->Ok_0,
                        spec_visit_rows(selection, array.row_count)->Ok_0,
                    ),
                    row_nulls(
                        array,
                        spec_has_nulls(array)->Ok_0,
                        spec_visit_rows(selection, array.row_count)->Ok_0,
                    ),
                )),
            },
    {
        if let ArrowRowSelection::All = selection {
            return self.materialize_view_all_rows(array);
        }
        let ranges = match self.parse_ranges(array) {
            Ok(r) => r,
            Err(e) => return Err(e),
        };
        let ghost rs = spec_payload_ranges(self.layout, array.data@, array.row_count as nat)->Ok_0;
        proof {
            lemma_ranges_inside_all(*self, array.data@, array.row_count as nat);
        }
        let list = match selection.visit_list(array.row_count) {
            Ok(l) => l,
            Err(e) => return Err(e),
        };
        let ghost rows = spec_visit_rows(selection, array.row_count)->Ok_0;
        let has_nulls = match array_has_nulls(array) {
            Ok(h) => h,
            Err(e) => return Err(e),
        };
        let n = list.len();
        if has_nulls && n > usize::MAX - 7 {
            return Err(CoveError::ArithOverflow);
        }
        let ghost nulls_all = row_nulls(array, has_nulls, rows);
        let data = array.data;
        let mut views: Vec<u128> = Vec::new();
        let mut nulls: Vec<bool> = Vec::new();
        let mut k: usize = 0;
        while k < n
            invariant
                n == list@.len(),
                n == rows.len(),
                k <= n,
                forall|j: int| 0 <= j < n ==> #[trigger] list@[j] as int == rows[j],
                data@ == array.data@,
                !(selection is All),
                array.row_count <= usize::MAX,
                ranges@.len() == array.row_count,
                rs.len() == array.row_count,
                rs == spec_payload_ranges(self.layout, array.data@, array.row_count as nat)->Ok_0,
                spec_payload_ranges(self.layout, array.data@, array.row_count as nat) is Ok,
                ranges_end(rs) == data@.len(),
                ranges_inside(rs, data@.len() as int),
                forall|j: int|
                    0 <= j < ranges@.len() ==> (#[trigger] ranges@[j]).0 as int == rs[j].0
                        && ranges@[j].1 as int == rs[j].1,
                nulls_all == row_nulls(array, has_nulls, rows),
                nulls_all.len() == n,
                spec_has_nulls(array) == Ok::<bool, ErrorCode>(has_nulls),
                spec_visit_rows(selection, array.row_count) == Ok::<Seq<int>, ErrorCode>(rows),
                !(has_nulls && n + 7 > usize::MAX),
                forall|j: int| 0 <= j < k ==> 0 <= #[trigger] rows[j] < array.row_count,
                picked_views_fault(array, has_nulls, rs, rows, k as nat) is None,
                views@.len() == k,
                forall|j: int|
                    0 <= j < k ==> #[trigger] views@[j] == (if nulls_all[j] {
                        0
                    } else {
                        spec_view(data@, rs[rows[j]].0, rs[rows[j]].1)->Ok_0
                    }),
                nulls@.len() == k,
                forall|j: int| 0 <= j < k ==> #[trigger] nulls@[j] == nulls_all[j],
            decreases n - k,
        {
            let row = list[k];
            if row as u64 >= array.row_count {
                proof {
                    assert(picked_views_fault(array, has_nulls, rs, rows, (k + 1) as nat) is Some);
                    lemma_picked_views_fault_persists(
                        array,
                        has_nulls,
                        rs,
                        rows,
                        (k + 1) as nat,
                        n as nat,
                    );
                }
                return Err(CoveError::OffsetRange);
            }
            let is_null = if has_nulls {
                match array.is_null(row as u64) {
                    Ok(b) => b,
                    Err(e) => {
                        proof {
                            assert(picked_views_fault(array, has_nulls, rs, rows, (k + 1) as nat)
                                is Some);
                            lemma_picked_views_fault_persists(
                                array,
                                has_nulls,
                                rs,
                                rows,
                                (k + 1) as nat,
                                n as nat,
                            );
                        }
                        return Err(e);
                    },
                }
            } else {
                false
            };
            assert(nulls_all[k as int] == is_null);
            let (start, end) = ranges[row];
            let view = if is_null {
                0
            } else {
                match byte_view_for_range(data, start, end) {
                    Ok(v) => v,
                    Err(e) => {
                        proof {
                            assert(picked_views_fault(array, has_nulls, rs, rows, (k + 1) as nat)
                                is Some);
                            lemma_picked_views_fault_persists(
                                array,
                                has_nulls,
                                rs,
                                rows,
                                (k + 1) as nat,
                                n as nat,
                            );
                        }
                        return Err(e);
                    },
                }
            };
            views.push(view);
            nulls.push(is_null);
            k = k + 1;
        }
        let validity = if has_nulls {
            validity_from_nulls(&nulls)
        } else {
            None
        };
        proof {
            assert(nulls@ =~= nulls_all);
            assert(views@ =~= spec_views(data@, picked_ranges(rs, rows), nulls_all));
            if !has_nulls {
                lemma_no_true(nulls_all);
            }
        }
        Ok((views, validity))
    }
}

} // verus!
