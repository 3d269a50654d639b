//! The data side of converting row-oriented sources into COVE scan files:
//! conversion options and policies, segment layout, materialised column
//! values and their page encodings, and the counting helpers that size
//! dictionaries and indexes.
use vstd::prelude::*;
use vstd::slice::slice_to_vec;

use crate::constants::{CompressionCodec, CoveEncodingKind};
use crate::error::{fails_with, CoveError, ErrorCode};
use crate::util::{concat, str_eq, text};
use crate::wire::{append_bytes, push_u32_le, push_u64_le, u32_le_bytes, u64_le_bytes};

verus! {

// ---------------------------------------------------------------------------
// Options
// ---------------------------------------------------------------------------

/// When to synthesise a file dictionary.
#[derive(Debug, Clone, Copy, PartialEq, Eq, Hash, Structural)]
pub enum ParquetDictionaryPolicy {
    Auto,
    Never,
    Always,
}

/// Whether to recompute zone statistics.
#[derive(Debug, Clone, Copy, PartialEq, Eq, Hash, Structural)]
pub enum ParquetStatsPolicy {
    /// Emit no statistics (`none`).
    Disabled,
    Recompute,
}

/// Which lookup accelerations to emit.
#[derive(Debug, Clone, Copy, PartialEq, Eq, Hash, Structural)]
pub enum ParquetAccelerationPolicy {
    /// Emit none (`none`).
    Disabled,
    DeclaredOnly,
    Auto,
}

/// Which aggregate synopses to emit.
#[derive(Debug, Clone, Copy, PartialEq, Eq, Hash, Structural)]
pub enum ParquetAggregatePolicy {
    /// Emit none (`none`).
    Disabled,
    DeclaredOnly,
    Auto,
}

/// How rows are ordered in the output.
#[derive(Debug, Clone, Copy, PartialEq, Eq, Hash, Structural)]
pub enum ParquetClusteringPolicy {
    PreserveSourceOrder,
    StableClusterDeclaredColumns,
}

/// Options for a conversion.
#[derive(Debug, Clone, PartialEq, Eq)]
pub struct ParquetConversionOptions {
    pub table_name: String,
    pub namespace: String,
    pub morsel_row_count: u32,
    pub segment_row_count: u32,
    pub page_compression: CompressionCodec,
    pub dictionary_policy: ParquetDictionaryPolicy,
    pub stats_policy: ParquetStatsPolicy,
    pub acceleration_policy: ParquetAccelerationPolicy,
    pub point_lookup_columns: Vec<String>,
    pub cluster_columns: Vec<String>,
    pub topn_columns: Vec<String>,
    pub aggregate_policy: ParquetAggregatePolicy,
    pub aggregate_columns: Vec<String>,
    pub composite_zone_groups: Vec<Vec<String>>,
    pub emit_covx: bool,
    pub emit_covm: bool,
    pub clustering_policy: ParquetClusteringPolicy,
}

/// The characters of each string.
pub open spec fn strings_view(v: Seq<String>) -> Seq<Seq<char>> {
    v.map_values(|s: String| s@)
}

/// The characters of each string of each group.
pub open spec fn string_groups_view(v: Seq<Vec<String>>) -> Seq<Seq<Seq<char>>> {
    v.map_values(|g: Vec<String>| strings_view(g@))
}

/// Conversion options as mathematical values.
pub struct OptionsView {
    pub table_name: Seq<char>,
    pub namespace: Seq<char>,
    pub morsel_row_count: u32,
    pub segment_row_count: u32,
    pub page_compression: CompressionCodec,
    pub dictionary_policy: ParquetDictionaryPolicy,
    pub stats_policy: ParquetStatsPolicy,
    pub acceleration_policy: ParquetAccelerationPolicy,
    pub point_lookup_columns: Seq<Seq<char>>,
    pub cluster_columns: Seq<Seq<char>>,
    pub topn_columns: Seq<Seq<char>>,
    pub aggregate_policy: ParquetAggregatePolicy,
    pub aggregate_columns: Seq<Seq<char>>,
    pub composite_zone_groups: Seq<Seq<Seq<char>>>,
    pub emit_covx: bool,
    pub emit_covm: bool,
    pub clustering_policy: ParquetClusteringPolicy,
}

impl View for ParquetConversionOptions {
    type V = OptionsView;

    open spec fn view(&self) -> OptionsView {
        OptionsView {
            table_name: self.table_name@,
            namespace: self.namespace@,
            morsel_row_count: self.morsel_row_count,
            segment_row_count: self.segment_row_count,
            page_compression: self.page_compression,
            dictionary_policy: self.dictionary_policy,
            stats_policy: self.stats_policy,
            acceleration_policy: self.acceleration_policy,
            point_lookup_columns: strings_view(self.point_lookup_columns@),
            cluster_columns: strings_view(self.cluster_columns@),
            topn_columns: strings_view(self.topn_columns@),
            aggregate_policy: self.aggregate_policy,
            aggregate_columns: strings_view(self.aggregate_columns@),
            composite_zone_groups: string_groups_view(self.composite_zone_groups@),
            emit_covx: self.emit_covx,
            emit_covm: self.emit_covm,
            clustering_policy: self.clustering_policy,
        }
    }
}

/// The default options: table `parquet_import` in namespace `interop`,
/// 4096-row morsels, one segment, no compression, automatic dictionaries,
/// no statistics, accelerations or synopses, source order.
pub open spec fn default_options() -> OptionsView {
    OptionsView {
        table_name: "parquet_import"@,
        namespace: "interop"@,
        morsel_row_count: 4096,
        segment_row_count: u32::MAX,
        page_compression: CompressionCodec::Uncompressed,
        dictionary_policy: ParquetDictionaryPolicy::Auto,
        stats_policy: ParquetStatsPolicy::Disabled,
        acceleration_policy: ParquetAccelerationPolicy::Disabled,
        point_lookup_columns: Seq::empty(),
        cluster_columns: Seq::empty(),
        topn_columns: Seq::empty(),
        aggregate_policy: ParquetAggregatePolicy::Disabled,
        aggregate_columns: Seq::empty(),
        composite_zone_groups: Seq::empty(),
        emit_covx: false,
        emit_covm: false,
        clustering_policy: ParquetClusteringPolicy::PreserveSourceOrder,
    }
}

impl ParquetConversionOptions {
    /// The default options (see `default_options`).
    pub fn default() -> (res: Self)
        ensures
            res@ == default_options(),
    {
        let res = ParquetConversionOptions {
            table_name: text("parquet_import"),
            namespace: text("interop"),
            morsel_row_count: 4096,
            segment_row_count: u32::MAX,
            page_compression: CompressionCodec::Uncompressed,
            dictionary_policy: ParquetDictionaryPolicy::Auto,
            stats_policy: ParquetStatsPolicy::Disabled,
            acceleration_policy: ParquetAccelerationPolicy::Disabled,
            point_lookup_columns: Vec::new(),
            cluster_columns: Vec::new(),
            topn_columns: Vec::new(),
            aggregate_policy: ParquetAggregatePolicy::Disabled,
            aggregate_columns: Vec::new(),
            composite_zone_groups: Vec::new(),
            emit_covx: false,
            emit_covm: false,
            clustering_policy: ParquetClusteringPolicy::PreserveSourceOrder,
        };
        assert(strings_view(res.point_lookup_columns@) =~= Seq::empty());
        assert(strings_view(res.cluster_columns@) =~= Seq::empty());
        assert(strings_view(res.topn_columns@) =~= Seq::empty());
        assert(strings_view(res.aggregate_columns@) =~= Seq::empty());
        assert(string_groups_view(res.composite_zone_groups@) =~= Seq::empty());
        res
    }
}

/// Whether a column gets an exact-set index: never when accelerations are
/// off, only for declared lookup columns under `DeclaredOnly`, and for
/// low- or medium-cardinality columns otherwise.
pub fn should_emit_exact_set(
    policy: ParquetAccelerationPolicy,
    declared_lookup: bool,
    low_or_medium: bool,
) -> (res: bool)
    ensures
        res == match policy {
            ParquetAccelerationPolicy::Disabled => false,
            ParquetAccelerationPolicy::DeclaredOnly => declared_lookup && low_or_medium,
            ParquetAccelerationPolicy::Auto => low_or_medium,
        },
{
    match policy {
        ParquetAccelerationPolicy::Disabled => false,
        ParquetAccelerationPolicy::DeclaredOnly => declared_lookup && low_or_medium,
        ParquetAccelerationPolicy::Auto => low_or_medium,
    }
}

/// Whether a column gets an aggregate synopsis: only when supported, and
/// then as the policy says.
pub fn should_emit_aggregate(policy: ParquetAggregatePolicy, declared: bool, supported: bool) -> (res:
    bool)
    ensures
        res == (supported && match policy {
            ParquetAggregatePolicy::Disabled => false,
            ParquetAggregatePolicy::DeclaredOnly => declared,
            ParquetAggregatePolicy::Auto => true,
        }),
{
    supported && match policy {
        ParquetAggregatePolicy::Disabled => false,
        ParquetAggregatePolicy::DeclaredOnly => declared,
        ParquetAggregatePolicy::Auto => true,
    }
}

// ---------------------------------------------------------------------------
// Segments
// ---------------------------------------------------------------------------

/// Rows `[row_start, row_start + row_count)` form segment `segment_id`.
#[derive(Debug, Clone, Copy, PartialEq, Eq, Structural)]
pub struct SegmentLayout {
    pub segment_id: u32,
    pub row_start: usize,
    pub row_count: usize,
}

/// The number of segments of at most `step` rows that `total` rows need.
pub open spec fn segment_count(total: nat, step: nat) -> nat {
    if total == 0 {
        1
    } else {
        ((total + step - 1) / step as int) as nat
    }
}

/// Segment `i` of `total` rows cut every `step` rows.
pub open spec fn segment_at(total: nat, step: nat, i: int) -> SegmentLayout {
    SegmentLayout {
        segment_id: i as u32,
        row_start: (i * step) as usize,
        row_count: if total == 0 {
            0usize
        } else if total - i * step < step {
            (total - i * step) as usize
        } else {
            step as usize
        },
    }
}

/// Cutting `total` rows into segments of `step` rows, the last one shorter:
/// `BadSchema` for a zero step, `ArithOverflow` when the segment ids do not
/// fit in `u32`; no rows give one empty segment.
pub open spec fn spec_segment_layouts(total: nat, step: u32) -> Result<Seq<SegmentLayout>, ErrorCode> {
    if step == 0 {
        Err(ErrorCode::BadSchema)
    } else if segment_count(total, step as nat) > u32::MAX + 1 {
        Err(ErrorCode::ArithOverflow)
    } else {
        Ok(
            Seq::new(
                segment_count(total, step as nat),
                |i: int| segment_at(total, step as nat, i),
            ),
        )
    }
}

proof fn lemma_ceil_count(k: int, t: int, s: int)
    requires
        k >= 0,
        t >= 1,
        s >= 1,
    ensures
        (k < (t + s - 1) / s) == (k * s < t),
{
    assert((k < (t + s - 1) / s) == (k * s < t)) by (nonlinear_arith)
        requires
            k >= 0,
            t >= 1,
            s >= 1,
    ;
}

/// Cuts `total_rows` rows into segments of `segment_row_count` rows.
pub fn build_segment_layouts(total_rows: usize, segment_row_count: u32) -> (res: Result<
    Vec<SegmentLayout>,
    CoveError,
>)
    ensures
        match spec_segment_layouts(total_rows as nat, segment_row_count) {
            Ok(s) => (res matches Ok(v) && v@ == s),
            Err(c) => fails_with(res, c),
        },
{
    if segment_row_count == 0 {
        return Err(CoveError::BadSchema(text("segment_row_count must be greater than zero")));
    }
    if total_rows == 0 {
        let mut out: Vec<SegmentLayout> = Vec::new();
        out.push(SegmentLayout { segment_id: 0, row_start: 0, row_count: 0 });
        proof {
            assert(out@ =~= Seq::new(1, |i: int| segment_at(0, segment_row_count as nat, i)));
        }
        return Ok(out);
    }
    let step = segment_row_count as usize;
    let ghost total = total_rows as nat;
    let ghost n = segment_count(total, step as nat);
    let mut out: Vec<SegmentLayout> = Vec::new();
    let mut start: usize = 0;
    proof {
        lemma_ceil_count(0, total as int, step as int);
    }
    while start < total_rows
        invariant
            step == segment_row_count,
            step >= 1,
            total == total_rows,
            total_rows > 0,
            n == segment_count(total, step as nat),
            out@.len() <= n,
            out@.len() <= u32::MAX + 1,
            out@.len() < n ==> start == out@.len() * step && start < total_rows,
            out@.len() == n ==> start >= total_rows,
            forall|k: int| 0 <= k < out@.len() ==> #[trigger] out@[k] == segment_at(total, step as nat, k),
        decreases total_rows - start,
    {
        let remaining = total_rows - start;
        let len = if remaining < step {
            remaining
        } else {
            step
        };
        if out.len() > u32::MAX as usize {
            return Err(CoveError::ArithOverflow);
        }
        let id = out.len() as u32;
        let ghost k = out@.len() as int;
        out.push(SegmentLayout { segment_id: id, row_start: start, row_count: len });
        assert(out@[k] == segment_at(total, step as nat, k));
        start = match start.checked_add(len) {
            Some(v) => v,
            None => return Err(CoveError::ArithOverflow),
        };
        proof {
            assert((k + 1) * step == k * step + step) by (nonlinear_arith);
            lemma_ceil_count(k + 1, total as int, step as int);
        }
    }
    assert(out@ =~= Seq::new(n, |i: int| segment_at(total, step as nat, i)));
    Ok(out)
}

/// The first segment holding `row`, or why none does.
pub open spec fn spec_segment_for_row(row: usize, segs: Seq<SegmentLayout>, k: nat) -> Result<
    SegmentLayout,
    ErrorCode,
>
    decreases segs.len() - k,
{
    if k >= segs.len() {
        Err(ErrorCode::BadSchema)
    } else {
        let s = segs[k as int];
        if s.row_start + s.row_count > usize::MAX {
            Err(ErrorCode::ArithOverflow)
        } else if s.row_start <= row < s.row_start + s.row_count {
            Ok(s)
        } else {
            spec_segment_for_row(row, segs, k + 1)
        }
    }
}

/// The first segment whose rows include `row`; `BadSchema` when none does.
pub fn segment_position_for_row(row: usize, segments: &[SegmentLayout]) -> (res: Result<
    SegmentLayout,
    CoveError,
>)
    ensures
        match spec_segment_for_row(row, segments@, 0) {
            Ok(s) => res == Ok::<SegmentLayout, CoveError>(s),
            Err(c) => fails_with(res, c),
        },
{
    let mut i: usize = 0;
    while i < segments.len()
        invariant
            i <= segments@.len(),
            spec_segment_for_row(row, segments@, 0) == spec_segment_for_row(row, segments@, i as nat),
        decreases segments@.len() - i,
    {
        let segment = segments[i];
        let end = match segment.row_start.checked_add(segment.row_count) {
            Some(v) => v,
            None => return Err(CoveError::ArithOverflow),
        };
        if row >= segment.row_start && row < end {
            return Ok(segment);
        }
        i = i + 1;
    }
    Err(CoveError::BadSchema(text("row is not covered by any conversion segment")))
}

/// The bytes of a null bitmap for `row_count` rows.
pub fn validity_bitmap_len(row_count: u32) -> (res: Result<usize, CoveError>)
    ensures
        res == Ok::<usize, CoveError>(((row_count + 7) / 8) as usize),
{
    let bytes = (row_count as u64 + 7) / 8;
    Ok(bytes as usize)
}

} // verus!

verus! {

/// The segments of a non-empty conversion tile its rows: the first starts at
/// row 0, each starts where the previous ended, none is empty or longer than
/// the step, ids count up from 0, and the last ends at the last row.
pub proof fn lemma_segments_tile_rows(total: nat, step: u32)
    requires
        total >= 1,
        total <= usize::MAX,
        spec_segment_layouts(total, step) is Ok,
    ensures
        ({
            let segs = spec_segment_layouts(total, step)->Ok_0;
            &&& segs.len() >= 1
            &&& segs[0].row_start == 0
            &&& forall|i: int| 0 <= i < segs.len() ==> (#[trigger] segs[i]).segment_id == i
            &&& forall|i: int|
                0 <= i < segs.len() ==> 1 <= (#[trigger] segs[i]).row_count <= step
            &&& forall|i: int|
                0 <= i < segs.len() - 1 ==> #[trigger] segs[i + 1].row_start == segs[i].row_start
                    + segs[i].row_count
            &&& segs[segs.len() - 1].row_start + segs[segs.len() - 1].row_count == total
        }),
{
    let s = step as int;
    let t = total as int;
    let n = segment_count(total, step as nat) as int;
    let segs = spec_segment_layouts(total, step)->Ok_0;
    lemma_ceil_count(0, t, s);
    assert forall|i: int| 0 <= i < n implies i * s < t && (#[trigger] segs[i]).row_start == i * s
        && segs[i].segment_id == i && 1 <= segs[i].row_count <= step by {
        lemma_ceil_count(i, t, s);
        assert(0 <= i * s) by (nonlinear_arith)
            requires
                i >= 0,
                s >= 1,
        ;
        assert(i * s <= usize::MAX);
        assert(i <= u32::MAX);
    }
    assert forall|i: int| 0 <= i < n - 1 implies #[trigger] segs[i + 1].row_start
        == segs[i].row_start + segs[i].row_count by {
        lemma_ceil_count(i + 1, t, s);
        assert((i + 1) * s == i * s + s) by (nonlinear_arith);
    }
    lemma_ceil_count(n - 1, t, s);
    lemma_ceil_count(n, t, s);
    assert(n * s == (n - 1) * s + s) by (nonlinear_arith);
}

// ---------------------------------------------------------------------------
// Materialised column values
// ---------------------------------------------------------------------------

/// A column's values held in memory, in the layout its pages store them.
#[derive(Debug, Clone, PartialEq, Eq)]
pub enum MaterializedValues {
    Boolean(Vec<u8>),
    FileCode(Vec<u32>),
    NumCode(Vec<u64>),
    VarBytes(Vec<Vec<u8>>),
    FixedBytes { width: usize, values: Vec<Vec<u8>> },
}

/// The abstract content of [`MaterializedValues`].
pub enum MaterializedView {
    Boolean(Seq<u8>),
    FileCode(Seq<u32>),
    NumCode(Seq<u64>),
    VarBytes(Seq<Seq<u8>>),
    FixedBytes { width: usize, values: Seq<Seq<u8>> },
}

/// The byte strings of a vector of byte vectors.
pub open spec fn byte_strings(v: Seq<Vec<u8>>) -> Seq<Seq<u8>> {
    v.map_values(|b: Vec<u8>| b@)
}

impl View for MaterializedValues {
    type V = MaterializedView;

    open spec fn view(&self) -> MaterializedView {
        match self {
            MaterializedValues::Boolean(v) => MaterializedView::Boolean(v@),
            MaterializedValues::FileCode(v) => MaterializedView::FileCode(v@),
            MaterializedValues::NumCode(v) => MaterializedView::NumCode(v@),
            MaterializedValues::VarBytes(v) => MaterializedView::VarBytes(byte_strings(v@)),
            MaterializedValues::FixedBytes { width, values } => MaterializedView::FixedBytes {
                width: *width,
                values: byte_strings(values@),
            },
        }
    }
}

/// The number of rows held.
pub open spec fn view_rows(m: MaterializedView) -> nat {
    match m {
        MaterializedView::Boolean(v) => v.len(),
        MaterializedView::FileCode(v) => v.len(),
        MaterializedView::NumCode(v) => v.len(),
        MaterializedView::VarBytes(v) => v.len(),
        MaterializedView::FixedBytes { values, .. } => values.len(),
    }
}

/// Little-endian `u32`s, back to back.
pub open spec fn u32s_le(v: Seq<u32>) -> Seq<u8>
    decreases v.len(),
{
    if v.len() == 0 {
        Seq::empty()
    } else {
        u32s_le(v.drop_last()) + u32_le_bytes(v.last())
    }
}

/// Little-endian `u64`s, back to back.
pub open spec fn u64s_le(v: Seq<u64>) -> Seq<u8>
    decreases v.len(),
{
    if v.len() == 0 {
        Seq::empty()
    } else {
        u64s_le(v.drop_last()) + u64_le_bytes(v.last())
    }
}

/// Byte strings, each after its `u32` length.
pub open spec fn framed(v: Seq<Seq<u8>>) -> Seq<u8>
    decreases v.len(),
{
    if v.len() == 0 {
        Seq::empty()
    } else {
        framed(v.drop_last()) + u32_le_bytes(v.last().len() as u32) + v.last()
    }
}

/// Byte strings, back to back.
pub open spec fn joined(v: Seq<Seq<u8>>) -> Seq<u8>
    decreases v.len(),
{
    if v.len() == 0 {
        Seq::empty()
    } else {
        joined(v.drop_last()) + v.last()
    }
}

/// The space that framing `v` takes.
pub open spec fn framed_len(v: Seq<Seq<u8>>) -> int
    decreases v.len(),
{
    if v.len() == 0 {
        0
    } else {
        framed_len(v.drop_last()) + 4 + v.last().len()
    }
}

/// The page payload of rows `[start, start + len)`: booleans as bytes,
/// codes little-endian, variable bytes after `u32` lengths (`ArithOverflow`
/// when the payload or a length does not fit), fixed-width bytes back to
/// back (`BadSchema` when one has the wrong width).
pub open spec fn spec_encode_rows(m: MaterializedView, start: int, len: int) -> Result<
    Seq<u8>,
    ErrorCode,
> {
    match m {
        MaterializedView::Boolean(v) => Ok(v.subrange(start, start + len)),
        MaterializedView::FileCode(v) => Ok(u32s_le(v.subrange(start, start + len))),
        MaterializedView::NumCode(v) => Ok(u64s_le(v.subrange(start, start + len))),
        MaterializedView::VarBytes(v) => {
            let rows = v.subrange(start, start + len);
            if framed_len(rows) > usize::MAX || exists|k: int|
                0 <= k < rows.len() && (#[trigger] rows[k]).len() > u32::MAX {
                Err(ErrorCode::ArithOverflow)
            } else {
                Ok(framed(rows))
            }
        },
        MaterializedView::FixedBytes { width, values } => {
            let rows = values.subrange(start, start + len);
            if exists|k: int| 0 <= k < rows.len() && (#[trigger] rows[k]).len() != width {
                Err(ErrorCode::BadSchema)
            } else {
                Ok(joined(rows))
            }
        },
    }
}

proof fn lemma_framed_len_mono(v: Seq<Seq<u8>>, i: int)
    requires
        0 <= i <= v.len(),
    ensures
        framed_len(v.take(i)) <= framed_len(v),
        framed_len(v.take(i)) >= 0,
    decreases v.len() - i,
{
    if i < v.len() {
        lemma_framed_len_mono(v, i + 1);
        assert(v.take(i + 1).drop_last() =~= v.take(i));
    } else {
        assert(v.take(i) =~= v);
    }
    lemma_framed_len_nonneg(v.take(i));
}

proof fn lemma_framed_len_nonneg(v: Seq<Seq<u8>>)
    ensures
        framed_len(v) >= 0,
    decreases v.len(),
{
    if v.len() > 0 {
        lemma_framed_len_nonneg(v.drop_last());
    }
}

impl MaterializedValues {
    /// The number of rows held.
    pub fn row_count(&self) -> (res: usize)
        ensures
            res == view_rows(self@),
    {
        match self {
            MaterializedValues::Boolean(values) => values.len(),
            MaterializedValues::FileCode(values) => values.len(),
            MaterializedValues::NumCode(values) => values.len(),
            MaterializedValues::VarBytes(values) => values.len(),
            MaterializedValues::FixedBytes { values, .. } => values.len(),
        }
    }

    /// The page payload of rows `[start, start + len)`.
    pub fn encode_rows(&self, start: usize, len: usize) -> (res: Result<Vec<u8>, CoveError>)
        requires
            start + len <= view_rows(self@),
        ensures
            match spec_encode_rows(self@, start as int, len as int) {
                Ok(b) => (res matches Ok(v) && v@ == b),
                Err(c) => fails_with(res, c),
            },
    {
        let held = self.row_count();
        assert(start + len <= held);
        let end = start + len;
        match self {
            MaterializedValues::Boolean(values) => Ok(slice_to_vec(&values.as_slice()[start..end])),
            MaterializedValues::FileCode(values) => {
                let ghost rows = values@.subrange(start as int, end as int);
                let mut out: Vec<u8> = Vec::new();
                let mut i: usize = start;
                while i < end
                    invariant
                        start <= i <= end,
                        end == start + len,
                        end <= values@.len(),
                        rows == values@.subrange(start as int, end as int),
                        out@ == u32s_le(rows.take(i - start)),
                    decreases end - i,
                {
                    push_u32_le(&mut out, values[i]);
                    proof {
                        assert(rows.take(i + 1 - start).drop_last() =~= rows.take(i - start));
                    }
                    i = i + 1;
                }
                assert(rows.take(len as int) =~= rows);
                Ok(out)
            },
            MaterializedValues::NumCode(values) => {
                let ghost rows = values@.subrange(start as int, end as int);
                let mut out: Vec<u8> = Vec::new();
                let mut i: usize = start;
                while i < end
                    invariant
                        start <= i <= end,
                        end == start + len,
                        end <= values@.len(),
                        rows == values@.subrange(start as int, end as int),
                        out@ == u64s_le(rows.take(i - start)),
                    decreases end - i,
                {
                    push_u64_le(&mut out, values[i]);
                    proof {
                        assert(rows.take(i + 1 - start).drop_last() =~= rows.take(i - start));
                    }
                    i = i + 1;
                }
                assert(rows.take(len as int) =~= rows);
                Ok(out)
            },
            MaterializedValues::VarBytes(values) => {
                let ghost rows = byte_strings(values@).subrange(start as int, end as int);
                let mut capacity: usize = 0;
                let mut i: usize = start;
                while i < end
                    invariant
                        start <= i <= end,
                        end == start + len,
                        end <= values@.len(),
                        rows == byte_strings(values@).subrange(start as int, end as int),
                        self@ == MaterializedView::VarBytes(byte_strings(values@)),
                        capacity == framed_len(rows.take(i - start)),
                    decreases end - i,
                {
                    assert(rows.take(i + 1 - start).drop_last() =~= rows.take(i - start));
                    assert(rows[i - start] == values@[i as int]@);
                    let step = match capacity.checked_add(4) {
                        Some(c) => match c.checked_add(values[i].len()) {
                            Some(c2) => c2,
                            None => {
                                proof {
                                    lemma_framed_len_mono(rows, i + 1 - start);
                                }
                                return Err(CoveError::ArithOverflow);
                            },
                        },
                        None => {
                            proof {
                                lemma_framed_len_mono(rows, i + 1 - start);
                            }
                            return Err(CoveError::ArithOverflow);
                        },
                    };
                    capacity = step;
                    i = i + 1;
                }
                assert(rows.take(len as int) =~= rows);
                let mut out: Vec<u8> = Vec::new();
                let mut j: usize = start;
                while j < end
                    invariant
                        start <= j <= end,
                        end == start + len,
                        end <= values@.len(),
                        rows == byte_strings(values@).subrange(start as int, end as int),
                        framed_len(rows) <= usize::MAX,
                        self@ == MaterializedView::VarBytes(byte_strings(values@)),
                        forall|k: int| 0 <= k < j - start ==> (#[trigger] rows[k]).len() <= u32::MAX,
                        out@ == framed(rows.take(j - start)),
                    decreases end - j,
                {
                    assert(rows[j - start] == values@[j as int]@);
                    if values[j].len() > u32::MAX as usize {
                        assert((rows[j - start]).len() > u32::MAX);
                        return Err(CoveError::ArithOverflow);
                    }
                    push_u32_le(&mut out, values[j].len() as u32);
                    append_bytes(&mut out, values[j].as_slice());
                    proof {
                        assert(rows.take(j + 1 - start).drop_last() =~= rows.take(j - start));
                    }
                    j = j + 1;
                }
                Ok(out)
            },
            MaterializedValues::FixedBytes { width, values } => {
                let ghost rows = byte_strings(values@).subrange(start as int, end as int);
                let mut out: Vec<u8> = Vec::new();
                let mut i: usize = start;
                while i < end
                    invariant
                        start <= i <= end,
                        end == start + len,
                        end <= values@.len(),
                        rows == byte_strings(values@).subrange(start as int, end as int),
                        forall|k: int| 0 <= k < i - start ==> (#[trigger] rows[k]).len() == *width,
                        self@ == (MaterializedView::FixedBytes {
                            width: *width,
                            values: byte_strings(values@),
                        }),
                        out@ == joined(rows.take(i - start)),
                    decreases end - i,
                {
                    assert(rows[i - start] == values@[i as int]@);
                    if values[i].len() != *width {
                        assert((rows[i - start]).len() != *width);
                        return Err(
                            CoveError::BadSchema(
                                text("fixed-width materialized value length does not match width"),
                            ),
                        );
                    }
                    append_bytes(&mut out, values[i].as_slice());
                    proof {
                        assert(rows.take(i + 1 - start).drop_last() =~= rows.take(i - start));
                    }
                    i = i + 1;
                }
                assert(rows.take(len as int) =~= rows);
                Ok(out)
            },
        }
    }
}

} // verus!

verus! {

/// Whether every entry of `order` names one of `n` rows.
pub open spec fn order_in_range(order: Seq<usize>, n: nat) -> bool {
    forall|k: int| 0 <= k < order.len() ==> #[trigger] order[k] < n
}

/// `values` permuted (or selected) by `order`: entry `k` is `values[order[k]]`.
pub open spec fn reordered<T>(values: Seq<T>, order: Seq<usize>) -> Seq<T> {
    Seq::new(order.len(), |k: int| values[order[k] as int])
}

/// Replaces `values` by `values` taken in `order`.
pub fn reorder_copy<T: Copy>(values: &mut Vec<T>, order: &[usize])
    requires
        order_in_range(order@, old(values)@.len()),
    ensures
        final(values)@ == reordered(old(values)@, order@),
{
    let mut out: Vec<T> = Vec::new();
    let mut k: usize = 0;
    while k < order.len()
        invariant
            k <= order@.len(),
            order_in_range(order@, values@.len()),
            out@.len() == k,
            forall|j: int| 0 <= j < k ==> #[trigger] out@[j] == values@[order@[j] as int],
        decreases order@.len() - k,
    {
        let v = values[order[k]];
        out.push(v);
        k = k + 1;
    }
    proof {
        assert(out@ =~= reordered(values@, order@));
    }
    *values = out;
}

/// Replaces byte-string `values` by copies of `values` taken in `order`.
pub fn reorder_clone(values: &mut Vec<Vec<u8>>, order: &[usize])
    requires
        order_in_range(order@, old(values)@.len()),
    ensures
        byte_strings(final(values)@) == reordered(byte_strings(old(values)@), order@),
{
    let mut out: Vec<Vec<u8>> = Vec::new();
    let mut k: usize = 0;
    while k < order.len()
        invariant
            k <= order@.len(),
            order_in_range(order@, values@.len()),
            out@.len() == k,
            forall|j: int| 0 <= j < k ==> (#[trigger] out@[j])@ == values@[order@[j] as int]@,
        decreases order@.len() - k,
    {
        let v = slice_to_vec(values[order[k]].as_slice());
        out.push(v);
        k = k + 1;
    }
    proof {
        assert(byte_strings(out@) =~= reordered(byte_strings(values@), order@));
    }
    *values = out;
}

impl MaterializedValues {
    /// Reorders (or selects) the rows by `order`.
    pub fn reorder(&mut self, order: &[usize])
        requires
            order_in_range(order@, view_rows(old(self)@)),
        ensures
            final(self)@ == match old(self)@ {
                MaterializedView::Boolean(v) => MaterializedView::Boolean(reordered(v, order@)),
                MaterializedView::FileCode(v) => MaterializedView::FileCode(reordered(v, order@)),
                MaterializedView::NumCode(v) => MaterializedView::NumCode(reordered(v, order@)),
                MaterializedView::VarBytes(v) => MaterializedView::VarBytes(reordered(v, order@)),
                MaterializedView::FixedBytes { width, values } => MaterializedView::FixedBytes {
                    width,
                    values: reordered(values, order@),
                },
            },
    {
        match self {
            MaterializedValues::Boolean(values) => reorder_copy(values, order),
            MaterializedValues::FileCode(values) => reorder_copy(values, order),
            MaterializedValues::NumCode(values) => reorder_copy(values, order),
            MaterializedValues::VarBytes(values) => reorder_clone(values, order),
            MaterializedValues::FixedBytes { values, .. } => reorder_clone(values, order),
        }
    }
}

/// The number of entries of `s` that do not occur earlier in `s`.
pub open spec fn distinct_count(s: Seq<u64>) -> nat
    decreases s.len(),
{
    if s.len() == 0 {
        0
    } else {
        distinct_count(s.drop_last()) + if s.drop_last().contains(s.last()) {
            0nat
        } else {
            1nat
        }
    }
}

proof fn lemma_distinct_count_bound(s: Seq<u64>)
    ensures
        distinct_count(s) <= s.len(),
    decreases s.len(),
{
    if s.len() > 0 {
        lemma_distinct_count_bound(s.drop_last());
    }
}

/// The number of distinct values; `ArithOverflow` above `u32::MAX`.
pub fn distinct_len(values: &[u64]) -> (res: Result<u32, CoveError>)
    ensures
        distinct_count(values@) <= u32::MAX ==> res == Ok::<u32, CoveError>(
            distinct_count(values@) as u32,
        ),
        distinct_count(values@) > u32::MAX ==> fails_with(res, ErrorCode::ArithOverflow),
{
    let mut count: usize = 0;
    let mut i: usize = 0;
    while i < values.len()
        invariant
            i <= values@.len(),
            count == distinct_count(values@.take(i as int)),
        decreases values@.len() - i,
    {
        let ghost prefix = values@.take(i as int);
        let mut seen = false;
        let mut j: usize = 0;
        while j < i
            invariant
                j <= i,
                i < values@.len(),
                prefix == values@.take(i as int),
                seen == exists|k: int| 0 <= k < j && prefix[k] == values@[i as int],
            decreases i - j,
        {
            assert(prefix[j as int] == values@[j as int]);
            if values[j] == values[i] {
                seen = true;
            }
            j = j + 1;
        }
        proof {
            assert(values@.take(i + 1).drop_last() =~= prefix);
            assert(values@.take(i + 1).last() == values@[i as int]);
            if seen {
                let k = choose|k: int| 0 <= k < i && prefix[k] == values@[i as int];
                assert(prefix.contains(values@[i as int]));
            } else {
                assert(!prefix.contains(values@[i as int]));
            }
            lemma_distinct_count_bound(values@.take(i + 1));
        }
        if !seen {
            count = count + 1;
        }
        i = i + 1;
    }
    assert(values@.take(values@.len() as int) =~= values@);
    if count > u32::MAX as usize {
        return Err(CoveError::ArithOverflow);
    }
    Ok(count as u32)
}

/// The number of maximal runs of equal adjacent values.
pub open spec fn run_count(s: Seq<u64>) -> nat
    decreases s.len(),
{
    if s.len() == 0 {
        0
    } else if s.len() == 1 {
        1
    } else {
        run_count(s.drop_last()) + if s[s.len() - 2] != s.last() {
            1nat
        } else {
            0nat
        }
    }
}

proof fn lemma_run_count_bound(s: Seq<u64>)
    ensures
        run_count(s) <= s.len(),
    decreases s.len(),
{
    if s.len() > 1 {
        lemma_run_count_bound(s.drop_last());
    }
}

/// The number of runs of equal adjacent values; `ArithOverflow` above
/// `u32::MAX`.
pub fn run_count_u32(values: &[u64]) -> (res: Result<u32, CoveError>)
    ensures
        run_count(values@) <= u32::MAX ==> res == Ok::<u32, CoveError>(run_count(values@) as u32),
        run_count(values@) > u32::MAX ==> fails_with(res, ErrorCode::ArithOverflow),
{
    let mut runs: u32 = 0;
    let mut i: usize = 0;
    while i < values.len()
        invariant
            i <= values@.len(),
            runs == run_count(values@.take(i as int)),
        decreases values@.len() - i,
    {
        proof {
            assert(values@.take(i + 1).drop_last() =~= values@.take(i as int));
            lemma_run_count_bound(values@.take(i + 1));
        }
        if i == 0 || values[i - 1] != values[i] {
            if runs == u32::MAX {
                proof {
                    lemma_run_count_mono(values@, i + 1, values@.len() as int);
                    assert(values@.take(values@.len() as int) =~= values@);
                }
                return Err(CoveError::ArithOverflow);
            }
            runs = runs + 1;
        }
        i = i + 1;
    }
    assert(values@.take(values@.len() as int) =~= values@);
    Ok(runs)
}

proof fn lemma_run_count_mono(s: Seq<u64>, i: int, j: int)
    requires
        0 <= i <= j <= s.len(),
    ensures
        run_count(s.take(i)) <= run_count(s.take(j)),
    decreases j - i,
{
    if i < j {
        lemma_run_count_mono(s, i, j - 1);
        assert(s.take(j).drop_last() =~= s.take(j - 1));
    }
}

/// The size of a VarBytes payload: each value after a four-byte length;
/// `BadSchema` for other layouts, `ArithOverflow` when it overflows.
pub fn varbytes_payload_len(values: &MaterializedValues) -> (res: Result<usize, CoveError>)
    ensures
        match values@ {
            MaterializedView::VarBytes(v) => if framed_len(v) <= usize::MAX {
                res == Ok::<usize, CoveError>(framed_len(v) as usize)
            } else {
                fails_with(res, ErrorCode::ArithOverflow)
            },
            _ => fails_with(res, ErrorCode::BadSchema),
        },
{
    let items = match values {
        MaterializedValues::VarBytes(v) => v,
        _ => {
            return Err(
                CoveError::BadSchema(text("expected VarBytes column for dictionary sizing")),
            )
        },
    };
    let ghost rows = byte_strings(items@);
    let mut total: usize = 0;
    let mut i: usize = 0;
    while i < items.len()
        invariant
            i <= items@.len(),
            rows == byte_strings(items@),
            values@ == MaterializedView::VarBytes(rows),
            total == framed_len(rows.take(i as int)),
        decreases items@.len() - i,
    {
        assert(rows.take(i + 1).drop_last() =~= rows.take(i as int));
        assert(rows[i as int] == items@[i as int]@);
        let next = match total.checked_add(4) {
            Some(t) => match t.checked_add(items[i].len()) {
                Some(t2) => t2,
                None => {
                    proof {
                        lemma_framed_len_mono(rows, i + 1);
                        assert(rows.take(rows.len() as int) =~= rows);
                    }
                    return Err(CoveError::ArithOverflow);
                },
            },
            None => {
                proof {
                    lemma_framed_len_mono(rows, i + 1);
                    assert(rows.take(rows.len() as int) =~= rows);
                }
                return Err(CoveError::ArithOverflow);
            },
        };
        total = next;
        i = i + 1;
    }
    assert(rows.take(items@.len() as int) =~= rows);
    Ok(total)
}

// ---------------------------------------------------------------------------
// Source null flags
// ---------------------------------------------------------------------------

/// Whether row `row` is null; rows past the flags are not.
pub open spec fn flag_null(nulls: Seq<bool>, row: int) -> bool {
    0 <= row < nulls.len() && nulls[row]
}

/// Whether source row `row` is null; rows past the flags are not null.
pub fn is_null_row(nulls: &[bool], row: usize) -> (res: bool)
    ensures
        res == flag_null(nulls@, row as int),
{
    if row < nulls.len() {
        nulls[row]
    } else {
        false
    }
}

/// The number of null flags among `s`.
pub open spec fn null_flags(s: Seq<bool>) -> nat
    decreases s.len(),
{
    if s.len() == 0 {
        0
    } else {
        null_flags(s.drop_last()) + if s.last() {
            1nat
        } else {
            0nat
        }
    }
}

/// The number of null rows in `[start, start + len)`: `ArithOverflow` when
/// the end overflows, `BadSchema` when it lies past the flags.
pub fn null_count_range(nulls: &[bool], start: usize, len: usize) -> (res: Result<
    usize,
    CoveError,
>)
    ensures
        start + len > usize::MAX ==> fails_with(res, ErrorCode::ArithOverflow),
        start + len <= usize::MAX && start + len > nulls@.len() ==> fails_with(
            res,
            ErrorCode::BadSchema,
        ),
        start + len <= nulls@.len() ==> res == Ok::<usize, CoveError>(
            null_flags(nulls@.subrange(start as int, start + len)) as usize,
        ),
{
    let available = nulls.len();
    let end = match start.checked_add(len) {
        Some(e) => e,
        None => return Err(CoveError::ArithOverflow),
    };
    if end > available {
        return Err(CoveError::BadSchema(text("null bitmap range exceeds column rows")));
    }
    let ghost flags = nulls@.subrange(start as int, end as int);
    let mut count: usize = 0;
    let mut i: usize = start;
    while i < end
        invariant
            start <= i <= end,
            end <= nulls@.len(),
            flags == nulls@.subrange(start as int, end as int),
            count == null_flags(flags.take(i - start)),
            count <= i - start,
        decreases end - i,
    {
        assert(flags.take(i + 1 - start).drop_last() =~= flags.take(i - start));
        if nulls[i] {
            count = count + 1;
        }
        i = i + 1;
    }
    assert(flags.take(len as int) =~= flags);
    Ok(count)
}

/// The non-null rows of `[start, start + len)`, in order.
pub open spec fn non_null_rows(nulls: Seq<bool>, start: int, n: nat) -> Seq<int>
    decreases n,
{
    if n == 0 {
        Seq::empty()
    } else if flag_null(nulls, start + n - 1) {
        non_null_rows(nulls, start, (n - 1) as nat)
    } else {
        non_null_rows(nulls, start, (n - 1) as nat).push(start + n - 1)
    }
}

/// The non-null rows of `[start, start + len)`, in order; errors as
/// [`null_count_range`].
pub fn non_null_indices(nulls: &[bool], start: usize, len: usize) -> (res: Result<
    Vec<usize>,
    CoveError,
>)
    ensures
        start + len > usize::MAX ==> fails_with(res, ErrorCode::ArithOverflow),
        start + len <= usize::MAX && start + len > nulls@.len() ==> fails_with(
            res,
            ErrorCode::BadSchema,
        ),
        start + len <= nulls@.len() ==> (res matches Ok(v) && v@.len() == non_null_rows(
            nulls@,
            start as int,
            len as nat,
        ).len() && forall|k: int|
            0 <= k < v@.len() ==> #[trigger] v@[k] as int == non_null_rows(
                nulls@,
                start as int,
                len as nat,
            )[k]),
{
    let available = nulls.len();
    let end = match start.checked_add(len) {
        Some(e) => e,
        None => return Err(CoveError::ArithOverflow),
    };
    if end > available {
        return Err(CoveError::BadSchema(text("null bitmap range exceeds column rows")));
    }
    let mut out: Vec<usize> = Vec::new();
    let mut i: usize = start;
    while i < end
        invariant
            start <= i <= end,
            end == start + len,
            out@.len() == non_null_rows(nulls@, start as int, (i - start) as nat).len(),
            forall|k: int|
                0 <= k < out@.len() ==> #[trigger] out@[k] as int == non_null_rows(
                    nulls@,
                    start as int,
                    (i - start) as nat,
                )[k],
        decreases end - i,
    {
        if !is_null_row(nulls, i) {
            out.push(i);
        }
        i = i + 1;
    }
    Ok(out)
}

/// The COVE null bitmap of rows `[start, start + len)` of the source flags.
pub fn validity_bytes(nulls: &[bool], start: usize, len: usize) -> (res: Result<
    Vec<u8>,
    CoveError,
>)
    requires
        start + len <= usize::MAX,
    ensures
        res matches Ok(b) ==> b@.len() == crate::validity::bitmap_bytes(len as int) && (forall|
            r: int,
        | 0 <= r < len ==> #[trigger] crate::validity::bit_at(b@, r) == flag_null(
            nulls@,
            start + r,
        )) && (forall|r: int|
            len <= r < 8 * b@.len() ==> !#[trigger] crate::validity::bit_at(b@, r)),
        crate::validity::bitmap_bytes(len as int) <= usize::MAX ==> res is Ok,
{
    let mut builder = match crate::validity::ValidityBitmapBuilder::new(len as u64) {
        Ok(b) => b,
        Err(e) => return Err(e),
    };
    let mut r: usize = 0;
    while r < len
        invariant
            r <= len,
            start + len <= usize::MAX,
            builder.row_count() == len,
            builder.bytes().len() == crate::validity::bitmap_bytes(len as int),
            forall|q: int|
                0 <= q < 8 * builder.bytes().len() ==> #[trigger] crate::validity::bit_at(
                    builder.bytes(),
                    q,
                ) == (q < r && flag_null(nulls@, start + q)),
        decreases len - r,
    {
        if is_null_row(nulls, start + r) {
            let ghost before = builder.bytes();
            match builder.set_null(r as u64) {
                Ok(()) => {},
                Err(e) => return Err(e),
            }
        }
        r = r + 1;
    }
    Ok(builder.into_bytes())
}

// ---------------------------------------------------------------------------
// Index keys
// ---------------------------------------------------------------------------

/// The domain of a column's index keys.
#[derive(Debug, Clone, Copy, PartialEq, Eq, Structural)]
pub enum IndexKeyKind {
    FileCode,
    NumCode,
}

/// The key domain of a column's values: NumCodes for booleans and NumCode
/// columns, FileCodes for FileCode columns, none for byte columns.
pub open spec fn spec_key_kind(m: MaterializedView) -> Option<IndexKeyKind> {
    match m {
        MaterializedView::Boolean(_) | MaterializedView::NumCode(_) => Some(IndexKeyKind::NumCode),
        MaterializedView::FileCode(_) => Some(IndexKeyKind::FileCode),
        _ => None,
    }
}

/// The index key of row `row`: `None` for a null row, a row past the
/// values or a byte column; a boolean's key is 1 or 0.
pub open spec fn spec_key(m: MaterializedView, nulls: Seq<bool>, row: int) -> Option<(u64, IndexKeyKind)> {
    if flag_null(nulls, row) || row < 0 || row >= view_rows(m) {
        None
    } else {
        match m {
            MaterializedView::Boolean(v) => Some(
                (if v[row] != 0 { 1u64 } else { 0u64 }, IndexKeyKind::NumCode),
            ),
            MaterializedView::FileCode(v) => Some((v[row] as u64, IndexKeyKind::FileCode)),
            MaterializedView::NumCode(v) => Some((v[row], IndexKeyKind::NumCode)),
            _ => None,
        }
    }
}

/// The key domain of a column's values.
pub fn key_kind(values: &MaterializedValues) -> (res: Option<IndexKeyKind>)
    ensures
        res == spec_key_kind(values@),
{
    match values {
        MaterializedValues::Boolean(_) | MaterializedValues::NumCode(_) => Some(IndexKeyKind::NumCode),
        MaterializedValues::FileCode(_) => Some(IndexKeyKind::FileCode),
        _ => None,
    }
}

/// The index key of row `row` (see [`spec_key`]).
pub fn key_u64(values: &MaterializedValues, nulls: &[bool], row: usize) -> (res: Option<
    (u64, IndexKeyKind),
>)
    ensures
        res == spec_key(values@, nulls@, row as int),
{
    if is_null_row(nulls, row) {
        return None;
    }
    match values {
        MaterializedValues::Boolean(v) => if row < v.len() {
            Some((if v[row] != 0 { 1u64 } else { 0u64 }, IndexKeyKind::NumCode))
        } else {
            None
        },
        MaterializedValues::FileCode(v) => if row < v.len() {
            Some((v[row] as u64, IndexKeyKind::FileCode))
        } else {
            None
        },
        MaterializedValues::NumCode(v) => if row < v.len() {
            Some((v[row], IndexKeyKind::NumCode))
        } else {
            None
        },
        _ => None,
    }
}

/// The bytes a bloom filter hashes for row `row`, with their domain: a
/// FileCode as four little-endian bytes, a NumCode as eight.
pub fn key_bytes_for_bloom(values: &MaterializedValues, nulls: &[bool], row: usize) -> (res: Option<
    (Vec<u8>, IndexKeyKind),
>)
    ensures
        match spec_key(values@, nulls@, row as int) {
            None => res is None,
            Some((key, IndexKeyKind::FileCode)) => (res matches Some((b, k)) && k
                == IndexKeyKind::FileCode && b@ == u32_le_bytes(key as u32)),
            Some((key, IndexKeyKind::NumCode)) => (res matches Some((b, k)) && k
                == IndexKeyKind::NumCode && b@ == u64_le_bytes(key)),
        },
{
    let (key, kind) = match key_u64(values, nulls, row) {
        Some(k) => k,
        None => return None,
    };
    match kind {
        IndexKeyKind::FileCode => {
            let mut b: Vec<u8> = Vec::new();
            push_u32_le(&mut b, key as u32);
            Some((b, IndexKeyKind::FileCode))
        },
        IndexKeyKind::NumCode => {
            let mut b: Vec<u8> = Vec::new();
            push_u64_le(&mut b, key);
            Some((b, IndexKeyKind::NumCode))
        },
    }
}

/// The key of row `row` alone (see [`spec_key`]).
pub open spec fn key_value(m: MaterializedView, nulls: Seq<bool>, row: int) -> Option<u64> {
    match spec_key(m, nulls, row) {
        Some((k, _)) => Some(k),
        None => None,
    }
}

/// Whether `s` strictly ascends, so holds no value twice.
pub open spec fn strictly_ascending(s: Seq<u64>) -> bool {
    forall|i: int, j: int| 0 <= i < j < s.len() ==> s[i] < s[j]
}

/// Inserts `key` into ascending `keys` unless it is there already.
#[verifier::spinoff_prover]
fn insert_sorted(keys: &mut Vec<u64>, key: u64)
    requires
        strictly_ascending(old(keys)@),
    ensures
        strictly_ascending(final(keys)@),
        forall|k: u64| final(keys)@.contains(k) <==> (old(keys)@.contains(k) || k == key),
{
    let mut i: usize = 0;
    while i < keys.len() && keys[i] < key
        invariant
            keys@ == old(keys)@,
            strictly_ascending(keys@),
            i <= keys@.len(),
            forall|j: int| 0 <= j < i ==> keys@[j] < key,
        decreases keys@.len() - i,
    {
        i = i + 1;
    }
    if i < keys.len() && keys[i] == key {
        assert(keys@[i as int] == key);
        assert(keys@.contains(key));
        return;
    }
    let ghost before = keys@;
    keys.insert(i, key);
    assert forall|a: int, b: int| 0 <= a < b < keys@.len() implies keys@[a] < keys@[b] by {
        if b < i {
        } else if a < i && b == i {
        } else if a < i {
            assert(keys@[b] == before[b - 1]);
        } else if a == i {
            assert(keys@[b] == before[b - 1]);
            assert(before[i as int] >= key);
            assert(i < before.len() ==> before[i as int] != key);
            if b - 1 > i {
                assert(before[i as int] < before[b - 1]);
            }
        } else {
            assert(keys@[a] == before[a - 1]);
            assert(keys@[b] == before[b - 1]);
        }
    }
    assert forall|k: u64| #[trigger] keys@.contains(k) <==> (before.contains(k) || k == key) by {
        if keys@.contains(k) {
            let j = choose|j: int| 0 <= j < keys@.len() && keys@[j] == k;
            if j < i {
                assert(before[j] == k);
            } else if j > i {
                assert(before[j - 1] == k);
            }
        }
        if k == key {
            assert(keys@[i as int] == key);
        } else if before.contains(k) {
            let j = choose|j: int| 0 <= j < before.len() && before[j] == k;
            if j < i {
                assert(keys@[j] == k);
            } else {
                assert(keys@[j + 1] == k);
            }
        }
    }
    assert(before == old(keys)@);
}

/// The distinct keys of a column's non-null rows, ascending; none for a
/// byte column.
pub fn column_unique_keys(values: &MaterializedValues, nulls: &[bool]) -> (res: Vec<u64>)
    ensures
        strictly_ascending(res@),
        forall|k: u64|
            res@.contains(k) <==> exists|r: int|
                0 <= r < view_rows(values@) && #[trigger] key_value(values@, nulls@, r) == Some(k),
{
    let n = values.row_count();
    let mut keys: Vec<u64> = Vec::new();
    let mut r: usize = 0;
    while r < n
        invariant
            n == view_rows(values@),
            r <= n,
            strictly_ascending(keys@),
            forall|k: u64|
                keys@.contains(k) <==> exists|q: int|
                    0 <= q < r && #[trigger] key_value(values@, nulls@, q) == Some(k),
        decreases n - r,
    {
        if !is_null_row(nulls, r) {
            match key_u64(values, nulls, r) {
                None => {
                    let none: Vec<u64> = Vec::new();
                    assert(spec_key_kind(values@) is None);
                    assert forall|q: int| 0 <= q < view_rows(values@) implies #[trigger] key_value(
                        values@,
                        nulls@,
                        q,
                    ) is None by {}
                    return none;
                },
                Some((key, _)) => {
                    let ghost before = keys@;
                    insert_sorted(&mut keys, key);
                    assert forall|k: u64|
                        keys@.contains(k) <==> exists|q: int|
                            0 <= q < r + 1 && #[trigger] key_value(values@, nulls@, q) == Some(k) by {
                        if keys@.contains(k) && k == key {
                            assert(key_value(values@, nulls@, r as int) == Some(k));
                        }
                        if exists|q: int| 0 <= q < r + 1 && #[trigger] key_value(values@, nulls@, q) == Some(k) {
                            let q = choose|q: int| 0 <= q < r + 1 && #[trigger] key_value(values@, nulls@, q) == Some(k);
                            if q < r {
                                assert(before.contains(k));
                            }
                        }
                    }
                },
            }
        } else {
            assert forall|k: u64|
                keys@.contains(k) <==> exists|q: int|
                    0 <= q < r + 1 && #[trigger] key_value(values@, nulls@, q) == Some(k) by {
                if exists|q: int| 0 <= q < r + 1 && #[trigger] key_value(values@, nulls@, q) == Some(k) {
                    let q = choose|q: int| 0 <= q < r + 1 && #[trigger] key_value(values@, nulls@, q) == Some(k);
                    assert(q != r);
                }
            }
        }
        r = r + 1;
    }
    keys
}

// ---------------------------------------------------------------------------
// Declared columns
// ---------------------------------------------------------------------------

/// The message rejecting an option that names an unknown column.
pub open spec fn unknown_column_message(label: Seq<char>, name: Seq<char>) -> Seq<char> {
    label + " option references unknown column '"@ + name + "'"@
}

pub(crate) fn has_column(columns: &[String], name: &str) -> (res: bool)
    ensures
        res == strings_view(columns@).contains(name@),
{
    let mut k: usize = 0;
    while k < columns.len()
        invariant
            k <= columns@.len(),
            forall|j: int| 0 <= j < k ==> (#[trigger] columns@[j])@ != name@,
        decreases columns@.len() - k,
    {
        if str_eq(columns[k].as_str(), name) {
            assert(strings_view(columns@)[k as int] == name@);
            return true;
        }
        k = k + 1;
    }
    assert forall|j: int| 0 <= j < strings_view(columns@).len() implies strings_view(columns@)[j]
        != name@ by {
        assert(strings_view(columns@)[j] == columns@[j]@);
    }
    false
}

/// Checks that every column an option declares exists, in the order the
/// names are given: `BadSchema` naming the first unknown one, after the
/// option's `label`.
pub fn validate_declared_columns(columns: &[String], declared: &[String], label: &str) -> (res:
    Result<(), CoveError>)
    ensures
        res is Ok <==> forall|i: int|
            0 <= i < declared@.len() ==> strings_view(columns@).contains(#[trigger] declared@[i]@),
        res is Err ==> exists|i: int|
            0 <= i < declared@.len() && !strings_view(columns@).contains(#[trigger] declared@[i]@)
                && (forall|j: int| 0 <= j < i ==> strings_view(columns@).contains(declared@[j]@))
                && (res matches Err(CoveError::BadSchema(m)) && m@ == unknown_column_message(
                label@,
                declared@[i]@,
            )),
{
    let mut k: usize = 0;
    while k < declared.len()
        invariant
            k <= declared@.len(),
            forall|j: int| 0 <= j < k ==> strings_view(columns@).contains(#[trigger] declared@[j]@),
        decreases declared@.len() - k,
    {
        if !has_column(columns, declared[k].as_str()) {
            let message = concat(
                concat(concat(label, " option references unknown column '").as_str(), declared[k].as_str()).as_str(),
                "'",
            );
            return Err(CoveError::BadSchema(message));
        }
        k = k + 1;
    }
    Ok(())
}

// ---------------------------------------------------------------------------
// Page plans
// ---------------------------------------------------------------------------

/// How a page's rows stand as to nulls.
#[derive(Debug, Clone, Copy, PartialEq, Eq, Structural)]
pub enum PageNulls {
    /// No row is null: the payload holds the values alone.
    NoNulls,
    /// Every row is null.
    AllNulls,
    /// Some rows are null.
    SomeNulls,
}

/// One page of a column: its rows, how it is compressed and encoded, its
/// non-null and null counts and its payload (the null bitmap, when any row
/// is null, then the rows' values).
#[derive(Debug, Clone, PartialEq, Eq)]
pub struct PagePlan {
    pub row_count: u32,
    pub payload: Vec<u8>,
    pub compression: CompressionCodec,
    pub encoding: CoveEncodingKind,
    pub non_null_count: u32,
    pub null_count: u32,
    pub nulls: PageNulls,
}

/// The abstract content of a [`PagePlan`].
pub struct PagePlanView {
    pub row_count: u32,
    pub payload: Seq<u8>,
    pub compression: CompressionCodec,
    pub encoding: CoveEncodingKind,
    pub non_null_count: u32,
    pub null_count: u32,
    pub nulls: PageNulls,
}

impl View for PagePlan {
    type V = PagePlanView;

    open spec fn view(&self) -> PagePlanView {
        PagePlanView {
            row_count: self.row_count,
            payload: self.payload@,
            compression: self.compression,
            encoding: self.encoding,
            non_null_count: self.non_null_count,
            null_count: self.null_count,
            nulls: self.nulls,
        }
    }
}

/// The null flags of rows `[start, start + len)`.
pub open spec fn range_nulls(nulls: Seq<bool>, start: int, len: int) -> Seq<bool> {
    nulls.subrange(start, start + len)
}

/// Whether `p` is the page of rows `[start, start + len)`: its counts, its
/// null state, and a payload that is the rows' encoding alone when no row
/// is null, else a null bitmap of the rows (a set bit for a null row, the
/// padding clear) followed by the rows' encoding.
pub open spec fn page_matches(
    p: PagePlanView,
    m: MaterializedView,
    nulls: Seq<bool>,
    compression: CompressionCodec,
    encoding: CoveEncodingKind,
    start: int,
    len: int,
) -> bool {
    let physical = spec_encode_rows(m, start, len)->Ok_0;
    let n = null_flags(range_nulls(nulls, start, len));
    let b = crate::validity::bitmap_bytes(len);
    &&& p.row_count == len
    &&& p.compression == compression
    &&& p.encoding == encoding
    &&& p.null_count == n
    &&& p.non_null_count == len - n
    &&& p.nulls == (if n == 0 {
        PageNulls::NoNulls
    } else if n == len {
        PageNulls::AllNulls
    } else {
        PageNulls::SomeNulls
    })
    &&& if n == 0 {
        p.payload == physical
    } else {
        &&& p.payload.len() == b + physical.len()
        &&& p.payload.subrange(b, p.payload.len() as int) == physical
        &&& forall|r: int|
            0 <= r < len ==> #[trigger] crate::validity::bit_at(p.payload.subrange(0, b), r)
                == flag_null(nulls, start + r)
        &&& forall|r: int|
            len <= r < 8 * b ==> !#[trigger] crate::validity::bit_at(p.payload.subrange(0, b), r)
    }
}

/// The failure of building the page of rows `[start, start + len)`: the
/// rows' encoding fails, or the bitmap and the encoding together do not fit.
pub open spec fn page_fault(m: MaterializedView, nulls: Seq<bool>, start: int, len: int) -> Option<ErrorCode> {
    match spec_encode_rows(m, start, len) {
        Err(e) => Some(e),
        Ok(physical) => if null_flags(range_nulls(nulls, start, len)) != 0
            && crate::validity::bitmap_bytes(len) + physical.len() > usize::MAX {
            Some(ErrorCode::ArithOverflow)
        } else {
            None
        },
    }
}

/// The first failure among the pages of `step` rows from `start` to `end`.
pub open spec fn pages_fault(m: MaterializedView, nulls: Seq<bool>, start: int, end: int, step: int) -> Option<
    ErrorCode,
>
    decreases end - start,
{
    if start >= end || step <= 0 {
        None
    } else {
        let len = if end - start < step {
            end - start
        } else {
            step
        };
        match page_fault(m, nulls, start, len) {
            Some(e) => Some(e),
            None => pages_fault(m, nulls, start + len, end, step),
        }
    }
}

/// The length of page `j` of `count` rows cut every `step` rows.
pub open spec fn page_len_at(count: int, step: int, j: int) -> int {
    if count - j * step < step {
        count - j * step
    } else {
        step
    }
}

/// Whether `pages` are the pages of rows `[row_start, row_start + count)`
/// cut every `step` rows: just enough of them to cover the rows, page `j`
/// being the page of the rows from `row_start + j * step` (see
/// [`page_matches`]).
pub open spec fn plans_cover(
    pages: Seq<PagePlanView>,
    m: MaterializedView,
    nulls: Seq<bool>,
    compression: CompressionCodec,
    encoding: CoveEncodingKind,
    row_start: int,
    count: int,
    step: int,
) -> bool {
    &&& pages.len() * step >= count
    &&& (pages.len() - 1) * step < count
    &&& forall|j: int|
        0 <= j < pages.len() ==> page_matches(
            #[trigger] pages[j],
            m,
            nulls,
            compression,
            encoding,
            row_start + j * step,
            page_len_at(count, step, j),
        )
}

proof fn lemma_null_flags_bound(s: Seq<bool>)
    ensures
        null_flags(s) <= s.len(),
    decreases s.len(),
{
    if s.len() > 0 {
        lemma_null_flags_bound(s.drop_last());
    }
}

/// The pages of rows `[row_start, row_start + row_count)` of a column, each
/// of `morsel_row_count` rows but the last. A zero page size, a range past
/// the column's rows, or null flags that disagree in count with the values
/// are `BadSchema`; a range end past `usize::MAX` is `ArithOverflow`; an
/// empty range has no pages. Otherwise page `j` starts at row
/// `row_start + j * morsel_row_count` (see [`page_matches`]), and the first
/// page that cannot be built (see [`page_fault`]) is the error.
#[verifier::rlimit(60)]
pub fn page_specs_range(
    column_name: &str,
    values: &MaterializedValues,
    nulls: &[bool],
    encoding: CoveEncodingKind,
    row_start: usize,
    row_count: usize,
    morsel_row_count: u32,
    compression: CompressionCodec,
) -> (res: Result<Vec<PagePlan>, CoveError>)
    ensures
        morsel_row_count == 0 ==> fails_with(res, ErrorCode::BadSchema),
        morsel_row_count > 0 && row_start + row_count > usize::MAX ==> fails_with(
            res,
            ErrorCode::ArithOverflow,
        ),
        morsel_row_count > 0 && row_start + row_count <= usize::MAX && row_start + row_count
            > view_rows(values@) ==> fails_with(res, ErrorCode::BadSchema),
        morsel_row_count > 0 && row_start + row_count <= view_rows(values@) && row_count == 0 ==> (
        res matches Ok(pages) && pages@.len() == 0),
        morsel_row_count > 0 && row_start + row_count <= view_rows(values@) && row_count > 0
            && nulls@.len() != view_rows(values@) ==> fails_with(res, ErrorCode::BadSchema),
        morsel_row_count > 0 && row_start + row_count <= view_rows(values@) && row_count > 0
            && nulls@.len() == view_rows(values@) ==> match pages_fault(
            values@,
            nulls@,
            row_start as int,
            row_start + row_count,
            morsel_row_count as int,
        ) {
            Some(e) => fails_with(res, e),
            None => (res matches Ok(pages) && plans_cover(
                pages@.map_values(|p: PagePlan| p@),
                values@,
                nulls@,
                compression,
                encoding,
                row_start as int,
                row_count as int,
                morsel_row_count as int,
            )),
        },
{
    if morsel_row_count == 0 {
        return Err(CoveError::BadSchema(text("morsel_row_count must be greater than zero")));
    }
    let total_rows = values.row_count();
    if row_start > usize::MAX - row_count {
        return Err(CoveError::ArithOverflow);
    }
    let row_end = row_start + row_count;
    if row_end > total_rows {
        return Err(
            CoveError::BadSchema(
                concat(
                    concat("column '", column_name).as_str(),
                    "' page range exceeds materialized rows",
                ),
            ),
        );
    }
    let mut pages: Vec<PagePlan> = Vec::new();
    if row_count == 0 {
        return Ok(pages);
    }
    if nulls.len() != total_rows {
        return Err(
            CoveError::BadSchema(
                concat(
                    concat("column '", column_name).as_str(),
                    "' materialized row/null counts diverged",
                ),
            ),
        );
    }
    let step = morsel_row_count as usize;
    let ghost m = values@;
    let ghost fs = nulls@;
    let mut start = row_start;
    assert(pages@.len() * step == 0) by (nonlinear_arith)
        requires
            pages@.len() == 0,
    ;
    while start < row_end
        invariant
            m == values@,
            fs == nulls@,
            step == morsel_row_count,
            step > 0,
            row_end == row_start + row_count,
            row_end <= view_rows(m),
            nulls@.len() == view_rows(m),
            row_count > 0,
            row_start <= start <= row_end,
            start == (if pages@.len() * step < row_count {
                row_start + pages@.len() * step
            } else {
                row_end as int
            }),
            pages@.len() == 0 || (pages@.len() - 1) * step < row_count,
            pages_fault(m, fs, row_start as int, row_end as int, step as int) == pages_fault(
                m,
                fs,
                start as int,
                row_end as int,
                step as int,
            ),
            forall|j: int|
                0 <= j < pages@.len() ==> page_matches(
                    (#[trigger] pages@[j])@,
                    m,
                    fs,
                    compression,
                    encoding,
                    row_start + j * step,
                    page_len_at(row_count as int, step as int, j),
                ),
        decreases row_end - start,
    {
        let len = if row_end - start < step {
            row_end - start
        } else {
            step
        };
        let ghost k = pages@.len() as int;
        assert(row_count - k * step == row_end - start);
        let physical = match values.encode_rows(start, len) {
            Ok(p) => p,
            Err(e) => return Err(e),
        };
        let null_count = match null_count_range(nulls, start, len) {
            Ok(n) => n,
            Err(e) => return Err(e),
        };
        proof {
            lemma_null_flags_bound(range_nulls(fs, start as int, len as int));
        }
        let page = if null_count == 0 {
            PagePlan {
                row_count: len as u32,
                payload: physical,
                compression,
                encoding,
                non_null_count: len as u32,
                null_count: 0,
                nulls: PageNulls::NoNulls,
            }
        } else {
            let mut payload = match validity_bytes(nulls, start, len) {
                Ok(b) => b,
                Err(e) => return Err(e),
            };
            if payload.len() > usize::MAX - physical.len() {
                return Err(CoveError::ArithOverflow);
            }
            let ghost bitmap = payload@;
            append_bytes(&mut payload, physical.as_slice());
            proof {
                assert(payload@.subrange(0, bitmap.len() as int) =~= bitmap);
                assert(payload@.subrange(bitmap.len() as int, payload@.len() as int) =~= physical@);
            }
            let state = if null_count == len {
                PageNulls::AllNulls
            } else {
                PageNulls::SomeNulls
            };
            PagePlan {
                row_count: len as u32,
                payload,
                compression,
                encoding,
                non_null_count: (len - null_count) as u32,
                null_count: null_count as u32,
                nulls: state,
            }
        };
        pages.push(page);
        proof {
            assert((k + 1) * step == k * step + step) by (nonlinear_arith);
            assert forall|j: int| 0 <= j < pages@.len() implies page_matches(
                (#[trigger] pages@[j])@,
                m,
                fs,
                compression,
                encoding,
                row_start + j * step,
                page_len_at(row_count as int, step as int, j),
            ) by {
                if j == k {
                    assert(pages@[j] == page);
                }
            }
        }
        start = start + len;
    }
    let ghost views = pages@.map_values(|p: PagePlan| p@);
    assert forall|j: int| 0 <= j < views.len() implies page_matches(
        #[trigger] views[j],
        m,
        fs,
        compression,
        encoding,
        row_start + j * step,
        page_len_at(row_count as int, step as int, j),
    ) by {
        assert(views[j] == pages@[j]@);
    }
    Ok(pages)
}

/// The number of rows a run of planned pages holds.
pub open spec fn planned_rows(pages: Seq<PagePlanView>) -> int
    decreases pages.len(),
{
    if pages.len() == 0 {
        0
    } else {
        planned_rows(pages.drop_last()) + pages.last().row_count
    }
}

proof fn lemma_full_pages(pages: Seq<PagePlanView>, count: int, step: int, i: int)
    requires
        step > 0,
        0 <= i < pages.len(),
        (pages.len() - 1) * step < count,
        forall|j: int| 0 <= j < pages.len() ==> (#[trigger] pages[j]).row_count == page_len_at(count, step, j),
    ensures
        planned_rows(pages.take(i)) == i * step,
    decreases i,
{
    if i == 0 {
        assert(0 * step == 0) by (nonlinear_arith);
        assert(pages.take(0).len() == 0);
    } else {
        lemma_full_pages(pages, count, step, i - 1);
        assert(pages.take(i).drop_last() =~= pages.take(i - 1));
        assert(pages.take(i).last() == pages[i - 1]);
        assert((i - 1) * step + step == i * step) by (nonlinear_arith);
        assert(i * step <= (pages.len() - 1) * step) by (nonlinear_arith)
            requires
                i <= pages.len() - 1,
                step > 0,
        ;
        assert(page_len_at(count, step, i - 1) == step);
    }
}

/// The pages planned for a range tile it: every page holds at least one
/// and at most `step` rows, and together they hold exactly the range's
/// `count` rows.
pub proof fn lemma_pages_tile_range(
    pages: Seq<PagePlanView>,
    m: MaterializedView,
    nulls: Seq<bool>,
    compression: CompressionCodec,
    encoding: CoveEncodingKind,
    row_start: int,
    count: int,
    step: int,
)
    requires
        step > 0,
        count > 0,
        plans_cover(pages, m, nulls, compression, encoding, row_start, count, step),
    ensures
        forall|j: int| 0 <= j < pages.len() ==> 1 <= (#[trigger] pages[j]).row_count <= step,
        planned_rows(pages) == count,
{
    let n = pages.len() as int;
    assert(n >= 1) by {
        if n == 0 {
            assert(n * step == 0) by (nonlinear_arith)
                requires
                    n == 0,
            ;
        }
    }
    assert forall|j: int| 0 <= j < n implies 1 <= (#[trigger] pages[j]).row_count <= step
        && pages[j].row_count == page_len_at(count, step, j) by {
        assert(page_matches(pages[j], m, nulls, compression, encoding, row_start + j * step, page_len_at(count, step, j)));
        assert(j * step <= (n - 1) * step) by (nonlinear_arith)
            requires
                j <= n - 1,
                step > 0,
        ;
    }
    lemma_full_pages(pages, count, step, n - 1);
    assert(pages.drop_last() =~= pages.take(n - 1));
    assert(n * step == (n - 1) * step + step) by (nonlinear_arith);
    assert(pages.last() == pages[n - 1]);
}

// ---------------------------------------------------------------------------
// NumCode statistics
// ---------------------------------------------------------------------------

/// The order key of a NumCode: its two's-complement value when `signed`,
/// else its unsigned value.
pub open spec fn code_key(x: u64, signed: bool) -> int {
    if signed {
        (x as i64) as int
    } else {
        x as int
    }
}

/// The least code of a non-empty run under [`code_key`].
pub open spec fn min_code(s: Seq<u64>, signed: bool) -> u64
    decreases s.len(),
{
    if s.len() <= 1 {
        s[0]
    } else {
        let m = min_code(s.drop_last(), signed);
        if code_key(s.last(), signed) < code_key(m, signed) {
            s.last()
        } else {
            m
        }
    }
}

/// The greatest code of a non-empty run under [`code_key`].
pub open spec fn max_code(s: Seq<u64>, signed: bool) -> u64
    decreases s.len(),
{
    if s.len() <= 1 {
        s[0]
    } else {
        let m = max_code(s.drop_last(), signed);
        if code_key(s.last(), signed) > code_key(m, signed) {
            s.last()
        } else {
            m
        }
    }
}

/// The codes of the listed rows, in list order.
pub open spec fn codes_at(values: Seq<u64>, rows: Seq<usize>) -> Seq<u64> {
    Seq::new(rows.len(), |k: int| values[rows[k] as int])
}

/// The statistics of the codes of the listed rows: least and greatest code
/// (compared as signed values when `signed`, as for timestamps), number of
/// distinct codes and number of runs of equal codes. No rows is `BadStats`;
/// counts past `u32::MAX` are `ArithOverflow`.
pub fn numcode_range_stats(values: &[u64], rows: &[usize], signed: bool) -> (res: Result<
    (u64, u64, u32, u32),
    CoveError,
>)
    requires
        forall|k: int| 0 <= k < rows@.len() ==> #[trigger] rows@[k] < values@.len(),
    ensures
        rows@.len() == 0 ==> fails_with(res, ErrorCode::BadStats),
        rows@.len() > 0 ==> ({
            let codes = codes_at(values@, rows@);
            if distinct_count(codes) > u32::MAX || run_count(codes) > u32::MAX {
                fails_with(res, ErrorCode::ArithOverflow)
            } else {
                res == Ok::<(u64, u64, u32, u32), CoveError>(
                    (
                        min_code(codes, signed),
                        max_code(codes, signed),
                        distinct_count(codes) as u32,
                        run_count(codes) as u32,
                    ),
                )
            }
        }),
{
    if rows.len() == 0 {
        return Err(CoveError::BadStats);
    }
    let ghost codes = codes_at(values@, rows@);
    let mut selected: Vec<u64> = Vec::new();
    let mut min = values[rows[0]];
    let mut max = min;
    let mut k: usize = 0;
    while k < rows.len()
        invariant
            rows@.len() > 0,
            codes == codes_at(values@, rows@),
            forall|q: int| 0 <= q < rows@.len() ==> #[trigger] rows@[q] < values@.len(),
            k <= rows@.len(),
            selected@ == codes.take(k as int),
            k > 0 ==> min == min_code(codes.take(k as int), signed),
            k > 0 ==> max == max_code(codes.take(k as int), signed),
            k == 0 ==> min == codes[0] && max == codes[0],
        decreases rows@.len() - k,
    {
        let v = values[rows[k]];
        let ghost next = codes.take(k + 1);
        assert(next.drop_last() =~= codes.take(k as int));
        assert(next.last() == v);
        if k == 0 {
            assert(next.len() == 1);
        } else {
            let less = if signed {
                (v as i64) < (min as i64)
            } else {
                v < min
            };
            if less {
                min = v;
            }
            let greater = if signed {
                (v as i64) > (max as i64)
            } else {
                v > max
            };
            if greater {
                max = v;
            }
        }
        selected.push(v);
        assert(selected@ =~= next);
        k = k + 1;
    }
    assert(codes.take(rows@.len() as int) =~= codes);
    let distinct = match distinct_len(selected.as_slice()) {
        Ok(d) => d,
        Err(e) => return Err(e),
    };
    let runs = match run_count_u32(selected.as_slice()) {
        Ok(r) => r,
        Err(e) => return Err(e),
    };
    Ok((min, max, distinct, runs))
}

} // verus!
