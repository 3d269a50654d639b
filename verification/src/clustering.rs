//! Stable clustering of the rows of a source: when the options ask for it,
//! the rows of every column are put in the order of the declared cluster
//! columns (nulls first, then by value), rows that compare equal keeping
//! their source order.
use vstd::prelude::*;

use crate::collation::{
    compare_bytes, flip, lemma_lex_antisymmetric, lex_order, order_of_ints, Ordering3,
};
use crate::constants::CoveLogicalType;
use crate::conversion::{
    order_in_range, reorder_copy, reordered, view_rows, MaterializedValues, MaterializedView,
    ParquetClusteringPolicy, ParquetConversionOptions,
};
use crate::error::CoveError;
use crate::source_columns::SourceColumnKind;
use crate::source_read::{columns_view, SourceColumn, SourceColumnView};
use crate::util::{concat, str_eq, text};

verus! {

/// The order of two integers, computed.
fn compare_ints(a: i128, b: i128) -> (res: Ordering3)
    ensures
        res == order_of_ints(a as int, b as int),
{
    if a < b {
        Ordering3::Less
    } else if a == b {
        Ordering3::Equal
    } else {
        Ordering3::Greater
    }
}

/// The key under which IEEE 754 single-precision bits (the low 32 bits of
/// a code) sort in total order: the bits themselves when the sign bit is
/// clear, otherwise their mirror below zero.
pub open spec fn f32_key(bits: u64) -> int {
    let u = bits % 0x1_0000_0000;
    if u >= 0x8000_0000 {
        0x7fff_ffff - u
    } else {
        u as int
    }
}

/// The key under which IEEE 754 double-precision bits sort in total order.
pub open spec fn f64_key(bits: u64) -> int {
    if bits >= 0x8000_0000_0000_0000 {
        0x7fff_ffff_ffff_ffff - bits
    } else {
        bits as int
    }
}

/// The order of two NumCodes of a column: signed integers, dates and
/// timestamps by their signed value, floats in IEEE 754 total order, other
/// codes as unsigned integers.
pub open spec fn numcode_order(kind: SourceColumnKind, logical: CoveLogicalType, l: u64, r: u64) -> Ordering3 {
    match logical {
        CoveLogicalType::Int8 | CoveLogicalType::Int16 | CoveLogicalType::Int32
        | CoveLogicalType::Int64 | CoveLogicalType::DateDays | CoveLogicalType::TimestampMicros
        | CoveLogicalType::TimestampNanos => order_of_ints(l as i64 as int, r as i64 as int),
        CoveLogicalType::Float32 => if kind == SourceColumnKind::Float32 {
            order_of_ints(f32_key(l), f32_key(r))
        } else {
            order_of_ints(l as int, r as int)
        },
        CoveLogicalType::Float64 => order_of_ints(f64_key(l), f64_key(r)),
        _ => order_of_ints(l as int, r as int),
    }
}

fn float32_key(bits: u64) -> (res: i128)
    ensures
        res as int == f32_key(bits),
{
    let u = bits % 0x1_0000_0000;
    if u >= 0x8000_0000 {
        0x7fff_ffff - u as i128
    } else {
        u as i128
    }
}

fn float64_key(bits: u64) -> (res: i128)
    ensures
        res as int == f64_key(bits),
{
    if bits >= 0x8000_0000_0000_0000 {
        0x7fff_ffff_ffff_ffff - bits as i128
    } else {
        bits as i128
    }
}

fn compare_numcodes(kind: SourceColumnKind, logical: CoveLogicalType, l: u64, r: u64) -> (res:
    Ordering3)
    ensures
        res == numcode_order(kind, logical, l, r),
{
    match logical {
        CoveLogicalType::Int8 | CoveLogicalType::Int16 | CoveLogicalType::Int32
        | CoveLogicalType::Int64 | CoveLogicalType::DateDays | CoveLogicalType::TimestampMicros
        | CoveLogicalType::TimestampNanos => compare_ints(l as i64 as i128, r as i64 as i128),
        CoveLogicalType::Float32 => {
            if kind == SourceColumnKind::Float32 {
                compare_ints(float32_key(l), float32_key(r))
            } else {
                compare_ints(l as i128, r as i128)
            }
        },
        CoveLogicalType::Float64 => compare_ints(float64_key(l), float64_key(r)),
        _ => compare_ints(l as i128, r as i128),
    }
}

/// Whether an IEEE 754 double with these bits has its sign bit set.
pub open spec fn f64_sign_set(bits: u64) -> bool {
    bits >= 0x8000_0000_0000_0000
}

/// The bits of a double below its sign bit: exponent and fraction, which
/// grow with the magnitude.
pub open spec fn f64_magnitude(bits: u64) -> int {
    (bits % 0x8000_0000_0000_0000) as int
}

/// IEEE 754 totalOrder on doubles, told from their bits: values with the
/// sign bit set come first, larger magnitudes first among them; then the
/// others, smaller magnitudes first.
pub open spec fn f64_total_before(a: u64, b: u64) -> bool {
    if f64_sign_set(a) != f64_sign_set(b) {
        f64_sign_set(a)
    } else if f64_sign_set(a) {
        f64_magnitude(a) > f64_magnitude(b)
    } else {
        f64_magnitude(a) < f64_magnitude(b)
    }
}

/// Whether single-precision bits (the low 32 bits of a code) have their
/// sign bit set.
pub open spec fn f32_sign_set(bits: u64) -> bool {
    bits % 0x1_0000_0000 >= 0x8000_0000
}

/// The bits of a single below its sign bit.
pub open spec fn f32_magnitude(bits: u64) -> int {
    (bits % 0x8000_0000) as int
}

/// IEEE 754 totalOrder on singles, told from their bits.
pub open spec fn f32_total_before(a: u64, b: u64) -> bool {
    if f32_sign_set(a) != f32_sign_set(b) {
        f32_sign_set(a)
    } else if f32_sign_set(a) {
        f32_magnitude(a) > f32_magnitude(b)
    } else {
        f32_magnitude(a) < f32_magnitude(b)
    }
}

/// Doubles are clustered in IEEE 754 total order: one code comes before
/// another exactly when its double does, and two codes tie only when their
/// bits are equal.
pub proof fn lemma_float64_cluster_order(kind: SourceColumnKind, l: u64, r: u64)
    ensures
        (numcode_order(kind, CoveLogicalType::Float64, l, r) == Ordering3::Less) == f64_total_before(l, r),
        (numcode_order(kind, CoveLogicalType::Float64, l, r) == Ordering3::Equal) == (l == r),
        (numcode_order(kind, CoveLogicalType::Float64, l, r) == Ordering3::Greater) == f64_total_before(r, l),
{
}

/// Singles read from a single-precision source are clustered in IEEE 754
/// total order of their low 32 bits.
pub proof fn lemma_float32_cluster_order(l: u64, r: u64)
    ensures
        (numcode_order(SourceColumnKind::Float32, CoveLogicalType::Float32, l, r) == Ordering3::Less)
            == f32_total_before(l, r),
        (numcode_order(SourceColumnKind::Float32, CoveLogicalType::Float32, l, r) == Ordering3::Equal)
            == (l % 0x1_0000_0000 == r % 0x1_0000_0000),
        (numcode_order(SourceColumnKind::Float32, CoveLogicalType::Float32, l, r) == Ordering3::Greater)
            == f32_total_before(r, l),
{
}

/// Whether row `r` of a column is null; rows past its null flags are not.
pub open spec fn row_is_null(c: SourceColumnView, r: int) -> bool {
    0 <= r < c.nulls.len() && c.nulls[r]
}

/// The order of two rows of a column: nulls first and equal to each other,
/// then by value.
pub open spec fn row_order(c: SourceColumnView, l: int, r: int) -> Ordering3 {
    if row_is_null(c, l) && row_is_null(c, r) {
        Ordering3::Equal
    } else if row_is_null(c, l) {
        Ordering3::Less
    } else if row_is_null(c, r) {
        Ordering3::Greater
    } else {
        match c.layout.values {
            MaterializedView::Boolean(v) => order_of_ints(v[l] as int, v[r] as int),
            MaterializedView::FileCode(v) => order_of_ints(v[l] as int, v[r] as int),
            MaterializedView::NumCode(v) => numcode_order(
                c.layout.source_kind,
                c.layout.logical,
                v[l],
                v[r],
            ),
            MaterializedView::VarBytes(v) => lex_order(v[l], v[r]),
            MaterializedView::FixedBytes { values, .. } => lex_order(values[l], values[r]),
        }
    }
}

fn compare_rows(c: &SourceColumn, l: usize, r: usize) -> (res: Ordering3)
    requires
        l < view_rows(c.layout.values@),
        r < view_rows(c.layout.values@),
    ensures
        res == row_order(c@, l as int, r as int),
{
    let ln = l < c.nulls.len() && c.nulls[l];
    let rn = r < c.nulls.len() && c.nulls[r];
    if ln && rn {
        return Ordering3::Equal;
    } else if ln {
        return Ordering3::Less;
    } else if rn {
        return Ordering3::Greater;
    }
    match &c.layout.values {
        MaterializedValues::Boolean(v) => compare_ints(v[l] as i128, v[r] as i128),
        MaterializedValues::FileCode(v) => compare_ints(v[l] as i128, v[r] as i128),
        MaterializedValues::NumCode(v) => compare_numcodes(
            c.layout.source_kind,
            c.layout.logical,
            v[l],
            v[r],
        ),
        MaterializedValues::VarBytes(v) => {
            assert(v@[l as int]@ == c.layout.values@->VarBytes_0[l as int]);
            assert(v@[r as int]@ == c.layout.values@->VarBytes_0[r as int]);
            compare_bytes(v[l].as_slice(), v[r].as_slice())
        },
        MaterializedValues::FixedBytes { values, .. } => {
            assert(values@[l as int]@ == c.layout.values@->FixedBytes_values[l as int]);
            assert(values@[r as int]@ == c.layout.values@->FixedBytes_values[r as int]);
            compare_bytes(values[l].as_slice(), values[r].as_slice())
        },
    }
}

proof fn lemma_row_order_antisymmetric(c: SourceColumnView, l: int, r: int)
    ensures
        row_order(c, r, l) == flip(row_order(c, l, r)),
{
    match c.layout.values {
        MaterializedView::VarBytes(v) => lemma_lex_antisymmetric(v[l], v[r]),
        MaterializedView::FixedBytes { values, .. } => lemma_lex_antisymmetric(values[l], values[r]),
        _ => {},
    }
}

/// The order of two rows under the cluster columns `idx` from the `j`-th
/// on: the first column that tells them apart decides, and rows equal under
/// all of them keep their source order.
#[verifier::opaque]
pub open spec fn cluster_order(cs: Seq<SourceColumnView>, idx: Seq<usize>, l: int, r: int, j: int) -> Ordering3
    decreases idx.len() - j,
{
    if j < 0 || j >= idx.len() {
        order_of_ints(l, r)
    } else {
        let o = row_order(cs[idx[j] as int], l, r);
        if o != Ordering3::Equal {
            o
        } else {
            cluster_order(cs, idx, l, r, j + 1)
        }
    }
}

proof fn lemma_cluster_order_antisymmetric(
    cs: Seq<SourceColumnView>,
    idx: Seq<usize>,
    l: int,
    r: int,
    j: int,
)
    ensures
        cluster_order(cs, idx, r, l, j) == flip(cluster_order(cs, idx, l, r, j)),
        cluster_order(cs, idx, l, r, j) == Ordering3::Equal ==> l == r,
    decreases idx.len() - j,
{
    reveal(cluster_order);
    if 0 <= j < idx.len() {
        lemma_row_order_antisymmetric(cs[idx[j] as int], l, r);
        lemma_cluster_order_antisymmetric(cs, idx, l, r, j + 1);
    }
}

/// Whether every column holds `n` rows of values and `n` null flags.
pub open spec fn columns_hold_rows(cs: Seq<SourceColumnView>, n: nat) -> bool {
    forall|k: int|
        0 <= k < cs.len() ==> view_rows((#[trigger] cs[k]).layout.values) == n && cs[k].nulls.len()
            == n
}

/// Whether `order` lists each of the rows `0..n` once.
pub open spec fn is_row_permutation(order: Seq<usize>, n: nat) -> bool {
    &&& order.len() == n
    &&& forall|a: int| 0 <= a < order.len() ==> #[trigger] order[a] < n
    &&& forall|a: int, b: int| 0 <= a < b < order.len() ==> #[trigger] order[a] != #[trigger] order[b]
}

/// Whether `order` lists rows in strictly ascending cluster order.
pub open spec fn rows_clustered(cs: Seq<SourceColumnView>, idx: Seq<usize>, order: Seq<usize>) -> bool {
    forall|a: int, b: int|
        0 <= a && b == a + 1 && b < order.len() ==> cluster_order(
            cs,
            idx,
            #[trigger] order[a] as int,
            #[trigger] order[b] as int,
            0,
        ) == Ordering3::Less
}

fn compare_clustered(columns: &Vec<SourceColumn>, idx: &Vec<usize>, l: usize, r: usize, n: usize) -> (res:
    Ordering3)
    requires
        columns_hold_rows(columns_view(columns@), n as nat),
        forall|j: int| 0 <= j < idx@.len() ==> #[trigger] idx@[j] < columns@.len(),
        l < n,
        r < n,
    ensures
        res == cluster_order(columns_view(columns@), idx@, l as int, r as int, 0),
{
    let ghost cs = columns_view(columns@);
    let mut j: usize = 0;
    while j < idx.len()
        invariant
            cs == columns_view(columns@),
            columns_hold_rows(cs, n as nat),
            forall|k: int| 0 <= k < idx@.len() ==> #[trigger] idx@[k] < columns@.len(),
            l < n,
            r < n,
            j <= idx@.len(),
            cluster_order(cs, idx@, l as int, r as int, 0) == cluster_order(
                cs,
                idx@,
                l as int,
                r as int,
                j as int,
            ),
        decreases idx@.len() - j,
    {
        let c = &columns[idx[j]];
        proof {
            assert(cs[idx@[j as int] as int] == c@);
            assert(view_rows(cs[idx@[j as int] as int].layout.values) == n);
        }
        let o = compare_rows(c, l, r);
        proof {
            reveal(cluster_order);
        }
        if o != Ordering3::Equal {
            return o;
        }
        j = j + 1;
    }
    proof {
        reveal(cluster_order);
    }
    compare_ints(l as i128, r as i128)
}

proof fn lemma_insert_keeps_clustered(
    cs: Seq<SourceColumnView>,
    idx: Seq<usize>,
    before: Seq<usize>,
    q: int,
    i: int,
)
    requires
        0 <= i < usize::MAX,
        0 <= q <= before.len(),
        is_row_permutation(before, i as nat),
        rows_clustered(cs, idx, before),
        forall|p: int| 0 <= p < q ==> cluster_order(cs, idx, i, #[trigger] before[p] as int, 0)
            == Ordering3::Greater,
        q < before.len() ==> cluster_order(cs, idx, i, before[q] as int, 0) != Ordering3::Greater,
    ensures
        is_row_permutation(before.insert(q, i as usize), (i + 1) as nat),
        rows_clustered(cs, idx, before.insert(q, i as usize)),
{
    let now = before.insert(q, i as usize);
    if q > 0 {
        lemma_cluster_order_antisymmetric(cs, idx, i, before[q - 1] as int, 0);
    }
    if q < before.len() {
        lemma_cluster_order_antisymmetric(cs, idx, i, before[q] as int, 0);
        assert(before[q] < i);
    }
    assert forall|a: int, b: int| 0 <= a && b == a + 1 && b < now.len() implies cluster_order(
        cs,
        idx,
        #[trigger] now[a] as int,
        #[trigger] now[b] as int,
        0,
    ) == Ordering3::Less by {
        if a < q - 1 {
            assert(now[a] == before[a] && now[b] == before[b]);
        } else if a == q - 1 {
            assert(now[a] == before[a] && now[b] == i);
        } else if a == q {
            assert(now[a] == i && now[b] == before[a]);
        } else {
            assert(now[a] == before[a - 1] && now[b] == before[a]);
        }
    }
    assert forall|a: int, b: int| 0 <= a < b < now.len() implies #[trigger] now[a]
        != #[trigger] now[b] by {
        if a < q && b < q {
            assert(now[a] == before[a] && now[b] == before[b]);
        } else if a < q && b == q {
            assert(now[a] == before[a]);
        } else if a < q && b > q {
            assert(now[a] == before[a] && now[b] == before[b - 1]);
        } else if a == q {
            assert(now[b] == before[b - 1]);
        } else {
            assert(now[a] == before[a - 1] && now[b] == before[b - 1]);
        }
    }
    assert forall|a: int| 0 <= a < now.len() implies #[trigger] now[a] < i + 1 by {
        if a < q {
            assert(now[a] == before[a]);
        } else if a > q {
            assert(now[a] == before[a - 1]);
        }
    }
}

/// The rows `0..n` in cluster order.
fn cluster_rows(columns: &Vec<SourceColumn>, idx: &Vec<usize>, n: usize) -> (res: Vec<usize>)
    requires
        columns_hold_rows(columns_view(columns@), n as nat),
        forall|j: int| 0 <= j < idx@.len() ==> #[trigger] idx@[j] < columns@.len(),
    ensures
        is_row_permutation(res@, n as nat),
        rows_clustered(columns_view(columns@), idx@, res@),
{
    let ghost cs = columns_view(columns@);
    let mut out: Vec<usize> = Vec::new();
    let mut i: usize = 0;
    while i < n
        invariant
            cs == columns_view(columns@),
            columns_hold_rows(cs, n as nat),
            forall|j: int| 0 <= j < idx@.len() ==> #[trigger] idx@[j] < columns@.len(),
            i <= n,
            is_row_permutation(out@, i as nat),
            rows_clustered(cs, idx@, out@),
        decreases n - i,
    {
        let mut q: usize = 0;
        while q < out.len() && compare_clustered(columns, idx, i, out[q], n) == Ordering3::Greater
            invariant
                cs == columns_view(columns@),
                columns_hold_rows(cs, n as nat),
                forall|j: int| 0 <= j < idx@.len() ==> #[trigger] idx@[j] < columns@.len(),
                i < n,
                q <= out@.len(),
                is_row_permutation(out@, i as nat),
                forall|p: int|
                    0 <= p < q ==> cluster_order(cs, idx@, i as int, #[trigger] out@[p] as int, 0)
                        == Ordering3::Greater,
            decreases out@.len() - q,
        {
            q = q + 1;
        }
        let ghost before = out@;
        proof {
            lemma_insert_keeps_clustered(cs, idx@, before, q as int, i as int);
        }
        out.insert(q, i);
        proof {
            assert(out@ =~= before.insert(q as int, i));
        }
        i = i + 1;
    }
    out
}


/// The position of the first column named `name` from the `k`-th on.
pub open spec fn first_named(cs: Seq<SourceColumnView>, name: Seq<char>, k: int) -> Option<int>
    decreases cs.len() - k,
{
    if k < 0 || k >= cs.len() {
        None
    } else if cs[k].name == name {
        Some(k)
    } else {
        first_named(cs, name, k + 1)
    }
}

/// The positions of the first `n` declared cluster columns, or the first
/// declared name that no column has.
pub open spec fn cluster_indices(cs: Seq<SourceColumnView>, names: Seq<Seq<char>>, n: int) -> Result<
    Seq<usize>,
    Seq<char>,
>
    decreases n,
{
    if n <= 0 {
        Ok(Seq::empty())
    } else {
        match cluster_indices(cs, names, n - 1) {
            Err(m) => Err(m),
            Ok(p) => match first_named(cs, names[n - 1], 0) {
                None => Err(names[n - 1]),
                Some(k) => Ok(p.push(k as usize)),
            },
        }
    }
}

/// Names joined by commas.
pub open spec fn comma_joined(names: Seq<Seq<char>>) -> Seq<char>
    decreases names.len(),
{
    if names.len() == 0 {
        Seq::empty()
    } else if names.len() == 1 {
        names[0]
    } else {
        comma_joined(names.drop_last()) + ","@ + names.last()
    }
}

/// The number of rows of the first column, or zero without columns.
pub open spec fn first_rows(cs: Seq<SourceColumnView>) -> nat {
    if cs.len() == 0 {
        0
    } else {
        view_rows(cs[0].layout.values)
    }
}

/// Values taken in `order`.
pub open spec fn reordered_values(m: MaterializedView, order: Seq<usize>) -> MaterializedView {
    match m {
        MaterializedView::Boolean(v) => MaterializedView::Boolean(reordered(v, order)),
        MaterializedView::FileCode(v) => MaterializedView::FileCode(reordered(v, order)),
        MaterializedView::NumCode(v) => MaterializedView::NumCode(reordered(v, order)),
        MaterializedView::VarBytes(v) => MaterializedView::VarBytes(reordered(v, order)),
        MaterializedView::FixedBytes { width, values } => MaterializedView::FixedBytes {
            width,
            values: reordered(values, order),
        },
    }
}

/// A column with its values and null flags taken in `order`.
pub open spec fn reordered_column(c: SourceColumnView, order: Seq<usize>) -> SourceColumnView {
    SourceColumnView {
        layout: crate::source_columns::LayoutView {
            values: reordered_values(c.layout.values, order),
            ..c.layout
        },
        nulls: reordered(c.nulls, order),
        ..c
    }
}

fn first_named_exec(columns: &Vec<SourceColumn>, name: &str) -> (res: Option<usize>)
    ensures
        match first_named(columns_view(columns@), name@, 0) {
            Some(k) => res == Some(k as usize),
            None => res is None,
        },
{
    let ghost cs = columns_view(columns@);
    let mut k: usize = 0;
    while k < columns.len()
        invariant
            cs == columns_view(columns@),
            k <= columns@.len(),
            first_named(cs, name@, 0) == first_named(cs, name@, k as int),
        decreases columns@.len() - k,
    {
        assert(cs[k as int] == columns@[k as int]@);
        if str_eq(columns[k].name.as_str(), name) {
            return Some(k);
        }
        k = k + 1;
    }
    None
}

proof fn lemma_cluster_error_sticks(cs: Seq<SourceColumnView>, names: Seq<Seq<char>>, j: int, m: int)
    requires
        0 <= j <= m,
        cluster_indices(cs, names, j) is Err,
    ensures
        cluster_indices(cs, names, m) == cluster_indices(cs, names, j),
    decreases m - j,
{
    if m > j {
        lemma_cluster_error_sticks(cs, names, j, m - 1);
    }
}

proof fn lemma_cluster_indices_in_range(
    cs: Seq<SourceColumnView>,
    names: Seq<Seq<char>>,
    n: int,
    idx: Seq<usize>,
)
    requires
        cs.len() <= usize::MAX,
        cluster_indices(cs, names, n) == Ok::<Seq<usize>, Seq<char>>(idx),
    ensures
        forall|j: int| 0 <= j < idx.len() ==> #[trigger] idx[j] < cs.len(),
    decreases n,
{
    if n > 0 {
        let prev = cluster_indices(cs, names, n - 1);
        lemma_first_named_in_range(cs, names[n - 1], 0);
        if let Ok(p) = prev {
            lemma_cluster_indices_in_range(cs, names, n - 1, p);
            assert forall|j: int| 0 <= j < idx.len() implies #[trigger] idx[j] < cs.len() by {
                if j < p.len() {
                    assert(idx[j] == p[j]);
                }
            }
        }
    }
}

proof fn lemma_first_named_in_range(cs: Seq<SourceColumnView>, name: Seq<char>, k: int)
    requires
        cs.len() <= usize::MAX,
    ensures
        first_named(cs, name, k) matches Some(p) ==> 0 <= p < cs.len() && p <= usize::MAX,
    decreases cs.len() - k,
{
    if 0 <= k < cs.len() && cs[k].name != name {
        lemma_first_named_in_range(cs, name, k + 1);
    }
}

/// Reorders the rows of a source as the options ask (see the `ensures`):
/// with source order kept, a note only when cluster columns were declared;
/// with stable clustering, a note when no cluster column was declared,
/// `BadSchema` for the first declared name that no column has, and
/// otherwise every column's values and null flags put in cluster order.
pub fn apply_stable_clustering(
    columns: &mut Vec<SourceColumn>,
    options: &ParquetConversionOptions,
) -> (res: Result<Option<String>, CoveError>)
    requires
        columns_hold_rows(columns_view(old(columns)@), first_rows(columns_view(old(columns)@))),
        columns_view(old(columns)@).len() < usize::MAX,
    ensures
        ({
            let cs = columns_view(old(columns)@);
            let names = crate::conversion::strings_view(options.cluster_columns@);
            if options.clustering_policy == ParquetClusteringPolicy::PreserveSourceOrder {
                columns_view(final(columns)@) == cs && if names.len() == 0 {
                    res == Ok::<Option<String>, CoveError>(None)
                } else {
                    res matches Ok(Some(m)) && m@
                        == "Cluster columns were declared, but stable clustering was not enabled; source row order was preserved"@
                }
            } else if names.len() == 0 {
                columns_view(final(columns)@) == cs && (res matches Ok(Some(m)) && m@
                    == "Stable clustering was requested without declared cluster columns; source row order was preserved"@)
            } else {
                match cluster_indices(cs, names, names.len() as int) {
                    Err(name) => res matches Err(CoveError::BadSchema(m)) && m@
                        == "stable clustering references unknown column '"@ + name + "'"@,
                    Ok(idx) => (res matches Ok(Some(m)) && m@
                        == "Applied stable clustering by declared columns: "@ + comma_joined(names))
                        && exists|order: Seq<usize>|
                        is_row_permutation(order, first_rows(cs)) && rows_clustered(cs, idx, order)
                            && columns_view(final(columns)@) == cs.map_values(
                            |c: SourceColumnView| reordered_column(c, order),
                        ),
                }
            }
        }),
{
    let ghost cs = columns_view(columns@);
    let ghost names = crate::conversion::strings_view(options.cluster_columns@);
    if options.clustering_policy == ParquetClusteringPolicy::PreserveSourceOrder {
        if options.cluster_columns.len() == 0 {
            return Ok(None);
        }
        return Ok(
            Some(
                text(
                    "Cluster columns were declared, but stable clustering was not enabled; source row order was preserved",
                ),
            ),
        );
    }
    if options.cluster_columns.len() == 0 {
        return Ok(
            Some(
                text(
                    "Stable clustering was requested without declared cluster columns; source row order was preserved",
                ),
            ),
        );
    }
    let mut idx: Vec<usize> = Vec::new();
    let mut joined = String::new();
    let mut j: usize = 0;
    while j < options.cluster_columns.len()
        invariant
            cs == columns_view(columns@),
            cs.len() < usize::MAX,
            names == crate::conversion::strings_view(options.cluster_columns@),
            options.clustering_policy != ParquetClusteringPolicy::PreserveSourceOrder,
            names.len() > 0,
            j <= names.len(),
            cluster_indices(cs, names, j as int) == Ok::<Seq<usize>, Seq<char>>(idx@),
            joined@ == comma_joined(names.take(j as int)),
        decreases names.len() - j,
    {
        let name = options.cluster_columns[j].as_str();
        assert(names[j as int] == name@);
        let k = match first_named_exec(columns, name) {
            Some(k) => k,
            None => {
                proof {
                    assert(first_named(cs, names[j as int], 0) is None);
                    assert(cluster_indices(cs, names, j + 1) == Err::<Seq<usize>, Seq<char>>(
                        names[j as int],
                    ));
                    lemma_cluster_error_sticks(cs, names, j + 1, names.len() as int);
                }
                let head = concat("stable clustering references unknown column '", name);
                return Err(CoveError::BadSchema(concat(head.as_str(), "'")));
            },
        };
        idx.push(k);
        proof {
            let t = names.take(j + 1);
            assert(t.drop_last() =~= names.take(j as int));
            assert(t.last() == name@);
        }
        if j > 0 {
            joined = concat(joined.as_str(), ",");
        }
        joined = concat(joined.as_str(), name);
        j = j + 1;
    }
    proof {
        assert(names.take(names.len() as int) =~= names);
        assert(j == names.len());
        assert(cluster_indices(cs, names, names.len() as int) == Ok::<Seq<usize>, Seq<char>>(idx@));
        lemma_cluster_indices_in_range(cs, names, names.len() as int, idx@);
        assert(cs.len() == columns@.len());
        assert forall|q: int| 0 <= q < idx@.len() implies #[trigger] idx@[q] < columns@.len() by {
            assert(idx@[q] < cs.len());
        }
    }
    let rows: usize = if columns.len() == 0 {
        0
    } else {
        match &columns[0].layout.values {
            MaterializedValues::Boolean(v) => v.len(),
            MaterializedValues::FileCode(v) => v.len(),
            MaterializedValues::NumCode(v) => v.len(),
            MaterializedValues::VarBytes(v) => v.len(),
            MaterializedValues::FixedBytes { values, .. } => values.len(),
        }
    };
    assert(rows == first_rows(cs));
    let order = cluster_rows(columns, &idx, rows);
    let mut k: usize = 0;
    while k < columns.len()
        invariant
            k <= columns@.len(),
            columns@.len() == cs.len(),
            columns_hold_rows(cs, rows as nat),
            is_row_permutation(order@, rows as nat),
            forall|p: int| 0 <= p < k ==> (#[trigger] columns@[p])@ == reordered_column(cs[p], order@),
            forall|p: int| k <= p < cs.len() ==> (#[trigger] columns@[p])@ == cs[p],
        decreases columns@.len() - k,
    {
        let ghost before = columns@;
        assert(columns@[k as int]@ == cs[k as int]);
        assert(view_rows(cs[k as int].layout.values) == rows && cs[k as int].nulls.len() == rows);
        assert(order_in_range(order@, rows as nat));
        let c = &mut columns[k];
        c.layout.values.reorder(order.as_slice());
        reorder_copy(&mut c.nulls, order.as_slice());
        proof {
            assert forall|p: int| 0 <= p < columns@.len() && p != k implies #[trigger] columns@[p]
                == before[p] by {}
        }
        k = k + 1;
    }
    proof {
        assert(columns_view(columns@) =~= cs.map_values(
            |c: SourceColumnView| reordered_column(c, order@),
        ));
    }
    Ok(Some(concat("Applied stable clustering by declared columns: ", joined.as_str())))
}

} // verus!
