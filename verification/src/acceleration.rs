//! Which acceleration artifacts each column of a conversion calls for: the
//! declared column names are checked first, then each column gets exact-set,
//! lookup, bloom, Top-N and aggregate decisions from the options, its key
//! domain and how many distinct keys it holds.
use vstd::prelude::*;

use crate::conversion::{
    column_unique_keys, has_column, key_kind, key_value, should_emit_aggregate,
    should_emit_exact_set, spec_key_kind, strings_view, validate_declared_columns,
    view_rows, ParquetAccelerationPolicy, ParquetAggregatePolicy, ParquetConversionOptions,
};
use crate::error::{fails_with, CoveError, ErrorCode};
use crate::source_read::{columns_view, SourceColumn, SourceColumnView};
use crate::util::{concat, text};

verus! {

/// The artifacts one column calls for, and notes on declared artifacts its
/// layout cannot carry.
pub struct ColumnAcceleration {
    pub exact_set: bool,
    pub lookup: bool,
    pub bloom: bool,
    pub topn: bool,
    pub aggregate: bool,
    pub unsupported: Vec<String>,
}

/// The distinct index keys of a column.
pub open spec fn key_set(c: SourceColumnView) -> Set<u64> {
    Set::new(
        |k: u64|
            exists|r: int|
                0 <= r < view_rows(c.layout.values) && #[trigger] key_value(
                    c.layout.values,
                    c.nulls,
                    r,
                ) == Some(k),
    )
}

/// Whether a column has few enough distinct keys for an exact set: some,
/// and at most 4096 of them or at most half its rows (the doubled count
/// saturating at `usize::MAX`).
pub open spec fn low_or_medium(keys: nat, rows: nat) -> bool {
    keys > 0 && (keys <= 4096 || (if keys * 2 > usize::MAX {
        usize::MAX as nat
    } else {
        keys * 2
    }) <= rows)
}

/// The note for a declared artifact that needs FileCode, NumCode or
/// Boolean values.
pub open spec fn needs_keys_note(artifact: Seq<char>, column: Seq<char>) -> Seq<char> {
    artifact + " for column '"@ + column + "' requires FileCode, NumCode, or Boolean materialization"@
}

/// The abstract content of a [`ColumnAcceleration`].
pub struct ColumnAccelerationView {
    pub exact_set: bool,
    pub lookup: bool,
    pub bloom: bool,
    pub topn: bool,
    pub aggregate: bool,
    pub unsupported: Seq<Seq<char>>,
}

impl View for ColumnAcceleration {
    type V = ColumnAccelerationView;

    open spec fn view(&self) -> ColumnAccelerationView {
        ColumnAccelerationView {
            exact_set: self.exact_set,
            lookup: self.lookup,
            bloom: self.bloom,
            topn: self.topn,
            aggregate: self.aggregate,
            unsupported: strings_view(self.unsupported@),
        }
    }
}

/// What column `c` calls for in a source of `rows` rows, whose distinct key
/// count is `keys`: an exact set as the acceleration policy says for a
/// column with a key domain; a lookup index, and a bloom index when its keys
/// are too many for an exact set, when it is declared for point lookup and
/// has a key domain; a Top-N summary when declared and it has a key domain;
/// an aggregate synopsis as the aggregate policy says. A declared lookup or
/// Top-N on a column without a key domain gets a note instead.
pub open spec fn spec_column_acceleration(
    c: SourceColumnView,
    keys: nat,
    rows: nat,
    policy: ParquetAccelerationPolicy,
    aggregate_policy: ParquetAggregatePolicy,
    lookups: Seq<Seq<char>>,
    topns: Seq<Seq<char>>,
    aggregates: Seq<Seq<char>>,
) -> ColumnAccelerationView {
    let has_kind = spec_key_kind(c.layout.values) is Some;
    let low = low_or_medium(keys, rows);
    let declared_lookup = lookups.contains(c.name);
    let declared_topn = topns.contains(c.name);
    let exact = has_kind && match policy {
        ParquetAccelerationPolicy::Disabled => false,
        ParquetAccelerationPolicy::DeclaredOnly => declared_lookup && low,
        ParquetAccelerationPolicy::Auto => low,
    };
    let lookup_note: Seq<Seq<char>> = if declared_lookup && !has_kind {
        seq![needs_keys_note("Point-lookup index"@, c.name)]
    } else {
        Seq::empty()
    };
    let topn_note: Seq<Seq<char>> = if declared_topn && !has_kind {
        seq![needs_keys_note("Top-N summary"@, c.name)]
    } else {
        Seq::empty()
    };
    ColumnAccelerationView {
        exact_set: exact,
        lookup: declared_lookup && has_kind,
        bloom: declared_lookup && has_kind && !low && keys > 0,
        topn: declared_topn && has_kind,
        aggregate: has_kind && match aggregate_policy {
            ParquetAggregatePolicy::Disabled => false,
            ParquetAggregatePolicy::DeclaredOnly => aggregates.contains(c.name),
            ParquetAggregatePolicy::Auto => true,
        },
        unsupported: lookup_note + topn_note,
    }
}

/// Whether every declared name is a column name and every composite-zone
/// group names at least two columns.
pub open spec fn declarations_valid(names: Seq<Seq<char>>, o: ParquetConversionOptions) -> bool {
    &&& forall|i: int|
        0 <= i < o.point_lookup_columns@.len() ==> names.contains(
            #[trigger] o.point_lookup_columns@[i]@,
        )
    &&& forall|i: int| 0 <= i < o.topn_columns@.len() ==> names.contains(#[trigger] o.topn_columns@[i]@)
    &&& forall|i: int|
        0 <= i < o.aggregate_columns@.len() ==> names.contains(#[trigger] o.aggregate_columns@[i]@)
    &&& forall|g: int|
        0 <= g < o.composite_zone_groups@.len() ==> (#[trigger] o.composite_zone_groups@[g])@.len()
            >= 2 && forall|i: int|
            0 <= i < o.composite_zone_groups@[g]@.len() ==> names.contains(
                #[trigger] o.composite_zone_groups@[g]@[i]@,
            )
}

/// The names of a run of columns.
pub open spec fn column_names(cs: Seq<SourceColumnView>) -> Seq<Seq<char>> {
    cs.map_values(|c: SourceColumnView| c.name)
}

fn names_of(columns: &[SourceColumn]) -> (res: Vec<String>)
    ensures
        strings_view(res@) == column_names(columns_view(columns@)),
{
    let mut out: Vec<String> = Vec::new();
    let mut i: usize = 0;
    while i < columns.len()
        invariant
            i <= columns@.len(),
            strings_view(out@) == column_names(columns_view(columns@)).take(i as int),
        decreases columns@.len() - i,
    {
        let ghost before = out@;
        out.push(columns[i].name.clone());
        proof {
            assert(strings_view(out@) =~= strings_view(before).push(columns@[i as int].name@));
            assert(column_names(columns_view(columns@)).take(i + 1) =~= column_names(
                columns_view(columns@),
            ).take(i as int).push(columns@[i as int].name@));
        }
        i = i + 1;
    }
    proof {
        assert(column_names(columns_view(columns@)).take(columns@.len() as int) =~= column_names(
            columns_view(columns@),
        ));
    }
    out
}

fn needs_keys(artifact: &str, column: &str) -> (res: String)
    ensures
        res@ == needs_keys_note(artifact@, column@),
{
    let a = concat(artifact, " for column '");
    let b = concat(a.as_str(), column);
    concat(b.as_str(), "' requires FileCode, NumCode, or Boolean materialization")
}

/// What one column calls for (see [`spec_column_acceleration`]), with its
/// distinct key count taken from its values.
fn column_acceleration(c: &SourceColumn, rows: usize, options: &ParquetConversionOptions) -> (res:
    ColumnAcceleration)
    requires
        c.nulls@.len() == view_rows(c.layout.values@),
    ensures
        res@ == spec_column_acceleration(
            c@,
            key_set(c@).len(),
            rows as nat,
            options.acceleration_policy,
            options.aggregate_policy,
            strings_view(options.point_lookup_columns@),
            strings_view(options.topn_columns@),
            strings_view(options.aggregate_columns@),
        ),
{
    let kind = key_kind(&c.layout.values);
    let has_kind = kind.is_some();
    let unique = column_unique_keys(&c.layout.values, c.nulls.as_slice());
    proof {
        assert(unique@.no_duplicates()) by {
            assert forall|i: int, j: int| 0 <= i < unique@.len() && 0 <= j < unique@.len() && i != j implies unique@[i] != unique@[j] by {
                if i < j {
                    assert(unique@[i] < unique@[j]);
                } else {
                    assert(unique@[j] < unique@[i]);
                }
            }
        }
        unique@.unique_seq_to_set();
        assert(unique@.to_set() =~= key_set(c@));
    }
    let keys = unique.len();
    let doubled: usize = if keys > usize::MAX / 2 {
        usize::MAX
    } else {
        keys * 2
    };
    let low = keys > 0 && (keys <= 4096 || doubled <= rows);
    let declared_lookup = has_column(options.point_lookup_columns.as_slice(), c.name.as_str());
    let declared_topn = has_column(options.topn_columns.as_slice(), c.name.as_str());
    let declared_aggregate = has_column(options.aggregate_columns.as_slice(), c.name.as_str());
    let exact = should_emit_exact_set(options.acceleration_policy, declared_lookup, low) && has_kind;
    let mut unsupported: Vec<String> = Vec::new();
    if declared_lookup && !has_kind {
        unsupported.push(needs_keys("Point-lookup index", c.name.as_str()));
    }
    if declared_topn && !has_kind {
        unsupported.push(needs_keys("Top-N summary", c.name.as_str()));
    }
    proof {
        reveal_strlit("Point-lookup index");
        reveal_strlit("Top-N summary");
        let lookup_note: Seq<Seq<char>> = if declared_lookup && !has_kind {
            seq![needs_keys_note("Point-lookup index"@, c.name@)]
        } else {
            Seq::empty()
        };
        let topn_note: Seq<Seq<char>> = if declared_topn && !has_kind {
            seq![needs_keys_note("Top-N summary"@, c.name@)]
        } else {
            Seq::empty()
        };
        assert(strings_view(unsupported@) =~= lookup_note + topn_note);
    }
    ColumnAcceleration {
        exact_set: exact,
        lookup: declared_lookup && has_kind,
        bloom: declared_lookup && has_kind && !low && keys > 0,
        topn: declared_topn && has_kind,
        aggregate: should_emit_aggregate(options.aggregate_policy, declared_aggregate, has_kind),
        unsupported,
    }
}

/// The acceleration artifacts each column calls for, in column order (see
/// [`spec_column_acceleration`], the row count being the first column's).
/// The point-lookup, Top-N and aggregate column names, then each
/// composite-zone group, are checked first: a name no column has, or a
/// group of fewer than two names, is `BadSchema`.
pub fn plan_acceleration(columns: &[SourceColumn], options: &ParquetConversionOptions) -> (res:
    Result<Vec<ColumnAcceleration>, CoveError>)
    requires
        forall|k: int|
            0 <= k < columns@.len() ==> (#[trigger] columns@[k]).nulls@.len() == view_rows(
                columns@[k].layout.values@,
            ),
    ensures
        declarations_valid(column_names(columns_view(columns@)), *options) <==> res is Ok,
        res is Err ==> fails_with(res, ErrorCode::BadSchema),
        res matches Ok(plans) ==> plans@.len() == columns@.len() && forall|k: int|
            0 <= k < columns@.len() ==> (#[trigger] plans@[k])@ == spec_column_acceleration(
                columns@[k]@,
                key_set(columns@[k]@).len(),
                if columns@.len() == 0 {
                    0
                } else {
                    view_rows(columns@[0].layout.values@)
                },
                options.acceleration_policy,
                options.aggregate_policy,
                strings_view(options.point_lookup_columns@),
                strings_view(options.topn_columns@),
                strings_view(options.aggregate_columns@),
            ),
{
    let names = names_of(columns);
    let ghost nv = column_names(columns_view(columns@));
    let ghost o = *options;
    match validate_declared_columns(names.as_slice(), options.point_lookup_columns.as_slice(), "point lookup") {
        Ok(()) => {},
        Err(e) => return Err(e),
    }
    match validate_declared_columns(names.as_slice(), options.topn_columns.as_slice(), "Top-N") {
        Ok(()) => {},
        Err(e) => return Err(e),
    }
    match validate_declared_columns(names.as_slice(), options.aggregate_columns.as_slice(), "aggregate synopsis") {
        Ok(()) => {},
        Err(e) => return Err(e),
    }
    let mut g: usize = 0;
    while g < options.composite_zone_groups.len()
        invariant
            strings_view(names@) == nv,
            nv == column_names(columns_view(columns@)),
            o == *options,
            g <= options.composite_zone_groups@.len(),
            forall|h: int|
                0 <= h < g ==> (#[trigger] options.composite_zone_groups@[h])@.len() >= 2 && forall|i: int|
                    0 <= i < options.composite_zone_groups@[h]@.len() ==> nv.contains(
                        #[trigger] options.composite_zone_groups@[h]@[i]@,
                    ),
        decreases options.composite_zone_groups@.len() - g,
    {
        let group = &options.composite_zone_groups[g];
        match validate_declared_columns(names.as_slice(), group.as_slice(), "composite zone") {
            Ok(()) => {},
            Err(e) => return Err(e),
        }
        if group.len() < 2 {
            return Err(CoveError::BadSchema(text("composite-zone groups require at least two columns")));
        }
        g = g + 1;
    }
    let rows: usize = if columns.len() == 0 {
        0
    } else {
        columns[0].layout.values.row_count()
    };
    let mut plans: Vec<ColumnAcceleration> = Vec::new();
    let mut k: usize = 0;
    while k < columns.len()
        invariant
            k <= columns@.len(),
            plans@.len() == k,
            rows == (if columns@.len() == 0 {
                0
            } else {
                view_rows(columns@[0].layout.values@)
            }),
            forall|p: int|
                0 <= p < columns@.len() ==> (#[trigger] columns@[p]).nulls@.len() == view_rows(
                    columns@[p].layout.values@,
                ),
            forall|p: int|
                0 <= p < k ==> (#[trigger] plans@[p])@ == spec_column_acceleration(
                    columns@[p]@,
                    key_set(columns@[p]@).len(),
                    rows as nat,
                    options.acceleration_policy,
                    options.aggregate_policy,
                    strings_view(options.point_lookup_columns@),
                    strings_view(options.topn_columns@),
                    strings_view(options.aggregate_columns@),
                ),
        decreases columns@.len() - k,
    {
        let plan = column_acceleration(&columns[k], rows, options);
        plans.push(plan);
        k = k + 1;
    }
    Ok(plans)
}

} // verus!
