//! The decisions of reading a Parquet source into columns: the conversion
//! options are checked before anything is read, each source field becomes a
//! numbered column with its name, nullability and storage layout, and each
//! batch the reader yields is appended to the columns in order while the
//! total row count is kept.
use vstd::prelude::*;

use crate::conversion::ParquetConversionOptions;
use crate::error::{fails_with, CoveError, ErrorCode};
use crate::source_columns::{
    append_source_values, source_column_layout, spec_append, spec_source_layout,
    unsupported_message, LayoutView, ParquetSourceType, SourceBatch, SourceColumnLayout,
};
use crate::util::text;

verus! {

/// A field of a Parquet source as its reader reports it.
#[derive(Debug, Clone, PartialEq, Eq)]
pub struct SourceField {
    pub name: String,
    pub nullable: bool,
    pub source_type: ParquetSourceType,
}

/// A column being read: its number (from 1, in field order), name and
/// nullability, how it is stored with the values read so far, and one null
/// flag per row read.
pub struct SourceColumn {
    pub column_id: u32,
    pub name: String,
    pub nullable: bool,
    pub layout: SourceColumnLayout,
    pub nulls: Vec<bool>,
}

/// The abstract content of a [`SourceColumn`].
pub struct SourceColumnView {
    pub column_id: u32,
    pub name: Seq<char>,
    pub nullable: bool,
    pub layout: LayoutView,
    pub nulls: Seq<bool>,
}

impl View for SourceColumn {
    type V = SourceColumnView;

    open spec fn view(&self) -> SourceColumnView {
        SourceColumnView {
            column_id: self.column_id,
            name: self.name@,
            nullable: self.nullable,
            layout: self.layout@,
            nulls: self.nulls@,
        }
    }
}

/// The views of a run of columns.
pub open spec fn columns_view(cs: Seq<SourceColumn>) -> Seq<SourceColumnView> {
    cs.map_values(|c: SourceColumn| c@)
}

/// Checking the conversion options before anything is read: a batch size
/// of zero rows, then a segment size of zero rows, are `BadSchema`.
pub open spec fn spec_read_options_check(morsel_row_count: u32, segment_row_count: u32) -> Result<
    (),
    ErrorCode,
> {
    if morsel_row_count == 0 {
        Err(ErrorCode::BadSchema)
    } else if segment_row_count == 0 {
        Err(ErrorCode::BadSchema)
    } else {
        Ok(())
    }
}

/// Checks the conversion options that reading a source depends on (see
/// [`spec_read_options_check`]).
pub fn check_read_options(options: &ParquetConversionOptions) -> (res: Result<(), CoveError>)
    ensures
        match spec_read_options_check(options.morsel_row_count, options.segment_row_count) {
            Ok(()) => res is Ok,
            Err(c) => fails_with(res, c),
        },
        options.morsel_row_count == 0 ==> (res matches Err(CoveError::BadSchema(m)) && m@
            == "morsel_row_count must be greater than zero"@),
        options.morsel_row_count != 0 && options.segment_row_count == 0 ==> (res matches Err(
            CoveError::BadSchema(m),
        ) && m@ == "segment_row_count must be greater than zero"@),
{
    if options.morsel_row_count == 0 {
        return Err(CoveError::BadSchema(text("morsel_row_count must be greater than zero")));
    }
    if options.segment_row_count == 0 {
        return Err(CoveError::BadSchema(text("segment_row_count must be greater than zero")));
    }
    Ok(())
}

/// The column that field `f` becomes under number `column_id`, before any
/// row is read; `None` when its type is not supported.
pub open spec fn spec_source_column(column_id: u32, f: SourceField) -> Option<SourceColumnView> {
    match spec_source_layout(f.source_type) {
        Some(l) => Some(
            SourceColumnView {
                column_id,
                name: f.name@,
                nullable: f.nullable,
                layout: l,
                nulls: Seq::empty(),
            },
        ),
        None => None,
    }
}

/// The column that `field` becomes under number `column_id` (see
/// [`spec_source_column`]); `BadSchema` naming the column and its type when
/// the type is not supported.
pub fn source_column(column_id: u32, field: &SourceField) -> (res: Result<SourceColumn, CoveError>)
    ensures
        match spec_source_column(column_id, *field) {
            Some(c) => (res matches Ok(r) && r@ == c),
            None => (res matches Err(CoveError::BadSchema(m))
                && field.source_type matches ParquetSourceType::Unsupported(t) && m@
                == unsupported_message(field.name@, t@)),
        },
{
    let layout = match source_column_layout(field.name.as_str(), &field.source_type) {
        Ok(l) => l,
        Err(e) => return Err(e),
    };
    let nulls: Vec<bool> = Vec::new();
    let column = SourceColumn {
        column_id,
        name: field.name.clone(),
        nullable: field.nullable,
        layout,
        nulls,
    };
    assert(column@.nulls =~= Seq::<bool>::empty());
    Ok(column)
}

/// Whether every field has a supported type.
pub open spec fn fields_supported(fs: Seq<SourceField>) -> bool {
    forall|i: int| 0 <= i < fs.len() ==> (#[trigger] spec_source_layout(fs[i].source_type)) is Some
}

/// The columns of a source, one per field in order and numbered from 1;
/// the first field of an unsupported type is `BadSchema` naming it.
pub fn source_columns(fields: &[SourceField]) -> (res: Result<Vec<SourceColumn>, CoveError>)
    requires
        fields@.len() < u32::MAX,
    ensures
        fields_supported(fields@) ==> (res matches Ok(cs) && cs@.len() == fields@.len() && forall|
            i: int,
        |
            0 <= i < fields@.len() ==> spec_source_column((i + 1) as u32, fields@[i]) == Some(
                #[trigger] cs@[i]@,
            )),
        !fields_supported(fields@) ==> exists|j: int|
            0 <= j < fields@.len() && fields_supported(fields@.take(j)) && (res matches Err(
                CoveError::BadSchema(m),
            ) && (#[trigger] fields@[j]).source_type matches ParquetSourceType::Unsupported(t)
                && m@ == unsupported_message(fields@[j].name@, t@)),
{
    let mut columns: Vec<SourceColumn> = Vec::new();
    let mut i: usize = 0;
    while i < fields.len()
        invariant
            i <= fields@.len(),
            fields@.len() < u32::MAX,
            columns@.len() == i,
            fields_supported(fields@.take(i as int)),
            forall|k: int|
                0 <= k < i ==> spec_source_column((k + 1) as u32, fields@[k]) == Some(
                    #[trigger] columns@[k]@,
                ),
        decreases fields@.len() - i,
    {
        let column = match source_column((i + 1) as u32, &fields[i]) {
            Ok(c) => c,
            Err(e) => {
                proof {
                    assert(spec_source_layout(fields@[i as int].source_type) is None);
                    assert(!fields_supported(fields@));
                }
                return Err(e);
            },
        };
        columns.push(column);
        proof {
            assert forall|k: int| 0 <= k < i + 1 implies (#[trigger] spec_source_layout(
                fields@.take(i + 1)[k].source_type,
            )) is Some by {
                if k < i {
                    assert(fields@.take(i + 1)[k] == fields@.take(i as int)[k]);
                }
            }
        }
        i = i + 1;
    }
    proof {
        assert(fields@.take(fields@.len() as int) =~= fields@);
    }
    Ok(columns)
}

/// Appending one batch array to a column (see [`spec_append`]).
pub open spec fn spec_append_column(c: SourceColumnView, b: SourceBatch) -> Result<
    SourceColumnView,
    ErrorCode,
> {
    match spec_append(c.nullable, c.layout.source_kind, c.layout.values, c.nulls, b.kind, b.values@) {
        Ok((v, n)) => Ok(
            SourceColumnView { layout: LayoutView { values: v, ..c.layout }, nulls: n, ..c },
        ),
        Err(e) => Err(e),
    }
}

/// The columns after the first `k` batch arrays have been appended to the
/// first `k` columns, in order, or the first error.
pub open spec fn spec_append_batch(cs: Seq<SourceColumnView>, bs: Seq<SourceBatch>, k: int) -> Result<
    Seq<SourceColumnView>,
    ErrorCode,
>
    decreases k,
{
    if k <= 0 {
        Ok(cs)
    } else {
        match spec_append_batch(cs, bs, k - 1) {
            Err(e) => Err(e),
            Ok(prev) => match spec_append_column(cs[k - 1], bs[k - 1]) {
                Err(e) => Err(e),
                Ok(c) => Ok(prev.update(k - 1, c)),
            },
        }
    }
}

/// The smaller of two lengths: a batch is paired with the columns column by
/// column, as far as both go.
pub open spec fn paired_len(a: int, b: int) -> int {
    if a < b {
        a
    } else {
        b
    }
}

/// Adds a batch of `batch_rows` rows that the reader yielded: the running
/// total `total_rows` grows by `batch_rows` (`ArithOverflow` when it would
/// not fit in `usize`), then each array of the batch is appended to its
/// column in order (see [`spec_append_batch`]). The new total is returned.
pub fn append_source_batch(
    columns: &mut Vec<SourceColumn>,
    batch: &[SourceBatch],
    total_rows: usize,
    batch_rows: usize,
) -> (res: Result<usize, CoveError>)
    ensures
        total_rows + batch_rows > usize::MAX ==> fails_with(res, ErrorCode::ArithOverflow)
            && final(columns)@ == old(columns)@,
        total_rows + batch_rows <= usize::MAX ==> match spec_append_batch(
            columns_view(old(columns)@),
            batch@,
            paired_len(old(columns)@.len() as int, batch@.len() as int),
        ) {
            Ok(cs) => res == Ok::<usize, CoveError>((total_rows + batch_rows) as usize)
                && columns_view(final(columns)@) == cs,
            Err(e) => fails_with(res, e),
        },
        final(columns)@.len() == old(columns)@.len(),
{
    let total = match total_rows.checked_add(batch_rows) {
        Some(t) => t,
        None => return Err(CoveError::ArithOverflow),
    };
    let n = if columns.len() < batch.len() {
        columns.len()
    } else {
        batch.len()
    };
    let ghost start = columns_view(columns@);
    let mut i: usize = 0;
    assert(columns_view(columns@) =~= start);
    while i < n
        invariant
            n == paired_len(start.len() as int, batch@.len() as int),
            start == columns_view(old(columns)@),
            total_rows + batch_rows <= usize::MAX,
            total == total_rows + batch_rows,
            i <= n,
            columns@.len() == start.len(),
            spec_append_batch(start, batch@, i as int) == Ok::<Seq<SourceColumnView>, ErrorCode>(
                columns_view(columns@),
            ),
            forall|k: int| i <= k < start.len() ==> start[k] == #[trigger] columns@[k]@,
        decreases n - i,
    {
        let ghost before = columns@;
        let column = &mut columns[i];
        let r = append_source_values(
            column.name.as_str(),
            column.nullable,
            column.layout.source_kind,
            &mut column.layout.values,
            &mut column.nulls,
            &batch[i],
        );
        match r {
            Ok(()) => {},
            Err(e) => {
                proof {
                    assert(before[i as int]@ == start[i as int]);
                    assert(spec_append_column(start[i as int], batch@[i as int]) is Err);
                    assert(spec_append_batch(start, batch@, i as int + 1) is Err);
                    lemma_append_error_sticks(start, batch@, i as int + 1, n as int);
                }
                return Err(e);
            },
        }
        proof {
            assert(before[i as int]@ == start[i as int]);
            assert(columns_view(columns@) =~= columns_view(before).update(
                i as int,
                columns@[i as int]@,
            ));
        }
        i = i + 1;
    }
    Ok(total)
}

proof fn lemma_append_error_sticks(cs: Seq<SourceColumnView>, bs: Seq<SourceBatch>, j: int, m: int)
    requires
        0 <= j <= m,
        spec_append_batch(cs, bs, j) is Err,
    ensures
        spec_append_batch(cs, bs, m) == spec_append_batch(cs, bs, j),
    decreases m - j,
{
    if m > j {
        lemma_append_error_sticks(cs, bs, j, m - 1);
    }
}

} // verus!
