//! Source columns of a Parquet conversion.
//!
//! Each source column type maps to a COVE logical type, a physical kind and
//! the in-memory layout its values are gathered in; batches of source values
//! are then appended to that layout row by row, nulls getting a placeholder.
use vstd::prelude::*;
use vstd::slice::slice_to_vec;

use crate::constants::{CoveLogicalType, CovePhysicalKind};
use crate::conversion::{byte_strings, strings_view, view_rows, MaterializedValues, MaterializedView};
use crate::error::{fails_with, CoveError, ErrorCode};
use crate::util::{concat, hex_digit, hex_digit_text, text};

verus! {

/// The unit of a source timestamp column.
#[derive(Debug, Clone, Copy, PartialEq, Eq, Structural)]
pub enum SourceTimeUnit {
    Second,
    Millisecond,
    Microsecond,
    Nanosecond,
}

/// The type of a source column as the Parquet reader reports it. Nested
/// and unsupported types carry the reader's name for the type.
#[derive(Debug, Clone, PartialEq, Eq)]
pub enum ParquetSourceType {
    Boolean,
    Int8,
    Int16,
    Int32,
    Int64,
    UInt8,
    UInt16,
    UInt32,
    UInt64,
    Float32,
    Float64,
    Date32,
    Timestamp(SourceTimeUnit),
    Utf8,
    LargeUtf8,
    Binary,
    LargeBinary,
    /// Precision and scale.
    Decimal128(u8, i8),
    /// A list, struct or map type.
    Nested(String),
    /// A type the conversion does not take.
    Unsupported(String),
}

/// The kind of source array a column is read from.
#[derive(Debug, Clone, Copy, PartialEq, Eq, Structural)]
pub enum SourceColumnKind {
    Boolean,
    Int8,
    Int16,
    Int32,
    Int64,
    UInt8,
    UInt16,
    UInt32,
    UInt64,
    Float32,
    Float64,
    Date32,
    TimestampSecond,
    TimestampMillisecond,
    TimestampMicrosecond,
    TimestampNanosecond,
    Utf8,
    LargeUtf8,
    Binary,
    LargeBinary,
    Decimal128,
    NestedJson,
}

/// How a source column is stored: its COVE types, the source kind it is
/// read from, its (empty) value layout, decimal precision and scale, and
/// notes on what the conversion changed.
pub struct SourceColumnLayout {
    pub logical: CoveLogicalType,
    pub physical: CovePhysicalKind,
    pub source_kind: SourceColumnKind,
    pub values: MaterializedValues,
    pub precision: u16,
    pub scale: i16,
    pub notes: Vec<String>,
}

/// The abstract content of a [`SourceColumnLayout`].
pub struct LayoutView {
    pub logical: CoveLogicalType,
    pub physical: CovePhysicalKind,
    pub source_kind: SourceColumnKind,
    pub values: MaterializedView,
    pub precision: u16,
    pub scale: i16,
    pub notes: Seq<Seq<char>>,
}

impl View for SourceColumnLayout {
    type V = LayoutView;

    open spec fn view(&self) -> LayoutView {
        LayoutView {
            logical: self.logical,
            physical: self.physical,
            source_kind: self.source_kind,
            values: self.values@,
            precision: self.precision,
            scale: self.scale,
            notes: strings_view(self.notes@),
        }
    }
}

/// A NumCode column of logical type `logical`, without notes.
pub open spec fn numcode_layout(logical: CoveLogicalType, kind: SourceColumnKind) -> LayoutView {
    LayoutView {
        logical,
        physical: CovePhysicalKind::NumCode,
        source_kind: kind,
        values: MaterializedView::NumCode(Seq::empty()),
        precision: 0,
        scale: 0,
        notes: Seq::empty(),
    }
}

/// A VarBytes column of logical type `logical`.
pub open spec fn varbytes_layout(
    logical: CoveLogicalType,
    kind: SourceColumnKind,
    notes: Seq<Seq<char>>,
) -> LayoutView {
    LayoutView {
        logical,
        physical: CovePhysicalKind::VarBytes,
        source_kind: kind,
        values: MaterializedView::VarBytes(Seq::empty()),
        precision: 0,
        scale: 0,
        notes,
    }
}

/// The note recorded for a nested column stored as JSON text.
pub open spec fn nested_note(source_type: Seq<char>) -> Seq<char> {
    "nested Parquet source type "@ + source_type + " encoded as opaque JSON fallback; pushdown-limited"@
}

/// The message rejecting a column of an unsupported type.
pub open spec fn unsupported_message(column: Seq<char>, source_type: Seq<char>) -> Seq<char> {
    "Parquet MVP converter does not support source column '"@ + column + "' with type "@
        + source_type
}

/// How each source type is stored: integers, floats, dates and timestamps
/// as NumCodes (second and millisecond timestamps normalised to
/// microseconds), strings and binaries as VarBytes, decimals as 16-byte
/// fixed values, nested values as JSON text; `None` for unsupported types.
pub open spec fn spec_source_layout(source: ParquetSourceType) -> Option<LayoutView> {
    match source {
        ParquetSourceType::Boolean => Some(
            LayoutView {
                logical: CoveLogicalType::Bool,
                physical: CovePhysicalKind::Boolean,
                source_kind: SourceColumnKind::Boolean,
                values: MaterializedView::Boolean(Seq::empty()),
                precision: 0,
                scale: 0,
                notes: Seq::empty(),
            },
        ),
        ParquetSourceType::Int8 => Some(numcode_layout(CoveLogicalType::Int8, SourceColumnKind::Int8)),
        ParquetSourceType::Int16 => Some(
            numcode_layout(CoveLogicalType::Int16, SourceColumnKind::Int16),
        ),
        ParquetSourceType::Int32 => Some(
            numcode_layout(CoveLogicalType::Int32, SourceColumnKind::Int32),
        ),
        ParquetSourceType::Int64 => Some(
            numcode_layout(CoveLogicalType::Int64, SourceColumnKind::Int64),
        ),
        ParquetSourceType::UInt8 => Some(
            numcode_layout(CoveLogicalType::UInt8, SourceColumnKind::UInt8),
        ),
        ParquetSourceType::UInt16 => Some(
            numcode_layout(CoveLogicalType::UInt16, SourceColumnKind::UInt16),
        ),
        ParquetSourceType::UInt32 => Some(
            numcode_layout(CoveLogicalType::UInt32, SourceColumnKind::UInt32),
        ),
        ParquetSourceType::UInt64 => Some(
            numcode_layout(CoveLogicalType::UInt64, SourceColumnKind::UInt64),
        ),
        ParquetSourceType::Float32 => Some(
            numcode_layout(CoveLogicalType::Float32, SourceColumnKind::Float32),
        ),
        ParquetSourceType::Float64 => Some(
            numcode_layout(CoveLogicalType::Float64, SourceColumnKind::Float64),
        ),
        ParquetSourceType::Date32 => Some(
            numcode_layout(CoveLogicalType::DateDays, SourceColumnKind::Date32),
        ),
        ParquetSourceType::Timestamp(unit) => Some(
            match unit {
                SourceTimeUnit::Second => LayoutView {
                    notes: seq!["normalized seconds timestamps to TimestampMicros"@],
                    ..numcode_layout(
                        CoveLogicalType::TimestampMicros,
                        SourceColumnKind::TimestampSecond,
                    )
                },
                SourceTimeUnit::Millisecond => LayoutView {
                    notes: seq!["normalized millisecond timestamps to TimestampMicros"@],
                    ..numcode_layout(
                        CoveLogicalType::TimestampMicros,
                        SourceColumnKind::TimestampMillisecond,
                    )
                },
                SourceTimeUnit::Microsecond => numcode_layout(
                    CoveLogicalType::TimestampMicros,
                    SourceColumnKind::TimestampMicrosecond,
                ),
                SourceTimeUnit::Nanosecond => numcode_layout(
                    CoveLogicalType::TimestampNanos,
                    SourceColumnKind::TimestampNanosecond,
                ),
            },
        ),
        ParquetSourceType::Utf8 => Some(
            varbytes_layout(CoveLogicalType::Utf8, SourceColumnKind::Utf8, Seq::empty()),
        ),
        ParquetSourceType::LargeUtf8 => Some(
            varbytes_layout(CoveLogicalType::Utf8, SourceColumnKind::LargeUtf8, Seq::empty()),
        ),
        ParquetSourceType::Binary => Some(
            varbytes_layout(CoveLogicalType::Binary, SourceColumnKind::Binary, Seq::empty()),
        ),
        ParquetSourceType::LargeBinary => Some(
            varbytes_layout(CoveLogicalType::Binary, SourceColumnKind::LargeBinary, Seq::empty()),
        ),
        ParquetSourceType::Decimal128(precision, scale) => Some(
            LayoutView {
                logical: CoveLogicalType::Decimal128,
                physical: CovePhysicalKind::FixedBytes,
                source_kind: SourceColumnKind::Decimal128,
                values: MaterializedView::FixedBytes { width: 16, values: Seq::empty() },
                precision: precision as u16,
                scale: scale as i16,
                notes: Seq::empty(),
            },
        ),
        ParquetSourceType::Nested(name) => Some(
            varbytes_layout(CoveLogicalType::Json, SourceColumnKind::NestedJson, seq![nested_note(name@)]),
        ),
        ParquetSourceType::Unsupported(_) => None,
    }
}

/// A NumCode column of logical type `logical` read from `source_kind`
/// arrays, with no values yet.
pub fn numcode_column(logical: CoveLogicalType, source_kind: SourceColumnKind) -> (res:
    SourceColumnLayout)
    ensures
        res@ == numcode_layout(logical, source_kind),
{
    let res = SourceColumnLayout {
        logical,
        physical: CovePhysicalKind::NumCode,
        source_kind,
        values: MaterializedValues::NumCode(Vec::new()),
        precision: 0,
        scale: 0,
        notes: Vec::new(),
    };
    assert(res@.notes =~= Seq::<Seq<char>>::empty());
    res
}

/// A VarBytes column without notes.
fn varbytes_column(logical: CoveLogicalType, source_kind: SourceColumnKind) -> (res:
    SourceColumnLayout)
    ensures
        res@ == varbytes_layout(logical, source_kind, Seq::empty()),
{
    let empty: Vec<Vec<u8>> = Vec::new();
    assert(byte_strings(empty@) =~= Seq::<Seq<u8>>::empty());
    let res = SourceColumnLayout {
        logical,
        physical: CovePhysicalKind::VarBytes,
        source_kind,
        values: MaterializedValues::VarBytes(empty),
        precision: 0,
        scale: 0,
        notes: Vec::new(),
    };
    assert(res@.notes =~= Seq::<Seq<char>>::empty());
    res
}

/// One note.
fn note(s: String) -> (res: Vec<String>)
    ensures
        strings_view(res@) == seq![s@],
{
    let mut v: Vec<String> = Vec::new();
    v.push(s);
    assert(strings_view(v@) =~= seq![s@]);
    v
}

/// How the column `field_name` of type `source` is stored (see
/// [`spec_source_layout`]); `BadSchema` naming the column and its type
/// when the type is not supported.
pub fn source_column_layout(field_name: &str, source: &ParquetSourceType) -> (res: Result<
    SourceColumnLayout,
    CoveError,
>)
    ensures
        match spec_source_layout(*source) {
            Some(l) => (res matches Ok(r) && r@ == l),
            None => (res matches Err(CoveError::BadSchema(m)) && source matches ParquetSourceType::Unsupported(t)
                && m@ == unsupported_message(field_name@, t@)),
        },
{
    match source {
        ParquetSourceType::Boolean => {
            let res = SourceColumnLayout {
                logical: CoveLogicalType::Bool,
                physical: CovePhysicalKind::Boolean,
                source_kind: SourceColumnKind::Boolean,
                values: MaterializedValues::Boolean(Vec::new()),
                precision: 0,
                scale: 0,
                notes: Vec::new(),
            };
            assert(res@.notes =~= Seq::<Seq<char>>::empty());
            Ok(res)
        },
        ParquetSourceType::Int8 => Ok(numcode_column(CoveLogicalType::Int8, SourceColumnKind::Int8)),
        ParquetSourceType::Int16 => Ok(numcode_column(CoveLogicalType::Int16, SourceColumnKind::Int16)),
        ParquetSourceType::Int32 => Ok(numcode_column(CoveLogicalType::Int32, SourceColumnKind::Int32)),
        ParquetSourceType::Int64 => Ok(numcode_column(CoveLogicalType::Int64, SourceColumnKind::Int64)),
        ParquetSourceType::UInt8 => Ok(numcode_column(CoveLogicalType::UInt8, SourceColumnKind::UInt8)),
        ParquetSourceType::UInt16 => Ok(
            numcode_column(CoveLogicalType::UInt16, SourceColumnKind::UInt16),
        ),
        ParquetSourceType::UInt32 => Ok(
            numcode_column(CoveLogicalType::UInt32, SourceColumnKind::UInt32),
        ),
        ParquetSourceType::UInt64 => Ok(
            numcode_column(CoveLogicalType::UInt64, SourceColumnKind::UInt64),
        ),
        ParquetSourceType::Float32 => Ok(
            numcode_column(CoveLogicalType::Float32, SourceColumnKind::Float32),
        ),
        ParquetSourceType::Float64 => Ok(
            numcode_column(CoveLogicalType::Float64, SourceColumnKind::Float64),
        ),
        ParquetSourceType::Date32 => Ok(
            numcode_column(CoveLogicalType::DateDays, SourceColumnKind::Date32),
        ),
        ParquetSourceType::Timestamp(unit) => match unit {
            SourceTimeUnit::Second => {
                let mut c = numcode_column(
                    CoveLogicalType::TimestampMicros,
                    SourceColumnKind::TimestampSecond,
                );
                c.notes = note(text("normalized seconds timestamps to TimestampMicros"));
                Ok(c)
            },
            SourceTimeUnit::Millisecond => {
                let mut c = numcode_column(
                    CoveLogicalType::TimestampMicros,
                    SourceColumnKind::TimestampMillisecond,
                );
                c.notes = note(text("normalized millisecond timestamps to TimestampMicros"));
                Ok(c)
            },
            SourceTimeUnit::Microsecond => Ok(
                numcode_column(
                    CoveLogicalType::TimestampMicros,
                    SourceColumnKind::TimestampMicrosecond,
                ),
            ),
            SourceTimeUnit::Nanosecond => Ok(
                numcode_column(
                    CoveLogicalType::TimestampNanos,
                    SourceColumnKind::TimestampNanosecond,
                ),
            ),
        },
        ParquetSourceType::Utf8 => Ok(
            varbytes_column(CoveLogicalType::Utf8, SourceColumnKind::Utf8),
        ),
        ParquetSourceType::LargeUtf8 => Ok(
            varbytes_column(CoveLogicalType::Utf8, SourceColumnKind::LargeUtf8),
        ),
        ParquetSourceType::Binary => Ok(
            varbytes_column(CoveLogicalType::Binary, SourceColumnKind::Binary),
        ),
        ParquetSourceType::LargeBinary => Ok(
            varbytes_column(CoveLogicalType::Binary, SourceColumnKind::LargeBinary),
        ),
        ParquetSourceType::Decimal128(precision, scale) => {
            let empty: Vec<Vec<u8>> = Vec::new();
            assert(byte_strings(empty@) =~= Seq::<Seq<u8>>::empty());
            let res = SourceColumnLayout {
                logical: CoveLogicalType::Decimal128,
                physical: CovePhysicalKind::FixedBytes,
                source_kind: SourceColumnKind::Decimal128,
                values: MaterializedValues::FixedBytes { width: 16, values: empty },
                precision: *precision as u16,
                scale: *scale as i16,
                notes: Vec::new(),
            };
            assert(res@.notes =~= Seq::<Seq<char>>::empty());
            Ok(res)
        },
        ParquetSourceType::Nested(name) => {
            let message = concat(
                concat("nested Parquet source type ", name.as_str()).as_str(),
                " encoded as opaque JSON fallback; pushdown-limited",
            );
            assert(message@ == nested_note(name@));
            let mut c = varbytes_column(CoveLogicalType::Json, SourceColumnKind::NestedJson);
            c.notes = note(message);
            Ok(c)
        },
        ParquetSourceType::Unsupported(name) => {
            let message = concat(
                concat(
                    concat("Parquet MVP converter does not support source column '", field_name).as_str(),
                    "' with type ",
                ).as_str(),
                name.as_str(),
            );
            Err(CoveError::BadSchema(message))
        },
    }
}

// ---------------------------------------------------------------------------
// Appending source values
// ---------------------------------------------------------------------------

/// Values read from one source array, row by row; `None` marks a null row.
/// Floats arrive as their bit patterns, nested values as JSON text.
#[derive(Debug, Clone, PartialEq, Eq)]
pub enum SourceValues {
    Booleans(Vec<Option<bool>>),
    Integers(Vec<Option<i64>>),
    Unsigned(Vec<Option<u64>>),
    Bytes(Vec<Option<Vec<u8>>>),
    Decimals(Vec<Option<i128>>),
}

/// The abstract content of [`SourceValues`].
pub enum SourceValuesView {
    Booleans(Seq<Option<bool>>),
    Integers(Seq<Option<i64>>),
    Unsigned(Seq<Option<u64>>),
    Bytes(Seq<Option<Seq<u8>>>),
    Decimals(Seq<Option<i128>>),
}

/// The bytes of an optional byte vector.
pub open spec fn opt_bytes(o: Option<Vec<u8>>) -> Option<Seq<u8>> {
    match o {
        Some(b) => Some(b@),
        None => None,
    }
}

impl View for SourceValues {
    type V = SourceValuesView;

    open spec fn view(&self) -> SourceValuesView {
        match self {
            SourceValues::Booleans(v) => SourceValuesView::Booleans(v@),
            SourceValues::Integers(v) => SourceValuesView::Integers(v@),
            SourceValues::Unsigned(v) => SourceValuesView::Unsigned(v@),
            SourceValues::Bytes(v) => SourceValuesView::Bytes(
                v@.map_values(|o: Option<Vec<u8>>| opt_bytes(o)),
            ),
            SourceValues::Decimals(v) => SourceValuesView::Decimals(v@),
        }
    }
}

/// A batch of source values with the kind of array they were read from.
#[derive(Debug, Clone, PartialEq, Eq)]
pub struct SourceBatch {
    pub kind: SourceColumnKind,
    pub values: SourceValues,
}

/// The null flags of a run of optional values.
pub open spec fn null_mask<T>(s: Seq<Option<T>>) -> Seq<bool> {
    s.map_values(|o: Option<T>| o is None)
}

/// The null flags of a batch.
pub open spec fn source_nulls(s: SourceValuesView) -> Seq<bool> {
    match s {
        SourceValuesView::Booleans(v) => null_mask(v),
        SourceValuesView::Integers(v) => null_mask(v),
        SourceValuesView::Unsigned(v) => null_mask(v),
        SourceValuesView::Bytes(v) => null_mask(v),
        SourceValuesView::Decimals(v) => null_mask(v),
    }
}

/// Kinds read as signed integers: integers, dates and timestamps.
pub open spec fn is_integer_kind(k: SourceColumnKind) -> bool {
    ||| k == SourceColumnKind::Int8
    ||| k == SourceColumnKind::Int16
    ||| k == SourceColumnKind::Int32
    ||| k == SourceColumnKind::Int64
    ||| k == SourceColumnKind::Date32
    ||| k == SourceColumnKind::TimestampSecond
    ||| k == SourceColumnKind::TimestampMillisecond
    ||| k == SourceColumnKind::TimestampMicrosecond
    ||| k == SourceColumnKind::TimestampNanosecond
}

/// Kinds read as unsigned values: unsigned integers and float bits.
pub open spec fn is_unsigned_kind(k: SourceColumnKind) -> bool {
    ||| k == SourceColumnKind::UInt8
    ||| k == SourceColumnKind::UInt16
    ||| k == SourceColumnKind::UInt32
    ||| k == SourceColumnKind::UInt64
    ||| k == SourceColumnKind::Float32
    ||| k == SourceColumnKind::Float64
}

/// Kinds read as byte strings: strings, binaries and JSON text.
pub open spec fn is_bytes_kind(k: SourceColumnKind) -> bool {
    ||| k == SourceColumnKind::Utf8
    ||| k == SourceColumnKind::LargeUtf8
    ||| k == SourceColumnKind::Binary
    ||| k == SourceColumnKind::LargeBinary
    ||| k == SourceColumnKind::NestedJson
}

/// Whether a batch's values have the shape its kind of array yields.
pub open spec fn values_fit(k: SourceColumnKind, s: SourceValuesView) -> bool {
    match s {
        SourceValuesView::Booleans(_) => k == SourceColumnKind::Boolean,
        SourceValuesView::Integers(_) => is_integer_kind(k),
        SourceValuesView::Unsigned(_) => is_unsigned_kind(k),
        SourceValuesView::Bytes(_) => is_bytes_kind(k),
        SourceValuesView::Decimals(_) => k == SourceColumnKind::Decimal128,
    }
}

/// Whether a column's values have the layout its kind gathers into.
pub open spec fn holds_layout(k: SourceColumnKind, m: MaterializedView) -> bool {
    if k == SourceColumnKind::Boolean {
        m is Boolean
    } else if is_integer_kind(k) || is_unsigned_kind(k) {
        m is NumCode
    } else if is_bytes_kind(k) {
        m is VarBytes
    } else {
        m matches MaterializedView::FixedBytes { width, .. } && width == 16
    }
}

/// What a source value of a kind is multiplied by to become a NumCode:
/// seconds and milliseconds are normalised to microseconds.
pub open spec fn time_factor(k: SourceColumnKind) -> int {
    if k == SourceColumnKind::TimestampSecond {
        1_000_000
    } else if k == SourceColumnKind::TimestampMillisecond {
        1_000
    } else {
        1
    }
}

/// Whether every scaled non-null value fits an `i64`.
pub open spec fn integers_fit(s: Seq<Option<i64>>, f: int) -> bool {
    forall|i: int|
        0 <= i < s.len() ==> match #[trigger] s[i] {
            Some(v) => i64::MIN <= v * f <= i64::MAX,
            None => true,
        }
}

/// The stored byte of a boolean: 1 for true, 0 for false or null.
pub open spec fn bool_code(o: Option<bool>) -> u8 {
    match o {
        Some(true) => 1,
        _ => 0,
    }
}

/// The NumCode of a signed value scaled by `f`: its two's-complement bits;
/// 0 for null.
pub open spec fn integer_code(o: Option<i64>, f: int) -> u64 {
    match o {
        Some(v) => ((v * f) as i64) as u64,
        None => 0,
    }
}

/// The NumCode of an unsigned value; 0 for null.
pub open spec fn unsigned_code(o: Option<u64>) -> u64 {
    match o {
        Some(v) => v,
        None => 0,
    }
}

/// The stored bytes of a byte string; for null the JSON `null` in a JSON
/// column, else nothing.
pub open spec fn bytes_code(o: Option<Seq<u8>>, k: SourceColumnKind) -> Seq<u8> {
    match o {
        Some(b) => b,
        None => if k == SourceColumnKind::NestedJson {
            seq![110u8, 117u8, 108u8, 108u8]
        } else {
            Seq::empty()
        },
    }
}

/// The sixteen little-endian bytes of a decimal value.
pub open spec fn decimal_le(v: i128) -> Seq<u8> {
    Seq::new(16, |i: int| ((v as u128) >> ((8 * i) as u128)) as u8)
}

/// The stored bytes of a decimal; sixteen zeros for null.
pub open spec fn decimal_code(o: Option<i128>) -> Seq<u8> {
    match o {
        Some(v) => decimal_le(v),
        None => Seq::new(16, |i: int| 0u8),
    }
}

/// `m` with a batch's stored values appended.
pub open spec fn appended_values(k: SourceColumnKind, m: MaterializedView, s: SourceValuesView) -> MaterializedView {
    match (m, s) {
        (MaterializedView::Boolean(v), SourceValuesView::Booleans(b)) => MaterializedView::Boolean(
            v + b.map_values(|o: Option<bool>| bool_code(o)),
        ),
        (MaterializedView::NumCode(v), SourceValuesView::Integers(x)) => MaterializedView::NumCode(
            v + x.map_values(|o: Option<i64>| integer_code(o, time_factor(k))),
        ),
        (MaterializedView::NumCode(v), SourceValuesView::Unsigned(x)) => MaterializedView::NumCode(
            v + x.map_values(|o: Option<u64>| unsigned_code(o)),
        ),
        (MaterializedView::VarBytes(v), SourceValuesView::Bytes(x)) => MaterializedView::VarBytes(
            v + x.map_values(|o: Option<Seq<u8>>| bytes_code(o, k)),
        ),
        (
            MaterializedView::FixedBytes { width, values },
            SourceValuesView::Decimals(x),
        ) => MaterializedView::FixedBytes {
            width,
            values: values + x.map_values(|o: Option<i128>| decimal_code(o)),
        },
        _ => m,
    }
}

/// Appending a batch to a column of kind `k` holding `values` and `nulls`:
/// nulls in a non-nullable column, a batch of another kind or shape, or a
/// column of another layout are `BadSchema`; a timestamp that overflows
/// when normalised is `ArithOverflow`; values and null flags that already
/// disagree in count are `BadSchema`. Otherwise the stored values and the
/// null flags are appended.
pub open spec fn spec_append(
    nullable: bool,
    k: SourceColumnKind,
    values: MaterializedView,
    nulls: Seq<bool>,
    batch_kind: SourceColumnKind,
    s: SourceValuesView,
) -> Result<(MaterializedView, Seq<bool>), ErrorCode> {
    if !nullable && source_nulls(s).contains(true) {
        Err(ErrorCode::BadSchema)
    } else if batch_kind != k || !values_fit(k, s) {
        Err(ErrorCode::BadSchema)
    } else if !holds_layout(k, values) {
        Err(ErrorCode::BadSchema)
    } else if s matches SourceValuesView::Integers(x) && !integers_fit(x, time_factor(k)) {
        Err(ErrorCode::ArithOverflow)
    } else if view_rows(values) != nulls.len() {
        Err(ErrorCode::BadSchema)
    } else {
        Ok((appended_values(k, values, s), nulls + source_nulls(s)))
    }
}

fn null_flags<T>(v: &Vec<Option<T>>) -> (res: Vec<bool>)
    ensures
        res@ == null_mask(v@),
{
    let mut out: Vec<bool> = Vec::new();
    let mut k: usize = 0;
    while k < v.len()
        invariant
            k <= v@.len(),
            out@.len() == k,
            forall|j: int| 0 <= j < k ==> #[trigger] out@[j] == (v@[j] is None),
        decreases v@.len() - k,
    {
        out.push(v[k].is_none());
        k = k + 1;
    }
    assert(out@ =~= null_mask(v@));
    out
}

fn batch_nulls(s: &SourceValues) -> (res: Vec<bool>)
    ensures
        res@ == source_nulls(s@),
{
    match s {
        SourceValues::Booleans(v) => null_flags(v),
        SourceValues::Integers(v) => null_flags(v),
        SourceValues::Unsigned(v) => null_flags(v),
        SourceValues::Bytes(v) => {
            let r = null_flags(v);
            assert(r@ =~= null_mask(v@.map_values(|o: Option<Vec<u8>>| opt_bytes(o))));
            r
        },
        SourceValues::Decimals(v) => null_flags(v),
    }
}

fn any_true(v: &Vec<bool>) -> (res: bool)
    ensures
        res == v@.contains(true),
{
    let mut k: usize = 0;
    while k < v.len()
        invariant
            k <= v@.len(),
            forall|j: int| 0 <= j < k ==> !(#[trigger] v@[j]),
        decreases v@.len() - k,
    {
        if v[k] {
            assert(v@[k as int] == true);
            return true;
        }
        k = k + 1;
    }
    false
}

fn integer_kind(k: SourceColumnKind) -> (res: bool)
    ensures
        res == is_integer_kind(k),
{
    match k {
        SourceColumnKind::Int8
        | SourceColumnKind::Int16
        | SourceColumnKind::Int32
        | SourceColumnKind::Int64
        | SourceColumnKind::Date32
        | SourceColumnKind::TimestampSecond
        | SourceColumnKind::TimestampMillisecond
        | SourceColumnKind::TimestampMicrosecond
        | SourceColumnKind::TimestampNanosecond => true,
        _ => false,
    }
}

fn unsigned_kind(k: SourceColumnKind) -> (res: bool)
    ensures
        res == is_unsigned_kind(k),
{
    match k {
        SourceColumnKind::UInt8
        | SourceColumnKind::UInt16
        | SourceColumnKind::UInt32
        | SourceColumnKind::UInt64
        | SourceColumnKind::Float32
        | SourceColumnKind::Float64 => true,
        _ => false,
    }
}

fn bytes_kind(k: SourceColumnKind) -> (res: bool)
    ensures
        res == is_bytes_kind(k),
{
    match k {
        SourceColumnKind::Utf8
        | SourceColumnKind::LargeUtf8
        | SourceColumnKind::Binary
        | SourceColumnKind::LargeBinary
        | SourceColumnKind::NestedJson => true,
        _ => false,
    }
}

fn shape_fits(k: SourceColumnKind, s: &SourceValues) -> (res: bool)
    ensures
        res == values_fit(k, s@),
{
    match s {
        SourceValues::Booleans(_) => k == SourceColumnKind::Boolean,
        SourceValues::Integers(_) => integer_kind(k),
        SourceValues::Unsigned(_) => unsigned_kind(k),
        SourceValues::Bytes(_) => bytes_kind(k),
        SourceValues::Decimals(_) => k == SourceColumnKind::Decimal128,
    }
}

/// Checks that a column's values have the layout its kind gathers into;
/// `BadSchema` naming the layout expected otherwise.
fn check_layout(k: SourceColumnKind, m: &MaterializedValues) -> (res: Result<(), CoveError>)
    ensures
        res is Ok <==> holds_layout(k, m@),
        res is Err ==> fails_with(res, ErrorCode::BadSchema),
{
    if k == SourceColumnKind::Boolean {
        match m {
            MaterializedValues::Boolean(_) => Ok(()),
            _ => Err(CoveError::BadSchema(text("expected boolean materialized values"))),
        }
    } else if integer_kind(k) || unsigned_kind(k) {
        match m {
            MaterializedValues::NumCode(_) => Ok(()),
            _ => Err(CoveError::BadSchema(text("expected NumCode materialized values"))),
        }
    } else if bytes_kind(k) {
        match m {
            MaterializedValues::VarBytes(_) => Ok(()),
            _ => Err(CoveError::BadSchema(text("expected VarBytes materialized values"))),
        }
    } else {
        match m {
            MaterializedValues::FixedBytes { width, .. } => if *width == 16 {
                Ok(())
            } else {
                Err(
                    CoveError::BadSchema(
                        text("expected fixed-width materialized values of width 16"),
                    ),
                )
            },
            _ => Err(CoveError::BadSchema(text("expected fixed-width materialized values"))),
        }
    }
}

fn factor_of(k: SourceColumnKind) -> (res: i64)
    ensures
        res == time_factor(k),
        1 <= res <= 1_000_000,
{
    match k {
        SourceColumnKind::TimestampSecond => 1_000_000,
        SourceColumnKind::TimestampMillisecond => 1_000,
        _ => 1,
    }
}

fn boolean_codes(b: &Vec<Option<bool>>) -> (res: Vec<u8>)
    ensures
        res@ == b@.map_values(|o: Option<bool>| bool_code(o)),
{
    let mut out: Vec<u8> = Vec::new();
    let mut k: usize = 0;
    while k < b.len()
        invariant
            k <= b@.len(),
            out@.len() == k,
            forall|j: int| 0 <= j < k ==> #[trigger] out@[j] == bool_code(b@[j]),
        decreases b@.len() - k,
    {
        let code: u8 = match b[k] {
            Some(true) => 1,
            _ => 0,
        };
        out.push(code);
        k = k + 1;
    }
    assert(out@ =~= b@.map_values(|o: Option<bool>| bool_code(o)));
    out
}

fn integer_codes(x: &Vec<Option<i64>>, factor: i64) -> (res: Result<Vec<u64>, CoveError>)
    requires
        1 <= factor <= 1_000_000,
    ensures
        match res {
            Ok(v) => integers_fit(x@, factor as int) && v@ == x@.map_values(
                |o: Option<i64>| integer_code(o, factor as int),
            ),
            Err(e) => !integers_fit(x@, factor as int) && e.code() == ErrorCode::ArithOverflow,
        },
{
    let mut out: Vec<u64> = Vec::new();
    let mut k: usize = 0;
    while k < x.len()
        invariant
            1 <= factor <= 1_000_000,
            k <= x@.len(),
            out@.len() == k,
            integers_fit(x@.subrange(0, k as int), factor as int),
            forall|j: int| 0 <= j < k ==> #[trigger] out@[j] == integer_code(x@[j], factor as int),
        decreases x@.len() - k,
    {
        let code: u64 = match x[k] {
            Some(v) => {
                proof {
                    let (a, f) = (v as int, factor as int);
                    assert(-0x8000_0000_0000_0000 * 1_000_000 <= a * f <= 0x7fff_ffff_ffff_ffff
                        * 1_000_000) by (nonlinear_arith)
                        requires
                            -0x8000_0000_0000_0000 <= a <= 0x7fff_ffff_ffff_ffff,
                            1 <= f <= 1_000_000,
                    ;
                }
                let p: i128 = v as i128 * factor as i128;
                if p < i64::MIN as i128 || p > i64::MAX as i128 {
                    proof {
                        assert(!(i64::MIN <= v * factor <= i64::MAX));
                        assert(x@[k as int] == Some(v));
                    }
                    return Err(CoveError::ArithOverflow);
                }
                (p as i64) as u64
            },
            None => 0,
        };
        proof {
            assert forall|i: int| 0 <= i < k + 1 implies match #[trigger] x@.subrange(
                0,
                k + 1,
            )[i] {
                Some(v) => i64::MIN <= v * factor <= i64::MAX,
                None => true,
            } by {
                if i < k {
                    assert(x@.subrange(0, k + 1)[i] == x@.subrange(0, k as int)[i]);
                }
            }
        }
        out.push(code);
        k = k + 1;
    }
    assert(x@.subrange(0, x@.len() as int) =~= x@);
    assert(out@ =~= x@.map_values(|o: Option<i64>| integer_code(o, factor as int)));
    Ok(out)
}

fn unsigned_codes(x: &Vec<Option<u64>>) -> (res: Vec<u64>)
    ensures
        res@ == x@.map_values(|o: Option<u64>| unsigned_code(o)),
{
    let mut out: Vec<u64> = Vec::new();
    let mut k: usize = 0;
    while k < x.len()
        invariant
            k <= x@.len(),
            out@.len() == k,
            forall|j: int| 0 <= j < k ==> #[trigger] out@[j] == unsigned_code(x@[j]),
        decreases x@.len() - k,
    {
        let code: u64 = match x[k] {
            Some(v) => v,
            None => 0,
        };
        out.push(code);
        k = k + 1;
    }
    assert(out@ =~= x@.map_values(|o: Option<u64>| unsigned_code(o)));
    out
}

fn byte_codes(x: &Vec<Option<Vec<u8>>>, kind: SourceColumnKind) -> (res: Vec<Vec<u8>>)
    ensures
        byte_strings(res@) == x@.map_values(|o: Option<Vec<u8>>| opt_bytes(o)).map_values(
            |o: Option<Seq<u8>>| bytes_code(o, kind),
        ),
{
    let mut out: Vec<Vec<u8>> = Vec::new();
    let mut k: usize = 0;
    while k < x.len()
        invariant
            k <= x@.len(),
            out@.len() == k,
            forall|j: int| 0 <= j < k ==> (#[trigger] out@[j])@ == bytes_code(opt_bytes(x@[j]), kind),
        decreases x@.len() - k,
    {
        let code: Vec<u8> = match &x[k] {
            Some(b) => slice_to_vec(b.as_slice()),
            None => if kind == SourceColumnKind::NestedJson {
                let mut n: Vec<u8> = Vec::new();
                n.push(110u8);
                n.push(117u8);
                n.push(108u8);
                n.push(108u8);
                assert(n@ =~= seq![110u8, 117u8, 108u8, 108u8]);
                n
            } else {
                let e: Vec<u8> = Vec::new();
                assert(e@ =~= Seq::<u8>::empty());
                e
            },
        };
        out.push(code);
        k = k + 1;
    }
    assert(byte_strings(out@) =~= x@.map_values(|o: Option<Vec<u8>>| opt_bytes(o)).map_values(
        |o: Option<Seq<u8>>| bytes_code(o, kind),
    ));
    out
}

pub(crate) fn decimal_bytes(v: i128) -> (res: Vec<u8>)
    ensures
        res@ == decimal_le(v),
{
    let u: u128 = v as u128;
    let mut out: Vec<u8> = Vec::new();
    let mut i: u128 = 0;
    while i < 16
        invariant
            u == v as u128,
            i <= 16,
            out@.len() == i,
            forall|j: int| 0 <= j < i ==> #[trigger] out@[j] == ((v as u128) >> ((8 * j) as u128)) as u8,
        decreases 16 - i,
    {
        out.push((u >> (8 * i)) as u8);
        i = i + 1;
    }
    assert(out@ =~= decimal_le(v));
    out
}

fn decimal_codes(x: &Vec<Option<i128>>) -> (res: Vec<Vec<u8>>)
    ensures
        byte_strings(res@) == x@.map_values(|o: Option<i128>| decimal_code(o)),
{
    let mut out: Vec<Vec<u8>> = Vec::new();
    let mut k: usize = 0;
    while k < x.len()
        invariant
            k <= x@.len(),
            out@.len() == k,
            forall|j: int| 0 <= j < k ==> (#[trigger] out@[j])@ == decimal_code(x@[j]),
        decreases x@.len() - k,
    {
        let code: Vec<u8> = match x[k] {
            Some(v) => decimal_bytes(v),
            None => {
                let z: Vec<u8> = vec![0u8; 16];
                assert(z@ =~= Seq::new(16, |i: int| 0u8));
                z
            },
        };
        out.push(code);
        k = k + 1;
    }
    assert(byte_strings(out@) =~= x@.map_values(|o: Option<i128>| decimal_code(o)));
    out
}

fn append_booleans(values: &mut MaterializedValues, items: Vec<u8>)
    requires
        old(values)@ is Boolean,
    ensures
        final(values)@ == MaterializedView::Boolean(old(values)@->Boolean_0 + items@),
{
    let mut items = items;
    match values {
        MaterializedValues::Boolean(v) => v.append(&mut items),
        _ => {},
    }
}

fn append_numcodes(values: &mut MaterializedValues, items: Vec<u64>)
    requires
        old(values)@ is NumCode,
    ensures
        final(values)@ == MaterializedView::NumCode(old(values)@->NumCode_0 + items@),
{
    let mut items = items;
    match values {
        MaterializedValues::NumCode(v) => v.append(&mut items),
        _ => {},
    }
}

fn append_var_bytes(values: &mut MaterializedValues, items: Vec<Vec<u8>>)
    requires
        old(values)@ is VarBytes,
    ensures
        final(values)@ == MaterializedView::VarBytes(
            old(values)@->VarBytes_0 + byte_strings(items@),
        ),
{
    let mut items = items;
    let ghost added = items@;
    match values {
        MaterializedValues::VarBytes(v) => {
            let ghost before = v@;
            v.append(&mut items);
            assert(byte_strings(v@) =~= byte_strings(before) + byte_strings(added));
        },
        _ => {},
    }
}

fn append_fixed_bytes(values: &mut MaterializedValues, items: Vec<Vec<u8>>)
    requires
        old(values)@ is FixedBytes,
    ensures
        final(values)@ == (MaterializedView::FixedBytes {
            width: old(values)@->width,
            values: old(values)@->FixedBytes_values + byte_strings(items@),
        }),
{
    let mut items = items;
    let ghost added = items@;
    match values {
        MaterializedValues::FixedBytes { values: v, .. } => {
            let ghost before = v@;
            v.append(&mut items);
            assert(byte_strings(v@) =~= byte_strings(before) + byte_strings(added));
        },
        _ => {},
    }
}

fn diverged(column_name: &str) -> (res: CoveError)
    ensures
        res.code() == ErrorCode::BadSchema,
{
    CoveError::BadSchema(
        concat(concat("column '", column_name).as_str(), "' materialized row/null counts diverged"),
    )
}

/// Appends a batch of source values to the column `column_name` of kind
/// `kind`, whose stored values and null flags are `values` and `nulls`
/// (see [`spec_append`]). Nothing changes when it fails.
pub fn append_source_values(
    column_name: &str,
    nullable: bool,
    kind: SourceColumnKind,
    values: &mut MaterializedValues,
    nulls: &mut Vec<bool>,
    batch: &SourceBatch,
) -> (res: Result<(), CoveError>)
    ensures
        match spec_append(nullable, kind, old(values)@, old(nulls)@, batch.kind, batch.values@) {
            Ok((v, n)) => res is Ok && final(values)@ == v && final(nulls)@ == n,
            Err(e) => fails_with(res, e) && final(values)@ == old(values)@ && final(nulls)@ == old(
                nulls,
            )@,
        },
{
    let mut flags = batch_nulls(&batch.values);
    if !nullable && any_true(&flags) {
        return Err(
            CoveError::BadSchema(
                concat(
                    concat(
                        "Parquet source produced null values for non-nullable column '",
                        column_name,
                    ).as_str(),
                    "'",
                ),
            ),
        );
    }
    if batch.kind != kind || !shape_fits(kind, &batch.values) {
        return Err(
            CoveError::BadSchema(
                concat(
                    concat(
                        "Parquet reader produced an unexpected Arrow array type for column '",
                        column_name,
                    ).as_str(),
                    "'",
                ),
            ),
        );
    }
    match check_layout(kind, values) {
        Ok(()) => {},
        Err(e) => return Err(e),
    }
    let counts_differ = values.row_count() != nulls.len();
    match &batch.values {
        SourceValues::Booleans(b) => {
            let items = boolean_codes(b);
            if counts_differ {
                return Err(diverged(column_name));
            }
            append_booleans(values, items);
        },
        SourceValues::Integers(x) => {
            let items = match integer_codes(x, factor_of(kind)) {
                Ok(items) => items,
                Err(e) => return Err(e),
            };
            if counts_differ {
                return Err(diverged(column_name));
            }
            append_numcodes(values, items);
        },
        SourceValues::Unsigned(x) => {
            let items = unsigned_codes(x);
            if counts_differ {
                return Err(diverged(column_name));
            }
            append_numcodes(values, items);
        },
        SourceValues::Bytes(x) => {
            let items = byte_codes(x, kind);
            if counts_differ {
                return Err(diverged(column_name));
            }
            append_var_bytes(values, items);
        },
        SourceValues::Decimals(x) => {
            let items = decimal_codes(x);
            if counts_differ {
                return Err(diverged(column_name));
            }
            append_fixed_bytes(values, items);
        },
    }
    nulls.append(&mut flags);
    Ok(())
}

/// Appending keeps a column's stored values and null flags in step: after
/// a successful append there is one null flag per stored value, and every
/// appended row is flagged null exactly when its source value is null.
pub proof fn lemma_append_keeps_rows_in_step(
    nullable: bool,
    k: SourceColumnKind,
    values: MaterializedView,
    nulls: Seq<bool>,
    batch_kind: SourceColumnKind,
    s: SourceValuesView,
)
    requires
        spec_append(nullable, k, values, nulls, batch_kind, s) is Ok,
    ensures
        ({
            let (v, n) = spec_append(nullable, k, values, nulls, batch_kind, s)->Ok_0;
            &&& view_rows(v) == n.len()
            &&& n.subrange(0, nulls.len() as int) == nulls
            &&& n.subrange(nulls.len() as int, n.len() as int) == source_nulls(s)
        }),
{
    let (v, n) = spec_append(nullable, k, values, nulls, batch_kind, s)->Ok_0;
    assert(n.subrange(0, nulls.len() as int) =~= nulls);
    assert(n.subrange(nulls.len() as int, n.len() as int) =~= source_nulls(s));
}

// ---------------------------------------------------------------------------
// Hexadecimal text
// ---------------------------------------------------------------------------

/// Bytes as lowercase hexadecimal text, two digits per byte, high nibble
/// first.
pub open spec fn spec_hex_text(b: Seq<u8>) -> Seq<char>
    decreases b.len(),
{
    if b.len() == 0 {
        Seq::empty()
    } else {
        let last = b.last();
        spec_hex_text(b.drop_last()) + seq![
            hex_digit((last >> 4u8) as u64),
            hex_digit((last & 0xfu8) as u64),
        ]
    }
}


/// Bytes as lowercase hexadecimal text (see [`spec_hex_text`]).
pub fn hex_encode(bytes: &[u8]) -> (res: String)
    ensures
        res@ == spec_hex_text(bytes@),
{
    let mut out = String::new();
    let mut k: usize = 0;
    while k < bytes.len()
        invariant
            k <= bytes@.len(),
            out@ == spec_hex_text(bytes@.subrange(0, k as int)),
        decreases bytes@.len() - k,
    {
        let b = bytes[k];
        let hi = b >> 4u8;
        let lo = b & 0xfu8;
        assert(hi < 16) by (bit_vector)
            requires
                hi == b >> 4u8,
        ;
        assert(lo < 16) by (bit_vector)
            requires
                lo == b & 0xfu8,
        ;
        out.append(hex_digit_text(hi));
        out.append(hex_digit_text(lo));
        proof {
            let next = bytes@.subrange(0, k + 1);
            assert(next.drop_last() =~= bytes@.subrange(0, k as int));
            assert(next.last() == b);
        }
        k = k + 1;
    }
    assert(bytes@.subrange(0, bytes@.len() as int) =~= bytes@);
    out
}

/// How many nanoseconds one unit of a source time unit spans.
pub open spec fn unit_tick_nanos(u: SourceTimeUnit) -> int {
    match u {
        SourceTimeUnit::Second => 1_000_000_000,
        SourceTimeUnit::Millisecond => 1_000_000,
        SourceTimeUnit::Microsecond => 1_000,
        SourceTimeUnit::Nanosecond => 1,
    }
}

/// How many nanoseconds one stored unit of a timestamp logical type spans.
pub open spec fn stored_tick_nanos(l: CoveLogicalType) -> int {
    match l {
        CoveLogicalType::TimestampMicros => 1_000,
        CoveLogicalType::TimestampNanos => 1,
        _ => 0,
    }
}

/// Appending timestamps keeps each instant: a source timestamp column is
/// stored under a timestamp logical type whose unit divides the source's
/// unit, and a non-null value `v` counted in the source's unit is appended
/// as the two's-complement bits of the same instant counted in the stored
/// unit (seconds and milliseconds scaled up to microseconds, microseconds
/// and nanoseconds kept as they are).
pub proof fn lemma_timestamp_append_keeps_instant(
    unit: SourceTimeUnit,
    nullable: bool,
    values: MaterializedView,
    nulls: Seq<bool>,
    x: Seq<Option<i64>>,
    i: int,
)
    requires
        0 <= i < x.len(),
        x[i] is Some,
    ensures
        spec_source_layout(ParquetSourceType::Timestamp(unit)) is Some,
        ({
            let lay = spec_source_layout(ParquetSourceType::Timestamp(unit))->Some_0;
            let stored = stored_tick_nanos(lay.logical);
            let v = x[i]->Some_0;
            &&& stored > 0
            &&& unit_tick_nanos(unit) % stored == 0
            &&& match spec_append(
                nullable,
                lay.source_kind,
                values,
                nulls,
                lay.source_kind,
                SourceValuesView::Integers(x),
            ) {
                Ok((out, _)) => out matches MaterializedView::NumCode(codes) && codes.len()
                    == view_rows(values) + x.len() && codes[view_rows(values) + i] == ((v
                    * unit_tick_nanos(unit) / stored) as i64) as u64,
                Err(_) => true,
            }
        }),
{
    let lay = spec_source_layout(ParquetSourceType::Timestamp(unit))->Some_0;
    let stored = stored_tick_nanos(lay.logical);
    let v = x[i]->Some_0;
    let f = time_factor(lay.source_kind);
    assert(v * unit_tick_nanos(unit) / stored == v * f) by (nonlinear_arith)
        requires
            unit_tick_nanos(unit) == f * stored,
            stored > 0,
    {
        assert(v * unit_tick_nanos(unit) == (v * f) * stored) by (nonlinear_arith)
            requires unit_tick_nanos(unit) == f * stored;
    }
    match spec_append(
        nullable,
        lay.source_kind,
        values,
        nulls,
        lay.source_kind,
        SourceValuesView::Integers(x),
    ) {
        Ok((out, _)) => {
            let n = view_rows(values);
            let codes = values->NumCode_0;
            assert(out == MaterializedView::NumCode(
                codes + x.map_values(|o: Option<i64>| integer_code(o, f)),
            ));
        },
        Err(_) => {},
    }
}

} // verus!
