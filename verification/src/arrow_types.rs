//! The Arrow data type each COVE logical type exports as, under the export
//! options, with the fidelity notes the choice calls for.
use vstd::prelude::*;

use crate::array::{is_prefixed_logical, spec_fixed_width, EncodedArray};
use crate::arrow_export::{
    is_lossy_or_unsupported, ArrowDictionaryPolicy, ArrowExportOptions, ArrowExportReport,
    ArrowExportResult, ArrowFidelitySeverity, ArrowVarBytesExportPolicy, BytePayloadLayout,
    IssueView,
};
use crate::constants::{CoveEncodingKind, CoveLogicalType, CovePhysicalKind};
use crate::error::{fails_with, CoveError, ErrorCode};
use crate::util::text;

verus! {

/// An Arrow data type an export produces.
#[derive(Debug, Clone, Copy, PartialEq, Eq, Structural)]
pub enum ArrowType {
    Boolean,
    Int8,
    Int16,
    Int32,
    Int64,
    UInt8,
    UInt16,
    UInt32,
    UInt64,
    Float32,
    Float64,
    Date32,
    /// Microsecond timestamps without a time zone.
    TimestampMicros,
    /// Nanosecond timestamps without a time zone.
    TimestampNanos,
    Utf8,
    Utf8View,
    Binary,
    BinaryView,
    FixedSizeBinary(i32),
    /// Precision and scale.
    Decimal128(u8, i8),
}

/// The Arrow data type of an exported column.
#[derive(Debug, Clone, Copy, PartialEq, Eq, Structural)]
pub enum ArrowColumnType {
    /// Values of this type.
    Plain(ArrowType),
    /// `UInt32` dictionary keys over values of this type.
    DictionaryKeys(ArrowType),
}

/// The plain Arrow type of a logical type; `None` for types without one.
pub open spec fn spec_arrow_data_type(l: CoveLogicalType) -> Option<ArrowType> {
    match l {
        CoveLogicalType::Bool => Some(ArrowType::Boolean),
        CoveLogicalType::Int8 => Some(ArrowType::Int8),
        CoveLogicalType::Int16 => Some(ArrowType::Int16),
        CoveLogicalType::Int32 => Some(ArrowType::Int32),
        CoveLogicalType::Int64 => Some(ArrowType::Int64),
        CoveLogicalType::UInt8 => Some(ArrowType::UInt8),
        CoveLogicalType::UInt16 => Some(ArrowType::UInt16),
        CoveLogicalType::UInt32 => Some(ArrowType::UInt32),
        CoveLogicalType::UInt64 => Some(ArrowType::UInt64),
        CoveLogicalType::Float32 => Some(ArrowType::Float32),
        CoveLogicalType::Float64 => Some(ArrowType::Float64),
        CoveLogicalType::DateDays => Some(ArrowType::Date32),
        CoveLogicalType::TimestampMicros => Some(ArrowType::TimestampMicros),
        CoveLogicalType::TimestampNanos => Some(ArrowType::TimestampNanos),
        CoveLogicalType::Utf8 | CoveLogicalType::Json => Some(ArrowType::Utf8),
        CoveLogicalType::Binary => Some(ArrowType::Binary),
        CoveLogicalType::Uuid => Some(ArrowType::FixedSizeBinary(16)),
        _ => None,
    }
}

/// The plain Arrow type of a logical type; `UnsupportedEncoding` for types
/// without one.
pub fn arrow_data_type(logical: CoveLogicalType) -> (res: Result<ArrowType, CoveError>)
    ensures
        match spec_arrow_data_type(logical) {
            Some(t) => res == Ok::<ArrowType, CoveError>(t),
            None => fails_with(res, ErrorCode::UnsupportedEncoding),
        },
{
    match logical {
        CoveLogicalType::Bool => Ok(ArrowType::Boolean),
        CoveLogicalType::Int8 => Ok(ArrowType::Int8),
        CoveLogicalType::Int16 => Ok(ArrowType::Int16),
        CoveLogicalType::Int32 => Ok(ArrowType::Int32),
        CoveLogicalType::Int64 => Ok(ArrowType::Int64),
        CoveLogicalType::UInt8 => Ok(ArrowType::UInt8),
        CoveLogicalType::UInt16 => Ok(ArrowType::UInt16),
        CoveLogicalType::UInt32 => Ok(ArrowType::UInt32),
        CoveLogicalType::UInt64 => Ok(ArrowType::UInt64),
        CoveLogicalType::Float32 => Ok(ArrowType::Float32),
        CoveLogicalType::Float64 => Ok(ArrowType::Float64),
        CoveLogicalType::DateDays => Ok(ArrowType::Date32),
        CoveLogicalType::TimestampMicros => Ok(ArrowType::TimestampMicros),
        CoveLogicalType::TimestampNanos => Ok(ArrowType::TimestampNanos),
        CoveLogicalType::Utf8 | CoveLogicalType::Json => Ok(ArrowType::Utf8),
        CoveLogicalType::Binary => Ok(ArrowType::Binary),
        CoveLogicalType::Uuid => Ok(ArrowType::FixedSizeBinary(16)),
        _ => Err(CoveError::UnsupportedEncoding(text("Arrow export for this logical type"))),
    }
}

/// Whether the options ask for view types for byte columns.
pub open spec fn views(options: ArrowExportOptions) -> bool {
    options.varbytes_policy == ArrowVarBytesExportPolicy::View
}

/// The Arrow type a logical type exports as under `options`: decimals take
/// the decimal context when there is one (else `Int64` and
/// `FixedSizeBinary(16)`), UUIDs are 16-byte binaries, and byte columns
/// use view types when the options ask for them.
pub open spec fn spec_export_type(l: CoveLogicalType, options: ArrowExportOptions) -> Option<ArrowType> {
    match l {
        CoveLogicalType::Decimal64 => match options.decimal {
            Some(d) => Some(ArrowType::Decimal128(d.precision, d.scale)),
            None => Some(ArrowType::Int64),
        },
        CoveLogicalType::Decimal128 => match options.decimal {
            Some(d) => Some(ArrowType::Decimal128(d.precision, d.scale)),
            None => Some(ArrowType::FixedSizeBinary(16)),
        },
        CoveLogicalType::Uuid => Some(ArrowType::FixedSizeBinary(16)),
        CoveLogicalType::Json => if views(options) {
            Some(ArrowType::Utf8View)
        } else {
            Some(ArrowType::Utf8)
        },
        CoveLogicalType::Utf8 if views(options) => Some(ArrowType::Utf8View),
        CoveLogicalType::Binary if views(options) => Some(ArrowType::BinaryView),
        _ => spec_arrow_data_type(l),
    }
}

/// A note about the export of a column of logical type `l`.
pub open spec fn note(l: CoveLogicalType, severity: ArrowFidelitySeverity, message: Seq<char>) -> IssueView {
    IssueView { field: None, logical_type: l, severity, message }
}

/// The notes the choice of Arrow type calls for: decimals without a
/// context lose their decimal meaning, UUIDs and JSON without extension
/// metadata are exported as plain storage.
pub open spec fn export_type_notes(l: CoveLogicalType, options: ArrowExportOptions) -> Seq<IssueView> {
    match l {
        CoveLogicalType::Decimal64 => if options.decimal is None {
            seq![
                note(
                    l,
                    ArrowFidelitySeverity::Lossy,
                    "Decimal64 exported as Int64 because no Arrow decimal precision/scale context was supplied"@,
                ),
            ]
        } else {
            Seq::empty()
        },
        CoveLogicalType::Decimal128 => if options.decimal is None {
            seq![
                note(
                    l,
                    ArrowFidelitySeverity::Lossy,
                    "Decimal128 exported as FixedSizeBinary(16) because no Arrow decimal precision/scale context was supplied"@,
                ),
            ]
        } else {
            Seq::empty()
        },
        CoveLogicalType::Uuid => if !options.emit_uuid_extension_metadata {
            seq![
                note(
                    l,
                    ArrowFidelitySeverity::Informational,
                    "Uuid exported as FixedSizeBinary(16) without Arrow extension metadata"@,
                ),
            ]
        } else {
            Seq::empty()
        },
        CoveLogicalType::Json => if !options.emit_json_extension_metadata {
            if views(options) {
                seq![
                    note(
                        l,
                        ArrowFidelitySeverity::Lossy,
                        "Json exported as Utf8View without Arrow extension metadata"@,
                    ),
                ]
            } else {
                seq![
                    note(
                        l,
                        ArrowFidelitySeverity::Lossy,
                        "Json exported as Utf8 without Arrow extension metadata"@,
                    ),
                ]
            }
        } else {
            Seq::empty()
        },
        _ => Seq::empty(),
    }
}

/// The Arrow type `logical` exports as under `options` (see
/// [`spec_export_type`]); the notes of [`export_type_notes`] are added to
/// `report`.
pub fn arrow_data_type_with_report(
    logical: CoveLogicalType,
    options: &ArrowExportOptions,
    report: &mut ArrowExportReport,
) -> (res: Result<ArrowType, CoveError>)
    ensures
        match spec_export_type(logical, *options) {
            Some(t) => res == Ok::<ArrowType, CoveError>(t),
            None => fails_with(res, ErrorCode::UnsupportedEncoding),
        },
        final(report).issues_view() == old(report).issues_view() + export_type_notes(
            logical,
            *options,
        ),
{
    let view = options.varbytes_policy == ArrowVarBytesExportPolicy::View;
    let ghost before = report.issues_view();
    match logical {
        CoveLogicalType::Decimal64 => match options.decimal {
            Some(decimal) => {
                assert(report.issues_view() =~= before + export_type_notes(logical, *options));
                Ok(ArrowType::Decimal128(decimal.precision, decimal.scale))
            },
            None => {
                report.push(
                    None,
                    logical,
                    ArrowFidelitySeverity::Lossy,
                    text(
                        "Decimal64 exported as Int64 because no Arrow decimal precision/scale context was supplied",
                    ),
                );
                assert(report.issues_view() =~= before + export_type_notes(logical, *options));
                Ok(ArrowType::Int64)
            },
        },
        CoveLogicalType::Decimal128 => match options.decimal {
            Some(decimal) => {
                assert(report.issues_view() =~= before + export_type_notes(logical, *options));
                Ok(ArrowType::Decimal128(decimal.precision, decimal.scale))
            },
            None => {
                report.push(
                    None,
                    logical,
                    ArrowFidelitySeverity::Lossy,
                    text(
                        "Decimal128 exported as FixedSizeBinary(16) because no Arrow decimal precision/scale context was supplied",
                    ),
                );
                assert(report.issues_view() =~= before + export_type_notes(logical, *options));
                Ok(ArrowType::FixedSizeBinary(16))
            },
        },
        CoveLogicalType::Uuid => {
            if !options.emit_uuid_extension_metadata {
                report.push(
                    None,
                    logical,
                    ArrowFidelitySeverity::Informational,
                    text("Uuid exported as FixedSizeBinary(16) without Arrow extension metadata"),
                );
            }
            assert(report.issues_view() =~= before + export_type_notes(logical, *options));
            Ok(ArrowType::FixedSizeBinary(16))
        },
        CoveLogicalType::Json => {
            if !options.emit_json_extension_metadata {
                let message = if view {
                    text("Json exported as Utf8View without Arrow extension metadata")
                } else {
                    text("Json exported as Utf8 without Arrow extension metadata")
                };
                report.push(None, logical, ArrowFidelitySeverity::Lossy, message);
            }
            assert(report.issues_view() =~= before + export_type_notes(logical, *options));
            if view {
                Ok(ArrowType::Utf8View)
            } else {
                Ok(ArrowType::Utf8)
            }
        },
        _ => {
            assert(report.issues_view() =~= before + export_type_notes(logical, *options));
            if logical == CoveLogicalType::Utf8 && view {
                Ok(ArrowType::Utf8View)
            } else if logical == CoveLogicalType::Binary && view {
                Ok(ArrowType::BinaryView)
            } else {
                arrow_data_type(logical)
            }
        },
    }
}

/// The Arrow type `logical` exports as under `options`, with the notes the
/// choice calls for.
pub fn arrow_data_type_for_export_options(logical: CoveLogicalType, options: ArrowExportOptions) -> (res:
    Result<ArrowExportResult<ArrowType>, CoveError>)
    ensures
        match spec_export_type(logical, options) {
            Some(t) => (res matches Ok(r) && r.value == t && r.report.issues_view()
                == export_type_notes(logical, options)),
            None => fails_with(res, ErrorCode::UnsupportedEncoding),
        },
{
    let mut report = ArrowExportReport::default();
    assert(report.issues_view() =~= Seq::empty());
    match arrow_data_type_with_report(logical, &options, &mut report) {
        Ok(value) => {
            assert(report.issues_view() =~= export_type_notes(logical, options));
            Ok(ArrowExportResult { value, report })
        },
        Err(e) => Err(e),
    }
}

/// Whether a column's values export as dictionary keys: FileCode columns
/// with a file dictionary, when the options ask for keys.
pub open spec fn exports_dictionary_keys(
    physical: CovePhysicalKind,
    has_file_dictionary: bool,
    options: ArrowExportOptions,
) -> bool {
    options.dictionary_policy == ArrowDictionaryPolicy::DictionaryKeys && physical
        == CovePhysicalKind::FileCode && has_file_dictionary
}

/// The Arrow type a concrete column exports as: as for its logical type,
/// wrapped in a dictionary of `UInt32` keys when it exports dictionary keys
/// (with a note saying so).
pub fn arrow_data_type_for_column_export_options(
    logical: CoveLogicalType,
    physical: CovePhysicalKind,
    has_file_dictionary: bool,
    options: ArrowExportOptions,
) -> (res: Result<ArrowExportResult<ArrowColumnType>, CoveError>)
    ensures
        match spec_export_type(logical, options) {
            Some(t) => if exports_dictionary_keys(physical, has_file_dictionary, options) {
                res matches Ok(r) && r.value == ArrowColumnType::DictionaryKeys(t)
                    && r.report.issues_view() == export_type_notes(logical, options).push(
                    note(
                        logical,
                        ArrowFidelitySeverity::Informational,
                        "FileCode values exported as Arrow dictionary keys"@,
                    ),
                )
            } else {
                res matches Ok(r) && r.value == ArrowColumnType::Plain(t)
                    && r.report.issues_view() == export_type_notes(logical, options)
            },
            None => fails_with(res, ErrorCode::UnsupportedEncoding),
        },
{
    let ArrowExportResult { value, mut report } = match arrow_data_type_for_export_options(
        logical,
        options,
    ) {
        Ok(r) => r,
        Err(e) => return Err(e),
    };
    let wants_keys = match options.dictionary_policy {
        ArrowDictionaryPolicy::DictionaryKeys => true,
        _ => false,
    };
    if wants_keys && physical == CovePhysicalKind::FileCode && has_file_dictionary {
        report.push(
            None,
            logical,
            ArrowFidelitySeverity::Informational,
            text("FileCode values exported as Arrow dictionary keys"),
        );
        return Ok(ArrowExportResult { value: ArrowColumnType::DictionaryKeys(value), report });
    }
    Ok(ArrowExportResult { value: ArrowColumnType::Plain(value), report })
}

/// Whether the notes include a lossy or unsupported one.
pub open spec fn any_lossy(notes: Seq<IssueView>) -> bool {
    exists|k: int| 0 <= k < notes.len() && is_lossy_or_unsupported(#[trigger] notes[k].severity)
}

/// The default export options: decoded dictionary values, standard byte
/// arrays, strict UTF-8 checks, no decimal context, no extension metadata.
pub open spec fn default_export_options() -> ArrowExportOptions {
    ArrowExportOptions {
        dictionary_policy: ArrowDictionaryPolicy::DecodeValues,
        varbytes_policy: ArrowVarBytesExportPolicy::Standard,
        string_validation_policy: crate::arrow_export::ArrowStringValidationPolicy::Strict,
        decimal: None,
        emit_uuid_extension_metadata: false,
        emit_json_extension_metadata: false,
    }
}

/// The Arrow type of a logical type under the default options;
/// `UnsupportedEncoding` when that export would lose information, since the
/// caller gets no report.
pub fn decoded_arrow_data_type(logical: CoveLogicalType) -> (res: Result<ArrowType, CoveError>)
    ensures
        match spec_export_type(logical, default_export_options()) {
            Some(t) => if any_lossy(export_type_notes(logical, default_export_options())) {
                fails_with(res, ErrorCode::UnsupportedEncoding)
            } else {
                res == Ok::<ArrowType, CoveError>(t)
            },
            None => fails_with(res, ErrorCode::UnsupportedEncoding),
        },
{
    let options = ArrowExportOptions::default();
    assert(options == default_export_options());
    let result = match arrow_data_type_for_export_options(logical, options) {
        Ok(r) => r,
        Err(e) => return Err(e),
    };
    let lossy = result.report.has_lossy_or_unsupported();
    proof {
        let notes = export_type_notes(logical, options);
        assert(result.report.issues_view() == notes);
        if lossy {
            let k = choose|k: int|
                0 <= k < result.report.issues@.len() && is_lossy_or_unsupported(
                    #[trigger] result.report.issues@[k].severity,
                );
            assert(notes[k].severity == result.report.issues@[k].severity);
        } else {
            assert forall|k: int| 0 <= k < notes.len() implies !is_lossy_or_unsupported(
                #[trigger] notes[k].severity,
            ) by {
                assert(notes[k].severity == result.report.issues@[k].severity);
            }
        }
    }
    if lossy {
        return Err(
            CoveError::UnsupportedEncoding(
                text("Arrow export for this logical type requires explicit fidelity reporting"),
            ),
        );
    }
    Ok(result.value)
}

// ---------------------------------------------------------------------------
// Export routes
// ---------------------------------------------------------------------------

/// Whether a page's rows export as FileCode keys over its file dictionary:
/// FileCode pages that carry a dictionary, when the options ask for keys.
pub open spec fn spec_page_exports_keys(e: CoveEncodingKind, has_dictionary: bool, options: ArrowExportOptions) -> bool {
    options.dictionary_policy == ArrowDictionaryPolicy::DictionaryKeys && e == CoveEncodingKind::FileCode
        && has_dictionary
}

/// Whether a page's rows export as FileCode keys over its file dictionary.
pub fn page_exports_keys(array: &EncodedArray<'_>, options: ArrowExportOptions) -> (res: bool)
    ensures
        res == spec_page_exports_keys(array.encoding, array.dictionary is Some, options),
{
    let keys = match options.dictionary_policy {
        ArrowDictionaryPolicy::DictionaryKeys => true,
        _ => false,
    };
    keys && array.encoding == CoveEncodingKind::FileCode && array.dictionary.is_some()
}

/// How a page's rows reach an Arrow array of a given type.
#[derive(Debug, Clone, Copy, PartialEq, Eq, Structural)]
pub enum ExportRoute {
    /// Length-prefixed byte rows, straight from the page.
    Bytes(BytePayloadLayout),
    /// NumCodes straight from the page, as 64-bit integers or timestamps.
    NumCodes,
    /// Plain stored booleans.
    PlainBooleans,
    /// Plain fixed-width values, when the type takes them.
    PlainFixed,
    /// The page's varints decoded at once, when the type takes them.
    Varints,
    /// Row by row decoding.
    Rows,
}

/// Whether an Arrow type holds strings or binaries.
pub open spec fn is_byte_type(t: ArrowType) -> bool {
    t == ArrowType::Utf8 || t == ArrowType::Binary || t == ArrowType::Utf8View || t == ArrowType::BinaryView
}

/// The route a page of encoding `e`, physical kind `p` and logical type `l`
/// takes to an Arrow array of type `t`: byte pages (VarBytes, or canonical
/// strings, binaries and JSON) to byte types straight from their
/// length-prefixed payload; NumCode pages to 64-bit integer and timestamp
/// types straight from their codes; plain booleans to booleans; other plain
/// fixed-width pages and varint pages through their direct decoders; all
/// else row by row.
pub open spec fn spec_export_route(
    e: CoveEncodingKind,
    p: CovePhysicalKind,
    l: CoveLogicalType,
    t: ArrowType,
) -> ExportRoute {
    if p == CovePhysicalKind::VarBytes && is_byte_type(t) && e == CoveEncodingKind::VarBytes {
        ExportRoute::Bytes(BytePayloadLayout::U32LengthPrefixed)
    } else if p == CovePhysicalKind::VarBytes && is_byte_type(t) && e == CoveEncodingKind::Canonical
        && is_prefixed_logical(l) {
        ExportRoute::Bytes(BytePayloadLayout::Leb128LengthPrefixed)
    } else if e == CoveEncodingKind::NumCode && p == CovePhysicalKind::NumCode && (t
        == ArrowType::Int64 || t == ArrowType::UInt64 || t == ArrowType::TimestampMicros || t
        == ArrowType::TimestampNanos) {
        ExportRoute::NumCodes
    } else if e == CoveEncodingKind::PlainFixed && l == CoveLogicalType::Bool && t
        == ArrowType::Boolean {
        ExportRoute::PlainBooleans
    } else if e == CoveEncodingKind::PlainFixed {
        ExportRoute::PlainFixed
    } else if e == CoveEncodingKind::PlainVarint {
        ExportRoute::Varints
    } else {
        ExportRoute::Rows
    }
}

/// The route a page's rows take to an Arrow array of type `t` (see
/// [`spec_export_route`]).
pub fn export_route(array: &EncodedArray<'_>, t: ArrowType) -> (res: ExportRoute)
    ensures
        res == spec_export_route(array.encoding, array.physical, array.logical, t),
{
    let bytes = match t {
        ArrowType::Utf8 | ArrowType::Binary | ArrowType::Utf8View | ArrowType::BinaryView => true,
        _ => false,
    };
    let prefixed = match array.logical {
        CoveLogicalType::Utf8 | CoveLogicalType::Binary | CoveLogicalType::Json => true,
        _ => false,
    };
    let wide = match t {
        ArrowType::Int64 | ArrowType::UInt64 | ArrowType::TimestampMicros
        | ArrowType::TimestampNanos => true,
        _ => false,
    };
    if array.physical == CovePhysicalKind::VarBytes && bytes && array.encoding
        == CoveEncodingKind::VarBytes {
        ExportRoute::Bytes(BytePayloadLayout::U32LengthPrefixed)
    } else if array.physical == CovePhysicalKind::VarBytes && bytes && array.encoding
        == CoveEncodingKind::Canonical && prefixed {
        ExportRoute::Bytes(BytePayloadLayout::Leb128LengthPrefixed)
    } else if array.encoding == CoveEncodingKind::NumCode && array.physical
        == CovePhysicalKind::NumCode && wide {
        ExportRoute::NumCodes
    } else if array.encoding == CoveEncodingKind::PlainFixed && array.logical
        == CoveLogicalType::Bool && t == ArrowType::Boolean {
        ExportRoute::PlainBooleans
    } else if array.encoding == CoveEncodingKind::PlainFixed {
        ExportRoute::PlainFixed
    } else if array.encoding == CoveEncodingKind::PlainVarint {
        ExportRoute::Varints
    } else {
        ExportRoute::Rows
    }
}

/// How many nanoseconds one unit of a time-like logical type spans.
pub open spec fn logical_tick_nanos(l: CoveLogicalType) -> Option<int> {
    match l {
        CoveLogicalType::DateDays => Some(86_400_000_000_000),
        CoveLogicalType::TimestampMicros => Some(1_000),
        CoveLogicalType::TimestampNanos => Some(1),
        _ => None,
    }
}

/// How many nanoseconds one unit of a time-like Arrow type spans.
pub open spec fn arrow_tick_nanos(a: ArrowType) -> Option<int> {
    match a {
        ArrowType::Date32 => Some(86_400_000_000_000),
        ArrowType::TimestampMicros => Some(1_000),
        ArrowType::TimestampNanos => Some(1),
        _ => None,
    }
}

/// Whether an integer logical type is signed, and its width in bits.
pub open spec fn logical_integer(l: CoveLogicalType) -> Option<(bool, nat)> {
    match l {
        CoveLogicalType::Int8 => Some((true, 8)),
        CoveLogicalType::Int16 => Some((true, 16)),
        CoveLogicalType::Int32 => Some((true, 32)),
        CoveLogicalType::Int64 => Some((true, 64)),
        CoveLogicalType::UInt8 => Some((false, 8)),
        CoveLogicalType::UInt16 => Some((false, 16)),
        CoveLogicalType::UInt32 => Some((false, 32)),
        CoveLogicalType::UInt64 => Some((false, 64)),
        _ => None,
    }
}

/// Whether an integer Arrow type is signed, and its width in bits.
pub open spec fn arrow_integer(a: ArrowType) -> Option<(bool, nat)> {
    match a {
        ArrowType::Int8 => Some((true, 8)),
        ArrowType::Int16 => Some((true, 16)),
        ArrowType::Int32 => Some((true, 32)),
        ArrowType::Int64 => Some((true, 64)),
        ArrowType::UInt8 => Some((false, 8)),
        ArrowType::UInt16 => Some((false, 16)),
        ArrowType::UInt32 => Some((false, 32)),
        ArrowType::UInt64 => Some((false, 64)),
        _ => None,
    }
}

/// The width in bits of a floating-point logical type.
pub open spec fn logical_float_bits(l: CoveLogicalType) -> Option<nat> {
    match l {
        CoveLogicalType::Float32 => Some(32),
        CoveLogicalType::Float64 => Some(64),
        _ => None,
    }
}

/// The width in bits of a floating-point Arrow type.
pub open spec fn arrow_float_bits(a: ArrowType) -> Option<nat> {
    match a {
        ArrowType::Float32 => Some(32),
        ArrowType::Float64 => Some(64),
        _ => None,
    }
}

/// Whether values of a logical type are text.
pub open spec fn logical_is_text(l: CoveLogicalType) -> bool {
    l == CoveLogicalType::Utf8 || l == CoveLogicalType::Json
}

/// Whether values of an Arrow type are text.
pub open spec fn arrow_is_text(a: ArrowType) -> bool {
    a == ArrowType::Utf8 || a == ArrowType::Utf8View
}

/// Whether an Arrow type holds `true`/`false` values.
pub open spec fn arrow_is_boolean(a: ArrowType) -> bool {
    a == ArrowType::Boolean
}

/// An exported column keeps the domain of its values: integers keep their
/// signedness and width, floats their width, dates and timestamps their
/// unit, text stays text and booleans stay booleans. Every logical type but
/// null and the decimals has a plain Arrow type.
pub proof fn lemma_arrow_type_keeps_domain(l: CoveLogicalType)
    ensures
        spec_arrow_data_type(l) is Some == !(l == CoveLogicalType::Null
            || l == CoveLogicalType::Decimal64 || l == CoveLogicalType::Decimal128),
        spec_arrow_data_type(l) matches Some(a) ==> {
            &&& arrow_tick_nanos(a) == logical_tick_nanos(l)
            &&& arrow_integer(a) == logical_integer(l)
            &&& arrow_float_bits(a) == logical_float_bits(l)
            &&& arrow_is_text(a) == logical_is_text(l)
            &&& arrow_is_boolean(a) == (l == CoveLogicalType::Bool)
        },
{
}

/// The same holds under any export options for every logical type but the
/// decimals, whose Arrow form the options choose.
pub proof fn lemma_export_type_keeps_domain(l: CoveLogicalType, options: ArrowExportOptions)
    requires
        l != CoveLogicalType::Decimal64,
        l != CoveLogicalType::Decimal128,
    ensures
        spec_export_type(l, options) is Some == (l != CoveLogicalType::Null),
        spec_export_type(l, options) matches Some(a) ==> {
            &&& arrow_tick_nanos(a) == logical_tick_nanos(l)
            &&& arrow_integer(a) == logical_integer(l)
            &&& arrow_float_bits(a) == logical_float_bits(l)
            &&& arrow_is_text(a) == logical_is_text(l)
            &&& arrow_is_boolean(a) == (l == CoveLogicalType::Bool)
        },
{
}

/// The slot width of a fixed-width logical type matches its domain:
/// integers and floats take their width in bits over eight, dates four
/// bytes, timestamps and 64-bit decimals eight, 128-bit decimals and UUIDs
/// sixteen; text, bytes and null have no fixed width.
pub proof fn lemma_fixed_width_matches_domain(l: CoveLogicalType)
    ensures
        logical_integer(l) matches Some((_, bits)) ==> spec_fixed_width(l) == Some(bits / 8),
        logical_float_bits(l) matches Some(bits) ==> spec_fixed_width(l) == Some(bits / 8),
        logical_tick_nanos(l) is Some ==> spec_fixed_width(l) == Some(
            if l == CoveLogicalType::DateDays { 4nat } else { 8nat },
        ),
        l == CoveLogicalType::Decimal64 ==> spec_fixed_width(l) == Some(8nat),
        (l == CoveLogicalType::Decimal128 || l == CoveLogicalType::Uuid) ==> spec_fixed_width(l)
            == Some(16nat),
        (logical_is_text(l) || l == CoveLogicalType::Binary || l == CoveLogicalType::Null)
            ==> spec_fixed_width(l) is None,
{
}

} // verus!

