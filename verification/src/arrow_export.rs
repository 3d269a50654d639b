//! The data side of Arrow export: export policies and options, fidelity
//! reports, export nodes, packed validity bits, payload range parsing and
//! the per-value conversions that decide what each COVE row becomes.
use std::borrow::Cow;

use vstd::prelude::*;
use vstd::utf8::valid_utf8;

use crate::array::{ArrayValueView, CoveArrayValue, EncodedArray};
use crate::collation::{le_signed, le_unsigned};
use crate::constants::CoveLogicalType;
use crate::dictionary::{DictionaryValue, DictionaryValueView};
use crate::encoding::nested::{ListLayout, StructLayout};
use crate::error::{fails_with, CoveError, ErrorCode};
use crate::util::{concat, text};
use crate::validity::{bit_at, bitmap_bytes, count_set_bits, ValidityBitmap};
use crate::wire::{decode_u64_leb128, spec_leb_decode, spec_u32_at};

verus! {

/// Policy for exporting FileCode-backed scalar columns.
#[derive(Debug, Clone, Copy, PartialEq, Eq, Hash)]
#[non_exhaustive]
pub enum ArrowDictionaryPolicy {
    /// Decode FileCodes to their logical values.
    DecodeValues,
    /// Export FileCodes as dictionary keys when values are representable.
    DictionaryKeys,
}

impl Default for ArrowDictionaryPolicy {
    fn default() -> (res: Self)
        ensures
            res == ArrowDictionaryPolicy::DictionaryKeys,
    {
        ArrowDictionaryPolicy::DictionaryKeys
    }
}

/// Policy for exporting variable byte payloads.
#[derive(Debug, Clone, Copy, PartialEq, Eq, Hash, Structural)]
#[non_exhaustive]
pub enum ArrowVarBytesExportPolicy {
    /// Materialise offset/value buffers.
    Standard,
    /// Export view arrays over the retained payload bytes.
    View,
}

impl Default for ArrowVarBytesExportPolicy {
    fn default() -> (res: Self)
        ensures
            res == ArrowVarBytesExportPolicy::Standard,
    {
        ArrowVarBytesExportPolicy::Standard
    }
}

/// Policy for validating byte payloads before building UTF-8 arrays.
#[derive(Debug, Clone, Copy, PartialEq, Eq, Hash)]
#[non_exhaustive]
pub enum ArrowStringValidationPolicy {
    /// Validate all materialised non-null rows while exporting.
    Strict,
    /// Validate now; an outer caller may later substitute a recorded proof.
    StrictOrCachedProof,
    /// Trust a caller-supplied page-level proof of valid UTF-8.
    TrustedPageProof,
}

impl Default for ArrowStringValidationPolicy {
    fn default() -> (res: Self)
        ensures
            res == ArrowStringValidationPolicy::Strict,
    {
        ArrowStringValidationPolicy::Strict
    }
}

/// Precision and scale for decimal export.
#[derive(Debug, Clone, Copy, PartialEq, Eq, Hash)]
pub struct ArrowDecimalContext {
    pub precision: u8,
    pub scale: i8,
}

/// How far an exported value departs from its COVE meaning.
#[derive(Debug, Clone, PartialEq, Eq)]
#[non_exhaustive]
pub enum ArrowFidelitySeverity {
    Informational,
    Lossy,
    Unsupported,
}

/// One fidelity note about an exported field.
#[derive(Debug, Clone, PartialEq, Eq)]
pub struct ArrowFidelityIssue {
    pub field: Option<String>,
    pub logical_type: CoveLogicalType,
    pub severity: ArrowFidelitySeverity,
    pub message: String,
}

/// The abstract content of an [`ArrowFidelityIssue`].
pub struct IssueView {
    pub field: Option<Seq<char>>,
    pub logical_type: CoveLogicalType,
    pub severity: ArrowFidelitySeverity,
    pub message: Seq<char>,
}

impl View for ArrowFidelityIssue {
    type V = IssueView;

    open spec fn view(&self) -> IssueView {
        IssueView {
            field: match self.field {
                Some(f) => Some(f@),
                None => None,
            },
            logical_type: self.logical_type,
            severity: self.severity,
            message: self.message@,
        }
    }
}

/// The fidelity notes gathered during an export.
#[derive(Debug, Clone, PartialEq, Eq)]
pub struct ArrowExportReport {
    pub issues: Vec<ArrowFidelityIssue>,
}

/// Whether a severity loses or refuses information.
pub open spec fn is_lossy_or_unsupported(s: ArrowFidelitySeverity) -> bool {
    s == ArrowFidelitySeverity::Lossy || s == ArrowFidelitySeverity::Unsupported
}

impl Default for ArrowExportReport {
    fn default() -> (res: Self)
        ensures
            res.issues@.len() == 0,
    {
        ArrowExportReport { issues: Vec::new() }
    }
}

impl ArrowExportReport {
    /// The notes, as abstract values.
    pub open spec fn issues_view(&self) -> Seq<IssueView> {
        self.issues@.map_values(|i: ArrowFidelityIssue| i@)
    }

    /// Whether any note is lossy or unsupported.
    pub fn has_lossy_or_unsupported(&self) -> (res: bool)
        ensures
            res == exists|k: int|
                0 <= k < self.issues@.len() && is_lossy_or_unsupported(
                    #[trigger] self.issues@[k].severity,
                ),
    {
        let mut i: usize = 0;
        while i < self.issues.len()
            invariant
                i <= self.issues@.len(),
                forall|k: int|
                    0 <= k < i ==> !is_lossy_or_unsupported(#[trigger] self.issues@[k].severity),
            decreases self.issues@.len() - i,
        {
            match self.issues[i].severity {
                ArrowFidelitySeverity::Lossy | ArrowFidelitySeverity::Unsupported => {
                    assert(is_lossy_or_unsupported(self.issues@[i as int].severity));
                    return true;
                },
                _ => {},
            }
            i = i + 1;
        }
        false
    }

    /// Records one note.
    pub fn push(
        &mut self,
        field: Option<&str>,
        logical_type: CoveLogicalType,
        severity: ArrowFidelitySeverity,
        message: String,
    )
        ensures
            final(self).issues_view() == old(self).issues_view().push(
                IssueView {
                    field: match field {
                        Some(f) => Some(f@),
                        None => None,
                    },
                    logical_type,
                    severity,
                    message: message@,
                },
            ),
    {
        let field = match field {
            Some(f) => Some(text(f)),
            None => None,
        };
        let ghost before = self.issues_view();
        let issue = ArrowFidelityIssue { field, logical_type, severity, message };
        self.issues.push(issue);
        assert(self.issues_view() =~= before.push(issue@));
    }

    /// Appends another report's notes, naming `field` on each note that names
    /// no field.
    pub fn extend_with_field(&mut self, field: &str, other: ArrowExportReport)
        ensures
            final(self).issues_view().len() == old(self).issues_view().len()
                + other.issues_view().len(),
            forall|k: int|
                0 <= k < old(self).issues_view().len() ==> #[trigger] final(self).issues_view()[k]
                    == old(self).issues_view()[k],
            forall|k: int|
                0 <= k < other.issues_view().len() ==> #[trigger] final(self).issues_view()[old(
                    self,
                ).issues_view().len() + k] == (IssueView {
                    field: match other.issues_view()[k].field {
                        Some(f) => Some(f),
                        None => Some(field@),
                    },
                    ..other.issues_view()[k]
                }),
    {
        let ghost start = self.issues_view();
        let ghost theirs = other.issues_view();
        let mut rest = other.issues;
        let mut i: usize = 0;
        let n = rest.len();
        let mut taken: Vec<ArrowFidelityIssue> = Vec::new();
        while rest.len() > 0
            invariant
                n == theirs.len(),
                rest@.len() + taken@.len() == n,
                forall|k: int| 0 <= k < rest@.len() ==> #[trigger] rest@[k]@ == theirs[k],
                forall|k: int|
                    0 <= k < taken@.len() ==> #[trigger] taken@[k]@ == theirs[n - 1 - k],
            decreases rest@.len(),
        {
            let item = rest.pop().unwrap();
            taken.push(item);
        }
        let ghost before = self.issues_view();
        while taken.len() > 0
            invariant
                n == theirs.len(),
                i + taken@.len() == n,
                forall|k: int|
                    0 <= k < taken@.len() ==> #[trigger] taken@[k]@ == theirs[n - 1 - k],
                self.issues_view().len() == start.len() + i,
                forall|k: int|
                    0 <= k < start.len() ==> #[trigger] self.issues_view()[k] == start[k],
                forall|k: int|
                    0 <= k < i ==> #[trigger] self.issues_view()[start.len() + k] == (IssueView {
                        field: match theirs[k].field {
                            Some(f) => Some(f),
                            None => Some(field@),
                        },
                        ..theirs[k]
                    }),
            decreases taken@.len(),
        {
            let mut issue = taken.pop().unwrap();
            let ghost src = theirs[i as int];
            assert(issue@ == src);
            if issue.field.is_none() {
                issue.field = Some(text(field));
            }
            assert(issue@ == (IssueView {
                field: match src.field {
                    Some(f) => Some(f),
                    None => Some(field@),
                },
                ..src
            }));
            let ghost prev = self.issues_view();
            self.issues.push(issue);
            assert(self.issues_view() =~= prev.push(issue@));
            i = i + 1;
        }
    }
}

/// An exported value together with the fidelity notes gathered making it.
pub struct ArrowExportResult<T> {
    pub value: T,
    pub report: ArrowExportReport,
}

/// Options for an export.
#[derive(Debug, Clone, Copy, PartialEq, Eq, Hash)]
pub struct ArrowExportOptions {
    pub dictionary_policy: ArrowDictionaryPolicy,
    pub varbytes_policy: ArrowVarBytesExportPolicy,
    pub string_validation_policy: ArrowStringValidationPolicy,
    pub decimal: Option<ArrowDecimalContext>,
    pub emit_uuid_extension_metadata: bool,
    pub emit_json_extension_metadata: bool,
}

impl Default for ArrowExportOptions {
    fn default() -> (res: Self)
        ensures
            res.dictionary_policy == ArrowDictionaryPolicy::DecodeValues,
            res.varbytes_policy == ArrowVarBytesExportPolicy::Standard,
            res.string_validation_policy == ArrowStringValidationPolicy::Strict,
            res.decimal is None,
            !res.emit_uuid_extension_metadata,
            !res.emit_json_extension_metadata,
    {
        ArrowExportOptions {
            dictionary_policy: ArrowDictionaryPolicy::DecodeValues,
            varbytes_policy: ArrowVarBytesExportPolicy::Standard,
            string_validation_policy: ArrowStringValidationPolicy::Strict,
            decimal: None,
            emit_uuid_extension_metadata: false,
            emit_json_extension_metadata: false,
        }
    }
}

/// A named top-level export column.
pub struct ArrowExportColumn<'a> {
    pub name: &'a str,
    pub node: ArrowExportNode<'a>,
    pub nullable: bool,
}

impl<'a> ArrowExportColumn<'a> {
    /// A scalar column: nullable when the array carries a null bitmap or its
    /// logical type is `Null`.
    pub fn scalar(name: &'a str, array: &'a EncodedArray<'a>) -> (res: Self)
        ensures
            res.name@ == name@,
            res.node == (ArrowExportNode::Scalar {
                array,
                dictionary_policy: ArrowDictionaryPolicy::DictionaryKeys,
            }),
            res.nullable == (array.validity is Some || array.logical == CoveLogicalType::Null),
    {
        ArrowExportColumn {
            name,
            node: ArrowExportNode::scalar(array),
            nullable: array.validity.is_some() || array.logical == CoveLogicalType::Null,
        }
    }
}

/// A layout-aware export node.
#[non_exhaustive]
pub enum ArrowExportNode<'a> {
    Scalar { array: &'a EncodedArray<'a>, dictionary_policy: ArrowDictionaryPolicy },
    List {
        layout: &'a ListLayout,
        child: Box<ArrowExportNode<'a>>,
        validity: Option<ValidityBitmap<'a>>,
    },
    Struct {
        layout: &'a StructLayout,
        fields: Vec<ArrowExportColumn<'a>>,
        validity: Option<ValidityBitmap<'a>>,
    },
    MapEntries {
        layout: &'a ListLayout,
        keys: Box<ArrowExportNode<'a>>,
        values: Box<ArrowExportNode<'a>>,
        validity: Option<ValidityBitmap<'a>>,
        ordered: bool,
    },
}

impl<'a> ArrowExportNode<'a> {
    /// A scalar node under the default dictionary policy.
    pub fn scalar(array: &'a EncodedArray<'a>) -> (res: Self)
        ensures
            res == (ArrowExportNode::Scalar {
                array,
                dictionary_policy: ArrowDictionaryPolicy::DictionaryKeys,
            }),
    {
        ArrowExportNode::Scalar { array, dictionary_policy: ArrowDictionaryPolicy::default() }
    }

    /// A scalar node under `dictionary_policy`.
    pub fn scalar_with_policy(
        array: &'a EncodedArray<'a>,
        dictionary_policy: ArrowDictionaryPolicy,
    ) -> (res: Self)
        ensures
            res == (ArrowExportNode::Scalar { array, dictionary_policy }),
    {
        ArrowExportNode::Scalar { array, dictionary_policy }
    }
}

/// Whether a node's exported field is nullable: a scalar with a null bitmap
/// or of logical type `Null`, or a nested node with a null bitmap.
pub open spec fn spec_node_nullable(node: &ArrowExportNode) -> bool {
    match node {
        ArrowExportNode::Scalar { array, .. } => array.validity is Some || array.logical
            == CoveLogicalType::Null,
        ArrowExportNode::List { validity, .. } => validity is Some,
        ArrowExportNode::Struct { validity, .. } => validity is Some,
        ArrowExportNode::MapEntries { validity, .. } => validity is Some,
    }
}

/// Whether a node's exported field is nullable.
pub fn arrow_node_nullable(node: &ArrowExportNode<'_>) -> (res: bool)
    ensures
        res == spec_node_nullable(node),
{
    match node {
        ArrowExportNode::Scalar { array, .. } => array.validity.is_some() || array.logical
            == CoveLogicalType::Null,
        ArrowExportNode::List { validity, .. } => validity.is_some(),
        ArrowExportNode::Struct { validity, .. } => validity.is_some(),
        ArrowExportNode::MapEntries { validity, .. } => validity.is_some(),
    }
}

/// The extension metadata an exported field carries, as key/value pairs:
/// `cove.uuid` for UUID columns and `cove.json` for JSON columns, each only
/// when its option asks for it.
pub fn arrow_extension_metadata(logical: CoveLogicalType, options: ArrowExportOptions) -> (res: Vec<
    (String, String),
>)
    ensures
        logical == CoveLogicalType::Uuid && options.emit_uuid_extension_metadata ==> res@.len() == 2
            && res@[0].0@ == "ARROW:extension:name"@ && res@[0].1@ == "cove.uuid"@ && res@[1].0@
            == "ARROW:extension:metadata"@ && res@[1].1@ == "{\"storage\":\"fixed_size_binary[16]\"}"@,
        logical == CoveLogicalType::Json && options.emit_json_extension_metadata ==> res@.len() == 2
            && res@[0].0@ == "ARROW:extension:name"@ && res@[0].1@ == "cove.json"@ && res@[1].0@
            == "ARROW:extension:metadata"@ && res@[1].1@ == (if options.varbytes_policy
            == ArrowVarBytesExportPolicy::View {
            "{\"storage\":\"utf8_view\"}"@
        } else {
            "{\"storage\":\"utf8\"}"@
        }),
        !(logical == CoveLogicalType::Uuid && options.emit_uuid_extension_metadata) && !(logical
            == CoveLogicalType::Json && options.emit_json_extension_metadata) ==> res@.len() == 0,
{
    let mut metadata: Vec<(String, String)> = Vec::new();
    match logical {
        CoveLogicalType::Uuid => {
            if options.emit_uuid_extension_metadata {
                metadata.push((text("ARROW:extension:name"), text("cove.uuid")));
                metadata.push(
                    (
                        text("ARROW:extension:metadata"),
                        text("{\"storage\":\"fixed_size_binary[16]\"}"),
                    ),
                );
            }
        },
        CoveLogicalType::Json => {
            if options.emit_json_extension_metadata {
                metadata.push((text("ARROW:extension:name"), text("cove.json")));
                let storage = if options.varbytes_policy == ArrowVarBytesExportPolicy::View {
                    "{\"storage\":\"utf8_view\"}"
                } else {
                    "{\"storage\":\"utf8\"}"
                };
                metadata.push((text("ARROW:extension:metadata"), text(storage)));
            }
        },
        _ => {},
    }
    metadata
}

/// Bytes needed for `len` packed bits; `ArithOverflow` when `len + 7`
/// overflows.
pub fn bitpacked_len(len: usize) -> (res: Result<usize, CoveError>)
    ensures
        len + 7 <= usize::MAX ==> res == Ok::<usize, CoveError>(((len + 7) / 8) as usize),
        len + 7 > usize::MAX ==> fails_with(res, ErrorCode::ArithOverflow),
{
    match len.checked_add(7) {
        Some(v) => Ok(v / 8),
        None => Err(CoveError::ArithOverflow),
    }
}

/// Sets packed bit `index` (least significant bit first).
pub fn set_packed_bit(bytes: &mut Vec<u8>, index: usize)
    requires
        index / 8 < old(bytes)@.len(),
    ensures
        final(bytes)@.len() == old(bytes)@.len(),
        forall|r: int|
            0 <= r < 8 * old(bytes)@.len() ==> #[trigger] bit_at(final(bytes)@, r) == (r == index
                || bit_at(old(bytes)@, r)),
{
    crate::validity::set_row_bit(bytes, index as u64);
}

/// Packs validity bits for `len` rows, one row at a time.
pub struct ArrowValidityBuilder {
    bytes: Vec<u8>,
    len: usize,
    pos: usize,
    null_count: usize,
}

impl ArrowValidityBuilder {
    /// The packed bits so far.
    pub closed spec fn bits(&self) -> Seq<u8> {
        self.bytes@
    }

    /// The number of rows the builder holds.
    pub closed spec fn len(&self) -> nat {
        self.len as nat
    }

    /// The number of rows appended so far.
    pub closed spec fn pos(&self) -> nat {
        self.pos as nat
    }

    /// The number of invalid rows appended so far.
    pub closed spec fn nulls(&self) -> nat {
        self.null_count as nat
    }

    /// Whether the builder's state is consistent: exactly the appended rows
    /// are recorded and the count of invalid rows matches the bits.
    pub closed spec fn wf(&self) -> bool {
        &&& self.pos <= self.len
        &&& self.bytes@.len() == bitmap_bytes(self.len as int)
        &&& forall|r: int| self.pos <= r < 8 * self.bytes@.len() ==> !#[trigger] bit_at(self.bytes@, r)
        &&& self.null_count + count_set_bits(self.bytes@, self.pos as nat) == self.pos
    }

    /// A builder for `len` rows, none appended yet.
    pub fn new(len: usize) -> (res: Result<Self, CoveError>)
        ensures
            len + 7 <= usize::MAX ==> (res matches Ok(b) && b.wf() && b.len() == len && b.pos() == 0
                && b.nulls() == 0),
            len + 7 > usize::MAX ==> fails_with(res, ErrorCode::ArithOverflow),
    {
        let n = match bitpacked_len(len) {
            Ok(n) => n,
            Err(e) => return Err(e),
        };
        let bytes = crate::validity::zero_bitmap(n);
        Ok(ArrowValidityBuilder { bytes, len, pos: 0, null_count: 0 })
    }

    /// Appends one row, valid or not.
    pub fn append(&mut self, is_valid: bool)
        requires
            old(self).wf(),
            old(self).pos() < old(self).len(),
        ensures
            final(self).wf(),
            final(self).len() == old(self).len(),
            final(self).pos() == old(self).pos() + 1,
            final(self).nulls() == old(self).nulls() + if is_valid {
                0nat
            } else {
                1nat
            },
            bit_at(final(self).bits(), old(self).pos() as int) == is_valid,
            forall|r: int|
                0 <= r < old(self).pos() ==> #[trigger] bit_at(final(self).bits(), r) == bit_at(
                    old(self).bits(),
                    r,
                ),
    {
        let ghost before = self.bytes@;
        let p = self.pos;
        if is_valid {
            set_packed_bit(&mut self.bytes, p);
        } else {
            self.null_count = self.null_count + 1;
        }
        proof {
            lemma_count_set_bits_extend(before, self.bytes@, p as nat);
        }
        self.pos = p + 1;
    }

    /// The packed bits, the row count and the number of invalid rows; `None`
    /// when no row is invalid.
    pub fn finish(self) -> (res: Option<(Vec<u8>, usize, usize)>)
        requires
            self.wf(),
        ensures
            self.nulls() == 0 ==> res is None,
            self.nulls() != 0 ==> (res matches Some((b, l, n)) && b@ == self.bits() && l == self.len()
                && n == self.nulls() && b@.len() == bitmap_bytes(l as int)),
            self.pos() == self.len() ==> (res matches Some((b, l, n)) ==> forall|r: int|
                l <= r < 8 * b@.len() ==> !#[trigger] bit_at(b@, r)),
    {
        if self.null_count == 0 {
            return None;
        }
        Some((self.bytes, self.len, self.null_count))
    }
}

proof fn lemma_count_set_bits_extend(before: Seq<u8>, after: Seq<u8>, p: nat)
    requires
        forall|r: int| 0 <= r < p ==> bit_at(after, r) == bit_at(before, r),
    ensures
        count_set_bits(after, p) == count_set_bits(before, p),
        count_set_bits(after, p + 1) == count_set_bits(before, p) + if bit_at(after, p as int) {
            1nat
        } else {
            0nat
        },
    decreases p,
{
    if p > 0 {
        lemma_count_set_bits_extend(before, after, (p - 1) as nat);
    }
}

/// The name of a logical type, as messages write it.
pub open spec fn spec_logical_name(l: CoveLogicalType) -> &'static str {
    match l {
        CoveLogicalType::Null => "Null",
        CoveLogicalType::Bool => "Bool",
        CoveLogicalType::Int8 => "Int8",
        CoveLogicalType::Int16 => "Int16",
        CoveLogicalType::Int32 => "Int32",
        CoveLogicalType::Int64 => "Int64",
        CoveLogicalType::UInt8 => "UInt8",
        CoveLogicalType::UInt16 => "UInt16",
        CoveLogicalType::UInt32 => "UInt32",
        CoveLogicalType::UInt64 => "UInt64",
        CoveLogicalType::Float32 => "Float32",
        CoveLogicalType::Float64 => "Float64",
        CoveLogicalType::Decimal64 => "Decimal64",
        CoveLogicalType::Decimal128 => "Decimal128",
        CoveLogicalType::DateDays => "DateDays",
        CoveLogicalType::TimestampMicros => "TimestampMicros",
        CoveLogicalType::TimestampNanos => "TimestampNanos",
        CoveLogicalType::Uuid => "Uuid",
        CoveLogicalType::Utf8 => "Utf8",
        CoveLogicalType::Binary => "Binary",
        CoveLogicalType::Json => "Json",
    }
}

/// The name of a logical type, as messages write it.
pub fn logical_name(l: CoveLogicalType) -> (res: &'static str)
    ensures
        res == spec_logical_name(l),
{
    match l {
        CoveLogicalType::Null => "Null",
        CoveLogicalType::Bool => "Bool",
        CoveLogicalType::Int8 => "Int8",
        CoveLogicalType::Int16 => "Int16",
        CoveLogicalType::Int32 => "Int32",
        CoveLogicalType::Int64 => "Int64",
        CoveLogicalType::UInt8 => "UInt8",
        CoveLogicalType::UInt16 => "UInt16",
        CoveLogicalType::UInt32 => "UInt32",
        CoveLogicalType::UInt64 => "UInt64",
        CoveLogicalType::Float32 => "Float32",
        CoveLogicalType::Float64 => "Float64",
        CoveLogicalType::Decimal64 => "Decimal64",
        CoveLogicalType::Decimal128 => "Decimal128",
        CoveLogicalType::DateDays => "DateDays",
        CoveLogicalType::TimestampMicros => "TimestampMicros",
        CoveLogicalType::TimestampNanos => "TimestampNanos",
        CoveLogicalType::Uuid => "Uuid",
        CoveLogicalType::Utf8 => "Utf8",
        CoveLogicalType::Binary => "Binary",
        CoveLogicalType::Json => "Json",
    }
}

/// Refuses an export whose notes call it lossy or unsupported, with
/// `UnsupportedEncoding` naming the logical type; any other export passes.
pub fn refuse_lossy_export(report: &ArrowExportReport, logical: CoveLogicalType) -> (res: Result<
    (),
    CoveError,
>)
    ensures
        (exists|k: int|
            0 <= k < report.issues@.len() && is_lossy_or_unsupported(
                #[trigger] report.issues@[k].severity,
            )) ==> (res matches Err(CoveError::UnsupportedEncoding(m)) && m@ == "Arrow export for "@
            + spec_logical_name(logical)@ + " requires explicit fidelity reporting"@),
        !(exists|k: int|
            0 <= k < report.issues@.len() && is_lossy_or_unsupported(
                #[trigger] report.issues@[k].severity,
            )) ==> res is Ok,
{
    if report.has_lossy_or_unsupported() {
        let head = concat("Arrow export for ", logical_name(logical));
        return Err(
            CoveError::UnsupportedEncoding(
                concat(head.as_str(), " requires explicit fidelity reporting"),
            ),
        );
    }
    Ok(())
}

} // verus!

verus! {

// ---------------------------------------------------------------------------
// Payload ranges
// ---------------------------------------------------------------------------

/// The value range after a `u32` length prefix at `offset`.
pub open spec fn spec_u32_prefixed_range(b: Seq<u8>, offset: int) -> Result<(int, int), ErrorCode> {
    if offset + 4 > usize::MAX {
        Err(ErrorCode::ArithOverflow)
    } else if offset + 4 > b.len() {
        Err(ErrorCode::OffsetRange)
    } else {
        let start = offset + 4;
        let end = start + spec_u32_at(b, offset);
        if end > usize::MAX {
            Err(ErrorCode::ArithOverflow)
        } else if end > b.len() {
            Err(ErrorCode::OffsetRange)
        } else {
            Ok((start, end))
        }
    }
}

/// The value range after a LEB128 length prefix at `offset`.
pub open spec fn spec_leb_prefixed_range(b: Seq<u8>, offset: int) -> Result<(int, int), ErrorCode> {
    if offset > b.len() {
        Err(ErrorCode::OffsetRange)
    } else {
        match spec_leb_decode(b.subrange(offset, b.len() as int)) {
            Err(e) => Err(e),
            Ok((len, c)) => if len > usize::MAX || offset + c + len > usize::MAX {
                Err(ErrorCode::ArithOverflow)
            } else if offset + c + len > b.len() {
                Err(ErrorCode::OffsetRange)
            } else {
                Ok((offset + c, offset + c + len))
            },
        }
    }
}

/// The value range `(start, end)` after a little-endian `u32` length
/// prefix at `offset`.
pub fn read_u32_len_prefixed_range(bytes: &[u8], offset: usize) -> (res: Result<
    (usize, usize),
    CoveError,
>)
    ensures
        match spec_u32_prefixed_range(bytes@, offset as int) {
            Ok((s, e)) => res == Ok::<(usize, usize), CoveError>((s as usize, e as usize)),
            Err(c) => fails_with(res, c),
        },
{
    let data_start = match offset.checked_add(4) {
        Some(v) => v,
        None => return Err(CoveError::ArithOverflow),
    };
    if data_start > bytes.len() {
        return Err(CoveError::OffsetRange);
    }
    let len = crate::wire::get_u32_le(bytes, offset) as usize;
    let data_end = match data_start.checked_add(len) {
        Some(v) => v,
        None => return Err(CoveError::ArithOverflow),
    };
    if data_end > bytes.len() {
        return Err(CoveError::OffsetRange);
    }
    Ok((data_start, data_end))
}

/// The value range `(start, end)` after a LEB128 length prefix at `offset`.
pub fn read_leb128_len_prefixed_range(bytes: &[u8], offset: usize) -> (res: Result<
    (usize, usize),
    CoveError,
>)
    ensures
        match spec_leb_prefixed_range(bytes@, offset as int) {
            Ok((s, e)) => res == Ok::<(usize, usize), CoveError>((s as usize, e as usize)),
            Err(c) => fails_with(res, c),
        },
{
    if offset > bytes.len() {
        return Err(CoveError::OffsetRange);
    }
    let tail = &bytes[offset..bytes.len()];
    let ghost sub = bytes@.subrange(offset as int, bytes@.len() as int);
    assert(tail@ =~= sub);
    proof {
        crate::wire::lemma_leb_decode_len(sub);
    }
    let (len, consumed) = match decode_u64_leb128(tail) {
        Ok(v) => v,
        Err(e) => return Err(e),
    };
    assert(spec_leb_decode(sub) == Ok::<(u64, nat), ErrorCode>((len, consumed as nat)));
    if len > usize::MAX as u64 {
        return Err(CoveError::ArithOverflow);
    }
    let len = len as usize;
    let data_start = offset + consumed;
    let data_end = match data_start.checked_add(len) {
        Some(v) => v,
        None => return Err(CoveError::ArithOverflow),
    };
    if data_end > bytes.len() {
        return Err(CoveError::OffsetRange);
    }
    Ok((data_start, data_end))
}

/// How a byte payload prefixes each value with its length.
#[derive(Debug, Clone, Copy, PartialEq, Eq, Structural)]
pub enum BytePayloadLayout {
    U32LengthPrefixed,
    Leb128LengthPrefixed,
}

/// List or map offsets as the signed 32-bit offsets Arrow list arrays use:
/// `UnsupportedEncoding` when an offset does not fit, so that the column
/// must be chunked first.
pub fn arrow_i32_offsets(offsets: &[u32]) -> (res: Result<Vec<i32>, CoveError>)
    ensures
        (forall|i: int| 0 <= i < offsets@.len() ==> #[trigger] offsets@[i] <= i32::MAX) ==> (res matches Ok(v)
            && v@.len() == offsets@.len() && forall|i: int|
            0 <= i < offsets@.len() ==> #[trigger] v@[i] == offsets@[i] as int),
        !(forall|i: int| 0 <= i < offsets@.len() ==> #[trigger] offsets@[i] <= i32::MAX)
            ==> fails_with(res, ErrorCode::UnsupportedEncoding),
{
    let mut converted: Vec<i32> = Vec::new();
    let mut k: usize = 0;
    while k < offsets.len()
        invariant
            k <= offsets@.len(),
            converted@.len() == k,
            forall|i: int| 0 <= i < k ==> #[trigger] offsets@[i] <= i32::MAX,
            forall|i: int| 0 <= i < k ==> #[trigger] converted@[i] == offsets@[i] as int,
        decreases offsets@.len() - k,
    {
        let offset = offsets[k];
        if offset > 0x7fff_ffff {
            return Err(
                CoveError::UnsupportedEncoding(
                    text(
                        "Arrow ListArray/MapArray export requires i32 offsets; chunk the column first",
                    ),
                ),
            );
        }
        converted.push(offset as i32);
        k = k + 1;
    }
    Ok(converted)
}

/// The value range of the row whose prefix sits at `offset`.
pub open spec fn spec_payload_range(layout: BytePayloadLayout, b: Seq<u8>, offset: int) -> Result<
    (int, int),
    ErrorCode,
> {
    match layout {
        BytePayloadLayout::U32LengthPrefixed => spec_u32_prefixed_range(b, offset),
        BytePayloadLayout::Leb128LengthPrefixed => spec_leb_prefixed_range(b, offset),
    }
}

/// The value ranges of the first `n` rows, each starting where the previous
/// one ended.
pub open spec fn spec_payload_ranges(layout: BytePayloadLayout, b: Seq<u8>, n: nat) -> Result<
    Seq<(int, int)>,
    ErrorCode,
>
    decreases n,
{
    if n == 0 {
        Ok(Seq::empty())
    } else {
        match spec_payload_ranges(layout, b, (n - 1) as nat) {
            Err(e) => Err(e),
            Ok(prev) => {
                let pos = if n - 1 == 0 {
                    0
                } else {
                    prev.last().1
                };
                match spec_payload_range(layout, b, pos) {
                    Err(e) => Err(e),
                    Ok(r) => Ok(prev.push(r)),
                }
            },
        }
    }
}

/// The end of the last of `rs`, or 0 when there is none.
pub open spec fn ranges_end(rs: Seq<(int, int)>) -> int {
    if rs.len() == 0 {
        0
    } else {
        rs.last().1
    }
}

pub(crate) proof fn lemma_payload_ranges_err_persists(layout: BytePayloadLayout, b: Seq<u8>, k: nat, n: nat)
    requires
        k <= n,
        spec_payload_ranges(layout, b, k) is Err,
    ensures
        spec_payload_ranges(layout, b, n) == spec_payload_ranges(layout, b, k),
    decreases n - k,
{
    if k < n {
        lemma_payload_ranges_err_persists(layout, b, k, (n - 1) as nat);
    }
}

/// A plan for reading a page's byte payload.
pub struct BytePayloadPlan {
    pub layout: BytePayloadLayout,
}

impl BytePayloadPlan {
    /// The value range of every row of `array`; `PageCorrupt` when the
    /// values do not end exactly at the end of the page data.
    pub fn parse_ranges(&self, array: &EncodedArray<'_>) -> (res: Result<
        Vec<(usize, usize)>,
        CoveError,
    >)
        ensures
            array.row_count > usize::MAX ==> fails_with(res, ErrorCode::ArithOverflow),
            array.row_count <= usize::MAX ==> match spec_payload_ranges(
                self.layout,
                array.data@,
                array.row_count as nat,
            ) {
                Err(c) => fails_with(res, c),
                Ok(rs) => if ranges_end(rs) != array.data@.len() {
                    fails_with(res, ErrorCode::PageCorrupt)
                } else {
                    res matches Ok(v) && v@.len() == rs.len() && forall|k: int|
                        0 <= k < rs.len() ==> (#[trigger] v@[k]).0 as int == rs[k].0 && v@[k].1 as int
                            == rs[k].1
                },
            },
    {
        if array.row_count > usize::MAX as u64 {
            return Err(CoveError::ArithOverflow);
        }
        let row_count = array.row_count as usize;
        let data = array.data;
        let layout = self.layout;
        let mut ranges: Vec<(usize, usize)> = Vec::new();
        let mut pos: usize = 0;
        let mut k: usize = 0;
        while k < row_count
            invariant
                k <= row_count,
                row_count == array.row_count,
                data@ == array.data@,
                layout == self.layout,
                spec_payload_ranges(layout, data@, k as nat) matches Ok(rs) && rs.len() == k
                    && ranges_end(rs) == pos && ranges@.len() == k && forall|j: int|
                    0 <= j < k ==> (#[trigger] ranges@[j]).0 as int == rs[j].0 && ranges@[j].1 as int
                        == rs[j].1,
            decreases row_count - k,
        {
            let ghost rs = spec_payload_ranges(layout, data@, k as nat)->Ok_0;
            let r = match layout {
                BytePayloadLayout::U32LengthPrefixed => read_u32_len_prefixed_range(data, pos),
                BytePayloadLayout::Leb128LengthPrefixed => read_leb128_len_prefixed_range(data, pos),
            };
            let (start, end) = match r {
                Ok(v) => v,
                Err(e) => {
                    proof {
                        lemma_payload_ranges_err_persists(
                            layout,
                            data@,
                            (k + 1) as nat,
                            row_count as nat,
                        );
                    }
                    return Err(e);
                },
            };
            ranges.push((start, end));
            proof {
                let rs2 = rs.push((start as int, end as int));
                assert(spec_payload_ranges(layout, data@, (k + 1) as nat) == Ok::<
                    Seq<(int, int)>,
                    ErrorCode,
                >(rs2));
                assert forall|j: int| 0 <= j < k + 1 implies (#[trigger] ranges@[j]).0 as int
                    == rs2[j].0 && ranges@[j].1 as int == rs2[j].1 by {}
            }
            pos = end;
            k = k + 1;
        }
        if pos != data.len() {
            return Err(CoveError::PageCorrupt);
        }
        Ok(ranges)
    }
}

// ---------------------------------------------------------------------------
// UTF-8 row validation
// ---------------------------------------------------------------------------

/// `simdutf8::basic::from_utf8`: whether `bytes` is valid UTF-8.
#[verifier::external_body]
fn simd_utf8_valid(bytes: &[u8]) -> (res: bool)
    ensures
        res == valid_utf8(bytes@),
{
    simdutf8::basic::from_utf8(bytes).is_ok()
}

/// Whether a byte continues a multi-byte UTF-8 sequence.
pub open spec fn is_continuation(b: u8) -> bool {
    b & 0xC0u8 == 0x80u8
}

/// Whether row `k` of an offsets array is well formed over `values`:
/// non-negative, ordered, inside the buffer, and not starting inside a
/// code point.
pub open spec fn row_fault(offsets: Seq<i32>, values: Seq<u8>, k: int) -> Option<ErrorCode> {
    let start = offsets[k];
    let end = offsets[k + 1];
    if start < 0 || end < 0 || start > end || end > values.len() {
        Some(ErrorCode::OffsetRange)
    } else if start != 0 && start != end && is_continuation(values[start as int]) {
        Some(ErrorCode::BadSection)
    } else {
        None
    }
}

/// The first faulty row among the first `n` rows, if any.
pub open spec fn first_row_fault(offsets: Seq<i32>, values: Seq<u8>, n: nat) -> Option<ErrorCode>
    decreases n,
{
    if n == 0 {
        None
    } else {
        match first_row_fault(offsets, values, (n - 1) as nat) {
            Some(e) => Some(e),
            None => row_fault(offsets, values, n - 1),
        }
    }
}

/// Checking an offsets array over `values` for export as UTF-8 rows: the
/// first faulty row's error, else `BadSection` unless `values` is valid UTF-8.
pub open spec fn spec_validate_utf8_offsets(offsets: Seq<i32>, values: Seq<u8>) -> Result<
    (),
    ErrorCode,
> {
    let rows = if offsets.len() == 0 {
        0
    } else {
        offsets.len() - 1
    };
    match first_row_fault(offsets, values, rows as nat) {
        Some(e) => Err(e),
        None => if valid_utf8(values) {
            Ok(())
        } else {
            Err(ErrorCode::BadSection)
        },
    }
}

/// Checks that every row `[offsets[k], offsets[k + 1])` is an in-bounds,
/// ordered range of `values` that does not start inside a code point, and
/// that `values` is valid UTF-8; together these make every row valid UTF-8.
pub fn validate_utf8_offsets_slice(offsets: &[i32], values: &[u8]) -> (res: Result<(), CoveError>)
    ensures
        match spec_validate_utf8_offsets(offsets@, values@) {
            Ok(()) => res is Ok,
            Err(c) => fails_with(res, c),
        },
{
    let rows = if offsets.len() == 0 {
        0
    } else {
        offsets.len() - 1
    };
    let mut k: usize = 0;
    while k < rows
        invariant
            k <= rows,
            rows == (if offsets@.len() == 0 {
                0
            } else {
                offsets@.len() - 1
            }),
            first_row_fault(offsets@, values@, k as nat) is None,
        decreases rows - k,
    {
        let start = offsets[k];
        let end = offsets[k + 1];
        if start < 0 || end < 0 || start > end || end as usize > values.len() {
            proof {
                lemma_row_fault_persists(offsets@, values@, (k + 1) as nat, rows as nat);
            }
            return Err(CoveError::OffsetRange);
        }
        if start != 0 && start != end && (values[start as usize] & 0xC0) == 0x80 {
            proof {
                lemma_row_fault_persists(offsets@, values@, (k + 1) as nat, rows as nat);
            }
            return Err(
                CoveError::BadSection(text("Arrow Utf8 export: row boundary splits a UTF-8 codepoint")),
            );
        }
        k = k + 1;
    }
    if simd_utf8_valid(values) {
        Ok(())
    } else {
        Err(CoveError::BadSection(text("Arrow Utf8 export: invalid UTF-8")))
    }
}

proof fn lemma_row_fault_persists(offsets: Seq<i32>, values: Seq<u8>, k: nat, n: nat)
    requires
        k <= n,
        first_row_fault(offsets, values, k) is Some,
    ensures
        first_row_fault(offsets, values, n) == first_row_fault(offsets, values, k),
    decreases n - k,
{
    if k < n {
        lemma_row_fault_persists(offsets, values, k, (n - 1) as nat);
    }
}

} // verus!

verus! {

// ---------------------------------------------------------------------------
// Fixed-width and varint pages
// ---------------------------------------------------------------------------

/// The value of the `k`-th PlainVarint value of `d`, assuming it decodes.
pub open spec fn varint_value_at(d: Seq<u8>, k: nat) -> u64 {
    let p = crate::array::varint_pos(d, k)->Ok_0;
    spec_leb_decode(d.subrange(p, d.len() as int))->Ok_0.0
}

/// Decoding a PlainVarint page of `n` rows into its raw values;
/// `PageCorrupt` when bytes remain after the last value.
pub open spec fn spec_varint_values(d: Seq<u8>, n: nat) -> Result<Seq<u64>, ErrorCode> {
    match crate::array::varint_pos(d, n) {
        Err(e) => Err(e),
        Ok(p) => if p != d.len() {
            Err(ErrorCode::PageCorrupt)
        } else {
            Ok(Seq::new(n, |k: int| varint_value_at(d, k as nat)))
        },
    }
}

/// The raw values of a PlainVarint page, ignoring nulls.
pub fn decode_plain_varint_u64_values(array: &EncodedArray<'_>) -> (res: Result<
    Vec<u64>,
    CoveError,
>)
    ensures
        array.row_count > usize::MAX ==> fails_with(res, ErrorCode::ArithOverflow),
        array.row_count <= usize::MAX ==> match spec_varint_values(
            array.data@,
            array.row_count as nat,
        ) {
            Ok(vs) => (res matches Ok(v) && v@ == vs),
            Err(c) => fails_with(res, c),
        },
{
    if array.row_count > usize::MAX as u64 {
        return Err(CoveError::ArithOverflow);
    }
    let row_count = array.row_count as usize;
    let data = array.data;
    let ghost d = data@;
    let mut values: Vec<u64> = Vec::new();
    let mut pos: usize = 0;
    let mut k: usize = 0;
    while k < row_count
        invariant
            k <= row_count,
            row_count == array.row_count,
            d == data@,
            d == array.data@,
            crate::array::varint_pos(d, k as nat) == Ok::<int, ErrorCode>(pos as int),
            pos <= d.len(),
            values@.len() == k,
            forall|j: int| 0 <= j < k ==> #[trigger] values@[j] == varint_value_at(d, j as nat),
        decreases row_count - k,
    {
        if pos >= data.len() {
            proof {
                crate::array::lemma_varint_err_persists(d, (k + 1) as nat, row_count as nat);
            }
            return Err(CoveError::OffsetRange);
        }
        let tail = &data[pos..data.len()];
        let ghost sub = d.subrange(pos as int, d.len() as int);
        assert(tail@ =~= sub);
        proof {
            crate::wire::lemma_leb_decode_len(sub);
        }
        let (value, consumed) = match decode_u64_leb128(tail) {
            Ok(v) => v,
            Err(e) => {
                proof {
                    assert(crate::array::varint_pos(d, (k + 1) as nat) == Err::<int, ErrorCode>(
                        e.code(),
                    ));
                    crate::array::lemma_varint_err_persists(d, (k + 1) as nat, row_count as nat);
                }
                return Err(e);
            },
        };
        assert(spec_leb_decode(sub) == Ok::<(u64, nat), ErrorCode>((value, consumed as nat)));
        assert(varint_value_at(d, k as nat) == value);
        values.push(value);
        pos = pos + consumed;
        k = k + 1;
    }
    if pos != data.len() {
        return Err(CoveError::PageCorrupt);
    }
    assert(values@ =~= Seq::new(row_count as nat, |j: int| varint_value_at(d, j as nat)));
    Ok(values)
}

/// The first `row_count * width` bytes of `data`: `ArithOverflow` when the
/// product overflows, `OffsetRange` when `data` is shorter.
pub fn fixed_width_payload_prefix<'a>(data: &'a [u8], row_count: usize, width: usize) -> (res:
    Result<&'a [u8], CoveError>)
    ensures
        row_count * width > usize::MAX ==> fails_with(res, ErrorCode::ArithOverflow),
        row_count * width <= usize::MAX && data@.len() < row_count * width ==> fails_with(
            res,
            ErrorCode::OffsetRange,
        ),
        row_count * width <= data@.len() ==> (res matches Ok(p) && p@ == data@.subrange(
            0,
            row_count * width,
        )),
{
    let available = data.len();
    let required_len = match row_count.checked_mul(width) {
        Some(v) => v,
        None => return Err(CoveError::ArithOverflow),
    };
    if available < required_len {
        return Err(CoveError::OffsetRange);
    }
    Ok(&data[0..required_len])
}

/// Whether any row of `array` is null.
pub fn array_has_nulls(array: &EncodedArray<'_>) -> (res: Result<bool, CoveError>)
    ensures
        match array.validity {
            None => res == Ok::<bool, CoveError>(false),
            Some(bm) => if bitmap_bytes(bm.row_count() as int) <= bm.bytes().len() {
                res == Ok::<bool, CoveError>(count_set_bits(bm.bytes(), bm.row_count() as nat) > 0)
            } else {
                fails_with(res, ErrorCode::BufferTooShort)
            },
        },
{
    match array.validity {
        Some(validity) => match validity.null_count() {
            Ok(n) => {
                proof {
                    crate::validity::lemma_count_set_bits_bound(
                        validity.bytes(),
                        validity.row_count() as nat,
                    );
                }
                Ok(n > 0)
            },
            Err(e) => Err(e),
        },
        None => Ok(false),
    }
}


/// A NumCode as a signed integer; `PageCorrupt` above `i64::MAX`.
pub fn checked_numcode_i64(value: u64) -> (res: Result<i64, CoveError>)
    ensures
        value <= i64::MAX ==> res == Ok::<i64, CoveError>(value as i64),
        value > i64::MAX ==> fails_with(res, ErrorCode::PageCorrupt),
{
    if value > i64::MAX as u64 {
        return Err(CoveError::PageCorrupt);
    }
    Ok(value as i64)
}

/// A stored boolean byte: 0 is false, 1 is true, anything else is
/// `PageCorrupt`.
pub fn checked_bool_byte(byte: u8) -> (res: Result<bool, CoveError>)
    ensures
        byte == 0 ==> res == Ok::<bool, CoveError>(false),
        byte == 1 ==> res == Ok::<bool, CoveError>(true),
        byte > 1 ==> fails_with(res, ErrorCode::PageCorrupt),
{
    if byte == 0 {
        Ok(false)
    } else if byte == 1 {
        Ok(true)
    } else {
        Err(CoveError::PageCorrupt)
    }
}

/// Whether bit `j` of a `u16` is set.
pub open spec fn bit16(w: u16, j: u16) -> bool {
    (w >> j) & 1u16 == 1u16
}

/// Packs eight stored boolean bytes into one byte, first byte in the least
/// significant bit; `PageCorrupt` when a byte is neither 0 nor 1.
pub fn pack_bool_chunk_8(chunk: &[u8]) -> (res: Result<u8, CoveError>)
    requires
        chunk@.len() == 8,
    ensures
        (forall|k: int| 0 <= k < 8 ==> #[trigger] chunk@[k] <= 1) ==> (res matches Ok(b)
            && forall|j: u8| j < 8 ==> #[trigger] crate::validity::bit_of(b, j) == (chunk@[j as int]
                == 1)),
        (exists|k: int| 0 <= k < 8 && #[trigger] chunk@[k] > 1) ==> fails_with(
            res,
            ErrorCode::PageCorrupt,
        ),
{
    let b0 = chunk[0];
    let b1 = chunk[1];
    let b2 = chunk[2];
    let b3 = chunk[3];
    let b4 = chunk[4];
    let b5 = chunk[5];
    let b6 = chunk[6];
    let b7 = chunk[7];
    let any = b0 | b1 | b2 | b3 | b4 | b5 | b6 | b7;
    assert(any <= 1 <==> (b0 <= 1 && b1 <= 1 && b2 <= 1 && b3 <= 1 && b4 <= 1 && b5 <= 1 && b6
        <= 1 && b7 <= 1)) by (bit_vector)
        requires
            any == b0 | b1 | b2 | b3 | b4 | b5 | b6 | b7,
    ;
    if any > 1 {
        return Err(CoveError::PageCorrupt);
    }
    let packed = b0 | (b1 << 1u8) | (b2 << 2u8) | (b3 << 3u8) | (b4 << 4u8) | (b5 << 5u8) | (b6
        << 6u8) | (b7 << 7u8);
    proof {
        assert forall|j: u8| j < 8 implies #[trigger] crate::validity::bit_of(packed, j) == (
        chunk@[j as int] == 1) by {
            assert(((b0 | (b1 << 1u8) | (b2 << 2u8) | (b3 << 3u8) | (b4 << 4u8) | (b5 << 5u8) | (b6
                << 6u8) | (b7 << 7u8)) >> j) & 1u8 == (if j == 0 {
                b0
            } else if j == 1 {
                b1
            } else if j == 2 {
                b2
            } else if j == 3 {
                b3
            } else if j == 4 {
                b4
            } else if j == 5 {
                b5
            } else if j == 6 {
                b6
            } else {
                b7
            })) by (bit_vector)
                requires
                    j < 8,
                    b0 <= 1,
                    b1 <= 1,
                    b2 <= 1,
                    b3 <= 1,
                    b4 <= 1,
                    b5 <= 1,
                    b6 <= 1,
                    b7 <= 1,
            ;
        }
    }
    Ok(packed)
}

/// Packs sixteen stored boolean bytes into a `u16`, first byte in the least
/// significant bit; `PageCorrupt` when a byte is neither 0 nor 1.
pub fn pack_bool_chunk_16(chunk: &[u8]) -> (res: Result<u16, CoveError>)
    requires
        chunk@.len() == 16,
    ensures
        (forall|k: int| 0 <= k < 16 ==> #[trigger] chunk@[k] <= 1) ==> (res matches Ok(w)
            && forall|j: u16| j < 16 ==> #[trigger] bit16(w, j) == (chunk@[j as int] == 1)),
        (exists|k: int| 0 <= k < 16 && #[trigger] chunk@[k] > 1) ==> fails_with(
            res,
            ErrorCode::PageCorrupt,
        ),
{
    let low_slice = &chunk[0..8];
    let high_slice = &chunk[8..16];
    assert(low_slice@ =~= chunk@.subrange(0, 8));
    assert(high_slice@ =~= chunk@.subrange(8, 16));
    let packed_low = match pack_bool_chunk_8(low_slice) {
        Ok(v) => v,
        Err(e) => {
            proof {
                let k = choose|k: int| 0 <= k < 8 && #[trigger] low_slice@[k] > 1;
                assert(chunk@[k] > 1);
            }
            return Err(e);
        },
    };
    let packed_high = match pack_bool_chunk_8(high_slice) {
        Ok(v) => v,
        Err(e) => {
            proof {
                let k = choose|k: int| 0 <= k < 8 && #[trigger] high_slice@[k] > 1;
                assert(chunk@[k + 8] > 1);
            }
            return Err(e);
        },
    };
    let w = (packed_low as u16) | ((packed_high as u16) << 8u16);
    proof {
        assert forall|k: int| 0 <= k < 16 implies #[trigger] chunk@[k] <= 1 by {
            if k < 8 {
                assert(chunk@[k] == low_slice@[k]);
            } else {
                assert(chunk@[k] == high_slice@[k - 8]);
            }
        }
        assert forall|j: u16| j < 16 implies #[trigger] bit16(w, j) == (chunk@[j as int] == 1) by {
            if j < 8 {
                assert(crate::validity::bit_of(packed_low, j as u8) == (low_slice@[j as int] == 1));
                assert(((((packed_low as u16) | ((packed_high as u16) << 8u16)) >> j) & 1u16 == 1u16)
                    == ((packed_low >> (j as u8)) & 1u8 == 1u8)) by (bit_vector)
                    requires
                        j < 8,
                ;
            } else {
                assert(crate::validity::bit_of(packed_high, (j - 8) as u8) == (high_slice@[j - 8]
                    == 1));
                assert(((((packed_low as u16) | ((packed_high as u16) << 8u16)) >> j) & 1u16 == 1u16)
                    == ((packed_high >> ((j - 8) as u8)) & 1u8 == 1u8)) by (bit_vector)
                    requires
                        8 <= j < 16,
                ;
            }
        }
    }
    Ok(w)
}

} // verus!

verus! {

// ---------------------------------------------------------------------------
// Row value conversions
// ---------------------------------------------------------------------------

proof fn lemma_le_unsigned_nonneg(s: Seq<u8>)
    ensures
        le_unsigned(s) >= 0,
    decreases s.len(),
{
    if s.len() > 0 {
        lemma_le_unsigned_nonneg(s.drop_last());
    }
}

pub(crate) proof fn lemma_small_le_fits(s: Seq<u8>)
    requires
        1 <= s.len() <= 8,
    ensures
        0 <= le_unsigned(s) <= u64::MAX,
        i64::MIN <= le_signed(s) <= i64::MAX,
{
    let n = s.len();
    crate::collation::lemma_le_unsigned_bound(s);
    crate::collation::lemma_le_unsigned_bound(s.drop_last());
    lemma_le_unsigned_nonneg(s);
    lemma_le_unsigned_nonneg(s.drop_last());
    crate::collation::lemma_pow256_mono(n as nat, 8);
    crate::collation::lemma_pow256_mono((n - 1) as nat, 7);
    assert(crate::collation::pow256(8) == 0x1_0000_0000_0000_0000) by {
        reveal_with_fuel(crate::collation::pow256, 9);
    }
    assert(crate::collation::pow256(7) == 0x100_0000_0000_0000) by {
        reveal_with_fuel(crate::collation::pow256, 8);
    }
    let low = le_unsigned(s.drop_last());
    let p = crate::collation::pow256((n - 1) as nat) as int;
    let h = crate::collation::signed_byte(s.last());
    assert(-128 * p <= h * p <= 127 * p) by (nonlinear_arith)
        requires
            -128 <= h <= 127,
            p >= 0,
    ;
    assert(128 * p <= 128 * 0x100_0000_0000_0000) by (nonlinear_arith)
        requires
            p <= 0x100_0000_0000_0000,
    ;
}

/// `bytes` when it holds exactly `n` bytes, else `PageCorrupt`.
pub fn exact_bytes(bytes: &[u8], n: usize) -> (res: Result<&[u8], CoveError>)
    ensures
        bytes@.len() == n ==> (res matches Ok(b) && b@ == bytes@),
        bytes@.len() != n ==> fails_with(res, ErrorCode::PageCorrupt),
{
    if bytes.len() != n {
        return Err(CoveError::PageCorrupt);
    }
    Ok(bytes)
}

/// The byte width of a signed integer logical type, if it is one.
pub open spec fn signed_width(l: CoveLogicalType) -> Option<nat> {
    match l {
        CoveLogicalType::Int8 => Some(1),
        CoveLogicalType::Int16 => Some(2),
        CoveLogicalType::Int32 | CoveLogicalType::DateDays => Some(4),
        CoveLogicalType::Int64
        | CoveLogicalType::Decimal64
        | CoveLogicalType::TimestampMicros
        | CoveLogicalType::TimestampNanos => Some(8),
        _ => None,
    }
}

/// The byte width of an unsigned integer logical type, if it is one.
pub open spec fn unsigned_width(l: CoveLogicalType) -> Option<nat> {
    match l {
        CoveLogicalType::UInt8 => Some(1),
        CoveLogicalType::UInt16 => Some(2),
        CoveLogicalType::UInt32 => Some(4),
        CoveLogicalType::UInt64 => Some(8),
        _ => None,
    }
}

/// Little-endian two's-complement bytes of a signed logical type as an
/// integer: `UnsupportedEncoding` for other types, `PageCorrupt` for the
/// wrong width.
pub open spec fn spec_signed_from_bytes(l: CoveLogicalType, b: Seq<u8>) -> Result<i64, ErrorCode> {
    match signed_width(l) {
        None => Err(ErrorCode::UnsupportedEncoding),
        Some(w) => if b.len() != w {
            Err(ErrorCode::PageCorrupt)
        } else {
            Ok(le_signed(b) as i64)
        },
    }
}

/// Little-endian bytes of an unsigned logical type as an integer.
pub open spec fn spec_unsigned_from_bytes(l: CoveLogicalType, b: Seq<u8>) -> Result<u64, ErrorCode> {
    match unsigned_width(l) {
        None => Err(ErrorCode::UnsupportedEncoding),
        Some(w) => if b.len() != w {
            Err(ErrorCode::PageCorrupt)
        } else {
            Ok(le_unsigned(b) as u64)
        },
    }
}

fn signed_width_of(logical: CoveLogicalType) -> (res: Option<usize>)
    ensures
        match signed_width(logical) {
            Some(w) => res == Some(w as usize),
            None => res is None,
        },
{
    match logical {
        CoveLogicalType::Int8 => Some(1),
        CoveLogicalType::Int16 => Some(2),
        CoveLogicalType::Int32 | CoveLogicalType::DateDays => Some(4),
        CoveLogicalType::Int64
        | CoveLogicalType::Decimal64
        | CoveLogicalType::TimestampMicros
        | CoveLogicalType::TimestampNanos => Some(8),
        _ => None,
    }
}

fn unsigned_width_of(logical: CoveLogicalType) -> (res: Option<usize>)
    ensures
        match unsigned_width(logical) {
            Some(w) => res == Some(w as usize),
            None => res is None,
        },
{
    match logical {
        CoveLogicalType::UInt8 => Some(1),
        CoveLogicalType::UInt16 => Some(2),
        CoveLogicalType::UInt32 => Some(4),
        CoveLogicalType::UInt64 => Some(8),
        _ => None,
    }
}

/// Reads the bytes of a signed logical type as an integer.
pub fn signed_from_bytes(logical: CoveLogicalType, bytes: &[u8]) -> (res: Result<i64, CoveError>)
    ensures
        match spec_signed_from_bytes(logical, bytes@) {
            Ok(v) => res == Ok::<i64, CoveError>(v),
            Err(c) => fails_with(res, c),
        },
{
    let w = match signed_width_of(logical) {
        Some(w) => w,
        None => {
            return Err(CoveError::UnsupportedEncoding(text("signed export from this logical type")))
        },
    };
    let b = match exact_bytes(bytes, w) {
        Ok(b) => b,
        Err(e) => return Err(e),
    };
    proof {
        lemma_small_le_fits(b@);
    }
    let v = crate::collation::read_signed(b);
    Ok(v as i64)
}

/// Reads the bytes of an unsigned logical type as an integer.
pub fn unsigned_from_bytes(logical: CoveLogicalType, bytes: &[u8]) -> (res: Result<u64, CoveError>)
    ensures
        match spec_unsigned_from_bytes(logical, bytes@) {
            Ok(v) => res == Ok::<u64, CoveError>(v),
            Err(c) => fails_with(res, c),
        },
{
    let w = match unsigned_width_of(logical) {
        Some(w) => w,
        None => {
            return Err(
                CoveError::UnsupportedEncoding(text("unsigned export from this logical type")),
            )
        },
    };
    let b = match exact_bytes(bytes, w) {
        Ok(b) => b,
        Err(e) => return Err(e),
    };
    proof {
        lemma_small_le_fits(b@);
    }
    let v = crate::collation::read_unsigned(b);
    Ok(v as u64)
}

/// The variant name of a row value.
pub open spec fn spec_value_kind_name(v: ArrayValueView) -> Seq<char> {
    match v {
        ArrayValueView::Null => "Null"@,
        ArrayValueView::Bytes(_) => "Bytes"@,
        ArrayValueView::OwnedBytes(_) => "OwnedBytes"@,
        ArrayValueView::Varint(_) => "Varint"@,
        ArrayValueView::Int64(_) => "Int64"@,
        ArrayValueView::FileCode(_) => "FileCode"@,
        ArrayValueView::DictValue(_) => "DictValue"@,
        ArrayValueView::NumCode(_) => "NumCode"@,
        ArrayValueView::Boolean(_) => "Boolean"@,
        ArrayValueView::ValidityBit(_) => "ValidityBit"@,
    }
}

/// The variant name of a value, for messages.
fn value_kind_name(value: &CoveArrayValue<'_>) -> (res: &'static str)
    ensures
        res@ == spec_value_kind_name(value@),
{
    match value {
        CoveArrayValue::Null => "Null",
        CoveArrayValue::Bytes(_) => "Bytes",
        CoveArrayValue::OwnedBytes(_) => "OwnedBytes",
        CoveArrayValue::Varint(_) => "Varint",
        CoveArrayValue::Int64(_) => "Int64",
        CoveArrayValue::FileCode(_) => "FileCode",
        CoveArrayValue::DictValue(_) => "DictValue",
        CoveArrayValue::NumCode(_) => "NumCode",
        CoveArrayValue::Boolean(_) => "Boolean",
        CoveArrayValue::ValidityBit(_) => "ValidityBit",
    }
}

/// The error for a value that cannot be exported as `expected`.
pub fn unexpected_value(expected: &str, value: &CoveArrayValue<'_>) -> (res: CoveError)
    ensures
        res.code() == ErrorCode::UnsupportedEncoding,
        res matches CoveError::UnsupportedEncoding(m) && m@ == "cannot export "@
            + spec_value_kind_name(value@) + " as Arrow "@ + expected@,
{
    let head = concat("cannot export ", value_kind_name(value));
    let msg = concat(head.as_str(), " as Arrow ");
    CoveError::UnsupportedEncoding(concat(msg.as_str(), expected))
}

/// A row value as a signed integer.
pub open spec fn spec_value_to_i64(l: CoveLogicalType, v: ArrayValueView) -> Result<i64, ErrorCode> {
    match v {
        ArrayValueView::Int64(x) => Ok(x),
        ArrayValueView::NumCode(x) => if x > i64::MAX {
            Err(ErrorCode::PageCorrupt)
        } else {
            Ok(x as i64)
        },
        ArrayValueView::Varint(x) => if x > i64::MAX {
            Err(ErrorCode::PageCorrupt)
        } else {
            Ok(x as i64)
        },
        ArrayValueView::FileCode(x) => Ok(x as i64),
        ArrayValueView::Bytes(b) => spec_signed_from_bytes(l, b),
        ArrayValueView::DictValue(DictionaryValueView::RawBytes(b)) => spec_signed_from_bytes(l, b),
        _ => Err(ErrorCode::UnsupportedEncoding),
    }
}

/// A row value as an unsigned integer.
pub open spec fn spec_value_to_u64(l: CoveLogicalType, v: ArrayValueView) -> Result<u64, ErrorCode> {
    match v {
        ArrayValueView::NumCode(x) => Ok(x),
        ArrayValueView::Varint(x) => Ok(x),
        ArrayValueView::Int64(x) => if x < 0 {
            Err(ErrorCode::PageCorrupt)
        } else {
            Ok(x as u64)
        },
        ArrayValueView::FileCode(x) => Ok(x as u64),
        ArrayValueView::Bytes(b) => spec_unsigned_from_bytes(l, b),
        ArrayValueView::DictValue(DictionaryValueView::RawBytes(b)) => spec_unsigned_from_bytes(
            l,
            b,
        ),
        _ => Err(ErrorCode::UnsupportedEncoding),
    }
}

/// A row value as a signed integer under `logical`.
pub fn value_to_i64(logical: CoveLogicalType, value: &CoveArrayValue<'_>) -> (res: Result<
    i64,
    CoveError,
>)
    ensures
        match spec_value_to_i64(logical, value@) {
            Ok(v) => res == Ok::<i64, CoveError>(v),
            Err(c) => fails_with(res, c),
        },
{
    match value {
        CoveArrayValue::Int64(v) => Ok(*v),
        CoveArrayValue::NumCode(v) => checked_numcode_i64(*v),
        CoveArrayValue::Varint(v) => checked_numcode_i64(*v),
        CoveArrayValue::FileCode(v) => Ok(*v as i64),
        CoveArrayValue::Bytes(bytes) => signed_from_bytes(logical, bytes),
        CoveArrayValue::DictValue(DictionaryValue::RawBytes(bytes)) => signed_from_bytes(
            logical,
            bytes.as_slice(),
        ),
        other => Err(unexpected_value("signed integer", other)),
    }
}

/// A row value as an unsigned integer under `logical`.
pub fn value_to_u64(logical: CoveLogicalType, value: &CoveArrayValue<'_>) -> (res: Result<
    u64,
    CoveError,
>)
    ensures
        match spec_value_to_u64(logical, value@) {
            Ok(v) => res == Ok::<u64, CoveError>(v),
            Err(c) => fails_with(res, c),
        },
{
    match value {
        CoveArrayValue::NumCode(v) => Ok(*v),
        CoveArrayValue::Varint(v) => Ok(*v),
        CoveArrayValue::Int64(v) => {
            if *v < 0 {
                Err(CoveError::PageCorrupt)
            } else {
                Ok(*v as u64)
            }
        },
        CoveArrayValue::FileCode(v) => Ok(*v as u64),
        CoveArrayValue::Bytes(bytes) => unsigned_from_bytes(logical, bytes),
        CoveArrayValue::DictValue(DictionaryValue::RawBytes(bytes)) => unsigned_from_bytes(
            logical,
            bytes.as_slice(),
        ),
        other => Err(unexpected_value("unsigned integer", other)),
    }
}

/// The raw bytes a row value holds.
pub open spec fn spec_plain_bytes(v: ArrayValueView) -> Result<Seq<u8>, ErrorCode> {
    match v {
        ArrayValueView::Bytes(b) => Ok(b),
        ArrayValueView::OwnedBytes(b) => Ok(b),
        ArrayValueView::DictValue(DictionaryValueView::RawBytes(b)) => Ok(b),
        ArrayValueView::DictValue(DictionaryValueView::RedactedPresent) => Err(
            ErrorCode::RedactionPolicy,
        ),
        _ => Err(ErrorCode::UnsupportedEncoding),
    }
}

/// The raw bytes a row value holds: `RedactionPolicy` for a redacted
/// dictionary value, `UnsupportedEncoding` for a value without bytes.
pub fn plain_bytes<'b>(value: &'b CoveArrayValue<'b>) -> (res: Result<&'b [u8], CoveError>)
    ensures
        match spec_plain_bytes(value@) {
            Ok(b) => (res matches Ok(r) && r@ == b),
            Err(c) => fails_with(res, c),
        },
{
    match value {
        CoveArrayValue::Bytes(bytes) => Ok(bytes),
        CoveArrayValue::OwnedBytes(bytes) => Ok(bytes.as_slice()),
        CoveArrayValue::DictValue(DictionaryValue::RawBytes(bytes)) => Ok(bytes.as_slice()),
        CoveArrayValue::DictValue(DictionaryValue::RedactedPresent) => Err(
            CoveError::RedactionPolicy,
        ),
        other => Err(unexpected_value("plain bytes", other)),
    }
}

/// A decimal row value as an `i128`: Decimal64 through the signed integer
/// path, Decimal128 from exactly sixteen little-endian bytes.
pub open spec fn spec_value_to_i128(l: CoveLogicalType, v: ArrayValueView) -> Result<i128, ErrorCode> {
    match l {
        CoveLogicalType::Decimal64 => match spec_value_to_i64(l, v) {
            Ok(x) => Ok(x as i128),
            Err(e) => Err(e),
        },
        CoveLogicalType::Decimal128 => match spec_plain_bytes(v) {
            Err(e) => Err(e),
            Ok(b) => if b.len() != 16 {
                Err(ErrorCode::PageCorrupt)
            } else {
                Ok(le_signed(b) as i128)
            },
        },
        _ => Err(ErrorCode::UnsupportedEncoding),
    }
}

/// A decimal row value as an `i128`.
pub fn value_to_i128<'b>(logical: CoveLogicalType, value: &'b CoveArrayValue<'b>) -> (res: Result<
    i128,
    CoveError,
>)
    ensures
        match spec_value_to_i128(logical, value@) {
            Ok(v) => res == Ok::<i128, CoveError>(v),
            Err(c) => fails_with(res, c),
        },
{
    match logical {
        CoveLogicalType::Decimal64 => match value_to_i64(logical, value) {
            Ok(v) => Ok(v as i128),
            Err(e) => Err(e),
        },
        CoveLogicalType::Decimal128 => {
            let bytes = match plain_bytes(value) {
                Ok(b) => b,
                Err(e) => return Err(e),
            };
            let b = match exact_bytes(bytes, 16) {
                Ok(b) => b,
                Err(e) => return Err(e),
            };
            Ok(crate::collation::read_signed(b))
        },
        _ => Err(unexpected_value("decimal", value)),
    }
}

/// The payload of a dictionary value's canonical bytes: for UTF-8, binary
/// and JSON a LEB128 length prefix that must cover exactly the rest of the
/// bytes, otherwise the bytes themselves.
pub open spec fn spec_canonical_payload(l: CoveLogicalType, b: Seq<u8>) -> Result<
    Seq<u8>,
    ErrorCode,
> {
    if crate::array::is_prefixed_logical(l) {
        match spec_leb_decode(b) {
            Err(e) => Err(e),
            Ok((len, c)) => if len > usize::MAX || c + len > usize::MAX {
                Err(ErrorCode::ArithOverflow)
            } else if c + len != b.len() {
                Err(ErrorCode::PageCorrupt)
            } else {
                Ok(b.subrange(c as int, c + len))
            },
        }
    } else {
        Ok(b)
    }
}

/// The payload of a dictionary value's canonical bytes.
pub fn canonical_payload_bytes<'b>(logical: CoveLogicalType, bytes: &'b [u8]) -> (res: Result<
    Cow<'b, [u8]>,
    CoveError,
>)
    ensures
        match spec_canonical_payload(logical, bytes@) {
            Ok(b) => (res matches Ok(r) && r@ == b),
            Err(c) => fails_with(res, c),
        },
{
    match logical {
        CoveLogicalType::Utf8 | CoveLogicalType::Binary | CoveLogicalType::Json => {
            proof {
                crate::wire::lemma_leb_decode_len(bytes@);
            }
            let (len, consumed) = match decode_u64_leb128(bytes) {
                Ok(v) => v,
                Err(e) => return Err(e),
            };
            if len > usize::MAX as u64 {
                return Err(CoveError::ArithOverflow);
            }
            let len = len as usize;
            let start = consumed;
            let end = match start.checked_add(len) {
                Some(v) => v,
                None => return Err(CoveError::ArithOverflow),
            };
            if end != bytes.len() {
                return Err(CoveError::PageCorrupt);
            }
            Ok(Cow::Borrowed(&bytes[start..end]))
        },
        _ => Ok(Cow::Borrowed(bytes)),
    }
}

/// A row value as bytes.
pub open spec fn spec_value_to_bytes(l: CoveLogicalType, v: ArrayValueView) -> Result<
    Seq<u8>,
    ErrorCode,
> {
    match v {
        ArrayValueView::Bytes(b) => Ok(b),
        ArrayValueView::OwnedBytes(b) => Ok(b),
        ArrayValueView::DictValue(DictionaryValueView::RawBytes(b)) => spec_canonical_payload(
            l,
            b,
        ),
        ArrayValueView::DictValue(DictionaryValueView::RedactedPresent) => Err(
            ErrorCode::RedactionPolicy,
        ),
        _ => Err(ErrorCode::UnsupportedEncoding),
    }
}

/// A row value as bytes: stored bytes as they are, dictionary values
/// through [`canonical_payload_bytes`].
pub fn value_to_bytes<'b>(logical: CoveLogicalType, value: &'b CoveArrayValue<'b>) -> (res: Result<
    Cow<'b, [u8]>,
    CoveError,
>)
    ensures
        match spec_value_to_bytes(logical, value@) {
            Ok(b) => (res matches Ok(r) && r@ == b),
            Err(c) => fails_with(res, c),
        },
{
    match value {
        CoveArrayValue::Bytes(bytes) => Ok(Cow::Borrowed(bytes)),
        CoveArrayValue::OwnedBytes(bytes) => Ok(Cow::Borrowed(bytes.as_slice())),
        CoveArrayValue::DictValue(DictionaryValue::RawBytes(bytes)) => canonical_payload_bytes(
            logical,
            bytes.as_slice(),
        ),
        CoveArrayValue::DictValue(DictionaryValue::RedactedPresent) => Err(
            CoveError::RedactionPolicy,
        ),
        other => Err(unexpected_value("bytes", other)),
    }
}

} // verus!

verus! {

/// Converting each of the first `n` row values with `f`, nulls as `None`,
/// or the first error.
pub open spec fn collect_values<T>(
    values: Seq<ArrayValueView>,
    f: spec_fn(ArrayValueView) -> Result<T, ErrorCode>,
    n: nat,
) -> Result<Seq<Option<T>>, ErrorCode>
    decreases n,
{
    if n == 0 {
        Ok(Seq::empty())
    } else {
        match collect_values(values, f, (n - 1) as nat) {
            Err(e) => Err(e),
            Ok(prev) => match values[n - 1] {
                ArrayValueView::Null => Ok(prev.push(None)),
                v => match f(v) {
                    Err(e) => Err(e),
                    Ok(x) => Ok(prev.push(Some(x))),
                },
            },
        }
    }
}

pub(crate) proof fn lemma_collect_err_persists<T>(
    values: Seq<ArrayValueView>,
    f: spec_fn(ArrayValueView) -> Result<T, ErrorCode>,
    k: nat,
    n: nat,
)
    requires
        k <= n,
        collect_values(values, f, k) is Err,
    ensures
        collect_values(values, f, n) == collect_values(values, f, k),
    decreases n - k,
{
    if k < n {
        lemma_collect_err_persists(values, f, k, (n - 1) as nat);
    }
}

/// A non-null row value as a boolean.
pub open spec fn spec_value_to_bool(v: ArrayValueView) -> Result<bool, ErrorCode> {
    match v {
        ArrayValueView::Boolean(b) => Ok(b),
        ArrayValueView::ValidityBit(b) => Ok(b),
        ArrayValueView::Bytes(b) => if b.len() == 1 {
            if b[0] == 0 {
                Ok(false)
            } else if b[0] == 1 {
                Ok(true)
            } else {
                Err(ErrorCode::PageCorrupt)
            }
        } else {
            Err(ErrorCode::UnsupportedEncoding)
        },
        _ => Err(ErrorCode::UnsupportedEncoding),
    }
}

/// The row values as optional booleans.
pub fn collect_bool(values: &[CoveArrayValue<'_>]) -> (res: Result<Vec<Option<bool>>, CoveError>)
    ensures
        match collect_values(
            crate::array::values_view(values@),
            |v: ArrayValueView| spec_value_to_bool(v),
            values@.len(),
        ) {
            Ok(vs) => (res matches Ok(out) && out@ == vs),
            Err(c) => fails_with(res, c),
        },
{
    let ghost vals = crate::array::values_view(values@);
    let ghost f = |v: ArrayValueView| spec_value_to_bool(v);
    let mut out: Vec<Option<bool>> = Vec::new();
    let mut i: usize = 0;
    while i < values.len()
        invariant
            i <= values@.len(),
            vals == crate::array::values_view(values@),
            f == (|v: ArrayValueView| spec_value_to_bool(v)),
            collect_values(vals, f, i as nat) == Ok::<Seq<Option<bool>>, ErrorCode>(out@),
        decreases values@.len() - i,
    {
        assert(vals[i as int] == values@[i as int]@);
        let item = match &values[i] {
            CoveArrayValue::Null => None,
            CoveArrayValue::Boolean(b) => Some(*b),
            CoveArrayValue::ValidityBit(b) => Some(*b),
            CoveArrayValue::Bytes(bytes) => {
                if bytes.len() == 1 {
                    if bytes[0] == 0 {
                        Some(false)
                    } else if bytes[0] == 1 {
                        Some(true)
                    } else {
                        proof {
                            lemma_collect_err_persists(vals, f, (i + 1) as nat, values@.len());
                        }
                        return Err(CoveError::PageCorrupt);
                    }
                } else {
                    proof {
                        lemma_collect_err_persists(vals, f, (i + 1) as nat, values@.len());
                    }
                    return Err(unexpected_value("Boolean", &values[i]));
                }
            },
            other => {
                proof {
                    lemma_collect_err_persists(vals, f, (i + 1) as nat, values@.len());
                }
                return Err(unexpected_value("Boolean", other));
            },
        };
        out.push(item);
        i = i + 1;
    }
    Ok(out)
}

/// The row values as optional signed integers under `logical`.
pub fn collect_i64(logical: CoveLogicalType, values: &[CoveArrayValue<'_>]) -> (res: Result<
    Vec<Option<i64>>,
    CoveError,
>)
    ensures
        match collect_values(
            crate::array::values_view(values@),
            |v: ArrayValueView| spec_value_to_i64(logical, v),
            values@.len(),
        ) {
            Ok(vs) => (res matches Ok(out) && out@ == vs),
            Err(c) => fails_with(res, c),
        },
{
    let ghost vals = crate::array::values_view(values@);
    let ghost f = |v: ArrayValueView| spec_value_to_i64(logical, v);
    let mut out: Vec<Option<i64>> = Vec::new();
    let mut i: usize = 0;
    while i < values.len()
        invariant
            i <= values@.len(),
            vals == crate::array::values_view(values@),
            f == (|v: ArrayValueView| spec_value_to_i64(logical, v)),
            collect_values(vals, f, i as nat) == Ok::<Seq<Option<i64>>, ErrorCode>(out@),
        decreases values@.len() - i,
    {
        assert(vals[i as int] == values@[i as int]@);
        let item = match &values[i] {
            CoveArrayValue::Null => None,
            v => match value_to_i64(logical, v) {
                Ok(x) => Some(x),
                Err(e) => {
                    proof {
                        lemma_collect_err_persists(vals, f, (i + 1) as nat, values@.len());
                    }
                    return Err(e);
                },
            },
        };
        out.push(item);
        i = i + 1;
    }
    Ok(out)
}

/// The row values as optional unsigned integers under `logical`.
pub fn collect_u64(logical: CoveLogicalType, values: &[CoveArrayValue<'_>]) -> (res: Result<
    Vec<Option<u64>>,
    CoveError,
>)
    ensures
        match collect_values(
            crate::array::values_view(values@),
            |v: ArrayValueView| spec_value_to_u64(logical, v),
            values@.len(),
        ) {
            Ok(vs) => (res matches Ok(out) && out@ == vs),
            Err(c) => fails_with(res, c),
        },
{
    let ghost vals = crate::array::values_view(values@);
    let ghost f = |v: ArrayValueView| spec_value_to_u64(logical, v);
    let mut out: Vec<Option<u64>> = Vec::new();
    let mut i: usize = 0;
    while i < values.len()
        invariant
            i <= values@.len(),
            vals == crate::array::values_view(values@),
            f == (|v: ArrayValueView| spec_value_to_u64(logical, v)),
            collect_values(vals, f, i as nat) == Ok::<Seq<Option<u64>>, ErrorCode>(out@),
        decreases values@.len() - i,
    {
        assert(vals[i as int] == values@[i as int]@);
        let item = match &values[i] {
            CoveArrayValue::Null => None,
            v => match value_to_u64(logical, v) {
                Ok(x) => Some(x),
                Err(e) => {
                    proof {
                        lemma_collect_err_persists(vals, f, (i + 1) as nat, values@.len());
                    }
                    return Err(e);
                },
            },
        };
        out.push(item);
        i = i + 1;
    }
    Ok(out)
}

/// The row values as optional decimal integers under `logical`.
pub fn collect_i128(logical: CoveLogicalType, values: &[CoveArrayValue<'_>]) -> (res: Result<
    Vec<Option<i128>>,
    CoveError,
>)
    ensures
        match collect_values(
            crate::array::values_view(values@),
            |v: ArrayValueView| spec_value_to_i128(logical, v),
            values@.len(),
        ) {
            Ok(vs) => (res matches Ok(out) && out@ == vs),
            Err(c) => fails_with(res, c),
        },
{
    let ghost vals = crate::array::values_view(values@);
    let ghost f = |v: ArrayValueView| spec_value_to_i128(logical, v);
    let mut out: Vec<Option<i128>> = Vec::new();
    let mut i: usize = 0;
    while i < values.len()
        invariant
            i <= values@.len(),
            vals == crate::array::values_view(values@),
            f == (|v: ArrayValueView| spec_value_to_i128(logical, v)),
            collect_values(vals, f, i as nat) == Ok::<Seq<Option<i128>>, ErrorCode>(out@),
        decreases values@.len() - i,
    {
        assert(vals[i as int] == values@[i as int]@);
        let item = match &values[i] {
            CoveArrayValue::Null => None,
            v => match value_to_i128(logical, v) {
                Ok(x) => Some(x),
                Err(e) => {
                    proof {
                        lemma_collect_err_persists(vals, f, (i + 1) as nat, values@.len());
                    }
                    return Err(e);
                },
            },
        };
        out.push(item);
        i = i + 1;
    }
    Ok(out)
}

} // verus!
