//! Encoded array decoding: access to individual rows of an encoded column
//! page, one row at a time, all rows at once, or through a page-scoped
//! prepared view.
use vstd::prelude::*;

use crate::constants::{CoveEncodingKind, CoveLogicalType, CovePhysicalKind};
use crate::dictionary::{spec_dictionary_value, DictionaryValue, DictionaryValueView, FileDictionary};
use crate::error::{fails_with, CoveError, ErrorCode};
use crate::util::text;
use crate::validity::{spec_is_null, ValidityBitmap};
use crate::wire::{
    decode_u64_leb128, lemma_u32_roundtrip, lemma_u64_roundtrip, read_range_checked, spec_leb_decode, spec_range,
    spec_read_u32, spec_read_u64, u32_le_bytes, u64_le_bytes,
};
use vstd::slice::slice_to_vec;

verus! {

/// A decoded value from an encoded array row.
#[derive(Debug, Clone, PartialEq)]
#[non_exhaustive]
pub enum CoveArrayValue<'a> {
    /// The row is null.
    Null,
    /// Raw bytes (PlainFixed, Constant, VarBytes, Canonical).
    Bytes(&'a [u8]),
    /// Owned raw bytes decoded from an owned child structure such as a local
    /// codebook.
    OwnedBytes(Vec<u8>),
    /// A decoded LEB128 varint (PlainVarint).
    Varint(u64),
    /// A decoded signed integer from a numeric cascade.
    Int64(i64),
    /// A raw FileCode before dictionary resolution.
    FileCode(u32),
    /// A resolved dictionary value.
    DictValue(DictionaryValue),
    /// A raw NumCode.
    NumCode(u64),
    /// A decoded boolean value.
    Boolean(bool),
    /// The validity bit for this row (Validity-encoded columns).
    ValidityBit(bool),
}

/// The abstract content of a [`CoveArrayValue`].
pub enum ArrayValueView {
    Null,
    Bytes(Seq<u8>),
    OwnedBytes(Seq<u8>),
    Varint(u64),
    Int64(i64),
    FileCode(u32),
    DictValue(DictionaryValueView),
    NumCode(u64),
    Boolean(bool),
    ValidityBit(bool),
}

impl<'a> View for CoveArrayValue<'a> {
    type V = ArrayValueView;

    open spec fn view(&self) -> ArrayValueView {
        match self {
            CoveArrayValue::Null => ArrayValueView::Null,
            CoveArrayValue::Bytes(b) => ArrayValueView::Bytes(b@),
            CoveArrayValue::OwnedBytes(b) => ArrayValueView::OwnedBytes(b@),
            CoveArrayValue::Varint(v) => ArrayValueView::Varint(*v),
            CoveArrayValue::Int64(v) => ArrayValueView::Int64(*v),
            CoveArrayValue::FileCode(v) => ArrayValueView::FileCode(*v),
            CoveArrayValue::DictValue(v) => ArrayValueView::DictValue(v@),
            CoveArrayValue::NumCode(v) => ArrayValueView::NumCode(*v),
            CoveArrayValue::Boolean(v) => ArrayValueView::Boolean(*v),
            CoveArrayValue::ValidityBit(v) => ArrayValueView::ValidityBit(*v),
        }
    }
}

/// The views of a run of decoded values.
pub open spec fn values_view<'a>(vs: Seq<CoveArrayValue<'a>>) -> Seq<ArrayValueView> {
    vs.map_values(|v: CoveArrayValue<'a>| v@)
}

impl<'a> CoveArrayValue<'a> {
    /// A copy of this value.
    pub fn duplicate(&self) -> (res: Self)
        ensures
            res@ == self@,
    {
        match self {
            CoveArrayValue::Null => CoveArrayValue::Null,
            CoveArrayValue::Bytes(b) => CoveArrayValue::Bytes(b),
            CoveArrayValue::OwnedBytes(b) => CoveArrayValue::OwnedBytes(slice_to_vec(b.as_slice())),
            CoveArrayValue::Varint(v) => CoveArrayValue::Varint(*v),
            CoveArrayValue::Int64(v) => CoveArrayValue::Int64(*v),
            CoveArrayValue::FileCode(v) => CoveArrayValue::FileCode(*v),
            CoveArrayValue::DictValue(v) => CoveArrayValue::DictValue(v.duplicate()),
            CoveArrayValue::NumCode(v) => CoveArrayValue::NumCode(*v),
            CoveArrayValue::Boolean(v) => CoveArrayValue::Boolean(*v),
            CoveArrayValue::ValidityBit(v) => CoveArrayValue::ValidityBit(*v),
        }
    }
}

/// A value of a local codebook, before it becomes a row value.
#[derive(Debug, Clone, PartialEq, Eq)]
pub enum LocalCodebookValue {
    FileCode(u32),
    NumCode(u64),
    Boolean(bool),
    VarBytes(Vec<u8>),
}

/// The fixed byte width of a logical type, or `None` for variable-width types.
pub open spec fn spec_fixed_width(logical: CoveLogicalType) -> Option<nat> {
    match logical {
        CoveLogicalType::Bool | CoveLogicalType::Int8 | CoveLogicalType::UInt8 => Some(1),
        CoveLogicalType::Int16 | CoveLogicalType::UInt16 => Some(2),
        CoveLogicalType::Int32
        | CoveLogicalType::UInt32
        | CoveLogicalType::Float32
        | CoveLogicalType::DateDays => Some(4),
        CoveLogicalType::Int64
        | CoveLogicalType::UInt64
        | CoveLogicalType::Float64
        | CoveLogicalType::Decimal64
        | CoveLogicalType::TimestampMicros
        | CoveLogicalType::TimestampNanos => Some(8),
        CoveLogicalType::Decimal128 | CoveLogicalType::Uuid => Some(16),
        _ => None,
    }
}

/// Returns the fixed byte width for a logical type, or `None` for
/// variable-width types.
pub fn logical_type_fixed_width(logical: CoveLogicalType) -> (res: Option<usize>)
    ensures
        match spec_fixed_width(logical) {
            Some(w) => res == Some(w as usize),
            None => res is None,
        },
{
    match logical {
        CoveLogicalType::Bool | CoveLogicalType::Int8 | CoveLogicalType::UInt8 => Some(1),
        CoveLogicalType::Int16 | CoveLogicalType::UInt16 => Some(2),
        CoveLogicalType::Int32
        | CoveLogicalType::UInt32
        | CoveLogicalType::Float32
        | CoveLogicalType::DateDays => Some(4),
        CoveLogicalType::Int64
        | CoveLogicalType::UInt64
        | CoveLogicalType::Float64
        | CoveLogicalType::Decimal64
        | CoveLogicalType::TimestampMicros
        | CoveLogicalType::TimestampNanos => Some(8),
        CoveLogicalType::Decimal128 | CoveLogicalType::Uuid => Some(16),
        _ => None,
    }
}

/// The row count as an in-memory length: `ArithOverflow` when it does not
/// fit in `usize`.
pub fn expected_row_count(row_count: u64) -> (res: Result<usize, CoveError>)
    ensures
        row_count <= usize::MAX ==> res == Ok::<usize, CoveError>(row_count as usize),
        row_count > usize::MAX ==> fails_with(res, ErrorCode::ArithOverflow),
{
    if row_count > usize::MAX as u64 {
        Err(CoveError::ArithOverflow)
    } else {
        Ok(row_count as usize)
    }
}

/// Reads a little-endian `u32` from `bytes` at `offset`.
pub fn read_u32_le(bytes: &[u8], offset: usize) -> (res: Result<u32, CoveError>)
    ensures
        match spec_read_u32(bytes@, offset as int) {
            Ok(v) => res == Ok::<u32, CoveError>(v),
            Err(c) => fails_with(res, c),
        },
{
    crate::wire::read_u32_le(bytes, offset)
}

/// Reads a little-endian `u64` from `bytes` at `offset`.
pub fn read_u64_le(bytes: &[u8], offset: usize) -> (res: Result<u64, CoveError>)
    ensures
        match spec_read_u64(bytes@, offset as int) {
            Ok(v) => res == Ok::<u64, CoveError>(v),
            Err(c) => fails_with(res, c),
        },
{
    crate::wire::read_u64_le(bytes, offset)
}

// ---------------------------------------------------------------------------
// Row positions of variable-width encodings
// ---------------------------------------------------------------------------

/// The position after the first `k` PlainVarint values of `d`.
pub open spec fn varint_pos(d: Seq<u8>, k: nat) -> Result<int, ErrorCode>
    decreases k,
{
    if k == 0 {
        Ok(0)
    } else {
        match varint_pos(d, (k - 1) as nat) {
            Err(e) => Err(e),
            Ok(p) => if p >= d.len() {
                Err(ErrorCode::OffsetRange)
            } else {
                match spec_leb_decode(d.subrange(p, d.len() as int)) {
                    Err(e) => Err(e),
                    Ok((_, c)) => Ok(p + c),
                }
            },
        }
    }
}

/// The position after the first `k` VarBytes values of `d`.
pub open spec fn varbytes_pos(d: Seq<u8>, k: nat) -> Result<int, ErrorCode>
    decreases k,
{
    if k == 0 {
        Ok(0)
    } else {
        match varbytes_pos(d, (k - 1) as nat) {
            Err(e) => Err(e),
            Ok(p) => match spec_read_u32(d, p) {
                Err(e) => Err(e),
                Ok(len) => if p + 4 + len > usize::MAX {
                    Err(ErrorCode::ArithOverflow)
                } else if p + 4 + len > d.len() {
                    Err(ErrorCode::OffsetRange)
                } else {
                    Ok(p + 4 + len)
                },
            },
        }
    }
}

/// The position after the first `k` LEB128-length-prefixed values of `d`.
pub open spec fn prefixed_pos(d: Seq<u8>, k: nat) -> Result<int, ErrorCode>
    decreases k,
{
    if k == 0 {
        Ok(0)
    } else {
        match prefixed_pos(d, (k - 1) as nat) {
            Err(e) => Err(e),
            Ok(p) => match spec_leb_decode(d.subrange(p, d.len() as int)) {
                Err(e) => Err(e),
                Ok((len, c)) => if len > usize::MAX || p + c + len > usize::MAX {
                    Err(ErrorCode::ArithOverflow)
                } else if p + c + len > d.len() {
                    Err(ErrorCode::OffsetRange)
                } else {
                    Ok(p + c + len)
                },
            },
        }
    }
}

proof fn lemma_varint_pos_bounded(d: Seq<u8>, k: nat)
    ensures
        varint_pos(d, k) matches Ok(p) ==> 0 <= p <= d.len(),
    decreases k,
{
    if k > 0 {
        lemma_varint_pos_bounded(d, (k - 1) as nat);
        if let Ok(p) = varint_pos(d, (k - 1) as nat) {
            if p < d.len() {
                crate::wire::lemma_leb_decode_len(d.subrange(p, d.len() as int));
            }
        }
    }
}

proof fn lemma_varbytes_pos_bounded(d: Seq<u8>, k: nat)
    ensures
        varbytes_pos(d, k) matches Ok(p) ==> 0 <= p <= d.len(),
    decreases k,
{
    if k > 0 {
        lemma_varbytes_pos_bounded(d, (k - 1) as nat);
    }
}

proof fn lemma_prefixed_pos_bounded(d: Seq<u8>, k: nat)
    ensures
        prefixed_pos(d, k) matches Ok(p) ==> 0 <= p <= d.len(),
    decreases k,
{
    if k > 0 {
        lemma_prefixed_pos_bounded(d, (k - 1) as nat);
    }
}

// ---------------------------------------------------------------------------
// Row-level semantics
// ---------------------------------------------------------------------------

/// Resolving a FileCode: the raw code without a dictionary, otherwise the
/// dictionary's value.
pub open spec fn spec_resolve_filecode(dictionary: Option<&FileDictionary>, code: u32) -> Result<
    ArrayValueView,
    ErrorCode,
> {
    match dictionary {
        None => Ok(ArrayValueView::FileCode(code)),
        Some(d) => match spec_dictionary_value(d.entries@, code) {
            Ok(v) => Ok(ArrayValueView::DictValue(v)),
            Err(e) => Err(e),
        },
    }
}

/// The `w`-byte slot of row `row` of a fixed-width buffer.
pub open spec fn spec_fixed_slot(d: Seq<u8>, row: u64, w: nat) -> Result<ArrayValueView, ErrorCode> {
    if row * w > usize::MAX {
        Err(ErrorCode::ArithOverflow)
    } else {
        match spec_range(d, row * w, w as int) {
            Ok(s) => Ok(ArrayValueView::Bytes(s)),
            Err(e) => Err(e),
        }
    }
}

/// Row `row` of a PlainVarint buffer.
pub open spec fn spec_varint_row(d: Seq<u8>, row: u64) -> Result<ArrayValueView, ErrorCode> {
    match varint_pos(d, row as nat) {
        Err(e) => Err(e),
        Ok(p) => if p >= d.len() {
            Err(ErrorCode::OffsetRange)
        } else {
            match spec_leb_decode(d.subrange(p, d.len() as int)) {
                Ok((v, _)) => Ok(ArrayValueView::Varint(v)),
                Err(e) => Err(e),
            }
        },
    }
}

/// The value whose length prefix sits at `p` in a VarBytes buffer.
pub open spec fn spec_varbytes_at(d: Seq<u8>, p: int) -> Result<ArrayValueView, ErrorCode> {
    match spec_read_u32(d, p) {
        Err(e) => Err(e),
        Ok(len) => match spec_range(d, p + 4, len as int) {
            Ok(s) => Ok(ArrayValueView::Bytes(s)),
            Err(e) => Err(e),
        },
    }
}

/// Row `row` of a VarBytes buffer.
pub open spec fn spec_varbytes_row(d: Seq<u8>, row: u64) -> Result<ArrayValueView, ErrorCode> {
    match varbytes_pos(d, row as nat) {
        Err(e) => Err(e),
        Ok(p) => spec_varbytes_at(d, p),
    }
}

/// The value whose LEB128 length prefix sits at `p`.
pub open spec fn spec_prefixed_at(d: Seq<u8>, p: int) -> Result<ArrayValueView, ErrorCode> {
    match spec_leb_decode(d.subrange(p, d.len() as int)) {
        Err(e) => Err(e),
        Ok((len, c)) => if len > usize::MAX {
            Err(ErrorCode::ArithOverflow)
        } else {
            match spec_range(d, p + c, len as int) {
                Ok(s) => Ok(ArrayValueView::Bytes(s)),
                Err(e) => Err(e),
            }
        },
    }
}

/// Row `row` of a LEB128-length-prefixed buffer.
pub open spec fn spec_prefixed_row(d: Seq<u8>, row: u64) -> Result<ArrayValueView, ErrorCode> {
    match prefixed_pos(d, row as nat) {
        Err(e) => Err(e),
        Ok(p) => spec_prefixed_at(d, p),
    }
}

/// Whether a logical type is stored length-prefixed under Canonical.
pub open spec fn is_prefixed_logical(l: CoveLogicalType) -> bool {
    l == CoveLogicalType::Utf8 || l == CoveLogicalType::Binary || l == CoveLogicalType::Json
}

/// Whether an encoding is a transform whose page payload must be decoded as
/// a whole.
pub open spec fn is_transform_encoding(e: CoveEncodingKind) -> bool {
    match e {
        CoveEncodingKind::LocalCodebook
        | CoveEncodingKind::Rle
        | CoveEncodingKind::RunEnd
        | CoveEncodingKind::BitPacked
        | CoveEncodingKind::Delta
        | CoveEncodingKind::FrameOfReference
        | CoveEncodingKind::PatchedBase
        | CoveEncodingKind::Sparse => true,
        _ => false,
    }
}

/// A view over an encoded column array.
pub struct EncodedArray<'a> {
    /// Logical type of the column.
    pub logical: CoveLogicalType,
    /// Physical kind of the column.
    pub physical: CovePhysicalKind,
    /// Number of logical rows.
    pub row_count: u64,
    /// Encoding applied to the data buffer.
    pub encoding: CoveEncodingKind,
    /// Optional validity (null) bitmap.
    pub validity: Option<ValidityBitmap<'a>>,
    /// Raw encoded data bytes.
    pub data: &'a [u8],
    /// Optional file dictionary for FileCode resolution.
    pub dictionary: Option<&'a FileDictionary>,
}

impl<'a> EncodedArray<'a> {
    /// Whether `row` is null, or why it cannot be told.
    pub open spec fn spec_null(&self, row: u64) -> Result<bool, ErrorCode> {
        if row >= self.row_count {
            Err(ErrorCode::OffsetRange)
        } else {
            match self.validity {
                Some(bm) => spec_is_null(bm.bytes(), bm.row_count(), row),
                None => Ok(false),
            }
        }
    }

    /// Canonical-encoded row `row`.
    pub open spec fn spec_canonical_row(&self, row: u64) -> Result<ArrayValueView, ErrorCode> {
        let d = self.data@;
        match self.logical {
            CoveLogicalType::Null => Ok(ArrayValueView::Null),
            CoveLogicalType::Bool => Err(ErrorCode::UnsupportedEncoding),
            CoveLogicalType::Utf8 | CoveLogicalType::Binary | CoveLogicalType::Json => {
                spec_prefixed_row(d, row)
            },
            l => match spec_fixed_width(l) {
                Some(w) => spec_fixed_slot(d, row, w),
                None => Err(ErrorCode::UnsupportedEncoding),
            },
        }
    }

    /// Row `row` decoded as present (not null).
    pub open spec fn spec_present(&self, row: u64) -> Result<ArrayValueView, ErrorCode> {
        let d = self.data@;
        match self.encoding {
            CoveEncodingKind::Validity => if row / 8 >= d.len() {
                Err(ErrorCode::OffsetRange)
            } else {
                Ok(ArrayValueView::ValidityBit(crate::validity::bit_at(d, row as int)))
            },
            CoveEncodingKind::Constant => match spec_fixed_width(self.logical) {
                None => Err(ErrorCode::UnsupportedEncoding),
                Some(w) => match spec_range(d, 0, w as int) {
                    Ok(s) => Ok(ArrayValueView::Bytes(s)),
                    Err(e) => Err(e),
                },
            },
            CoveEncodingKind::FileCode => if row * 4 > usize::MAX {
                Err(ErrorCode::ArithOverflow)
            } else {
                match spec_read_u32(d, row * 4) {
                    Err(e) => Err(e),
                    Ok(code) => spec_resolve_filecode(self.dictionary, code),
                }
            },
            CoveEncodingKind::NumCode => if row * 8 > usize::MAX {
                Err(ErrorCode::ArithOverflow)
            } else {
                match spec_read_u64(d, row * 8) {
                    Err(e) => Err(e),
                    Ok(code) => Ok(ArrayValueView::NumCode(code)),
                }
            },
            CoveEncodingKind::PlainFixed => match spec_fixed_width(self.logical) {
                None => Err(ErrorCode::UnsupportedEncoding),
                Some(w) => spec_fixed_slot(d, row, w),
            },
            CoveEncodingKind::PlainVarint => spec_varint_row(d, row),
            CoveEncodingKind::VarBytes => spec_varbytes_row(d, row),
            CoveEncodingKind::Canonical => self.spec_canonical_row(row),
            _ => Err(ErrorCode::UnsupportedEncoding),
        }
    }

    /// Row `row`: `OffsetRange` past the last row, `Null` for a null row,
    /// otherwise the present value.
    pub open spec fn spec_row(&self, row: u64) -> Result<ArrayValueView, ErrorCode> {
        match self.spec_null(row) {
            Err(e) => Err(e),
            Ok(true) => Ok(ArrayValueView::Null),
            Ok(false) => self.spec_present(row),
        }
    }

    /// Constructs a new `EncodedArray`.
    pub fn new(
        logical: CoveLogicalType,
        physical: CovePhysicalKind,
        row_count: u64,
        encoding: CoveEncodingKind,
        validity: Option<ValidityBitmap<'a>>,
        data: &'a [u8],
        dictionary: Option<&'a FileDictionary>,
    ) -> (res: Self)
        ensures
            res.logical == logical,
            res.physical == physical,
            res.row_count == row_count,
            res.encoding == encoding,
            res.validity == validity,
            res.data@ == data@,
            res.dictionary == dictionary,
    {
        EncodedArray { logical, physical, row_count, encoding, validity, data, dictionary }
    }

    /// Returns `true` if the given row is null; without a validity bitmap no
    /// row is null. `OffsetRange` when `row >= row_count`.
    pub fn is_null(&self, row: u64) -> (res: Result<bool, CoveError>)
        ensures
            match self.spec_null(row) {
                Ok(b) => res == Ok::<bool, CoveError>(b),
                Err(c) => fails_with(res, c),
            },
    {
        if row >= self.row_count {
            return Err(CoveError::OffsetRange);
        }
        match &self.validity {
            Some(bm) => bm.is_null(row),
            None => Ok(false),
        }
    }

    /// Decodes the value at `row`: [`CoveArrayValue::Null`] for a null row,
    /// `OffsetRange` when `row >= row_count`, `UnsupportedEncoding` for
    /// encodings that are not standalone row values.
    pub fn decode_row(&self, row: u64) -> (res: Result<CoveArrayValue<'a>, CoveError>)
        ensures
            match self.spec_row(row) {
                Ok(v) => (res matches Ok(r) && r@ == v),
                Err(c) => fails_with(res, c),
            },
    {
        if row >= self.row_count {
            return Err(CoveError::OffsetRange);
        }
        match self.is_null(row) {
            Err(e) => return Err(e),
            Ok(true) => return Ok(CoveArrayValue::Null),
            Ok(false) => {},
        }
        self.decode_present_row(row)
    }

    fn resolve_filecode(&self, code: u32) -> (res: Result<CoveArrayValue<'a>, CoveError>)
        ensures
            match spec_resolve_filecode(self.dictionary, code) {
                Ok(v) => (res matches Ok(r) && r@ == v),
                Err(c) => fails_with(res, c),
            },
    {
        match self.dictionary {
            Some(dict) => match dict.decode_value(code) {
                Ok(val) => Ok(CoveArrayValue::DictValue(val)),
                Err(e) => Err(e),
            },
            None => Ok(CoveArrayValue::FileCode(code)),
        }
    }

    fn fixed_slot(&self, row: u64, w: usize) -> (res: Result<CoveArrayValue<'a>, CoveError>)
        requires
            w >= 1,
        ensures
            match spec_fixed_slot(self.data@, row, w as nat) {
                Ok(v) => (res matches Ok(r) && r@ == v),
                Err(c) => fails_with(res, c),
            },
    {
        if row > usize::MAX as u64 {
            assert(row * w > usize::MAX) by (nonlinear_arith)
                requires
                    row > usize::MAX,
                    w >= 1,
            ;
            return Err(CoveError::ArithOverflow);
        }
        let offset = match (row as usize).checked_mul(w) {
            Some(v) => v,
            None => return Err(CoveError::ArithOverflow),
        };
        match read_range_checked(self.data, offset, w) {
            Ok(slice) => Ok(CoveArrayValue::Bytes(slice)),
            Err(e) => Err(e),
        }
    }

    /// The position after the first `row` PlainVarint values.
    fn scan_varints(&self, row: u64) -> (res: Result<usize, CoveError>)
        ensures
            match varint_pos(self.data@, row as nat) {
                Ok(p) => (res matches Ok(q) && q as int == p),
                Err(c) => fails_with(res, c),
            },
    {
        let data = self.data;
        let mut pos: usize = 0;
        let mut k: u64 = 0;
        while k < row
            invariant
                k <= row,
                data@ == self.data@,
                varint_pos(data@, k as nat) == Ok::<int, ErrorCode>(pos as int),
                pos <= data@.len(),
            decreases row - k,
        {
            if pos >= data.len() {
                proof {
                    assert(varint_pos(data@, (k + 1) as nat) == Err::<int, ErrorCode>(
                        ErrorCode::OffsetRange,
                    ));
                    lemma_varint_err_persists(data@, (k + 1) as nat, row as nat);
                }
                return Err(CoveError::OffsetRange);
            }
            let tail = &data[pos..data.len()];
            let ghost sub = data@.subrange(pos as int, data@.len() as int);
            assert(tail@ =~= sub);
            proof {
                crate::wire::lemma_leb_decode_len(sub);
            }
            let (_value, consumed) = match decode_u64_leb128(tail) {
                Ok(v) => v,
                Err(e) => {
                    proof {
                        assert(varint_pos(data@, (k + 1) as nat) == Err::<int, ErrorCode>(
                            e.code(),
                        ));
                        lemma_varint_err_persists(data@, (k + 1) as nat, row as nat);
                    }
                    return Err(e);
                },
            };
            proof {
                assert(varint_pos(data@, (k + 1) as nat) == Ok::<int, ErrorCode>(
                    pos + consumed,
                ));
            }
            pos = pos + consumed;
            k = k + 1;
        }
        Ok(pos)
    }

    /// The position after the first `row` VarBytes values.
    fn scan_varbytes(&self, row: u64) -> (res: Result<usize, CoveError>)
        ensures
            match varbytes_pos(self.data@, row as nat) {
                Ok(p) => (res matches Ok(q) && q as int == p),
                Err(c) => fails_with(res, c),
            },
    {
        let data = self.data;
        let mut pos: usize = 0;
        let mut k: u64 = 0;
        while k < row
            invariant
                k <= row,
                data@ == self.data@,
                varbytes_pos(data@, k as nat) == Ok::<int, ErrorCode>(pos as int),
                pos <= data@.len(),
            decreases row - k,
        {
            let len = match read_u32_le(data, pos) {
                Ok(v) => v as usize,
                Err(e) => {
                    proof {
                        assert(varbytes_pos(data@, (k + 1) as nat) == Err::<int, ErrorCode>(
                            e.code(),
                        ));
                        lemma_varbytes_err_persists(data@, (k + 1) as nat, row as nat);
                    }
                    return Err(e);
                },
            };
            proof {
                assert(spec_read_u32(data@, pos as int) == Ok::<u32, ErrorCode>(len as u32));
            }
            let next = match pos.checked_add(4) {
                Some(p) => match p.checked_add(len) {
                    Some(q) => q,
                    None => {
                        proof {
                            lemma_varbytes_err_persists(data@, (k + 1) as nat, row as nat);
                        }
                        return Err(CoveError::ArithOverflow);
                    },
                },
                None => {
                    proof {
                        lemma_varbytes_err_persists(data@, (k + 1) as nat, row as nat);
                    }
                    return Err(CoveError::ArithOverflow);
                },
            };
            if next > data.len() {
                proof {
                    lemma_varbytes_err_persists(data@, (k + 1) as nat, row as nat);
                }
                return Err(CoveError::OffsetRange);
            }
            proof {
                assert(varbytes_pos(data@, (k + 1) as nat) == Ok::<int, ErrorCode>(next as int));
            }
            pos = next;
            k = k + 1;
        }
        Ok(pos)
    }

    /// The position after the first `row` length-prefixed values.
    fn scan_prefixed(&self, row: u64) -> (res: Result<usize, CoveError>)
        ensures
            match prefixed_pos(self.data@, row as nat) {
                Ok(p) => (res matches Ok(q) && q as int == p),
                Err(c) => fails_with(res, c),
            },
    {
        let data = self.data;
        let mut pos: usize = 0;
        let mut k: u64 = 0;
        while k < row
            invariant
                k <= row,
                data@ == self.data@,
                prefixed_pos(data@, k as nat) == Ok::<int, ErrorCode>(pos as int),
                pos <= data@.len(),
            decreases row - k,
        {
            let tail = &data[pos..data.len()];
            let ghost sub = data@.subrange(pos as int, data@.len() as int);
            assert(tail@ =~= sub);
            proof {
                crate::wire::lemma_leb_decode_len(sub);
            }
            let (len, consumed) = match decode_u64_leb128(tail) {
                Ok(v) => v,
                Err(e) => {
                    proof {
                        assert(prefixed_pos(data@, (k + 1) as nat) == Err::<int, ErrorCode>(
                            e.code(),
                        ));
                        lemma_prefixed_err_persists(data@, (k + 1) as nat, row as nat);
                    }
                    return Err(e);
                },
            };
            proof {
                assert(spec_leb_decode(sub) == Ok::<(u64, nat), ErrorCode>((len, consumed as nat)));
            }
            if len > usize::MAX as u64 {
                proof {
                    lemma_prefixed_err_persists(data@, (k + 1) as nat, row as nat);
                }
                return Err(CoveError::ArithOverflow);
            }
            let len = len as usize;
            let next = match pos.checked_add(consumed) {
                Some(p) => match p.checked_add(len) {
                    Some(q) => q,
                    None => {
                        proof {
                            lemma_prefixed_err_persists(data@, (k + 1) as nat, row as nat);
                        }
                        return Err(CoveError::ArithOverflow);
                    },
                },
                None => {
                    proof {
                        lemma_prefixed_err_persists(data@, (k + 1) as nat, row as nat);
                    }
                    return Err(CoveError::ArithOverflow);
                },
            };
            if next > data.len() {
                proof {
                    lemma_prefixed_err_persists(data@, (k + 1) as nat, row as nat);
                }
                return Err(CoveError::OffsetRange);
            }
            proof {
                assert(prefixed_pos(data@, (k + 1) as nat) == Ok::<int, ErrorCode>(next as int));
            }
            pos = next;
            k = k + 1;
        }
        Ok(pos)
    }

    fn varint_at(&self, pos: usize) -> (res: Result<CoveArrayValue<'a>, CoveError>)
        requires
            pos <= self.data@.len(),
        ensures
            pos >= self.data@.len() ==> fails_with(res, ErrorCode::OffsetRange),
            pos < self.data@.len() ==> match spec_leb_decode(
                self.data@.subrange(pos as int, self.data@.len() as int),
            ) {
                Ok((v, _)) => (res matches Ok(r) && r@ == ArrayValueView::Varint(v)),
                Err(c) => fails_with(res, c),
            },
    {
        if pos >= self.data.len() {
            return Err(CoveError::OffsetRange);
        }
        let tail = &self.data[pos..self.data.len()];
        assert(tail@ =~= self.data@.subrange(pos as int, self.data@.len() as int));
        match decode_u64_leb128(tail) {
            Ok((value, _consumed)) => Ok(CoveArrayValue::Varint(value)),
            Err(e) => Err(e),
        }
    }

    fn varbytes_at(&self, pos: usize) -> (res: Result<CoveArrayValue<'a>, CoveError>)
        ensures
            match spec_varbytes_at(self.data@, pos as int) {
                Ok(v) => (res matches Ok(r) && r@ == v),
                Err(c) => fails_with(res, c),
            },
    {
        let len = match read_u32_le(self.data, pos) {
            Ok(v) => v as usize,
            Err(e) => return Err(e),
        };
        let data_start = match pos.checked_add(4) {
            Some(v) => v,
            None => return Err(CoveError::ArithOverflow),
        };
        match read_range_checked(self.data, data_start, len) {
            Ok(slice) => Ok(CoveArrayValue::Bytes(slice)),
            Err(e) => Err(e),
        }
    }

    fn prefixed_at(&self, pos: usize) -> (res: Result<CoveArrayValue<'a>, CoveError>)
        requires
            pos <= self.data@.len(),
        ensures
            match spec_prefixed_at(self.data@, pos as int) {
                Ok(v) => (res matches Ok(r) && r@ == v),
                Err(c) => fails_with(res, c),
            },
    {
        let tail = &self.data[pos..self.data.len()];
        let ghost sub = self.data@.subrange(pos as int, self.data@.len() as int);
        assert(tail@ =~= sub);
        proof {
            crate::wire::lemma_leb_decode_len(sub);
        }
        let (len, consumed) = match decode_u64_leb128(tail) {
            Ok(v) => v,
            Err(e) => return Err(e),
        };
        proof {
            assert(spec_leb_decode(sub) == Ok::<(u64, nat), ErrorCode>((len, consumed as nat)));
        }
        if len > usize::MAX as u64 {
            return Err(CoveError::ArithOverflow);
        }
        let len = len as usize;
        let data_start = pos + consumed;
        match read_range_checked(self.data, data_start, len) {
            Ok(slice) => Ok(CoveArrayValue::Bytes(slice)),
            Err(e) => Err(e),
        }
    }

    fn decode_canonical_row(&self, row: u64) -> (res: Result<CoveArrayValue<'a>, CoveError>)
        ensures
            match self.spec_canonical_row(row) {
                Ok(v) => (res matches Ok(r) && r@ == v),
                Err(c) => fails_with(res, c),
            },
    {
        match self.logical {
            CoveLogicalType::Null => Ok(CoveArrayValue::Null),
            CoveLogicalType::Bool => Err(
                CoveError::UnsupportedEncoding(
                    text("Canonical Bool rows are tag-only and need an explicit value-tag stream"),
                ),
            ),
            CoveLogicalType::Utf8 | CoveLogicalType::Binary | CoveLogicalType::Json => {
                self.decode_canonical_length_prefixed_row(row)
            },
            logical => match logical_type_fixed_width(logical) {
                Some(w) => self.fixed_slot(row, w),
                None => Err(
                    CoveError::UnsupportedEncoding(text("Canonical row decode unsupported")),
                ),
            },
        }
    }

    fn decode_canonical_length_prefixed_row(&self, row: u64) -> (res: Result<
        CoveArrayValue<'a>,
        CoveError,
    >)
        ensures
            match spec_prefixed_row(self.data@, row) {
                Ok(v) => (res matches Ok(r) && r@ == v),
                Err(c) => fails_with(res, c),
            },
    {
        let pos = match self.scan_prefixed(row) {
            Ok(p) => p,
            Err(e) => return Err(e),
        };
        proof {
            lemma_prefixed_pos_bounded(self.data@, row as nat);
        }
        self.prefixed_at(pos)
    }

    fn validity_bit_row(&self, row: u64) -> (res: Result<CoveArrayValue<'a>, CoveError>)
        ensures
            row / 8 >= self.data@.len() ==> fails_with(res, ErrorCode::OffsetRange),
            row / 8 < self.data@.len() ==> (res matches Ok(r) && r@ == ArrayValueView::ValidityBit(
                crate::validity::bit_at(self.data@, row as int),
            )),
    {
        let byte_idx = row / 8;
        if byte_idx >= self.data.len() as u64 {
            return Err(CoveError::OffsetRange);
        }
        let byte = self.data[byte_idx as usize];
        let bit = (byte >> ((row % 8) as u8)) & 1 == 1;
        Ok(CoveArrayValue::ValidityBit(bit))
    }

    fn constant_row(&self) -> (res: Result<CoveArrayValue<'a>, CoveError>)
        ensures
            match spec_fixed_width(self.logical) {
                None => fails_with(res, ErrorCode::UnsupportedEncoding),
                Some(w) => match spec_range(self.data@, 0, w as int) {
                    Ok(s) => (res matches Ok(r) && r@ == ArrayValueView::Bytes(s)),
                    Err(c) => fails_with(res, c),
                },
            },
    {
        let w = match logical_type_fixed_width(self.logical) {
            Some(w) => w,
            None => {
                return Err(
                    CoveError::UnsupportedEncoding(
                        text("Constant encoding requires a fixed-width logical type"),
                    ),
                )
            },
        };
        match read_range_checked(self.data, 0, w) {
            Ok(slice) => Ok(CoveArrayValue::Bytes(slice)),
            Err(e) => Err(e),
        }
    }

    fn filecode_row(&self, row: u64) -> (res: Result<CoveArrayValue<'a>, CoveError>)
        ensures
            row * 4 > usize::MAX ==> fails_with(res, ErrorCode::ArithOverflow),
            row * 4 <= usize::MAX ==> match spec_read_u32(self.data@, row * 4) {
                Err(c) => fails_with(res, c),
                Ok(code) => match spec_resolve_filecode(self.dictionary, code) {
                    Ok(v) => (res matches Ok(r) && r@ == v),
                    Err(c) => fails_with(res, c),
                },
            },
    {
        if row > (usize::MAX / 4) as u64 {
            return Err(CoveError::ArithOverflow);
        }
        let offset = (row as usize) * 4;
        assert(offset as int == row * 4);
        let code = match read_u32_le(self.data, offset) {
            Ok(c) => c,
            Err(e) => return Err(e),
        };
        self.resolve_filecode(code)
    }

    fn numcode_row(&self, row: u64) -> (res: Result<CoveArrayValue<'a>, CoveError>)
        ensures
            row * 8 > usize::MAX ==> fails_with(res, ErrorCode::ArithOverflow),
            row * 8 <= usize::MAX ==> match spec_read_u64(self.data@, row * 8) {
                Err(c) => fails_with(res, c),
                Ok(code) => (res matches Ok(r) && r@ == ArrayValueView::NumCode(code)),
            },
    {
        if row > (usize::MAX / 8) as u64 {
            return Err(CoveError::ArithOverflow);
        }
        let offset = (row as usize) * 8;
        assert(offset as int == row * 8);
        match read_u64_le(self.data, offset) {
            Ok(code) => Ok(CoveArrayValue::NumCode(code)),
            Err(e) => Err(e),
        }
    }

    fn decode_present_row(&self, row: u64) -> (res: Result<CoveArrayValue<'a>, CoveError>)
        ensures
            match self.spec_present(row) {
                Ok(v) => (res matches Ok(r) && r@ == v),
                Err(c) => fails_with(res, c),
            },
    {
        match self.encoding {
            CoveEncodingKind::Validity => self.validity_bit_row(row),
            CoveEncodingKind::Constant => self.constant_row(),
            CoveEncodingKind::FileCode => self.filecode_row(row),
            CoveEncodingKind::NumCode => self.numcode_row(row),
            CoveEncodingKind::PlainFixed => {
                let w = match logical_type_fixed_width(self.logical) {
                    Some(w) => w,
                    None => {
                        return Err(
                            CoveError::UnsupportedEncoding(
                                text("PlainFixed encoding requires a fixed-width logical type"),
                            ),
                        )
                    },
                };
                self.fixed_slot(row, w)
            },
            CoveEncodingKind::PlainVarint => {
                let pos = match self.scan_varints(row) {
                    Ok(p) => p,
                    Err(e) => return Err(e),
                };
                proof {
                    lemma_varint_pos_bounded(self.data@, row as nat);
                }
                self.varint_at(pos)
            },
            CoveEncodingKind::VarBytes => {
                let pos = match self.scan_varbytes(row) {
                    Ok(p) => p,
                    Err(e) => return Err(e),
                };
                self.varbytes_at(pos)
            },
            CoveEncodingKind::Canonical => self.decode_canonical_row(row),
            _ => Err(
                CoveError::UnsupportedEncoding(
                    text("encoding is not decodable as a standalone row value"),
                ),
            ),
        }
    }
}

/// How a bulk decode walks a page: row by row through the scalar path, or
/// with a running position through a variable-width buffer, or by slot.
#[derive(Debug, Clone, Copy, PartialEq, Eq)]
pub enum BulkKind {
    Rows,
    Varint,
    VarBytes,
    Prefixed,
    Fixed(usize),
}

/// `v`, or `Null` when row `r` is null.
pub open spec fn null_or(a: &EncodedArray, r: u64, v: ArrayValueView) -> Result<
    ArrayValueView,
    ErrorCode,
> {
    match a.spec_null(r) {
        Err(e) => Err(e),
        Ok(true) => Ok(ArrayValueView::Null),
        Ok(false) => Ok(v),
    }
}

/// The position of row `r` in a bulk walk.
pub open spec fn bulk_pos(kind: BulkKind, d: Seq<u8>, r: nat) -> Result<int, ErrorCode> {
    match kind {
        BulkKind::Varint => varint_pos(d, r),
        BulkKind::VarBytes => varbytes_pos(d, r),
        BulkKind::Prefixed => prefixed_pos(d, r),
        _ => Ok(0),
    }
}

/// What a bulk walk produces for row `r`: the stored value is read first,
/// then the null bitmap decides between it and `Null`.
pub open spec fn bulk_step(a: &EncodedArray, kind: BulkKind, r: u64) -> Result<
    ArrayValueView,
    ErrorCode,
> {
    let d = a.data@;
    match kind {
        BulkKind::Rows => a.spec_row(r),
        BulkKind::Fixed(w) => match spec_fixed_slot(d, r, w as nat) {
            Err(e) => Err(e),
            Ok(v) => null_or(a, r, v),
        },
        BulkKind::Varint => match varint_pos(d, r as nat) {
            Err(e) => Err(e),
            Ok(p) => if p >= d.len() {
                Err(ErrorCode::OffsetRange)
            } else {
                match spec_leb_decode(d.subrange(p, d.len() as int)) {
                    Err(e) => Err(e),
                    Ok((v, _)) => null_or(a, r, ArrayValueView::Varint(v)),
                }
            },
        },
        BulkKind::VarBytes => match varbytes_pos(d, r as nat) {
            Err(e) => Err(e),
            Ok(p) => match spec_varbytes_at(d, p) {
                Err(e) => Err(e),
                Ok(v) => null_or(a, r, v),
            },
        },
        BulkKind::Prefixed => match prefixed_pos(d, r as nat) {
            Err(e) => Err(e),
            Ok(p) => match spec_prefixed_at(d, p) {
                Err(e) => Err(e),
                Ok(v) => null_or(a, r, v),
            },
        },
    }
}

/// The first `n` rows of a bulk walk, or its first error.
pub open spec fn bulk_rows(a: &EncodedArray, kind: BulkKind, n: nat) -> Result<
    Seq<ArrayValueView>,
    ErrorCode,
>
    decreases n,
{
    if n == 0 {
        Ok(Seq::empty())
    } else {
        match bulk_rows(a, kind, (n - 1) as nat) {
            Err(e) => Err(e),
            Ok(prev) => match bulk_step(a, kind, (n - 1) as u64) {
                Err(e) => Err(e),
                Ok(v) => Ok(prev.push(v)),
            },
        }
    }
}

/// A bulk walk over all rows; `ArithOverflow` when the row count does not
/// fit in memory.
pub open spec fn bulk_all(a: &EncodedArray, kind: BulkKind) -> Result<
    Seq<ArrayValueView>,
    ErrorCode,
> {
    if a.row_count > usize::MAX {
        Err(ErrorCode::ArithOverflow)
    } else {
        bulk_rows(a, kind, a.row_count as nat)
    }
}

impl<'a> EncodedArray<'a> {
    /// Decoding every row at once.
    pub open spec fn spec_all_rows(&self) -> Result<Seq<ArrayValueView>, ErrorCode> {
        match self.encoding {
            CoveEncodingKind::PlainVarint => bulk_all(self, BulkKind::Varint),
            CoveEncodingKind::VarBytes => bulk_all(self, BulkKind::VarBytes),
            CoveEncodingKind::Canonical => match self.logical {
                CoveLogicalType::Null => if self.row_count > usize::MAX {
                    Err(ErrorCode::ArithOverflow)
                } else {
                    Ok(Seq::new(self.row_count as nat, |i: int| ArrayValueView::Null))
                },
                CoveLogicalType::Bool => bulk_all(self, BulkKind::Rows),
                CoveLogicalType::Utf8 | CoveLogicalType::Binary | CoveLogicalType::Json => {
                    bulk_all(self, BulkKind::Prefixed)
                },
                l => match spec_fixed_width(l) {
                    None => Err(ErrorCode::UnsupportedEncoding),
                    Some(w) => bulk_all(self, BulkKind::Fixed(w as usize)),
                },
            },
            e => if is_transform_encoding(e) {
                Err(ErrorCode::UnsupportedEncoding)
            } else {
                bulk_all(self, BulkKind::Rows)
            },
        }
    }

    /// One step of a bulk walk at row `row` whose position is `pos`: the
    /// row's value and the position of the next row.
    fn bulk_step_exec(&self, kind: BulkKind, row: u64, pos: usize) -> (res: Result<
        (CoveArrayValue<'a>, usize),
        CoveError,
    >)
        requires
            row < self.row_count,
            bulk_pos(kind, self.data@, row as nat) == Ok::<int, ErrorCode>(pos as int),
            kind matches BulkKind::Fixed(w) ==> w >= 1,
        ensures
            match bulk_step(self, kind, row) {
                Ok(v) => (res matches Ok((r, next)) && r@ == v && bulk_pos(
                    kind,
                    self.data@,
                    (row + 1) as nat,
                ) == Ok::<int, ErrorCode>(next as int)),
                Err(c) => fails_with(res, c),
            },
    {
        let ghost d = self.data@;
        match kind {
            BulkKind::Rows => match self.decode_row(row) {
                Ok(v) => Ok((v, 0)),
                Err(e) => Err(e),
            },
            BulkKind::Fixed(w) => {
                let v = match self.fixed_slot(row, w) {
                    Ok(v) => v,
                    Err(e) => return Err(e),
                };
                match self.is_null(row) {
                    Err(e) => Err(e),
                    Ok(true) => Ok((CoveArrayValue::Null, 0)),
                    Ok(false) => Ok((v, 0)),
                }
            },
            BulkKind::Varint => {
                proof {
                    lemma_varint_pos_bounded(d, row as nat);
                }
                if pos >= self.data.len() {
                    return Err(CoveError::OffsetRange);
                }
                let tail = &self.data[pos..self.data.len()];
                let ghost sub = d.subrange(pos as int, d.len() as int);
                assert(tail@ =~= sub);
                proof {
                    crate::wire::lemma_leb_decode_len(sub);
                }
                let (value, consumed) = match decode_u64_leb128(tail) {
                    Ok(v) => v,
                    Err(e) => return Err(e),
                };
                assert(spec_leb_decode(sub) == Ok::<(u64, nat), ErrorCode>((value, consumed as nat)));
                let next = pos + consumed;
                match self.is_null(row) {
                    Err(e) => Err(e),
                    Ok(true) => Ok((CoveArrayValue::Null, next)),
                    Ok(false) => Ok((CoveArrayValue::Varint(value), next)),
                }
            },
            BulkKind::VarBytes => {
                proof {
                    lemma_varbytes_pos_bounded(d, row as nat);
                }
                let len = match read_u32_le(self.data, pos) {
                    Ok(v) => v as usize,
                    Err(e) => return Err(e),
                };
                let data_start = match pos.checked_add(4) {
                    Some(v) => v,
                    None => return Err(CoveError::ArithOverflow),
                };
                let slice = match read_range_checked(self.data, data_start, len) {
                    Ok(s) => s,
                    Err(e) => return Err(e),
                };
                let next = data_start + len;
                match self.is_null(row) {
                    Err(e) => Err(e),
                    Ok(true) => Ok((CoveArrayValue::Null, next)),
                    Ok(false) => Ok((CoveArrayValue::Bytes(slice), next)),
                }
            },
            BulkKind::Prefixed => {
                proof {
                    lemma_prefixed_pos_bounded(d, row as nat);
                }
                let tail = &self.data[pos..self.data.len()];
                let ghost sub = d.subrange(pos as int, d.len() as int);
                assert(tail@ =~= sub);
                proof {
                    crate::wire::lemma_leb_decode_len(sub);
                }
                let (len, consumed) = match decode_u64_leb128(tail) {
                    Ok(v) => v,
                    Err(e) => return Err(e),
                };
                assert(spec_leb_decode(sub) == Ok::<(u64, nat), ErrorCode>((len, consumed as nat)));
                if len > usize::MAX as u64 {
                    return Err(CoveError::ArithOverflow);
                }
                let len = len as usize;
                let data_start = pos + consumed;
                let slice = match read_range_checked(self.data, data_start, len) {
                    Ok(s) => s,
                    Err(e) => return Err(e),
                };
                let next = data_start + len;
                match self.is_null(row) {
                    Err(e) => Err(e),
                    Ok(true) => Ok((CoveArrayValue::Null, next)),
                    Ok(false) => Ok((CoveArrayValue::Bytes(slice), next)),
                }
            },
        }
    }

    /// A bulk walk over all rows.
    fn decode_rows_with(&self, kind: BulkKind) -> (res: Result<Vec<CoveArrayValue<'a>>, CoveError>)
        requires
            kind matches BulkKind::Fixed(w) ==> w >= 1,
        ensures
            match bulk_all(self, kind) {
                Ok(vs) => (res matches Ok(out) && values_view(out@) == vs),
                Err(c) => fails_with(res, c),
            },
    {
        match expected_row_count(self.row_count) {
            Ok(_) => {},
            Err(e) => return Err(e),
        }
        let mut out: Vec<CoveArrayValue<'a>> = Vec::new();
        assert(values_view(out@) =~= Seq::<ArrayValueView>::empty());
        let mut pos: usize = 0;
        let mut row: u64 = 0;
        while row < self.row_count
            invariant
                row <= self.row_count,
                self.row_count <= usize::MAX,
                kind matches BulkKind::Fixed(w) ==> w >= 1,
                bulk_pos(kind, self.data@, row as nat) == Ok::<int, ErrorCode>(pos as int),
                bulk_rows(self, kind, row as nat) == Ok::<Seq<ArrayValueView>, ErrorCode>(
                    values_view(out@),
                ),
            decreases self.row_count - row,
        {
            let (value, next) = match self.bulk_step_exec(kind, row, pos) {
                Ok(v) => v,
                Err(e) => {
                    proof {
                        lemma_bulk_err_persists(
                            self,
                            kind,
                            (row + 1) as nat,
                            self.row_count as nat,
                        );
                    }
                    return Err(e);
                },
            };
            let ghost before = values_view(out@);
            out.push(value);
            proof {
                assert(values_view(out@) =~= before.push(value@));
            }
            pos = next;
            row = row + 1;
        }
        Ok(out)
    }

    /// Decodes the full logical row set in row order, reading each page
    /// buffer in one pass.
    pub fn decode_all_rows(&self) -> (res: Result<Vec<CoveArrayValue<'a>>, CoveError>)
        ensures
            match self.spec_all_rows() {
                Ok(vs) => (res matches Ok(out) && values_view(out@) == vs),
                Err(c) => fails_with(res, c),
            },
    {
        match self.encoding {
            CoveEncodingKind::LocalCodebook
            | CoveEncodingKind::Rle
            | CoveEncodingKind::RunEnd
            | CoveEncodingKind::BitPacked
            | CoveEncodingKind::Delta
            | CoveEncodingKind::FrameOfReference
            | CoveEncodingKind::PatchedBase
            | CoveEncodingKind::Sparse => Err(
                CoveError::UnsupportedEncoding(
                    text("transform payload decoding is not available for this page"),
                ),
            ),
            CoveEncodingKind::PlainVarint => self.decode_all_plain_varint_rows(),
            CoveEncodingKind::VarBytes => self.decode_all_varbytes_rows(),
            CoveEncodingKind::Canonical => self.decode_all_canonical_rows(),
            _ => self.collect_rows(),
        }
    }

    /// Every row through the scalar path, nulls as `Null`.
    fn collect_rows(&self) -> (res: Result<Vec<CoveArrayValue<'a>>, CoveError>)
        ensures
            match bulk_all(self, BulkKind::Rows) {
                Ok(vs) => (res matches Ok(out) && values_view(out@) == vs),
                Err(c) => fails_with(res, c),
            },
    {
        self.decode_rows_with(BulkKind::Rows)
    }

    fn decode_all_plain_varint_rows(&self) -> (res: Result<Vec<CoveArrayValue<'a>>, CoveError>)
        ensures
            match bulk_all(self, BulkKind::Varint) {
                Ok(vs) => (res matches Ok(out) && values_view(out@) == vs),
                Err(c) => fails_with(res, c),
            },
    {
        self.decode_rows_with(BulkKind::Varint)
    }

    fn decode_all_varbytes_rows(&self) -> (res: Result<Vec<CoveArrayValue<'a>>, CoveError>)
        ensures
            match bulk_all(self, BulkKind::VarBytes) {
                Ok(vs) => (res matches Ok(out) && values_view(out@) == vs),
                Err(c) => fails_with(res, c),
            },
    {
        self.decode_rows_with(BulkKind::VarBytes)
    }

    fn decode_all_canonical_length_prefixed_rows(&self) -> (res: Result<
        Vec<CoveArrayValue<'a>>,
        CoveError,
    >)
        ensures
            match bulk_all(self, BulkKind::Prefixed) {
                Ok(vs) => (res matches Ok(out) && values_view(out@) == vs),
                Err(c) => fails_with(res, c),
            },
    {
        self.decode_rows_with(BulkKind::Prefixed)
    }

    fn decode_all_canonical_rows(&self) -> (res: Result<Vec<CoveArrayValue<'a>>, CoveError>)
        requires
            self.encoding == CoveEncodingKind::Canonical,
        ensures
            match self.spec_all_rows() {
                Ok(vs) => (res matches Ok(out) && values_view(out@) == vs),
                Err(c) => fails_with(res, c),
            },
    {
        match self.logical {
            CoveLogicalType::Null => {
                let n = match expected_row_count(self.row_count) {
                    Ok(n) => n,
                    Err(e) => return Err(e),
                };
                let mut out: Vec<CoveArrayValue<'a>> = Vec::new();
                let mut i: usize = 0;
                while i < n
                    invariant
                        i <= n,
                        out@.len() == i,
                        forall|k: int| 0 <= k < i ==> out@[k] == CoveArrayValue::<'a>::Null,
                    decreases n - i,
                {
                    out.push(CoveArrayValue::Null);
                    i = i + 1;
                }
                assert(values_view(out@) =~= Seq::new(
                    self.row_count as nat,
                    |i: int| ArrayValueView::Null,
                ));
                Ok(out)
            },
            CoveLogicalType::Bool => self.collect_rows(),
            CoveLogicalType::Utf8 | CoveLogicalType::Binary | CoveLogicalType::Json => {
                self.decode_all_canonical_length_prefixed_rows()
            },
            logical => match logical_type_fixed_width(logical) {
                Some(w) => self.decode_rows_with(BulkKind::Fixed(w)),
                None => Err(
                    CoveError::UnsupportedEncoding(text("Canonical row decode unsupported")),
                ),
            },
        }
    }
}

proof fn lemma_bulk_err_persists(a: &EncodedArray, kind: BulkKind, k: nat, n: nat)
    requires
        k <= n,
        bulk_rows(a, kind, k) is Err,
    ensures
        bulk_rows(a, kind, n) == bulk_rows(a, kind, k),
    decreases n - k,
{
    if k < n {
        lemma_bulk_err_persists(a, kind, k, (n - 1) as nat);
    }
}

pub(crate) proof fn lemma_varint_err_persists(d: Seq<u8>, k: nat, n: nat)
    requires
        k <= n,
        varint_pos(d, k) is Err,
    ensures
        varint_pos(d, n) == varint_pos(d, k),
    decreases n - k,
{
    if k < n {
        lemma_varint_err_persists(d, k, (n - 1) as nat);
    }
}

proof fn lemma_varbytes_err_persists(d: Seq<u8>, k: nat, n: nat)
    requires
        k <= n,
        varbytes_pos(d, k) is Err,
    ensures
        varbytes_pos(d, n) == varbytes_pos(d, k),
    decreases n - k,
{
    if k < n {
        lemma_varbytes_err_persists(d, k, (n - 1) as nat);
    }
}

proof fn lemma_prefixed_err_persists(d: Seq<u8>, k: nat, n: nat)
    requires
        k <= n,
        prefixed_pos(d, k) is Err,
    ensures
        prefixed_pos(d, n) == prefixed_pos(d, k),
    decreases n - k,
{
    if k < n {
        lemma_prefixed_err_persists(d, k, (n - 1) as nat);
    }
}

/// A NumCode page holds one little-endian code per row: when its bytes are
/// the codes of `codes` back to back, every present row decodes to its own
/// code.
pub proof fn lemma_numcode_row_reads_its_code(a: &EncodedArray, codes: Seq<u64>, row: u64)
    requires
        a.encoding == CoveEncodingKind::NumCode,
        row < codes.len(),
        a.data@.len() == 8 * codes.len(),
        8 * codes.len() <= usize::MAX,
        forall|i: int|
            0 <= i < codes.len() ==> #[trigger] a.data@.subrange(8 * i, 8 * i + 8) == u64_le_bytes(
                codes[i],
            ),
        a.spec_null(row) == Ok::<bool, ErrorCode>(false),
    ensures
        a.spec_row(row) == Ok::<ArrayValueView, ErrorCode>(ArrayValueView::NumCode(codes[row as int])),
{
    let r = row as int;
    assert(a.data@.subrange(8 * r, 8 * r + 8) == u64_le_bytes(codes[r]));
    assert(8 * r + 8 <= 8 * codes.len());
    lemma_u64_roundtrip(codes[r], a.data@, 8 * r);
}

/// A FileCode page without a dictionary holds one little-endian `u32` code
/// per row: when its bytes are the codes of `codes` back to back, every
/// present row decodes to its own code.
pub proof fn lemma_filecode_row_reads_its_code(a: &EncodedArray, codes: Seq<u32>, row: u64)
    requires
        a.encoding == CoveEncodingKind::FileCode,
        a.dictionary is None,
        row < codes.len(),
        a.data@.len() == 4 * codes.len(),
        4 * codes.len() <= usize::MAX,
        forall|i: int|
            0 <= i < codes.len() ==> #[trigger] a.data@.subrange(4 * i, 4 * i + 4) == u32_le_bytes(
                codes[i],
            ),
        a.spec_null(row) == Ok::<bool, ErrorCode>(false),
    ensures
        a.spec_row(row) == Ok::<ArrayValueView, ErrorCode>(ArrayValueView::FileCode(codes[row as int])),
{
    let r = row as int;
    assert(a.data@.subrange(4 * r, 4 * r + 4) == u32_le_bytes(codes[r]));
    assert(4 * r + 4 <= 4 * codes.len());
    lemma_u32_roundtrip(codes[r], a.data@, 4 * r);
}

/// A PlainFixed page stores its rows in slots of the logical type's width,
/// one after another: a present row whose slot lies inside the page
/// decodes to exactly the bytes of that slot.
pub proof fn lemma_plain_fixed_row_reads_its_slot(a: &EncodedArray, row: u64, w: nat)
    requires
        a.encoding == CoveEncodingKind::PlainFixed,
        spec_fixed_width(a.logical) == Some(w),
        (row + 1) * w <= a.data@.len(),
        a.data@.len() <= usize::MAX,
        a.spec_null(row) == Ok::<bool, ErrorCode>(false),
    ensures
        a.spec_row(row) == Ok::<ArrayValueView, ErrorCode>(
            ArrayValueView::Bytes(a.data@.subrange(row * w, row * w + w)),
        ),
{
    assert((row + 1) * w == row * w + w) by (nonlinear_arith);
}

} // verus!

verus! {

proof fn lemma_bulk_rows_steps(a: &EncodedArray, kind: BulkKind, n: nat)
    ensures
        bulk_rows(a, kind, n) matches Ok(vs) ==> vs.len() == n && forall|r: int|
            0 <= r < n ==> bulk_step(a, kind, r as u64) == Ok::<ArrayValueView, ErrorCode>(
                #[trigger] vs[r],
            ),
    decreases n,
{
    if n > 0 {
        lemma_bulk_rows_steps(a, kind, (n - 1) as nat);
    }
}

proof fn lemma_step_is_row(a: &EncodedArray, kind: BulkKind, r: u64)
    requires
        r < a.row_count,
        bulk_step(a, kind, r) is Ok,
        kind == BulkKind::Varint ==> a.encoding == CoveEncodingKind::PlainVarint,
        kind == BulkKind::VarBytes ==> a.encoding == CoveEncodingKind::VarBytes,
        kind == BulkKind::Prefixed ==> a.encoding == CoveEncodingKind::Canonical
            && is_prefixed_logical(a.logical),
        kind matches BulkKind::Fixed(w) ==> a.encoding == CoveEncodingKind::Canonical
            && a.logical != CoveLogicalType::Null && a.logical != CoveLogicalType::Bool
            && !is_prefixed_logical(a.logical) && spec_fixed_width(a.logical) == Some(w as nat),
    ensures
        a.spec_row(r) == bulk_step(a, kind, r),
{
}

/// Decoding all rows at once agrees with decoding them one at a time: when
/// the bulk decode succeeds it yields one value per row; a row marked null
/// there is `Null`, and every row that [`EncodedArray::decode_row`] decodes
/// equals the bulk value. Outside Canonical `Null` columns (which are all
/// nulls in bulk without consulting the bitmap) every row decodes on its own.
pub proof fn lemma_all_rows_match_rows(a: &EncodedArray)
    ensures
        a.spec_all_rows() matches Ok(vs) ==> {
            &&& vs.len() == a.row_count
            &&& forall|r: u64|
                r < a.row_count ==> (#[trigger] a.spec_row(r) matches Ok(x) ==> vs[r as int] == x)
            &&& forall|r: u64|
                r < a.row_count ==> (#[trigger] a.spec_null(r) == Ok::<bool, ErrorCode>(true)
                    ==> vs[r as int] == ArrayValueView::Null)
            &&& !(a.encoding == CoveEncodingKind::Canonical && a.logical == CoveLogicalType::Null)
                ==> forall|r: u64|
                r < a.row_count ==> #[trigger] a.spec_row(r) == Ok::<ArrayValueView, ErrorCode>(
                    vs[r as int],
                )
        },
{
    if let Ok(vs) = a.spec_all_rows() {
        let n = a.row_count as nat;
        let kind = match a.encoding {
            CoveEncodingKind::PlainVarint => BulkKind::Varint,
            CoveEncodingKind::VarBytes => BulkKind::VarBytes,
            CoveEncodingKind::Canonical => match a.logical {
                CoveLogicalType::Utf8 | CoveLogicalType::Binary | CoveLogicalType::Json => {
                    BulkKind::Prefixed
                },
                CoveLogicalType::Bool | CoveLogicalType::Null => BulkKind::Rows,
                l => match spec_fixed_width(l) {
                    Some(w) => BulkKind::Fixed(w as usize),
                    None => BulkKind::Rows,
                },
            },
            _ => BulkKind::Rows,
        };
        if a.encoding == CoveEncodingKind::Canonical && a.logical == CoveLogicalType::Null {
            assert forall|r: u64| r < a.row_count implies (#[trigger] a.spec_row(r) matches Ok(x)
                ==> vs[r as int] == x) by {}
        } else {
            lemma_bulk_rows_steps(a, kind, n);
            assert(bulk_rows(a, kind, n) == Ok::<Seq<ArrayValueView>, ErrorCode>(vs));
            assert forall|r: u64| r < a.row_count implies #[trigger] a.spec_row(r) == Ok::<
                ArrayValueView,
                ErrorCode,
            >(vs[r as int]) by {
                assert(bulk_step(a, kind, r) == Ok::<ArrayValueView, ErrorCode>(vs[r as int]));
                lemma_step_is_row(a, kind, r);
            }
        }
    }
}

} // verus!

verus! {

// ---------------------------------------------------------------------------
// Decoded value mapping
// ---------------------------------------------------------------------------

/// The row value of a decoded integer under a physical kind: a FileCode
/// (resolved when a dictionary is present), a NumCode, a boolean, or the
/// integer itself; `PageCorrupt` when it does not fit the kind.
pub open spec fn spec_value_from_i64(a: &EncodedArray, value: i64) -> Result<
    ArrayValueView,
    ErrorCode,
> {
    match a.physical {
        CovePhysicalKind::FileCode => if value < 0 || value > u32::MAX {
            Err(ErrorCode::PageCorrupt)
        } else {
            spec_resolve_filecode(a.dictionary, value as u32)
        },
        CovePhysicalKind::NumCode => if value < 0 {
            Err(ErrorCode::PageCorrupt)
        } else {
            Ok(ArrayValueView::NumCode(value as u64))
        },
        CovePhysicalKind::Boolean => if value == 0 {
            Ok(ArrayValueView::Boolean(false))
        } else if value == 1 {
            Ok(ArrayValueView::Boolean(true))
        } else {
            Err(ErrorCode::PageCorrupt)
        },
        _ => Ok(ArrayValueView::Int64(value)),
    }
}

/// The row value of a local codebook value.
pub open spec fn spec_value_from_codebook(a: &EncodedArray, value: LocalCodebookValue) -> Result<
    ArrayValueView,
    ErrorCode,
> {
    match value {
        LocalCodebookValue::FileCode(code) => spec_resolve_filecode(a.dictionary, code),
        LocalCodebookValue::NumCode(code) => Ok(ArrayValueView::NumCode(code)),
        LocalCodebookValue::Boolean(b) => Ok(ArrayValueView::Boolean(b)),
        LocalCodebookValue::VarBytes(bytes) => Ok(ArrayValueView::OwnedBytes(bytes@)),
    }
}

/// The first `n` rows built from decoded values through `f`, nulls as
/// `Null`, or the first error.
pub open spec fn rows_from_values<T>(
    a: &EncodedArray,
    values: Seq<T>,
    f: spec_fn(T) -> Result<ArrayValueView, ErrorCode>,
    n: nat,
) -> Result<Seq<ArrayValueView>, ErrorCode>
    decreases n,
{
    if n == 0 {
        Ok(Seq::empty())
    } else {
        match rows_from_values(a, values, f, (n - 1) as nat) {
            Err(e) => Err(e),
            Ok(prev) => match a.spec_null((n - 1) as u64) {
                Err(e) => Err(e),
                Ok(true) => Ok(prev.push(ArrayValueView::Null)),
                Ok(false) => match f(values[n - 1]) {
                    Err(e) => Err(e),
                    Ok(v) => Ok(prev.push(v)),
                },
            },
        }
    }
}

/// Rows built from a page's decoded values: `ArithOverflow` when the row
/// count does not fit in memory, `PageCorrupt` when the count differs.
pub open spec fn spec_rows_from_values<T>(
    a: &EncodedArray,
    values: Seq<T>,
    f: spec_fn(T) -> Result<ArrayValueView, ErrorCode>,
) -> Result<Seq<ArrayValueView>, ErrorCode> {
    if a.row_count > usize::MAX {
        Err(ErrorCode::ArithOverflow)
    } else if values.len() != a.row_count {
        Err(ErrorCode::PageCorrupt)
    } else {
        rows_from_values(a, values, f, values.len())
    }
}

proof fn lemma_rows_from_values_err_persists<T>(
    a: &EncodedArray,
    values: Seq<T>,
    f: spec_fn(T) -> Result<ArrayValueView, ErrorCode>,
    k: nat,
    n: nat,
)
    requires
        k <= n,
        rows_from_values(a, values, f, k) is Err,
    ensures
        rows_from_values(a, values, f, n) == rows_from_values(a, values, f, k),
    decreases n - k,
{
    if k < n {
        lemma_rows_from_values_err_persists(a, values, f, k, (n - 1) as nat);
    }
}

impl<'a> EncodedArray<'a> {
    /// The row value of one decoded integer under this column's physical kind.
    pub fn value_from_i64(&self, value: i64) -> (res: Result<CoveArrayValue<'a>, CoveError>)
        ensures
            match spec_value_from_i64(self, value) {
                Ok(v) => (res matches Ok(r) && r@ == v),
                Err(c) => fails_with(res, c),
            },
    {
        match self.physical {
            CovePhysicalKind::FileCode => {
                if value < 0 || value > u32::MAX as i64 {
                    return Err(CoveError::PageCorrupt);
                }
                self.resolve_filecode(value as u32)
            },
            CovePhysicalKind::NumCode => {
                if value < 0 {
                    return Err(CoveError::PageCorrupt);
                }
                Ok(CoveArrayValue::NumCode(value as u64))
            },
            CovePhysicalKind::Boolean => {
                if value == 0 {
                    Ok(CoveArrayValue::Boolean(false))
                } else if value == 1 {
                    Ok(CoveArrayValue::Boolean(true))
                } else {
                    Err(CoveError::PageCorrupt)
                }
            },
            _ => Ok(CoveArrayValue::Int64(value)),
        }
    }

    /// The row value at `row` of a page whose decoded integers are `values`.
    pub fn value_from_i64_vec(&self, row: u64, values: Vec<i64>) -> (res: Result<
        CoveArrayValue<'a>,
        CoveError,
    >)
        ensures
            self.row_count > usize::MAX ==> fails_with(res, ErrorCode::ArithOverflow),
            self.row_count <= usize::MAX && values@.len() != self.row_count ==> fails_with(
                res,
                ErrorCode::PageCorrupt,
            ),
            self.row_count <= usize::MAX && values@.len() == self.row_count && row
                >= values@.len() ==> fails_with(res, ErrorCode::PageCorrupt),
            self.row_count <= usize::MAX && values@.len() == self.row_count && row
                < values@.len() ==> match spec_value_from_i64(self, values@[row as int]) {
                Ok(v) => (res matches Ok(r) && r@ == v),
                Err(c) => fails_with(res, c),
            },
    {
        let n = match expected_row_count(self.row_count) {
            Ok(n) => n,
            Err(e) => return Err(e),
        };
        if values.len() != n {
            return Err(CoveError::PageCorrupt);
        }
        if row >= values.len() as u64 {
            return Err(CoveError::PageCorrupt);
        }
        self.value_from_i64(values[row as usize])
    }

    /// The row value of one local codebook value.
    pub fn value_from_local_codebook(&self, value: &LocalCodebookValue) -> (res: Result<
        CoveArrayValue<'a>,
        CoveError,
    >)
        ensures
            match spec_value_from_codebook(self, *value) {
                Ok(v) => (res matches Ok(r) && r@ == v),
                Err(c) => fails_with(res, c),
            },
    {
        match value {
            LocalCodebookValue::FileCode(code) => self.resolve_filecode(*code),
            LocalCodebookValue::NumCode(code) => Ok(CoveArrayValue::NumCode(*code)),
            LocalCodebookValue::Boolean(b) => Ok(CoveArrayValue::Boolean(*b)),
            LocalCodebookValue::VarBytes(bytes) => Ok(
                CoveArrayValue::OwnedBytes(slice_to_vec(bytes.as_slice())),
            ),
        }
    }

    /// All rows of a page whose decoded integers are `values`, nulls as `Null`.
    pub fn values_from_i64_values(&self, values: Vec<i64>) -> (res: Result<
        Vec<CoveArrayValue<'a>>,
        CoveError,
    >)
        ensures
            match spec_rows_from_values(
                self,
                values@,
                |v: i64| spec_value_from_i64(self, v),
            ) {
                Ok(vs) => (res matches Ok(out) && values_view(out@) == vs),
                Err(c) => fails_with(res, c),
            },
    {
        let ghost f = |v: i64| spec_value_from_i64(self, v);
        let n = match expected_row_count(self.row_count) {
            Ok(n) => n,
            Err(e) => return Err(e),
        };
        if values.len() != n {
            return Err(CoveError::PageCorrupt);
        }
        let mut out: Vec<CoveArrayValue<'a>> = Vec::new();
        assert(values_view(out@) =~= Seq::<ArrayValueView>::empty());
        let mut i: usize = 0;
        while i < values.len()
            invariant
                i <= values@.len(),
                values@.len() == self.row_count,
                f == (|v: i64| spec_value_from_i64(self, v)),
                rows_from_values(self, values@, f, i as nat) == Ok::<
                    Seq<ArrayValueView>,
                    ErrorCode,
                >(values_view(out@)),
            decreases values@.len() - i,
        {
            let v = match self.is_null(i as u64) {
                Err(e) => {
                    proof {
                        lemma_rows_from_values_err_persists(
                            self,
                            values@,
                            f,
                            (i + 1) as nat,
                            values@.len(),
                        );
                    }
                    return Err(e);
                },
                Ok(true) => CoveArrayValue::Null,
                Ok(false) => match self.value_from_i64(values[i]) {
                    Ok(v) => v,
                    Err(e) => {
                        proof {
                            lemma_rows_from_values_err_persists(
                                self,
                                values@,
                                f,
                                (i + 1) as nat,
                                values@.len(),
                            );
                        }
                        return Err(e);
                    },
                },
            };
            let ghost before = values_view(out@);
            out.push(v);
            proof {
                assert(values_view(out@) =~= before.push(v@));
            }
            i = i + 1;
        }
        Ok(out)
    }

    /// All rows of a page whose local codebook values are `values`, nulls as
    /// `Null`.
    pub fn values_from_local_codebook_values(&self, values: Vec<LocalCodebookValue>) -> (res:
        Result<Vec<CoveArrayValue<'a>>, CoveError>)
        ensures
            match spec_rows_from_values(
                self,
                values@,
                |v: LocalCodebookValue| spec_value_from_codebook(self, v),
            ) {
                Ok(vs) => (res matches Ok(out) && values_view(out@) == vs),
                Err(c) => fails_with(res, c),
            },
    {
        let ghost f = |v: LocalCodebookValue| spec_value_from_codebook(self, v);
        let n = match expected_row_count(self.row_count) {
            Ok(n) => n,
            Err(e) => return Err(e),
        };
        if values.len() != n {
            return Err(CoveError::PageCorrupt);
        }
        let mut out: Vec<CoveArrayValue<'a>> = Vec::new();
        assert(values_view(out@) =~= Seq::<ArrayValueView>::empty());
        let mut i: usize = 0;
        while i < values.len()
            invariant
                i <= values@.len(),
                values@.len() == self.row_count,
                f == (|v: LocalCodebookValue| spec_value_from_codebook(self, v)),
                rows_from_values(self, values@, f, i as nat) == Ok::<
                    Seq<ArrayValueView>,
                    ErrorCode,
                >(values_view(out@)),
            decreases values@.len() - i,
        {
            let v = match self.is_null(i as u64) {
                Err(e) => {
                    proof {
                        lemma_rows_from_values_err_persists(
                            self,
                            values@,
                            f,
                            (i + 1) as nat,
                            values@.len(),
                        );
                    }
                    return Err(e);
                },
                Ok(true) => CoveArrayValue::Null,
                Ok(false) => match self.value_from_local_codebook(&values[i]) {
                    Ok(v) => v,
                    Err(e) => {
                        proof {
                            lemma_rows_from_values_err_persists(
                                self,
                                values@,
                                f,
                                (i + 1) as nat,
                                values@.len(),
                            );
                        }
                        return Err(e);
                    },
                },
            };
            let ghost before = values_view(out@);
            out.push(v);
            proof {
                assert(values_view(out@) =~= before.push(v@));
            }
            i = i + 1;
        }
        Ok(out)
    }
}

} // verus!

verus! {

// ---------------------------------------------------------------------------
// Page-scoped prepared access
// ---------------------------------------------------------------------------

#[derive(Debug, Clone, Copy, PartialEq, Eq)]
enum VariableOffsetKind {
    PlainVarint,
    VarBytes,
    CanonicalLengthPrefixed,
}

/// The row position function of a variable-width layout.
spec fn offsets_pos(kind: VariableOffsetKind, d: Seq<u8>, k: nat) -> Result<int, ErrorCode> {
    match kind {
        VariableOffsetKind::PlainVarint => varint_pos(d, k),
        VariableOffsetKind::VarBytes => varbytes_pos(d, k),
        VariableOffsetKind::CanonicalLengthPrefixed => prefixed_pos(d, k),
    }
}

/// The start of each row of a variable-width buffer.
#[derive(Debug, Clone, PartialEq, Eq)]
struct VariableOffsets {
    kind: VariableOffsetKind,
    row_offsets: Vec<usize>,
}

impl VariableOffsets {
    /// Whether these are the row starts of the first `n` rows of `d`, all of
    /// which can be stepped over.
    spec fn describes(&self, d: Seq<u8>, n: nat) -> bool {
        &&& self.row_offsets@.len() == n
        &&& offsets_pos(self.kind, d, n) is Ok
        &&& forall|k: int|
            0 <= k < n ==> offsets_pos(self.kind, d, k as nat) == Ok::<int, ErrorCode>(
                #[trigger] self.row_offsets@[k] as int,
            )
    }

    /// Scans `data` once, recording where each of `row_count` rows starts.
    fn scan(kind: VariableOffsetKind, data: &[u8], row_count: u64) -> (res: Result<
        Self,
        CoveError,
    >)
        ensures
            row_count > usize::MAX ==> fails_with(res, ErrorCode::ArithOverflow),
            row_count <= usize::MAX ==> match offsets_pos(kind, data@, row_count as nat) {
                Ok(_) => (res matches Ok(v) && v.kind == kind && v.describes(
                    data@,
                    row_count as nat,
                )),
                Err(c) => fails_with(res, c),
            },
    {
        match expected_row_count(row_count) {
            Ok(_) => {},
            Err(e) => return Err(e),
        }
        let ghost d = data@;
        let mut row_offsets: Vec<usize> = Vec::new();
        let mut pos: usize = 0;
        let mut k: u64 = 0;
        while k < row_count
            invariant
                k <= row_count,
                row_count <= usize::MAX,
                d == data@,
                row_offsets@.len() == k,
                offsets_pos(kind, d, k as nat) == Ok::<int, ErrorCode>(pos as int),
                pos <= d.len(),
                forall|j: int|
                    0 <= j < k ==> offsets_pos(kind, d, j as nat) == Ok::<int, ErrorCode>(
                        #[trigger] row_offsets@[j] as int,
                    ),
            decreases row_count - k,
        {
            row_offsets.push(pos);
            let next = match kind {
                VariableOffsetKind::PlainVarint => {
                    if pos >= data.len() {
                        proof {
                            lemma_varint_err_persists(d, (k + 1) as nat, row_count as nat);
                        }
                        return Err(CoveError::OffsetRange);
                    }
                    let tail = &data[pos..data.len()];
                    let ghost sub = d.subrange(pos as int, d.len() as int);
                    assert(tail@ =~= sub);
                    proof {
                        crate::wire::lemma_leb_decode_len(sub);
                    }
                    let (_value, consumed) = match decode_u64_leb128(tail) {
                        Ok(v) => v,
                        Err(e) => {
                            proof {
                                assert(varint_pos(d, (k + 1) as nat) == Err::<int, ErrorCode>(
                                    e.code(),
                                ));
                                lemma_varint_err_persists(d, (k + 1) as nat, row_count as nat);
                            }
                            return Err(e);
                        },
                    };
                    assert(varint_pos(d, (k + 1) as nat) == Ok::<int, ErrorCode>(pos + consumed));
                    pos + consumed
                },
                VariableOffsetKind::VarBytes => {
                    let len = match read_u32_le(data, pos) {
                        Ok(v) => v as usize,
                        Err(e) => {
                            proof {
                                assert(varbytes_pos(d, (k + 1) as nat) == Err::<int, ErrorCode>(
                                    e.code(),
                                ));
                                lemma_varbytes_err_persists(d, (k + 1) as nat, row_count as nat);
                            }
                            return Err(e);
                        },
                    };
                    let next = match pos.checked_add(4) {
                        Some(p) => match p.checked_add(len) {
                            Some(q) => q,
                            None => {
                                proof {
                                    lemma_varbytes_err_persists(
                                        d,
                                        (k + 1) as nat,
                                        row_count as nat,
                                    );
                                }
                                return Err(CoveError::ArithOverflow);
                            },
                        },
                        None => {
                            proof {
                                lemma_varbytes_err_persists(d, (k + 1) as nat, row_count as nat);
                            }
                            return Err(CoveError::ArithOverflow);
                        },
                    };
                    if next > data.len() {
                        proof {
                            lemma_varbytes_err_persists(d, (k + 1) as nat, row_count as nat);
                        }
                        return Err(CoveError::OffsetRange);
                    }
                    assert(varbytes_pos(d, (k + 1) as nat) == Ok::<int, ErrorCode>(next as int));
                    next
                },
                VariableOffsetKind::CanonicalLengthPrefixed => {
                    let tail = &data[pos..data.len()];
                    let ghost sub = d.subrange(pos as int, d.len() as int);
                    assert(tail@ =~= sub);
                    proof {
                        crate::wire::lemma_leb_decode_len(sub);
                    }
                    let (len, consumed) = match decode_u64_leb128(tail) {
                        Ok(v) => v,
                        Err(e) => {
                            proof {
                                assert(prefixed_pos(d, (k + 1) as nat) == Err::<int, ErrorCode>(
                                    e.code(),
                                ));
                                lemma_prefixed_err_persists(d, (k + 1) as nat, row_count as nat);
                            }
                            return Err(e);
                        },
                    };
                    assert(spec_leb_decode(sub) == Ok::<(u64, nat), ErrorCode>(
                        (len, consumed as nat),
                    ));
                    if len > usize::MAX as u64 {
                        proof {
                            lemma_prefixed_err_persists(d, (k + 1) as nat, row_count as nat);
                        }
                        return Err(CoveError::ArithOverflow);
                    }
                    let len = len as usize;
                    let next = match pos.checked_add(consumed) {
                        Some(p) => match p.checked_add(len) {
                            Some(q) => q,
                            None => {
                                proof {
                                    lemma_prefixed_err_persists(
                                        d,
                                        (k + 1) as nat,
                                        row_count as nat,
                                    );
                                }
                                return Err(CoveError::ArithOverflow);
                            },
                        },
                        None => {
                            proof {
                                lemma_prefixed_err_persists(d, (k + 1) as nat, row_count as nat);
                            }
                            return Err(CoveError::ArithOverflow);
                        },
                    };
                    if next > data.len() {
                        proof {
                            lemma_prefixed_err_persists(d, (k + 1) as nat, row_count as nat);
                        }
                        return Err(CoveError::OffsetRange);
                    }
                    assert(prefixed_pos(d, (k + 1) as nat) == Ok::<int, ErrorCode>(next as int));
                    next
                },
            };
            pos = next;
            k = k + 1;
        }
        Ok(VariableOffsets { kind, row_offsets })
    }

    fn plain_varint(data: &[u8], row_count: u64) -> (res: Result<Self, CoveError>)
        ensures
            row_count > usize::MAX ==> fails_with(res, ErrorCode::ArithOverflow),
            row_count <= usize::MAX ==> match varint_pos(data@, row_count as nat) {
                Ok(_) => (res matches Ok(v) && v.kind == VariableOffsetKind::PlainVarint
                    && v.describes(data@, row_count as nat)),
                Err(c) => fails_with(res, c),
            },
    {
        Self::scan(VariableOffsetKind::PlainVarint, data, row_count)
    }

    fn varbytes(data: &[u8], row_count: u64) -> (res: Result<Self, CoveError>)
        ensures
            row_count > usize::MAX ==> fails_with(res, ErrorCode::ArithOverflow),
            row_count <= usize::MAX ==> match varbytes_pos(data@, row_count as nat) {
                Ok(_) => (res matches Ok(v) && v.kind == VariableOffsetKind::VarBytes
                    && v.describes(data@, row_count as nat)),
                Err(c) => fails_with(res, c),
            },
    {
        Self::scan(VariableOffsetKind::VarBytes, data, row_count)
    }

    fn canonical_length_prefixed(data: &[u8], row_count: u64) -> (res: Result<Self, CoveError>)
        ensures
            row_count > usize::MAX ==> fails_with(res, ErrorCode::ArithOverflow),
            row_count <= usize::MAX ==> match prefixed_pos(data@, row_count as nat) {
                Ok(_) => (res matches Ok(v) && v.kind == VariableOffsetKind::CanonicalLengthPrefixed
                    && v.describes(data@, row_count as nat)),
                Err(c) => fails_with(res, c),
            },
    {
        Self::scan(VariableOffsetKind::CanonicalLengthPrefixed, data, row_count)
    }

    fn offset_for_row(&self, row: u64) -> (res: Result<usize, CoveError>)
        ensures
            row < self.row_offsets@.len() ==> res == Ok::<usize, CoveError>(
                self.row_offsets@[row as int],
            ),
            row >= self.row_offsets@.len() ==> fails_with(res, ErrorCode::OffsetRange),
    {
        if row < self.row_offsets.len() as u64 {
            Ok(self.row_offsets[row as usize])
        } else {
            Err(CoveError::OffsetRange)
        }
    }
}

enum PreparedArrayRepr<'a> {
    Direct,
    VariableOffsets(VariableOffsets),
    DecodedValues(Vec<CoveArrayValue<'a>>),
}

/// Page-scoped prepared access for repeated row reads: variable-width
/// layouts are scanned once, so each row read is direct.
pub struct PreparedEncodedArray<'a> {
    array: &'a EncodedArray<'a>,
    repr: PreparedArrayRepr<'a>,
}

/// Which variable-width layout an array's rows use, if any: PlainVarint
/// (0), VarBytes (1) or LEB128-length-prefixed Canonical (2).
pub open spec fn layout_of(a: &EncodedArray) -> Option<u8> {
    match a.encoding {
        CoveEncodingKind::PlainVarint => Some(0),
        CoveEncodingKind::VarBytes => Some(1),
        CoveEncodingKind::Canonical => if is_prefixed_logical(a.logical) {
            Some(2)
        } else {
            None
        },
        _ => None,
    }
}

spec fn kind_code(k: VariableOffsetKind) -> u8 {
    match k {
        VariableOffsetKind::PlainVarint => 0,
        VariableOffsetKind::VarBytes => 1,
        VariableOffsetKind::CanonicalLengthPrefixed => 2,
    }
}

/// What preparing an array fails with, if anything.
pub open spec fn spec_prepare(a: &EncodedArray) -> Result<(), ErrorCode> {
    let d = a.data@;
    let scanned = |r: Result<int, ErrorCode>|
        if a.row_count > usize::MAX {
            Err(ErrorCode::ArithOverflow)
        } else {
            match r {
                Ok(_) => Ok(()),
                Err(e) => Err(e),
            }
        };
    match layout_of(a) {
        Some(0u8) => scanned(varint_pos(d, a.row_count as nat)),
        Some(1u8) => scanned(varbytes_pos(d, a.row_count as nat)),
        Some(_) => scanned(prefixed_pos(d, a.row_count as nat)),
        None => if is_transform_encoding(a.encoding) {
            match a.spec_all_rows() {
                Ok(_) => Ok(()),
                Err(e) => Err(e),
            }
        } else {
            Ok(())
        },
    }
}

impl<'a> PreparedEncodedArray<'a> {
    #[verifier::type_invariant]
    spec fn wf(self) -> bool {
        match self.repr {
            PreparedArrayRepr::Direct => layout_of(self.array) is None,
            PreparedArrayRepr::VariableOffsets(v) => {
                &&& layout_of(self.array) == Some(kind_code(v.kind))
                &&& v.describes(self.array.data@, self.array.row_count as nat)
            },
            PreparedArrayRepr::DecodedValues(values) => {
                &&& is_transform_encoding(self.array.encoding)
                &&& self.array.spec_all_rows() == Ok::<Seq<ArrayValueView>, ErrorCode>(
                    values_view(values@),
                )
            },
        }
    }

    /// The array this view reads.
    pub closed spec fn spec_array(&self) -> &'a EncodedArray<'a> {
        self.array
    }

    /// Prepares page-scoped access to `array`.
    pub fn new(array: &'a EncodedArray<'a>) -> (res: Result<Self, CoveError>)
        ensures
            match spec_prepare(array) {
                Ok(()) => (res matches Ok(p) && p.spec_array() == array),
                Err(c) => fails_with(res, c),
            },
    {
        let repr = match array.encoding {
            CoveEncodingKind::PlainVarint => {
                match VariableOffsets::plain_varint(array.data, array.row_count) {
                    Ok(v) => PreparedArrayRepr::VariableOffsets(v),
                    Err(e) => return Err(e),
                }
            },
            CoveEncodingKind::VarBytes => {
                match VariableOffsets::varbytes(array.data, array.row_count) {
                    Ok(v) => PreparedArrayRepr::VariableOffsets(v),
                    Err(e) => return Err(e),
                }
            },
            CoveEncodingKind::Canonical if matches!(
                array.logical,
                CoveLogicalType::Utf8 | CoveLogicalType::Binary | CoveLogicalType::Json
            ) => {
                match VariableOffsets::canonical_length_prefixed(array.data, array.row_count) {
                    Ok(v) => PreparedArrayRepr::VariableOffsets(v),
                    Err(e) => return Err(e),
                }
            },
            CoveEncodingKind::LocalCodebook
            | CoveEncodingKind::Rle
            | CoveEncodingKind::RunEnd
            | CoveEncodingKind::BitPacked
            | CoveEncodingKind::Delta
            | CoveEncodingKind::FrameOfReference
            | CoveEncodingKind::PatchedBase
            | CoveEncodingKind::Sparse => match array.decode_all_rows() {
                Ok(values) => PreparedArrayRepr::DecodedValues(values),
                Err(e) => return Err(e),
            },
            _ => PreparedArrayRepr::Direct,
        };
        Ok(PreparedEncodedArray { array, repr })
    }

    /// The array this view reads.
    pub fn array(&self) -> (res: &'a EncodedArray<'a>)
        ensures
            res == self.spec_array(),
    {
        self.array
    }

    /// Decodes `row`; the result is exactly what
    /// [`EncodedArray::decode_row`] gives for that row.
    pub fn decode_row(&self, row: u64) -> (res: Result<CoveArrayValue<'a>, CoveError>)
        ensures
            match self.spec_array().spec_row(row) {
                Ok(v) => (res matches Ok(r) && r@ == v),
                Err(c) => fails_with(res, c),
            },
    {
        proof {
            use_type_invariant(self);
        }
        let array = self.array;
        if row >= array.row_count {
            return Err(CoveError::OffsetRange);
        }
        match &self.repr {
            PreparedArrayRepr::Direct => array.decode_row(row),
            PreparedArrayRepr::DecodedValues(values) => {
                proof {
                    lemma_all_rows_match_rows(array);
                }
                if row < values.len() as u64 {
                    let v = values[row as usize].duplicate();
                    assert(values_view(values@)[row as int] == values@[row as int]@);
                    Ok(v)
                } else {
                    Err(CoveError::OffsetRange)
                }
            },
            PreparedArrayRepr::VariableOffsets(offsets) => {
                match array.is_null(row) {
                    Err(e) => return Err(e),
                    Ok(true) => return Ok(CoveArrayValue::Null),
                    Ok(false) => {},
                }
                let offset = match offsets.offset_for_row(row) {
                    Ok(o) => o,
                    Err(e) => return Err(e),
                };
                assert(offsets_pos(offsets.kind, array.data@, row as nat) == Ok::<int, ErrorCode>(
                    offset as int,
                ));
                match offsets.kind {
                    VariableOffsetKind::PlainVarint => {
                        proof {
                            lemma_varint_pos_bounded(array.data@, row as nat);
                        }
                        array.varint_at(offset)
                    },
                    VariableOffsetKind::VarBytes => array.varbytes_at(offset),
                    VariableOffsetKind::CanonicalLengthPrefixed => {
                        proof {
                            lemma_prefixed_pos_bounded(array.data@, row as nat);
                        }
                        array.prefixed_at(offset)
                    },
                }
            },
        }
    }

    /// Decodes the rows listed in `selected_rows`, in that order.
    pub fn decode_selected_rows(&self, selected_rows: &[u32]) -> (res: Result<
        Vec<CoveArrayValue<'a>>,
        CoveError,
    >)
        ensures
            match spec_selected_rows(self.spec_array(), selected_rows@, selected_rows@.len()) {
                Ok(vs) => (res matches Ok(out) && values_view(out@) == vs),
                Err(c) => fails_with(res, c),
            },
    {
        let ghost a = self.spec_array();
        let mut out: Vec<CoveArrayValue<'a>> = Vec::new();
        assert(values_view(out@) =~= Seq::<ArrayValueView>::empty());
        let mut i: usize = 0;
        while i < selected_rows.len()
            invariant
                i <= selected_rows@.len(),
                a == self.spec_array(),
                spec_selected_rows(a, selected_rows@, i as nat) == Ok::<
                    Seq<ArrayValueView>,
                    ErrorCode,
                >(values_view(out@)),
            decreases selected_rows@.len() - i,
        {
            let v = match self.decode_row(selected_rows[i] as u64) {
                Ok(v) => v,
                Err(e) => {
                    proof {
                        lemma_selected_err_persists(
                            a,
                            selected_rows@,
                            (i + 1) as nat,
                            selected_rows@.len(),
                        );
                    }
                    return Err(e);
                },
            };
            let ghost before = values_view(out@);
            out.push(v);
            proof {
                assert(values_view(out@) =~= before.push(v@));
            }
            i = i + 1;
        }
        Ok(out)
    }

    /// Decodes every row in order through [`Self::decode_row`].
    pub fn decode_all_rows(&self) -> (res: Result<Vec<CoveArrayValue<'a>>, CoveError>)
        ensures
            match bulk_all(self.spec_array(), BulkKind::Rows) {
                Ok(vs) => (res matches Ok(out) && values_view(out@) == vs),
                Err(c) => fails_with(res, c),
            },
    {
        proof {
            use_type_invariant(self);
        }
        let ghost a = self.spec_array();
        match &self.repr {
            PreparedArrayRepr::DecodedValues(values) => {
                proof {
                    assert(false) by {
                        lemma_transform_pages_not_bulk_decodable(a);
                    }
                }
                Err(CoveError::OffsetRange)
            },
            _ => {
                match expected_row_count(self.array.row_count) {
                    Ok(_) => {},
                    Err(e) => return Err(e),
                }
                let mut out: Vec<CoveArrayValue<'a>> = Vec::new();
                assert(values_view(out@) =~= Seq::<ArrayValueView>::empty());
                let mut row: u64 = 0;
                while row < self.array.row_count
                    invariant
                        row <= a.row_count,
                        a.row_count <= usize::MAX,
                        a == self.spec_array(),
                        a.row_count == self.array.row_count,
                        bulk_rows(a, BulkKind::Rows, row as nat) == Ok::<
                            Seq<ArrayValueView>,
                            ErrorCode,
                        >(values_view(out@)),
                    decreases a.row_count - row,
                {
                    let v = match self.decode_row(row) {
                        Ok(v) => v,
                        Err(e) => {
                            proof {
                                assert(bulk_rows(a, BulkKind::Rows, (row + 1) as nat) == Err::<
                                    Seq<ArrayValueView>,
                                    ErrorCode,
                                >(e.code()));
                                lemma_bulk_err_persists(
                                    a,
                                    BulkKind::Rows,
                                    (row + 1) as nat,
                                    a.row_count as nat,
                                );
                            }
                            return Err(e);
                        },
                    };
                    let ghost before = values_view(out@);
                    out.push(v);
                    proof {
                        assert(values_view(out@) =~= before.push(v@));
                    }
                    row = row + 1;
                }
                Ok(out)
            },
        }
    }
}

impl<'a> EncodedArray<'a> {
    /// Prepares page-scoped access for repeated row reads.
    pub fn prepare(&'a self) -> (res: Result<PreparedEncodedArray<'a>, CoveError>)
        ensures
            match spec_prepare(self) {
                Ok(()) => (res matches Ok(p) && p.spec_array() == self),
                Err(c) => fails_with(res, c),
            },
    {
        PreparedEncodedArray::new(self)
    }
}

/// The rows listed in `rows[..n]`, decoded one at a time, or the first error.
pub open spec fn spec_selected_rows(a: &EncodedArray, rows: Seq<u32>, n: nat) -> Result<
    Seq<ArrayValueView>,
    ErrorCode,
>
    decreases n,
{
    if n == 0 {
        Ok(Seq::empty())
    } else {
        match spec_selected_rows(a, rows, (n - 1) as nat) {
            Err(e) => Err(e),
            Ok(prev) => match a.spec_row(rows[n - 1] as u64) {
                Err(e) => Err(e),
                Ok(v) => Ok(prev.push(v)),
            },
        }
    }
}

proof fn lemma_selected_err_persists(a: &EncodedArray, rows: Seq<u32>, k: nat, n: nat)
    requires
        k <= n,
        spec_selected_rows(a, rows, k) is Err,
    ensures
        spec_selected_rows(a, rows, n) == spec_selected_rows(a, rows, k),
    decreases n - k,
{
    if k < n {
        lemma_selected_err_persists(a, rows, k, (n - 1) as nat);
    }
}

/// Transform pages have no bulk decoder here, so they never decode in bulk.
proof fn lemma_transform_pages_not_bulk_decodable(a: &EncodedArray)
    requires
        is_transform_encoding(a.encoding),
    ensures
        a.spec_all_rows() is Err,
{
}

proof fn lemma_rows_ok_walk(a: &EncodedArray, vs: Seq<ArrayValueView>, n: nat)
    requires
        n <= vs.len(),
        n <= u64::MAX,
        forall|r: u64| r < n ==> #[trigger] a.spec_row(r) == Ok::<ArrayValueView, ErrorCode>(
            vs[r as int],
        ),
    ensures
        bulk_rows(a, BulkKind::Rows, n) == Ok::<Seq<ArrayValueView>, ErrorCode>(vs.take(n as int)),
    decreases n,
{
    if n > 0 {
        lemma_rows_ok_walk(a, vs, (n - 1) as nat);
        assert(a.spec_row((n - 1) as u64) == Ok::<ArrayValueView, ErrorCode>(vs[n - 1]));
        assert(vs.take(n - 1).push(vs[n - 1]) =~= vs.take(n as int));
    } else {
        assert(vs.take(0) =~= Seq::<ArrayValueView>::empty());
    }
}

/// Reading all rows through a prepared view gives what the array's own bulk
/// decode gives: whenever the bulk decode succeeds, the prepared read
/// succeeds with the same rows (for a Canonical `Null` column, which is all
/// nulls in bulk without reading its bitmap, when the bitmap can be read for
/// every row); and whenever both succeed they agree.
pub proof fn lemma_prepared_all_rows_match_bulk(a: &EncodedArray)
    ensures
        a.spec_all_rows() is Ok && !(a.encoding == CoveEncodingKind::Canonical && a.logical
            == CoveLogicalType::Null && exists|r: u64|
            r < a.row_count && (#[trigger] a.spec_null(r)) is Err) ==> bulk_all(
            a,
            BulkKind::Rows,
        ) == a.spec_all_rows(),
        a.spec_all_rows() is Ok && bulk_all(a, BulkKind::Rows) is Ok ==> a.spec_all_rows()
            == bulk_all(a, BulkKind::Rows),
{
    lemma_all_rows_match_rows(a);
    if let Ok(vs) = a.spec_all_rows() {
        if let Ok(ws) = bulk_all(a, BulkKind::Rows) {
            lemma_bulk_rows_steps(a, BulkKind::Rows, a.row_count as nat);
            assert forall|r: int| 0 <= r < vs.len() implies vs[r] == ws[r] by {
                assert(bulk_step(a, BulkKind::Rows, r as u64) == Ok::<ArrayValueView, ErrorCode>(
                    ws[r],
                ));
                assert(a.spec_row(r as u64) matches Ok(x) && x == ws[r]);
            }
            assert(vs =~= ws);
        }
        if !(a.encoding == CoveEncodingKind::Canonical && a.logical == CoveLogicalType::Null
            && exists|r: u64| r < a.row_count && (#[trigger] a.spec_null(r)) is Err) {
            assert forall|r: u64| r < a.row_count as nat implies #[trigger] a.spec_row(r) == Ok::<
                ArrayValueView,
                ErrorCode,
            >(vs[r as int]) by {
                if a.encoding == CoveEncodingKind::Canonical && a.logical == CoveLogicalType::Null {
                    assert(a.spec_null(r) is Ok);
                }
            }
            lemma_rows_ok_walk(a, vs, a.row_count as nat);
            assert(vs.take(a.row_count as int) =~= vs);
        }
    }
}

} // verus!
