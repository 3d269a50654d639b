//! Decoded row values gathered as the values of one Arrow type.
//!
//! When no direct buffer path applies, an exported column is decoded row by
//! row and its values are gathered here for the Arrow type it exports as:
//! integers are narrowed to the type's range, floats are taken as their
//! stored bits, strings are checked to be UTF-8 and fixed-size binaries to
//! have the declared size. The first row that does not fit is the error.
use std::borrow::Cow;

use vstd::prelude::*;
use vstd::slice::slice_to_vec;
use vstd::utf8::valid_utf8;

use crate::array::{values_view, ArrayValueView, CoveArrayValue};
use crate::arrow_export::{
    collect_bool, collect_i128, collect_values, lemma_collect_err_persists, lemma_small_le_fits,
    plain_bytes, spec_plain_bytes, spec_value_to_bool, spec_value_to_bytes, spec_value_to_i128,
    spec_value_to_i64, spec_value_to_u64, value_to_bytes, value_to_i64, value_to_u64,
};
use crate::arrow_export::{ArrowExportOptions, ArrowExportReport};
use crate::arrow_types::{arrow_data_type_with_report, spec_export_type, ArrowType};
use crate::collation::{le_unsigned, read_unsigned_prefix};
use crate::constants::CoveLogicalType;
use crate::dictionary::{DictionaryValue, FileDictionary};
use crate::error::{fails_with, CoveError, ErrorCode};
use crate::util::{str_from_utf8, text};

verus! {

/// Row values gathered for one Arrow type; `None` marks a null row. Floats
/// are their stored bit patterns.
#[derive(Debug, Clone, PartialEq, Eq)]
pub enum TypedValues {
    Booleans(Vec<Option<bool>>),
    Signed(Vec<Option<i64>>),
    Unsigned(Vec<Option<u64>>),
    FloatBits(Vec<Option<u64>>),
    Bytes(Vec<Option<Vec<u8>>>),
    Decimals(Vec<Option<i128>>),
}

/// The abstract content of [`TypedValues`].
pub enum TypedValuesView {
    Booleans(Seq<Option<bool>>),
    Signed(Seq<Option<i64>>),
    Unsigned(Seq<Option<u64>>),
    FloatBits(Seq<Option<u64>>),
    Bytes(Seq<Option<Seq<u8>>>),
    Decimals(Seq<Option<i128>>),
}

/// The bytes of an optional byte vector.
pub open spec fn opt_bytes_view(o: Option<Vec<u8>>) -> Option<Seq<u8>> {
    match o {
        Some(b) => Some(b@),
        None => None,
    }
}

impl View for TypedValues {
    type V = TypedValuesView;

    open spec fn view(&self) -> TypedValuesView {
        match self {
            TypedValues::Booleans(v) => TypedValuesView::Booleans(v@),
            TypedValues::Signed(v) => TypedValuesView::Signed(v@),
            TypedValues::Unsigned(v) => TypedValuesView::Unsigned(v@),
            TypedValues::FloatBits(v) => TypedValuesView::FloatBits(v@),
            TypedValues::Bytes(v) => TypedValuesView::Bytes(
                v@.map_values(|o: Option<Vec<u8>>| opt_bytes_view(o)),
            ),
            TypedValues::Decimals(v) => TypedValuesView::Decimals(v@),
        }
    }
}

/// A signed value narrowed to `[min, max]`: `PageCorrupt` outside it.
pub open spec fn within_i64(r: Result<i64, ErrorCode>, min: int, max: int) -> Result<i64, ErrorCode> {
    match r {
        Ok(x) => if min <= x <= max {
            Ok(x)
        } else {
            Err(ErrorCode::PageCorrupt)
        },
        Err(e) => Err(e),
    }
}

/// An unsigned value narrowed to `[0, max]`: `PageCorrupt` above it.
pub open spec fn within_u64(r: Result<u64, ErrorCode>, max: int) -> Result<u64, ErrorCode> {
    match r {
        Ok(x) => if x <= max {
            Ok(x)
        } else {
            Err(ErrorCode::PageCorrupt)
        },
        Err(e) => Err(e),
    }
}

/// The bits of a stored float of `width` bytes, little endian:
/// `PageCorrupt` for another length.
pub open spec fn spec_float_bits(v: ArrayValueView, width: nat) -> Result<u64, ErrorCode> {
    match spec_plain_bytes(v) {
        Err(e) => Err(e),
        Ok(b) => if b.len() != width {
            Err(ErrorCode::PageCorrupt)
        } else {
            Ok(le_unsigned(b) as u64)
        },
    }
}

/// A value's bytes checked to be UTF-8: `BadSection` otherwise.
pub open spec fn spec_utf8_value(l: CoveLogicalType, v: ArrayValueView) -> Result<Seq<u8>, ErrorCode> {
    match spec_value_to_bytes(l, v) {
        Err(e) => Err(e),
        Ok(b) => if valid_utf8(b) {
            Ok(b)
        } else {
            Err(ErrorCode::BadSection)
        },
    }
}

/// A value's bytes checked to be `width` long: `PageCorrupt` otherwise.
pub open spec fn spec_sized_value(l: CoveLogicalType, v: ArrayValueView, width: nat) -> Result<
    Seq<u8>,
    ErrorCode,
> {
    match spec_value_to_bytes(l, v) {
        Err(e) => Err(e),
        Ok(b) => if b.len() != width {
            Err(ErrorCode::PageCorrupt)
        } else {
            Ok(b)
        },
    }
}

/// Wraps gathered values of one shape.
pub open spec fn wrap<T>(r: Result<Seq<Option<T>>, ErrorCode>, f: spec_fn(Seq<Option<T>>) -> TypedValuesView) -> Result<
    TypedValuesView,
    ErrorCode,
> {
    match r {
        Ok(v) => Ok(f(v)),
        Err(e) => Err(e),
    }
}

/// Signed values narrowed to `[min, max]`.
pub open spec fn signed_rows(l: CoveLogicalType, values: Seq<ArrayValueView>, min: int, max: int) -> Result<
    TypedValuesView,
    ErrorCode,
> {
    wrap(
        collect_values(values, |v: ArrayValueView| within_i64(spec_value_to_i64(l, v), min, max), values.len()),
        |s: Seq<Option<i64>>| TypedValuesView::Signed(s),
    )
}

/// Unsigned values narrowed to `[0, max]`.
pub open spec fn unsigned_rows(l: CoveLogicalType, values: Seq<ArrayValueView>, max: int) -> Result<
    TypedValuesView,
    ErrorCode,
> {
    wrap(
        collect_values(values, |v: ArrayValueView| within_u64(spec_value_to_u64(l, v), max), values.len()),
        |s: Seq<Option<u64>>| TypedValuesView::Unsigned(s),
    )
}

/// Float bit patterns of `width` bytes.
pub open spec fn float_rows(values: Seq<ArrayValueView>, width: nat) -> Result<TypedValuesView, ErrorCode> {
    wrap(
        collect_values(values, |v: ArrayValueView| spec_float_bits(v, width), values.len()),
        |s: Seq<Option<u64>>| TypedValuesView::FloatBits(s),
    )
}

/// Byte strings, checked to be UTF-8 when `utf8`.
pub open spec fn byte_rows(l: CoveLogicalType, values: Seq<ArrayValueView>, utf8: bool) -> Result<
    TypedValuesView,
    ErrorCode,
> {
    if utf8 {
        wrap(
            collect_values(values, |v: ArrayValueView| spec_utf8_value(l, v), values.len()),
            |s: Seq<Option<Seq<u8>>>| TypedValuesView::Bytes(s),
        )
    } else {
        wrap(
            collect_values(values, |v: ArrayValueView| spec_value_to_bytes(l, v), values.len()),
            |s: Seq<Option<Seq<u8>>>| TypedValuesView::Bytes(s),
        )
    }
}

/// The values of the rows `values` for Arrow type `t`: booleans; integers
/// narrowed to the type's range (dates as 32-bit, timestamps as 64-bit);
/// floats as their bits; strings checked to be UTF-8; binaries as they
/// are; fixed-size binaries of exactly the declared size (a negative size
/// is `PageCorrupt`); decimals as 128-bit integers.
pub open spec fn spec_typed_values(l: CoveLogicalType, values: Seq<ArrayValueView>, t: ArrowType) -> Result<
    TypedValuesView,
    ErrorCode,
> {
    match t {
        ArrowType::Boolean => wrap(
            collect_values(values, |v: ArrayValueView| spec_value_to_bool(v), values.len()),
            |s: Seq<Option<bool>>| TypedValuesView::Booleans(s),
        ),
        ArrowType::Int8 => signed_rows(l, values, -0x80, 0x7f),
        ArrowType::Int16 => signed_rows(l, values, -0x8000, 0x7fff),
        ArrowType::Int32 | ArrowType::Date32 => signed_rows(l, values, -0x8000_0000, 0x7fff_ffff),
        ArrowType::Int64 | ArrowType::TimestampMicros | ArrowType::TimestampNanos => signed_rows(
            l,
            values,
            i64::MIN as int,
            i64::MAX as int,
        ),
        ArrowType::UInt8 => unsigned_rows(l, values, 0xff),
        ArrowType::UInt16 => unsigned_rows(l, values, 0xffff),
        ArrowType::UInt32 => unsigned_rows(l, values, 0xffff_ffff),
        ArrowType::UInt64 => unsigned_rows(l, values, u64::MAX as int),
        ArrowType::Float32 => float_rows(values, 4),
        ArrowType::Float64 => float_rows(values, 8),
        ArrowType::Utf8 | ArrowType::Utf8View => byte_rows(l, values, true),
        ArrowType::Binary | ArrowType::BinaryView => byte_rows(l, values, false),
        ArrowType::FixedSizeBinary(size) => if size < 0 {
            Err(ErrorCode::PageCorrupt)
        } else {
            wrap(
                collect_values(values, |v: ArrayValueView| spec_sized_value(l, v, size as nat), values.len()),
                |s: Seq<Option<Seq<u8>>>| TypedValuesView::Bytes(s),
            )
        },
        ArrowType::Decimal128(_, _) => wrap(
            collect_values(values, |v: ArrayValueView| spec_value_to_i128(l, v), values.len()),
            |s: Seq<Option<i128>>| TypedValuesView::Decimals(s),
        ),
    }
}

fn signed_values_within(
    logical: CoveLogicalType,
    values: &[CoveArrayValue<'_>],
    min: i64,
    max: i64,
) -> (res: Result<Vec<Option<i64>>, CoveError>)
    ensures
        match collect_values(
            values_view(values@),
            |v: ArrayValueView| within_i64(spec_value_to_i64(logical, v), min as int, max as int),
            values@.len(),
        ) {
            Ok(vs) => (res matches Ok(out) && out@ == vs),
            Err(c) => fails_with(res, c),
        },
{
    let ghost vals = values_view(values@);
    let ghost f = |v: ArrayValueView| within_i64(spec_value_to_i64(logical, v), min as int, max as int);
    let mut out: Vec<Option<i64>> = Vec::new();
    let mut i: usize = 0;
    while i < values.len()
        invariant
            i <= values@.len(),
            vals == values_view(values@),
            f == (|v: ArrayValueView| within_i64(spec_value_to_i64(logical, v), min as int, max as int)),
            collect_values(vals, f, i as nat) == Ok::<Seq<Option<i64>>, ErrorCode>(out@),
        decreases values@.len() - i,
    {
        assert(vals[i as int] == values@[i as int]@);
        let item = match &values[i] {
            CoveArrayValue::Null => None,
            v => match value_to_i64(logical, v) {
                Ok(x) => if min <= x && x <= max {
                    Some(x)
                } else {
                    proof {
                        lemma_collect_err_persists(vals, f, (i + 1) as nat, values@.len());
                    }
                    return Err(CoveError::PageCorrupt);
                },
                Err(e) => {
                    proof {
                        lemma_collect_err_persists(vals, f, (i + 1) as nat, values@.len());
                    }
                    return Err(e);
                },
            },
        };
        out.push(item);
        i = i + 1;
    }
    Ok(out)
}

fn unsigned_values_within(logical: CoveLogicalType, values: &[CoveArrayValue<'_>], max: u64) -> (res:
    Result<Vec<Option<u64>>, CoveError>)
    ensures
        match collect_values(
            values_view(values@),
            |v: ArrayValueView| within_u64(spec_value_to_u64(logical, v), max as int),
            values@.len(),
        ) {
            Ok(vs) => (res matches Ok(out) && out@ == vs),
            Err(c) => fails_with(res, c),
        },
{
    let ghost vals = values_view(values@);
    let ghost f = |v: ArrayValueView| within_u64(spec_value_to_u64(logical, v), max as int);
    let mut out: Vec<Option<u64>> = Vec::new();
    let mut i: usize = 0;
    while i < values.len()
        invariant
            i <= values@.len(),
            vals == values_view(values@),
            f == (|v: ArrayValueView| within_u64(spec_value_to_u64(logical, v), max as int)),
            collect_values(vals, f, i as nat) == Ok::<Seq<Option<u64>>, ErrorCode>(out@),
        decreases values@.len() - i,
    {
        assert(vals[i as int] == values@[i as int]@);
        let item = match &values[i] {
            CoveArrayValue::Null => None,
            v => match value_to_u64(logical, v) {
                Ok(x) => if x <= max {
                    Some(x)
                } else {
                    proof {
                        lemma_collect_err_persists(vals, f, (i + 1) as nat, values@.len());
                    }
                    return Err(CoveError::PageCorrupt);
                },
                Err(e) => {
                    proof {
                        lemma_collect_err_persists(vals, f, (i + 1) as nat, values@.len());
                    }
                    return Err(e);
                },
            },
        };
        out.push(item);
        i = i + 1;
    }
    Ok(out)
}

fn float_bit_values(values: &[CoveArrayValue<'_>], width: usize) -> (res: Result<
    Vec<Option<u64>>,
    CoveError,
>)
    requires
        width == 4 || width == 8,
    ensures
        match collect_values(
            values_view(values@),
            |v: ArrayValueView| spec_float_bits(v, width as nat),
            values@.len(),
        ) {
            Ok(vs) => (res matches Ok(out) && out@ == vs),
            Err(c) => fails_with(res, c),
        },
{
    let ghost vals = values_view(values@);
    let ghost f = |v: ArrayValueView| spec_float_bits(v, width as nat);
    let mut out: Vec<Option<u64>> = Vec::new();
    let mut i: usize = 0;
    while i < values.len()
        invariant
            width == 4 || width == 8,
            i <= values@.len(),
            vals == values_view(values@),
            f == (|v: ArrayValueView| spec_float_bits(v, width as nat)),
            collect_values(vals, f, i as nat) == Ok::<Seq<Option<u64>>, ErrorCode>(out@),
        decreases values@.len() - i,
    {
        assert(vals[i as int] == values@[i as int]@);
        let item = match &values[i] {
            CoveArrayValue::Null => None,
            v => match plain_bytes(v) {
                Ok(b) => if b.len() == width {
                    proof {
                        lemma_small_le_fits(b@);
                        assert(b@.subrange(0, width as int) =~= b@);
                    }
                    Some(read_unsigned_prefix(b, width) as u64)
                } else {
                    proof {
                        lemma_collect_err_persists(vals, f, (i + 1) as nat, values@.len());
                    }
                    return Err(CoveError::PageCorrupt);
                },
                Err(e) => {
                    proof {
                        lemma_collect_err_persists(vals, f, (i + 1) as nat, values@.len());
                    }
                    return Err(e);
                },
            },
        };
        out.push(item);
        i = i + 1;
    }
    Ok(out)
}

/// An owned copy of borrowed-or-owned bytes.
fn owned_bytes(b: Cow<'_, [u8]>) -> (res: Vec<u8>)
    ensures
        res@ == b@,
{
    match b {
        Cow::Borrowed(s) => slice_to_vec(s),
        Cow::Owned(v) => v,
    }
}

/// The rows' bytes; each checked to be UTF-8 when `utf8` (for a view
/// type when `view`), and to be `width` long when given.
fn byte_values(
    logical: CoveLogicalType,
    values: &[CoveArrayValue<'_>],
    utf8: bool,
    view: bool,
    width: Option<usize>,
) -> (res: Result<Vec<Option<Vec<u8>>>, CoveError>)
    requires
        !(utf8 && width is Some),
    ensures
        ({
            let f = if utf8 {
                |v: ArrayValueView| spec_utf8_value(logical, v)
            } else {
                match width {
                    Some(w) => |v: ArrayValueView| spec_sized_value(logical, v, w as nat),
                    None => |v: ArrayValueView| spec_value_to_bytes(logical, v),
                }
            };
            match collect_values(values_view(values@), f, values@.len()) {
                Ok(vs) => (res matches Ok(out) && out@.map_values(
                    |o: Option<Vec<u8>>| opt_bytes_view(o),
                ) == vs),
                Err(c) => fails_with(res, c),
            }
        }),
{
    let ghost vals = values_view(values@);
    let ghost f = if utf8 {
        |v: ArrayValueView| spec_utf8_value(logical, v)
    } else {
        match width {
            Some(w) => |v: ArrayValueView| spec_sized_value(logical, v, w as nat),
            None => |v: ArrayValueView| spec_value_to_bytes(logical, v),
        }
    };
    let mut out: Vec<Option<Vec<u8>>> = Vec::new();
    assert(out@.map_values(|o: Option<Vec<u8>>| opt_bytes_view(o)) =~= Seq::empty());
    let mut i: usize = 0;
    while i < values.len()
        invariant
            i <= values@.len(),
            !(utf8 && width is Some),
            vals == values_view(values@),
            f == (if utf8 {
                |v: ArrayValueView| spec_utf8_value(logical, v)
            } else {
                match width {
                    Some(w) => |v: ArrayValueView| spec_sized_value(logical, v, w as nat),
                    None => |v: ArrayValueView| spec_value_to_bytes(logical, v),
                }
            }),
            collect_values(vals, f, i as nat) == Ok::<Seq<Option<Seq<u8>>>, ErrorCode>(
                out@.map_values(|o: Option<Vec<u8>>| opt_bytes_view(o)),
            ),
        decreases values@.len() - i,
    {
        assert(vals[i as int] == values@[i as int]@);
        let item = match &values[i] {
            CoveArrayValue::Null => None,
            v => match value_to_bytes(logical, v) {
                Ok(b) => {
                    let bytes = owned_bytes(b);
                    if utf8 && str_from_utf8(bytes.as_slice()).is_none() {
                        proof {
                            lemma_collect_err_persists(vals, f, (i + 1) as nat, values@.len());
                        }
                        let message = if view {
                            text("Arrow Utf8View export requires valid UTF-8")
                        } else {
                            text("Arrow Utf8 export requires valid UTF-8")
                        };
                        return Err(CoveError::BadSection(message));
                    }
                    match width {
                        Some(w) => if bytes.len() != w {
                            proof {
                                lemma_collect_err_persists(vals, f, (i + 1) as nat, values@.len());
                            }
                            return Err(CoveError::PageCorrupt);
                        },
                        None => {},
                    }
                    Some(bytes)
                },
                Err(e) => {
                    proof {
                        lemma_collect_err_persists(vals, f, (i + 1) as nat, values@.len());
                    }
                    return Err(e);
                },
            },
        };
        let ghost before = out@;
        out.push(item);
        proof {
            assert(out@.map_values(|o: Option<Vec<u8>>| opt_bytes_view(o)) =~= before.map_values(
                |o: Option<Vec<u8>>| opt_bytes_view(o),
            ).push(opt_bytes_view(item)));
        }
        i = i + 1;
    }
    Ok(out)
}

fn wrap_bytes(r: Result<Vec<Option<Vec<u8>>>, CoveError>) -> (res: Result<TypedValues, CoveError>)
    ensures
        match r {
            Ok(v) => res == Ok::<TypedValues, CoveError>(TypedValues::Bytes(v)),
            Err(e) => res == Err::<TypedValues, CoveError>(e),
        },
{
    match r {
        Ok(v) => Ok(TypedValues::Bytes(v)),
        Err(e) => Err(e),
    }
}

/// The values of decoded rows for Arrow type `t` (see
/// [`spec_typed_values`]).
pub fn typed_values(logical: CoveLogicalType, values: &[CoveArrayValue<'_>], t: ArrowType) -> (res:
    Result<TypedValues, CoveError>)
    ensures
        match spec_typed_values(logical, values_view(values@), t) {
            Ok(v) => (res matches Ok(r) && r@ == v),
            Err(c) => fails_with(res, c),
        },
{
    match t {
        ArrowType::Boolean => match collect_bool(values) {
            Ok(v) => Ok(TypedValues::Booleans(v)),
            Err(e) => Err(e),
        },
        ArrowType::Int8 => match signed_values_within(logical, values, -0x80, 0x7f) {
            Ok(v) => Ok(TypedValues::Signed(v)),
            Err(e) => Err(e),
        },
        ArrowType::Int16 => match signed_values_within(logical, values, -0x8000, 0x7fff) {
            Ok(v) => Ok(TypedValues::Signed(v)),
            Err(e) => Err(e),
        },
        ArrowType::Int32 | ArrowType::Date32 => match signed_values_within(
            logical,
            values,
            -0x8000_0000,
            0x7fff_ffff,
        ) {
            Ok(v) => Ok(TypedValues::Signed(v)),
            Err(e) => Err(e),
        },
        ArrowType::Int64 | ArrowType::TimestampMicros | ArrowType::TimestampNanos => match signed_values_within(
            logical,
            values,
            i64::MIN,
            i64::MAX,
        ) {
            Ok(v) => Ok(TypedValues::Signed(v)),
            Err(e) => Err(e),
        },
        ArrowType::UInt8 => match unsigned_values_within(logical, values, 0xff) {
            Ok(v) => Ok(TypedValues::Unsigned(v)),
            Err(e) => Err(e),
        },
        ArrowType::UInt16 => match unsigned_values_within(logical, values, 0xffff) {
            Ok(v) => Ok(TypedValues::Unsigned(v)),
            Err(e) => Err(e),
        },
        ArrowType::UInt32 => match unsigned_values_within(logical, values, 0xffff_ffff) {
            Ok(v) => Ok(TypedValues::Unsigned(v)),
            Err(e) => Err(e),
        },
        ArrowType::UInt64 => match unsigned_values_within(logical, values, u64::MAX) {
            Ok(v) => Ok(TypedValues::Unsigned(v)),
            Err(e) => Err(e),
        },
        ArrowType::Float32 => match float_bit_values(values, 4) {
            Ok(v) => Ok(TypedValues::FloatBits(v)),
            Err(e) => Err(e),
        },
        ArrowType::Float64 => match float_bit_values(values, 8) {
            Ok(v) => Ok(TypedValues::FloatBits(v)),
            Err(e) => Err(e),
        },
        ArrowType::Utf8 => wrap_bytes(byte_values(logical, values, true, false, None)),
        ArrowType::Utf8View => wrap_bytes(byte_values(logical, values, true, true, None)),
        ArrowType::Binary | ArrowType::BinaryView => wrap_bytes(
            byte_values(logical, values, false, false, None),
        ),
        ArrowType::FixedSizeBinary(size) => {
            if size < 0 {
                return Err(CoveError::PageCorrupt);
            }
            wrap_bytes(byte_values(logical, values, false, false, Some(size as usize)))
        },
        ArrowType::Decimal128(_, _) => match collect_i128(logical, values) {
            Ok(v) => Ok(TypedValues::Decimals(v)),
            Err(e) => Err(e),
        },
    }
}

/// The number of addressable entries of a dictionary.
pub open spec fn addressable(entries: Seq<DictionaryValue>) -> nat {
    if entries.len() <= u32::MAX {
        entries.len()
    } else {
        u32::MAX as nat
    }
}

/// A dictionary's addressable entries as row values, in FileCode order.
pub open spec fn dictionary_rows(entries: Seq<DictionaryValue>) -> Seq<ArrayValueView> {
    Seq::new(addressable(entries), |i: int| ArrayValueView::DictValue(entries[i]@))
}

/// The Arrow type and values of a file dictionary's entries for a column of
/// logical type `logical`: the type is the one the column exports as under
/// `options`, and the entries are gathered for it as decoded rows are (see
/// [`spec_typed_values`]). Decimal dictionaries are not exported
/// (`UnsupportedEncoding`).
pub fn dictionary_typed_values(
    logical: CoveLogicalType,
    dictionary: &FileDictionary,
    options: ArrowExportOptions,
) -> (res: Result<(ArrowType, TypedValues), CoveError>)
    ensures
        match spec_export_type(logical, options) {
            None => fails_with(res, ErrorCode::UnsupportedEncoding),
            Some(ArrowType::Decimal128(_, _)) => fails_with(res, ErrorCode::UnsupportedEncoding),
            Some(t) => match spec_typed_values(logical, dictionary_rows(dictionary.entries@), t) {
                Ok(v) => (res matches Ok((rt, r)) && rt == t && r@ == v),
                Err(c) => fails_with(res, c),
            },
        },
{
    let n = dictionary.len();
    let mut rows: Vec<CoveArrayValue<'static>> = Vec::new();
    let mut code: u32 = 0;
    while code < n
        invariant
            n == addressable(dictionary.entries@),
            code <= n,
            rows@.len() == code,
            values_view(rows@) =~= dictionary_rows(dictionary.entries@).subrange(0, code as int),
        decreases n - code,
    {
        let value = match dictionary.decode_value(code) {
            Ok(v) => v,
            Err(e) => return Err(e),
        };
        let ghost before = rows@;
        rows.push(CoveArrayValue::DictValue(value));
        proof {
            let target = dictionary_rows(dictionary.entries@).subrange(0, code + 1);
            assert forall|i: int| 0 <= i < code + 1 implies values_view(rows@)[i] == target[i] by {
                if i < code {
                    assert(rows@[i] == before[i]);
                }
            }
            assert(values_view(rows@) =~= target);
        }
        code = code + 1;
    }
    assert(dictionary_rows(dictionary.entries@).subrange(0, n as int) =~= dictionary_rows(
        dictionary.entries@,
    ));
    let mut report = ArrowExportReport::default();
    let t = match arrow_data_type_with_report(logical, &options, &mut report) {
        Ok(t) => t,
        Err(e) => return Err(e),
    };
    match t {
        ArrowType::Decimal128(_, _) => Err(
            CoveError::UnsupportedEncoding(text("Arrow dictionary export for Decimal128")),
        ),
        _ => match typed_values(logical, rows.as_slice(), t) {
            Ok(v) => Ok((t, v)),
            Err(e) => Err(e),
        },
    }
}

} // verus!
