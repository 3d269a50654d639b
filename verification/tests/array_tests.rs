use cove_core::array::{CoveArrayValue, EncodedArray, LocalCodebookValue};
use cove_core::constants::{CoveEncodingKind, CoveLogicalType, CovePhysicalKind};
use cove_core::dictionary::{DictionaryValue, FileDictionary};
use cove_core::validity::{ValidityBitmap, ValidityBitmapBuilder};
use cove_core::wire::encode_u64_leb128;
use cove_core::CoveError;

fn make_array<'a>(
    logical: CoveLogicalType,
    encoding: CoveEncodingKind,
    row_count: u64,
    data: &'a [u8],
    validity: Option<ValidityBitmap<'a>>,
) -> EncodedArray<'a> {
    EncodedArray::new(
        logical,
        CovePhysicalKind::FixedBytes,
        row_count,
        encoding,
        validity,
        data,
        None,
    )
}

fn make_physical_array<'a>(
    logical: CoveLogicalType,
    physical: CovePhysicalKind,
    encoding: CoveEncodingKind,
    row_count: u64,
    data: &'a [u8],
) -> EncodedArray<'a> {
    EncodedArray::new(logical, physical, row_count, encoding, None, data, None)
}

#[test]
fn filecode_zero_decodes_as_raw_filecode_without_dictionary() {
    let data = 0u32.to_le_bytes();
    let arr = EncodedArray::new(
        CoveLogicalType::UInt64,
        CovePhysicalKind::FileCode,
        1,
        CoveEncodingKind::FileCode,
        None,
        &data,
        None,
    );
    assert_eq!(arr.decode_row(0).unwrap(), CoveArrayValue::FileCode(0));
}

#[test]
fn numcode_zero_decodes_as_ordinary_value() {
    let data = 0u64.to_le_bytes();
    let arr = EncodedArray::new(
        CoveLogicalType::UInt64,
        CovePhysicalKind::NumCode,
        1,
        CoveEncodingKind::NumCode,
        None,
        &data,
        None,
    );
    assert_eq!(arr.decode_row(0).unwrap(), CoveArrayValue::NumCode(0));
}

#[test]
fn null_row_returns_null() {
    let data = 42i32.to_le_bytes();
    let mut builder = ValidityBitmapBuilder::new(1).unwrap();
    builder.set_null(0).unwrap();
    let bitmap_bytes = builder.into_bytes();
    let bm = ValidityBitmap::new(&bitmap_bytes, 1);
    let arr = EncodedArray::new(
        CoveLogicalType::Int32,
        CovePhysicalKind::FixedBytes,
        1,
        CoveEncodingKind::PlainFixed,
        Some(bm),
        &data,
        None,
    );
    assert_eq!(arr.decode_row(0).unwrap(), CoveArrayValue::Null);
}

#[test]
fn out_of_range_row_returns_error() {
    let data = 0i32.to_le_bytes();
    let arr = make_array(CoveLogicalType::Int32, CoveEncodingKind::PlainFixed, 1, &data, None);
    assert_eq!(arr.decode_row(1), Err(CoveError::OffsetRange));
}

#[test]
fn plain_fixed_i32_roundtrip() {
    let v0: i32 = -42;
    let v1: i32 = 1337;
    let mut data = Vec::new();
    data.extend_from_slice(&v0.to_le_bytes());
    data.extend_from_slice(&v1.to_le_bytes());
    let arr = make_array(CoveLogicalType::Int32, CoveEncodingKind::PlainFixed, 2, &data, None);
    assert_eq!(arr.decode_row(0).unwrap(), CoveArrayValue::Bytes(&v0.to_le_bytes()));
    assert_eq!(arr.decode_row(1).unwrap(), CoveArrayValue::Bytes(&v1.to_le_bytes()));
}

#[test]
fn varbytes_decodes_byte_slices() {
    let a = b"hello";
    let b = b"world!!";
    let mut data = Vec::new();
    data.extend_from_slice(&(a.len() as u32).to_le_bytes());
    data.extend_from_slice(a);
    data.extend_from_slice(&(b.len() as u32).to_le_bytes());
    data.extend_from_slice(b);
    let arr = make_array(CoveLogicalType::Binary, CoveEncodingKind::VarBytes, 2, &data, None);
    assert_eq!(arr.decode_row(0).unwrap(), CoveArrayValue::Bytes(a.as_ref()));
    assert_eq!(arr.decode_row(1).unwrap(), CoveArrayValue::Bytes(b.as_ref()));
}

#[test]
fn constant_returns_same_value_for_all_rows() {
    let val: i32 = 99;
    let data = val.to_le_bytes();
    let arr = make_array(CoveLogicalType::Int32, CoveEncodingKind::Constant, 5, &data, None);
    for row in 0..5 {
        assert_eq!(arr.decode_row(row).unwrap(), CoveArrayValue::Bytes(&val.to_le_bytes()));
    }
}

#[test]
fn unsupported_encoding_returns_error() {
    let data = [0u8; 1];
    let arr = make_array(CoveLogicalType::Int32, CoveEncodingKind::Sequence, 1, &data, None);
    assert!(matches!(arr.decode_row(0), Err(CoveError::UnsupportedEncoding(_))));
    let arr2 = make_array(CoveLogicalType::Int32, CoveEncodingKind::Lz4Block, 1, &data, None);
    assert!(matches!(arr2.decode_row(0), Err(CoveError::UnsupportedEncoding(_))));
}

#[test]
fn canonical_decodes_fixed_and_length_prefixed_rows() {
    let first = 42i32.to_le_bytes();
    let second = (-7i32).to_le_bytes();
    let mut fixed = Vec::new();
    fixed.extend_from_slice(&first);
    fixed.extend_from_slice(&second);
    let arr = make_array(CoveLogicalType::Int32, CoveEncodingKind::Canonical, 2, &fixed, None);
    assert_eq!(arr.decode_row(0).unwrap(), CoveArrayValue::Bytes(&first));
    assert_eq!(arr.decode_row(1).unwrap(), CoveArrayValue::Bytes(&second));

    let mut var = Vec::new();
    var.extend_from_slice(&encode_u64_leb128(2));
    var.extend_from_slice(b"hi");
    var.extend_from_slice(&encode_u64_leb128(5));
    var.extend_from_slice(b"there");
    let arr = make_array(CoveLogicalType::Utf8, CoveEncodingKind::Canonical, 2, &var, None);
    assert_eq!(arr.decode_row(0).unwrap(), CoveArrayValue::Bytes(b"hi"));
    assert_eq!(arr.decode_row(1).unwrap(), CoveArrayValue::Bytes(b"there"));
}

#[test]
fn prepared_access_matches_scalar_and_bulk_varint_varbytes_and_canonical() {
    let varint_bytes =
        [encode_u64_leb128(3), encode_u64_leb128(17), encode_u64_leb128(255)].concat();
    let varint =
        make_array(CoveLogicalType::UInt64, CoveEncodingKind::PlainVarint, 3, &varint_bytes, None);
    let prepared = varint.prepare().unwrap();
    assert_eq!(prepared.decode_row(2).unwrap(), varint.decode_row(2).unwrap());
    assert_eq!(
        prepared.decode_selected_rows(&[2, 0]).unwrap(),
        vec![CoveArrayValue::Varint(255), CoveArrayValue::Varint(3)]
    );
    assert_eq!(prepared.decode_all_rows().unwrap(), varint.decode_all_rows().unwrap());

    let mut varbytes_bytes = Vec::new();
    varbytes_bytes.extend_from_slice(&2u32.to_le_bytes());
    varbytes_bytes.extend_from_slice(b"hi");
    varbytes_bytes.extend_from_slice(&5u32.to_le_bytes());
    varbytes_bytes.extend_from_slice(b"there");
    varbytes_bytes.extend_from_slice(&3u32.to_le_bytes());
    varbytes_bytes.extend_from_slice(b"bye");
    let varbytes =
        make_array(CoveLogicalType::Utf8, CoveEncodingKind::VarBytes, 3, &varbytes_bytes, None);
    let prepared = varbytes.prepare().unwrap();
    assert_eq!(prepared.decode_row(1).unwrap(), varbytes.decode_row(1).unwrap());
    assert_eq!(
        prepared.decode_selected_rows(&[1, 2]).unwrap(),
        vec![CoveArrayValue::Bytes(b"there"), CoveArrayValue::Bytes(b"bye")]
    );
    assert_eq!(prepared.decode_all_rows().unwrap(), varbytes.decode_all_rows().unwrap());

    let mut canonical_bytes = Vec::new();
    canonical_bytes.extend_from_slice(&encode_u64_leb128(2));
    canonical_bytes.extend_from_slice(b"hi");
    canonical_bytes.extend_from_slice(&encode_u64_leb128(5));
    canonical_bytes.extend_from_slice(b"there");
    let canonical =
        make_array(CoveLogicalType::Utf8, CoveEncodingKind::Canonical, 2, &canonical_bytes, None);
    let prepared = canonical.prepare().unwrap();
    assert_eq!(prepared.decode_row(1).unwrap(), canonical.decode_row(1).unwrap());
    assert_eq!(
        prepared.decode_selected_rows(&[1]).unwrap(),
        vec![CoveArrayValue::Bytes(b"there")]
    );
    assert_eq!(prepared.decode_all_rows().unwrap(), canonical.decode_all_rows().unwrap());
}

#[test]
fn filecode_out_of_range_fails() {
    // A dictionary with one entry (FileCode 0 only): the canonical UTF-8
    // value "foo" (varint length prefix + bytes).
    let dict = FileDictionary::new(vec![DictionaryValue::RawBytes(vec![0x03, b'f', b'o', b'o'])]);
    let mut data = Vec::new();
    data.extend_from_slice(&0u32.to_le_bytes());
    data.extend_from_slice(&1u32.to_le_bytes());
    let arr = EncodedArray::new(
        CoveLogicalType::Utf8,
        CovePhysicalKind::FileCode,
        2,
        CoveEncodingKind::FileCode,
        None,
        &data,
        Some(&dict),
    );
    assert!(arr.decode_row(0).is_ok());
    assert_eq!(arr.decode_row(1), Err(CoveError::BadFileCode));
}

#[test]
fn filecode_resolves_through_dictionary() {
    let dict = FileDictionary::new(vec![
        DictionaryValue::RawBytes(b"red".to_vec()),
        DictionaryValue::RedactedPresent,
    ]);
    let data = [1u32.to_le_bytes(), 0u32.to_le_bytes()].concat();
    let arr = EncodedArray::new(
        CoveLogicalType::Utf8,
        CovePhysicalKind::FileCode,
        2,
        CoveEncodingKind::FileCode,
        None,
        &data,
        Some(&dict),
    );
    assert_eq!(
        arr.decode_row(0).unwrap(),
        CoveArrayValue::DictValue(DictionaryValue::RedactedPresent)
    );
    assert_eq!(
        arr.decode_row(1).unwrap(),
        CoveArrayValue::DictValue(DictionaryValue::RawBytes(b"red".to_vec()))
    );
}

#[test]
fn validity_encoding_reads_bits_lsb_first() {
    let data = [0b0000_0101u8];
    let arr = make_array(CoveLogicalType::Bool, CoveEncodingKind::Validity, 8, &data, None);
    assert_eq!(arr.decode_row(0).unwrap(), CoveArrayValue::ValidityBit(true));
    assert_eq!(arr.decode_row(1).unwrap(), CoveArrayValue::ValidityBit(false));
    assert_eq!(arr.decode_row(2).unwrap(), CoveArrayValue::ValidityBit(true));
}

#[test]
fn truncated_varbytes_row_is_offset_range() {
    let mut data = Vec::new();
    data.extend_from_slice(&10u32.to_le_bytes());
    data.extend_from_slice(b"abc");
    let arr = make_array(CoveLogicalType::Binary, CoveEncodingKind::VarBytes, 1, &data, None);
    assert_eq!(arr.decode_row(0), Err(CoveError::OffsetRange));
    assert_eq!(arr.decode_all_rows(), Err(CoveError::OffsetRange));
    assert!(arr.prepare().is_err());
}

#[test]
fn bulk_decode_marks_null_rows() {
    let data = [encode_u64_leb128(7), encode_u64_leb128(8)].concat();
    let mut builder = ValidityBitmapBuilder::new(2).unwrap();
    builder.set_null(1).unwrap();
    let bits = builder.into_bytes();
    let arr = make_array(
        CoveLogicalType::UInt64,
        CoveEncodingKind::PlainVarint,
        2,
        &data,
        Some(ValidityBitmap::new(&bits, 2)),
    );
    assert_eq!(
        arr.decode_all_rows().unwrap(),
        vec![CoveArrayValue::Varint(7), CoveArrayValue::Null]
    );
    assert_eq!(arr.decode_row(1).unwrap(), CoveArrayValue::Null);
}

#[test]
fn canonical_null_and_bool_columns() {
    let data: [u8; 0] = [];
    let nulls = make_array(CoveLogicalType::Null, CoveEncodingKind::Canonical, 3, &data, None);
    assert_eq!(nulls.decode_all_rows().unwrap(), vec![CoveArrayValue::Null; 3]);
    let bools = make_array(CoveLogicalType::Bool, CoveEncodingKind::Canonical, 1, &data, None);
    assert!(matches!(bools.decode_row(0), Err(CoveError::UnsupportedEncoding(_))));
}

#[test]
fn decoded_integers_map_by_physical_kind() {
    let data: [u8; 0] = [];
    let numcodes = make_physical_array(
        CoveLogicalType::Int64,
        CovePhysicalKind::NumCode,
        CoveEncodingKind::Rle,
        3,
        &data,
    );
    assert_eq!(numcodes.values_from_i64_values(vec![-2, -2, 9]), Err(CoveError::PageCorrupt));
    let ints = make_array(CoveLogicalType::Int64, CoveEncodingKind::Rle, 3, &data, None);
    assert_eq!(
        ints.values_from_i64_values(vec![-2, -2, 9]).unwrap(),
        vec![CoveArrayValue::Int64(-2), CoveArrayValue::Int64(-2), CoveArrayValue::Int64(9)]
    );
    assert_eq!(ints.value_from_i64_vec(2, vec![-2, -2, 9]).unwrap(), CoveArrayValue::Int64(9));
    assert_eq!(ints.values_from_i64_values(vec![1, 2]), Err(CoveError::PageCorrupt));
    let bools = make_physical_array(
        CoveLogicalType::Bool,
        CovePhysicalKind::Boolean,
        CoveEncodingKind::Rle,
        2,
        &data,
    );
    assert_eq!(
        bools.values_from_i64_values(vec![0, 1]).unwrap(),
        vec![CoveArrayValue::Boolean(false), CoveArrayValue::Boolean(true)]
    );
    assert_eq!(bools.value_from_i64(2), Err(CoveError::PageCorrupt));
}

#[test]
fn local_codebook_values_become_row_values() {
    let data: [u8; 0] = [];
    let arr = make_physical_array(
        CoveLogicalType::Utf8,
        CovePhysicalKind::VarBytes,
        CoveEncodingKind::LocalCodebook,
        2,
        &data,
    );
    let values = vec![
        LocalCodebookValue::VarBytes(b"red".to_vec()),
        LocalCodebookValue::VarBytes(b"blue".to_vec()),
    ];
    assert_eq!(
        arr.values_from_local_codebook_values(values).unwrap(),
        vec![
            CoveArrayValue::OwnedBytes(b"red".to_vec()),
            CoveArrayValue::OwnedBytes(b"blue".to_vec())
        ]
    );
}

#[test]
fn transform_pages_report_unsupported_in_bulk() {
    let data = [0u8; 4];
    let arr = make_array(CoveLogicalType::Int64, CoveEncodingKind::Rle, 1, &data, None);
    assert!(matches!(arr.decode_all_rows(), Err(CoveError::UnsupportedEncoding(_))));
    assert!(arr.prepare().is_err());
}
