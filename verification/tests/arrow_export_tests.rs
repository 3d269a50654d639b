use cove_core::array::{CoveArrayValue, EncodedArray};
use cove_core::arrow_export::{
    arrow_extension_metadata, arrow_i32_offsets, refuse_lossy_export, arrow_node_nullable, bitpacked_len, canonical_payload_bytes,
    checked_bool_byte, checked_numcode_i64, collect_bool, collect_i128, collect_i64, collect_u64,
    decode_plain_varint_u64_values, fixed_width_payload_prefix, pack_bool_chunk_16,
    pack_bool_chunk_8, plain_bytes, read_leb128_len_prefixed_range,
    read_u32_len_prefixed_range, signed_from_bytes, unsigned_from_bytes,
    validate_utf8_offsets_slice, value_to_bytes, value_to_i128, value_to_i64, value_to_u64,
    ArrowDictionaryPolicy, ArrowExportColumn, ArrowExportNode, ArrowExportOptions,
    ArrowExportReport, ArrowFidelitySeverity, ArrowValidityBuilder, ArrowVarBytesExportPolicy,
    BytePayloadLayout, BytePayloadPlan,
};
use cove_core::constants::{CoveEncodingKind, CoveLogicalType, CovePhysicalKind};
use cove_core::dictionary::DictionaryValue;
use cove_core::selection::{
    bitset_row_selected, count_bitset_rows, last_selected_bitset_row, mask_selection_tail,
    selected_rows_are_all_rows, ArrowRowSelection,
};
use cove_core::validity::ValidityBitmap;
use cove_core::wire::encode_u64_leb128;
use cove_core::CoveError;

#[test]
fn bool_chunk_packer_matches_scalar_bits_and_rejects_invalid_bytes() {
    for pattern in 0u16..=255 {
        let mut chunk = [0u8; 8];
        let mut expected = 0u8;
        for bit in 0..8 {
            let value = ((pattern >> bit) & 1) as u8;
            chunk[bit] = value;
            expected |= value << bit;
        }
        assert_eq!(pack_bool_chunk_8(&chunk).unwrap(), expected);
    }

    for pos in 0..8 {
        let mut chunk = [0u8; 8];
        chunk[pos] = 2;
        assert!(matches!(pack_bool_chunk_8(&chunk), Err(CoveError::PageCorrupt)));
    }
}

#[test]
fn sixteen_byte_chunk_packs_low_then_high() {
    let mut chunk = [0u8; 16];
    chunk[0] = 1;
    chunk[9] = 1;
    chunk[15] = 1;
    assert_eq!(pack_bool_chunk_16(&chunk).unwrap(), 0b1000_0010_0000_0001);
    chunk[12] = 7;
    assert_eq!(pack_bool_chunk_16(&chunk), Err(CoveError::PageCorrupt));
}

#[test]
fn checked_scalars() {
    assert_eq!(checked_bool_byte(0), Ok(false));
    assert_eq!(checked_bool_byte(1), Ok(true));
    assert_eq!(checked_bool_byte(2), Err(CoveError::PageCorrupt));
    assert_eq!(checked_numcode_i64(5), Ok(5));
    assert_eq!(checked_numcode_i64(u64::MAX), Err(CoveError::PageCorrupt));
    assert_eq!(bitpacked_len(9), Ok(2));
    assert_eq!(bitpacked_len(usize::MAX), Err(CoveError::ArithOverflow));
}

#[test]
fn validity_builder_counts_nulls() {
    let mut b = ArrowValidityBuilder::new(3).unwrap();
    b.append(true);
    b.append(false);
    b.append(true);
    assert_eq!(b.finish(), Some((vec![0b0000_0101], 3, 1)));
    let mut all_valid = ArrowValidityBuilder::new(2).unwrap();
    all_valid.append(true);
    all_valid.append(true);
    assert_eq!(all_valid.finish(), None);
}

#[test]
fn report_tracks_lossy_issues_and_field_names() {
    let mut report = ArrowExportReport::default();
    report.push(None, CoveLogicalType::Utf8, ArrowFidelitySeverity::Informational, "ok".into());
    assert!(!report.has_lossy_or_unsupported());
    let mut inner = ArrowExportReport::default();
    inner.push(None, CoveLogicalType::Json, ArrowFidelitySeverity::Lossy, "json".into());
    inner.push(Some("x"), CoveLogicalType::Uuid, ArrowFidelitySeverity::Unsupported, "u".into());
    report.extend_with_field("col", inner);
    assert!(report.has_lossy_or_unsupported());
    assert_eq!(report.issues.len(), 3);
    assert_eq!(report.issues[1].field.as_deref(), Some("col"));
    assert_eq!(report.issues[2].field.as_deref(), Some("x"));
    assert_eq!(report.issues[0].field, None);
}

#[test]
fn default_options_and_policies() {
    let o = ArrowExportOptions::default();
    assert_eq!(o.dictionary_policy, ArrowDictionaryPolicy::DecodeValues);
    assert_eq!(o.varbytes_policy, ArrowVarBytesExportPolicy::Standard);
    assert_eq!(ArrowDictionaryPolicy::default(), ArrowDictionaryPolicy::DictionaryKeys);
    assert!(o.decimal.is_none());
}

#[test]
fn extension_metadata_only_when_requested() {
    let mut o = ArrowExportOptions::default();
    assert!(arrow_extension_metadata(CoveLogicalType::Uuid, o).is_empty());
    o.emit_uuid_extension_metadata = true;
    o.emit_json_extension_metadata = true;
    let uuid = arrow_extension_metadata(CoveLogicalType::Uuid, o);
    assert_eq!(uuid[0], ("ARROW:extension:name".to_string(), "cove.uuid".to_string()));
    let json = arrow_extension_metadata(CoveLogicalType::Json, o);
    assert_eq!(json[1].1, r#"{"storage":"utf8"}"#);
    o.varbytes_policy = ArrowVarBytesExportPolicy::View;
    let json = arrow_extension_metadata(CoveLogicalType::Json, o);
    assert_eq!(json[1].1, r#"{"storage":"utf8_view"}"#);
    assert!(arrow_extension_metadata(CoveLogicalType::Int32, o).is_empty());
}

#[test]
fn scalar_nodes_and_nullability() {
    let data = [0u8; 4];
    let bits = [0u8];
    let plain = EncodedArray::new(
        CoveLogicalType::Int32,
        CovePhysicalKind::FixedBytes,
        1,
        CoveEncodingKind::PlainFixed,
        None,
        &data,
        None,
    );
    let nullable = EncodedArray::new(
        CoveLogicalType::Int32,
        CovePhysicalKind::FixedBytes,
        1,
        CoveEncodingKind::PlainFixed,
        Some(ValidityBitmap::new(&bits, 1)),
        &data,
        None,
    );
    assert!(!arrow_node_nullable(&ArrowExportNode::scalar(&plain)));
    assert!(arrow_node_nullable(&ArrowExportNode::scalar_with_policy(
        &nullable,
        ArrowDictionaryPolicy::DecodeValues
    )));
    let col = ArrowExportColumn::scalar("c", &nullable);
    assert!(col.nullable);
    assert_eq!(col.name, "c");
}

#[test]
fn length_prefixed_ranges() {
    let mut data = Vec::new();
    data.extend_from_slice(&3u32.to_le_bytes());
    data.extend_from_slice(b"abc");
    assert_eq!(read_u32_len_prefixed_range(&data, 0), Ok((4, 7)));
    assert_eq!(read_u32_len_prefixed_range(&data, 4), Err(CoveError::OffsetRange));
    let leb = [encode_u64_leb128(2), b"hi".to_vec()].concat();
    assert_eq!(read_leb128_len_prefixed_range(&leb, 0), Ok((1, 3)));
    assert_eq!(read_leb128_len_prefixed_range(&leb, 4), Err(CoveError::OffsetRange));
}

#[test]
fn payload_plan_requires_exact_page_length() {
    let mut data = Vec::new();
    data.extend_from_slice(&2u32.to_le_bytes());
    data.extend_from_slice(b"hi");
    data.extend_from_slice(&1u32.to_le_bytes());
    data.extend_from_slice(b"x");
    let arr = EncodedArray::new(
        CoveLogicalType::Utf8,
        CovePhysicalKind::VarBytes,
        2,
        CoveEncodingKind::VarBytes,
        None,
        &data,
        None,
    );
    let plan = BytePayloadPlan { layout: BytePayloadLayout::U32LengthPrefixed };
    assert_eq!(plan.parse_ranges(&arr).unwrap(), vec![(4, 6), (10, 11)]);
    data.push(0);
    let arr = EncodedArray::new(
        CoveLogicalType::Utf8,
        CovePhysicalKind::VarBytes,
        2,
        CoveEncodingKind::VarBytes,
        None,
        &data,
        None,
    );
    assert_eq!(plan.parse_ranges(&arr), Err(CoveError::PageCorrupt));
}

#[test]
fn utf8_offsets_validation() {
    let values = "héllo".as_bytes();
    assert!(validate_utf8_offsets_slice(&[0, 1, 6], values).is_ok());
    // Row boundary inside the two-byte 'é'.
    assert!(matches!(
        validate_utf8_offsets_slice(&[0, 2, 6], values),
        Err(CoveError::BadSection(_))
    ));
    assert_eq!(validate_utf8_offsets_slice(&[0, 9], values), Err(CoveError::OffsetRange));
    assert!(matches!(
        validate_utf8_offsets_slice(&[0, 1], &[0xFF]),
        Err(CoveError::BadSection(_))
    ));
}

#[test]
fn plain_varint_values_and_fixed_prefix() {
    let data = [encode_u64_leb128(300), encode_u64_leb128(5)].concat();
    let arr = EncodedArray::new(
        CoveLogicalType::UInt64,
        CovePhysicalKind::NumCode,
        2,
        CoveEncodingKind::PlainVarint,
        None,
        &data,
        None,
    );
    assert_eq!(decode_plain_varint_u64_values(&arr).unwrap(), vec![300, 5]);
    assert_eq!(fixed_width_payload_prefix(&[1, 2, 3, 4, 5], 2, 2).unwrap(), &[1, 2, 3, 4]);
    assert_eq!(fixed_width_payload_prefix(&[1, 2, 3], 2, 2), Err(CoveError::OffsetRange));
}

#[test]
fn value_conversions() {
    assert_eq!(signed_from_bytes(CoveLogicalType::Int16, &(-2i16).to_le_bytes()), Ok(-2));
    assert_eq!(signed_from_bytes(CoveLogicalType::Int32, &[1, 2]), Err(CoveError::PageCorrupt));
    assert_eq!(unsigned_from_bytes(CoveLogicalType::UInt32, &7u32.to_le_bytes()), Ok(7));
    assert!(matches!(
        unsigned_from_bytes(CoveLogicalType::Int32, &[0, 0, 0, 0]),
        Err(CoveError::UnsupportedEncoding(_))
    ));
    assert_eq!(value_to_i64(CoveLogicalType::Int64, &CoveArrayValue::NumCode(9)), Ok(9));
    assert_eq!(
        value_to_i64(CoveLogicalType::Int64, &CoveArrayValue::NumCode(u64::MAX)),
        Err(CoveError::PageCorrupt)
    );
    assert_eq!(value_to_u64(CoveLogicalType::UInt64, &CoveArrayValue::Int64(-1)), Err(CoveError::PageCorrupt));
    let dec = CoveArrayValue::OwnedBytes((-5i128).to_le_bytes().to_vec());
    assert_eq!(value_to_i128(CoveLogicalType::Decimal128, &dec), Ok(-5));
    let redacted = CoveArrayValue::DictValue(DictionaryValue::RedactedPresent);
    assert_eq!(plain_bytes(&redacted), Err(CoveError::RedactionPolicy));
    let canonical = CoveArrayValue::DictValue(DictionaryValue::RawBytes(vec![3, b'f', b'o', b'o']));
    assert_eq!(&*value_to_bytes(CoveLogicalType::Utf8, &canonical).unwrap(), b"foo");
    assert_eq!(canonical_payload_bytes(CoveLogicalType::Utf8, &[5, b'a']), Err(CoveError::PageCorrupt));
}

#[test]
fn collectors_map_nulls_and_values() {
    let values = vec![CoveArrayValue::Null, CoveArrayValue::Bytes(&[1]), CoveArrayValue::Boolean(false)];
    assert_eq!(collect_bool(&values).unwrap(), vec![None, Some(true), Some(false)]);
    let bad = vec![CoveArrayValue::Bytes(&[2])];
    assert_eq!(collect_bool(&bad), Err(CoveError::PageCorrupt));
    let ints = vec![CoveArrayValue::Int64(-3), CoveArrayValue::Null];
    assert_eq!(collect_i64(CoveLogicalType::Int64, &ints).unwrap(), vec![Some(-3), None]);
    assert_eq!(collect_u64(CoveLogicalType::UInt64, &ints), Err(CoveError::PageCorrupt));
    let decs = vec![CoveArrayValue::Int64(12)];
    assert_eq!(collect_i128(CoveLogicalType::Decimal64, &decs).unwrap(), vec![Some(12)]);
}

#[test]
fn row_selections() {
    let words = [0b1011u64];
    let sel = ArrowRowSelection::Bitset { words: &words, len: 4 };
    assert_eq!(sel.to_rows(4).unwrap(), vec![0, 1, 3]);
    assert_eq!(sel.selected_len(4), Ok(3));
    assert_eq!(sel.is_all_rows(4), Ok(false));
    assert_eq!(sel.validate_for_row_count(5), Err(CoveError::OffsetRange));
    let short: [u64; 0] = [];
    let empty = ArrowRowSelection::Bitset { words: &short, len: 4 };
    assert_eq!(empty.validate_for_row_count(4), Err(CoveError::BufferTooShort));
    let rows = [2u32, 0];
    let listed = ArrowRowSelection::Rows(&rows);
    assert_eq!(listed.to_rows(3).unwrap(), vec![2, 0]);
    assert_eq!(listed.to_rows(2), Err(CoveError::OffsetRange));
    assert_eq!(listed.selected_len(1), Ok(2));
    assert_eq!(ArrowRowSelection::All.to_rows(3).unwrap(), vec![0, 1, 2]);
    assert_eq!(ArrowRowSelection::All.is_all_rows(3), Ok(true));
    assert!(selected_rows_are_all_rows(&[0, 1, 2], 3));
    assert!(!selected_rows_are_all_rows(&[0, 2], 2));
}

#[test]
fn bitset_helpers() {
    let words = [0u64, 1u64 << 5];
    assert!(bitset_row_selected(&words, 69));
    assert!(!bitset_row_selected(&words, 68));
    assert!(!bitset_row_selected(&words, 500));
    assert_eq!(last_selected_bitset_row(&words, 128), Some(69));
    assert_eq!(last_selected_bitset_row(&words, 69), None);
    assert_eq!(count_bitset_rows(&words, 128), Ok(1));
    assert_eq!(mask_selection_tail(u64::MAX, 3), 0b111);
    assert_eq!(mask_selection_tail(u64::MAX, 64), u64::MAX);
}

#[test]
fn list_offsets_must_fit_i32() {
    assert_eq!(arrow_i32_offsets(&[0, 2, 3]), Ok(vec![0, 2, 3]));
    assert_eq!(arrow_i32_offsets(&[]), Ok(Vec::new()));
    assert_eq!(arrow_i32_offsets(&[0, i32::MAX as u32]), Ok(vec![0, i32::MAX]));
    assert!(matches!(
        arrow_i32_offsets(&[0, i32::MAX as u32 + 1]),
        Err(CoveError::UnsupportedEncoding(_))
    ));
}

#[test]
fn lossy_exports_are_refused_naming_the_type() {
    let mut report = ArrowExportReport::default();
    report.push(None, CoveLogicalType::Uuid, ArrowFidelitySeverity::Informational, "ok".to_string());
    assert_eq!(refuse_lossy_export(&report, CoveLogicalType::Uuid), Ok(()));
    report.push(None, CoveLogicalType::Decimal128, ArrowFidelitySeverity::Lossy, "lossy".to_string());
    assert_eq!(
        refuse_lossy_export(&report, CoveLogicalType::Decimal128),
        Err(CoveError::UnsupportedEncoding(
            "Arrow export for Decimal128 requires explicit fidelity reporting".to_string()
        ))
    );
}
