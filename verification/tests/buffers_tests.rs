use cove_core::array::EncodedArray;
use cove_core::byte_views::byte_view_for_range;
use cove_core::arrow_buffers::{
    collect_bool_buffers, collect_numcode_i64_buffers, collect_numcode_u64_buffers,
    direct_i64_slice_values, direct_u64_slice_values, filecode_keys, plain_fixed_values, PlainFixedTarget, PlainFixedValues,
};
use cove_core::arrow_types::ArrowType;
use cove_core::arrow_export::{ArrowStringValidationPolicy, BytePayloadLayout, BytePayloadPlan};
use cove_core::constants::{CoveEncodingKind, CoveLogicalType, CovePhysicalKind};
use cove_core::selection::ArrowRowSelection;
use cove_core::validity::ValidityBitmap;
use cove_core::CoveError;

fn numcode_page(values: &[u64]) -> Vec<u8> {
    values.iter().flat_map(|v| v.to_le_bytes()).collect()
}

fn array<'a>(
    logical: CoveLogicalType,
    physical: CovePhysicalKind,
    encoding: CoveEncodingKind,
    rows: u64,
    validity: Option<ValidityBitmap<'a>>,
    data: &'a [u8],
) -> EncodedArray<'a> {
    EncodedArray::new(logical, physical, rows, encoding, validity, data, None)
}

fn u32_page(rows: &[&[u8]]) -> Vec<u8> {
    let mut out = Vec::new();
    for r in rows {
        out.extend_from_slice(&(r.len() as u32).to_le_bytes());
        out.extend_from_slice(r);
    }
    out
}

#[test]
fn numcode_buffers_all_rows_without_nulls() {
    let data = numcode_page(&[5, 7, 9]);
    let a = array(CoveLogicalType::UInt64, CovePhysicalKind::NumCode, CoveEncodingKind::PlainFixed, 3, None, &data);
    let (values, validity) = collect_numcode_u64_buffers(&a, ArrowRowSelection::All).unwrap();
    assert_eq!(values, vec![5, 7, 9]);
    assert_eq!(validity, None);
}

#[test]
fn numcode_buffers_with_nulls_and_row_list() {
    let data = numcode_page(&[5, 7, 9, 11]);
    let nulls = [0b0000_0010u8];
    let a = array(
        CoveLogicalType::Int64,
        CovePhysicalKind::NumCode,
        CoveEncodingKind::PlainFixed,
        4,
        Some(ValidityBitmap::new(&nulls, 4)),
        &data,
    );
    let (values, validity) = collect_numcode_u64_buffers(&a, ArrowRowSelection::Rows(&[3, 1, 0])).unwrap();
    assert_eq!(values, vec![11, 0, 5]);
    assert_eq!(validity, Some((vec![0b0000_0101], 3, 1)));
    let (values, validity) = collect_numcode_i64_buffers(&a, ArrowRowSelection::Rows(&[2, 3])).unwrap();
    assert_eq!(values, vec![9, 11]);
    assert_eq!(validity, None);
    let words = [0b1010u64];
    let (values, validity) =
        collect_numcode_i64_buffers(&a, ArrowRowSelection::Bitset { words: &words, len: 4 }).unwrap();
    assert_eq!(values, vec![0, 11]);
    assert_eq!(validity, Some((vec![0b0000_0010], 2, 1)));
}

#[test]
fn numcode_buffers_errors() {
    let data = numcode_page(&[u64::MAX, 1]);
    let a = array(CoveLogicalType::Int64, CovePhysicalKind::NumCode, CoveEncodingKind::PlainFixed, 2, None, &data);
    assert_eq!(collect_numcode_i64_buffers(&a, ArrowRowSelection::All), Err(CoveError::PageCorrupt));
    assert_eq!(collect_numcode_i64_buffers(&a, ArrowRowSelection::Rows(&[1])).unwrap().0, vec![1]);
    assert_eq!(collect_numcode_u64_buffers(&a, ArrowRowSelection::All).unwrap().0, vec![u64::MAX, 1]);
    assert_eq!(
        collect_numcode_u64_buffers(&a, ArrowRowSelection::Rows(&[2])),
        Err(CoveError::OffsetRange)
    );
    let short = [0u8; 12];
    let b = array(CoveLogicalType::Int64, CovePhysicalKind::NumCode, CoveEncodingKind::PlainFixed, 2, None, &short);
    assert_eq!(collect_numcode_u64_buffers(&b, ArrowRowSelection::All), Err(CoveError::OffsetRange));
    let tiny_bitmap: [u8; 0] = [];
    let c = array(
        CoveLogicalType::Int64,
        CovePhysicalKind::NumCode,
        CoveEncodingKind::PlainFixed,
        2,
        Some(ValidityBitmap::new(&tiny_bitmap, 2)),
        &data,
    );
    assert_eq!(collect_numcode_u64_buffers(&c, ArrowRowSelection::All), Err(CoveError::BufferTooShort));
}

#[test]
fn bool_buffers_pack_values_and_validity() {
    let data = [1u8, 0, 1, 1, 0, 1, 1, 1, 1, 0];
    let a = array(CoveLogicalType::Bool, CovePhysicalKind::Boolean, CoveEncodingKind::PlainFixed, 10, None, &data);
    let (bits, len, validity) = collect_bool_buffers(&a, ArrowRowSelection::All).unwrap();
    assert_eq!(len, 10);
    assert_eq!(bits, vec![0b1110_1101, 0b0000_0001]);
    assert_eq!(validity, None);

    let nulls = [0b0000_0001u8, 0];
    let b = array(
        CoveLogicalType::Bool,
        CovePhysicalKind::Boolean,
        CoveEncodingKind::PlainFixed,
        10,
        Some(ValidityBitmap::new(&nulls, 10)),
        &data,
    );
    let (bits, len, validity) = collect_bool_buffers(&b, ArrowRowSelection::Rows(&[0, 2, 1])).unwrap();
    assert_eq!(len, 3);
    assert_eq!(bits, vec![0b0000_0010]);
    assert_eq!(validity, Some((vec![0b0000_0110], 3, 1)));

    let bad = [1u8, 2];
    let c = array(CoveLogicalType::Bool, CovePhysicalKind::Boolean, CoveEncodingKind::PlainFixed, 2, None, &bad);
    assert_eq!(collect_bool_buffers(&c, ArrowRowSelection::All), Err(CoveError::PageCorrupt));
    assert_eq!(collect_bool_buffers(&c, ArrowRowSelection::Rows(&[0])).unwrap().0, vec![1]);
}

#[test]
fn byte_rows_all_rows_dense_and_generic() {
    let page = u32_page(&[b"ab", b"", b"xyz"]);
    let a = array(CoveLogicalType::Binary, CovePhysicalKind::VarBytes, CoveEncodingKind::VarBytes, 3, None, &page);
    let plan = BytePayloadPlan { layout: BytePayloadLayout::U32LengthPrefixed };
    let (offsets, values, validity) = plan.materialize_all_rows(&a).unwrap();
    assert_eq!(offsets, vec![0, 2, 2, 5]);
    assert_eq!(values, b"abxyz".to_vec());
    assert_eq!(validity, None);

    let nulls = [0b0000_0001u8];
    let b = array(
        CoveLogicalType::Binary,
        CovePhysicalKind::VarBytes,
        CoveEncodingKind::VarBytes,
        3,
        Some(ValidityBitmap::new(&nulls, 3)),
        &page,
    );
    let (offsets, values, validity) = plan.materialize_all_rows(&b).unwrap();
    assert_eq!(offsets, vec![0, 0, 0, 3]);
    assert_eq!(values, b"xyz".to_vec());
    assert_eq!(validity, Some((vec![0b0000_0110], 3, 1)));

    let leb = [2u8, b'h', b'i', 1, b'!'];
    let c = array(CoveLogicalType::Utf8, CovePhysicalKind::VarBytes, CoveEncodingKind::VarBytes, 2, None, &leb);
    let plan_leb = BytePayloadPlan { layout: BytePayloadLayout::Leb128LengthPrefixed };
    let (offsets, values, _) = plan_leb.materialize_all_rows(&c).unwrap();
    assert_eq!(offsets, vec![0, 2, 3]);
    assert_eq!(values, b"hi!".to_vec());
}

#[test]
fn byte_rows_all_rows_errors() {
    let plan = BytePayloadPlan { layout: BytePayloadLayout::U32LengthPrefixed };
    let mut page = u32_page(&[b"ab"]);
    page.push(9);
    let a = array(CoveLogicalType::Binary, CovePhysicalKind::VarBytes, CoveEncodingKind::VarBytes, 1, None, &page);
    assert_eq!(plan.materialize_all_rows(&a), Err(CoveError::PageCorrupt));
    let b = array(CoveLogicalType::Binary, CovePhysicalKind::VarBytes, CoveEncodingKind::VarBytes, 2, None, &page);
    assert_eq!(plan.materialize_all_rows(&b), Err(CoveError::OffsetRange));
    let tiny = [1u8, 0];
    let c = array(CoveLogicalType::Binary, CovePhysicalKind::VarBytes, CoveEncodingKind::VarBytes, 1, None, &tiny);
    assert_eq!(plan.materialize_all_rows(&c), Err(CoveError::OffsetRange));
}

#[test]
fn fixed_length_pages_are_recognised() {
    let page = u32_page(&[b"ab", b"cd", b"ef"]);
    assert_eq!(BytePayloadPlan::fixed_u32_no_nulls_len(&page, 3), Ok(Some(2)));
    let uneven = u32_page(&[b"ab", b"c", b"def"]);
    assert_eq!(BytePayloadPlan::fixed_u32_no_nulls_len(&uneven, 3), Ok(None));
    assert_eq!(BytePayloadPlan::fixed_u32_no_nulls_len(&page, 0), Ok(None));
    assert_eq!(BytePayloadPlan::fixed_u32_no_nulls_len(&[1, 0], 1), Err(CoveError::OffsetRange));
}

#[test]
fn byte_rows_for_selections() {
    let page = u32_page(&[b"a", b"bb", b"ccc", b"dddd"]);
    let nulls = [0b0000_0100u8];
    let a = array(
        CoveLogicalType::Binary,
        CovePhysicalKind::VarBytes,
        CoveEncodingKind::VarBytes,
        4,
        Some(ValidityBitmap::new(&nulls, 4)),
        &page,
    );
    let plan = BytePayloadPlan { layout: BytePayloadLayout::U32LengthPrefixed };
    let (offsets, values, validity) = plan.materialize(&a, ArrowRowSelection::Rows(&[1, 2, 3])).unwrap();
    assert_eq!(offsets, vec![0, 2, 2, 6]);
    assert_eq!(values, b"bbdddd".to_vec());
    assert_eq!(validity, Some((vec![0b0000_0101], 3, 1)));

    let (offsets, values, validity) = plan.materialize(&a, ArrowRowSelection::Rows(&[3, 0, 3])).unwrap();
    assert_eq!(offsets, vec![0, 4, 5, 9]);
    assert_eq!(values, b"ddddadddd".to_vec());
    assert_eq!(validity, None);

    let words = [0b1001u64];
    let (offsets, values, _) =
        plan.materialize(&a, ArrowRowSelection::Bitset { words: &words, len: 4 }).unwrap();
    assert_eq!(offsets, vec![0, 1, 5]);
    assert_eq!(values, b"adddd".to_vec());

    let (offsets, values, validity) = plan.materialize(&a, ArrowRowSelection::Rows(&[])).unwrap();
    assert_eq!((offsets, values, validity), (vec![0], vec![], None));

    assert_eq!(plan.materialize(&a, ArrowRowSelection::Rows(&[1, 9])), Err(CoveError::OffsetRange));
    assert_eq!(plan.materialize(&a, ArrowRowSelection::Rows(&[9, 1])), Err(CoveError::OffsetRange));
}

#[test]
fn forward_pass_stops_at_last_selected_row() {
    let mut page = u32_page(&[b"a", b"bb"]);
    page.extend_from_slice(&[200, 0, 0, 0]);
    let a = array(CoveLogicalType::Binary, CovePhysicalKind::VarBytes, CoveEncodingKind::VarBytes, 3, None, &page);
    let plan = BytePayloadPlan { layout: BytePayloadLayout::U32LengthPrefixed };
    let (offsets, values, _) = plan.materialize(&a, ArrowRowSelection::Rows(&[0, 1])).unwrap();
    assert_eq!(offsets, vec![0, 1, 3]);
    assert_eq!(values, b"abb".to_vec());
    assert_eq!(plan.materialize(&a, ArrowRowSelection::Rows(&[1, 0])), Err(CoveError::OffsetRange));
    assert_eq!(plan.materialize(&a, ArrowRowSelection::Rows(&[2])), Err(CoveError::OffsetRange));
}

#[test]
fn utf8_rows_are_checked_unless_trusted() {
    let page = u32_page(&[b"ok", &[0xff]]);
    let a = array(CoveLogicalType::Utf8, CovePhysicalKind::VarBytes, CoveEncodingKind::VarBytes, 2, None, &page);
    let plan = BytePayloadPlan { layout: BytePayloadLayout::U32LengthPrefixed };
    assert!(matches!(
        plan.materialize_utf8(&a, ArrowRowSelection::All, ArrowStringValidationPolicy::Strict),
        Err(CoveError::BadSection(_))
    ));
    assert!(matches!(
        plan.materialize_utf8(&a, ArrowRowSelection::Rows(&[1]), ArrowStringValidationPolicy::StrictOrCachedProof),
        Err(CoveError::BadSection(_))
    ));
    let (offsets, values, _) = plan
        .materialize_utf8(&a, ArrowRowSelection::All, ArrowStringValidationPolicy::TrustedPageProof)
        .unwrap();
    assert_eq!(offsets, vec![0, 2, 3]);
    assert_eq!(values, vec![b'o', b'k', 0xff]);
    let (_, values, _) = plan
        .materialize_utf8(&a, ArrowRowSelection::Rows(&[0]), ArrowStringValidationPolicy::Strict)
        .unwrap();
    assert_eq!(values, b"ok".to_vec());
}

fn inline_view(bytes: &[u8]) -> u128 {
    let mut raw = [0u8; 16];
    raw[..4].copy_from_slice(&(bytes.len() as u32).to_le_bytes());
    raw[4..4 + bytes.len()].copy_from_slice(bytes);
    u128::from_le_bytes(raw)
}

#[test]
fn byte_views_inline_short_values_and_point_into_the_page() {
    let long = b"0123456789abcdef";
    let page = u32_page(&[b"ab", long]);
    let a = array(CoveLogicalType::Utf8, CovePhysicalKind::VarBytes, CoveEncodingKind::VarBytes, 2, None, &page);
    let plan = BytePayloadPlan { layout: BytePayloadLayout::U32LengthPrefixed };
    let (views, validity) = plan.materialize_view_all_rows(&a).unwrap();
    let expected_long = 16u128 | ((u32::from_le_bytes(*b"0123") as u128) << 32) | (10u128 << 96);
    assert_eq!(views, vec![inline_view(b"ab"), expected_long]);
    assert_eq!(validity, None);
    let same = arrow_data::ByteView::new(16, b"0123").with_buffer_index(0).with_offset(10).as_u128();
    assert_eq!(views[1], same);

    let nulls = [0b0000_0001u8];
    let b = array(
        CoveLogicalType::Utf8,
        CovePhysicalKind::VarBytes,
        CoveEncodingKind::VarBytes,
        2,
        Some(ValidityBitmap::new(&nulls, 2)),
        &page,
    );
    let (views, validity) = plan.materialize_view(&b, ArrowRowSelection::Rows(&[1, 0, 1])).unwrap();
    assert_eq!(views, vec![expected_long, 0, expected_long]);
    assert_eq!(validity, Some((vec![0b0000_0101], 3, 1)));
    assert_eq!(plan.materialize_view(&b, ArrowRowSelection::Rows(&[2])), Err(CoveError::OffsetRange));
    let (views, _) = plan.materialize_view(&b, ArrowRowSelection::All).unwrap();
    assert_eq!(views, vec![0, expected_long]);
}

#[test]
fn byte_view_of_a_range() {
    let data = b"hello, byte view world";
    assert_eq!(byte_view_for_range(data, 0, 5), Ok(inline_view(b"hello")));
    assert_eq!(byte_view_for_range(data, 3, 3), Ok(0));
    assert_eq!(byte_view_for_range(data, 4, 2), Err(CoveError::PageCorrupt));
    let v = byte_view_for_range(data, 1, 20).unwrap();
    assert_eq!(v & 0xffff_ffff, 19);
    assert_eq!((v >> 32) as u32, u32::from_le_bytes(*b"ello"));
    assert_eq!((v >> 96) as u32, 1);
}

#[test]
fn plain_fixed_values_follow_the_target() {
    let data: Vec<u8> = [10i32, -2, 7].iter().flat_map(|v| v.to_le_bytes()).collect();
    let a = array(CoveLogicalType::Int32, CovePhysicalKind::FixedBytes, CoveEncodingKind::PlainFixed, 3, None, &data);
    let (values, validity) = plain_fixed_values(&a, ArrowRowSelection::All, PlainFixedTarget::Native(4))
        .unwrap()
        .unwrap();
    assert_eq!(values, PlainFixedValues::Bytes(data.clone()));
    assert_eq!(validity, None);
    assert_eq!(
        plain_fixed_values(&a, ArrowRowSelection::All, PlainFixedTarget::Native(8)),
        Err(CoveError::PageCorrupt)
    );
    assert!(matches!(
        plain_fixed_values(&a, ArrowRowSelection::All, PlainFixedTarget::Decimal128),
        Err(CoveError::UnsupportedEncoding(_))
    ));
    let (values, _) = plain_fixed_values(&a, ArrowRowSelection::Rows(&[2, 0]), PlainFixedTarget::FixedSizeBinary)
        .unwrap()
        .unwrap();
    assert_eq!(values, PlainFixedValues::Bytes(vec![7, 0, 0, 0, 10, 0, 0, 0]));

    let nulls = [0b0000_0010u8];
    let b = array(
        CoveLogicalType::Int32,
        CovePhysicalKind::FixedBytes,
        CoveEncodingKind::PlainFixed,
        3,
        Some(ValidityBitmap::new(&nulls, 3)),
        &data,
    );
    assert_eq!(
        plain_fixed_values(&b, ArrowRowSelection::All, PlainFixedTarget::Native(8)),
        Err(CoveError::PageCorrupt)
    );
    let only_null = plain_fixed_values(&b, ArrowRowSelection::Rows(&[1]), PlainFixedTarget::Native(8))
        .unwrap()
        .unwrap();
    assert_eq!(only_null.0, PlainFixedValues::Bytes(vec![0; 8]));
    assert_eq!(only_null.1, Some((vec![0], 1, 1)));

    let decimals: Vec<u8> = [-5i64, 12].iter().flat_map(|v| v.to_le_bytes()).collect();
    let d = array(CoveLogicalType::Decimal64, CovePhysicalKind::FixedBytes, CoveEncodingKind::PlainFixed, 2, None, &decimals);
    let (values, _) = plain_fixed_values(&d, ArrowRowSelection::All, PlainFixedTarget::Decimal128)
        .unwrap()
        .unwrap();
    assert_eq!(values, PlainFixedValues::Decimal128(vec![-5, 12]));

    let varint = array(CoveLogicalType::Int32, CovePhysicalKind::NumCode, CoveEncodingKind::PlainVarint, 3, None, &data);
    assert_eq!(plain_fixed_values(&varint, ArrowRowSelection::All, PlainFixedTarget::Native(4)), Ok(None));
    let short = array(CoveLogicalType::Int32, CovePhysicalKind::FixedBytes, CoveEncodingKind::PlainFixed, 4, None, &data);
    assert_eq!(plain_fixed_values(&short, ArrowRowSelection::All, PlainFixedTarget::Native(4)), Err(CoveError::OffsetRange));
}

#[test]
fn filecode_keys_follow_the_selection() {
    let data: Vec<u8> = [3u32, 0, 9].iter().flat_map(|v| v.to_le_bytes()).collect();
    let nulls = [0b0000_0010u8];
    let a = array(
        CoveLogicalType::Utf8,
        CovePhysicalKind::FileCode,
        CoveEncodingKind::FileCode,
        3,
        Some(ValidityBitmap::new(&nulls, 3)),
        &data,
    );
    let (keys, validity) = filecode_keys(&a, ArrowRowSelection::All).unwrap();
    assert_eq!(keys, vec![3, 0, 9]);
    assert_eq!(validity, Some((vec![0b0000_0101], 3, 1)));
    let (keys, validity) = filecode_keys(&a, ArrowRowSelection::Rows(&[2, 0])).unwrap();
    assert_eq!(keys, vec![9, 3]);
    assert_eq!(validity, None);
    assert_eq!(filecode_keys(&a, ArrowRowSelection::Rows(&[0, 3])), Err(CoveError::OffsetRange));
    let b = array(CoveLogicalType::Utf8, CovePhysicalKind::FileCode, CoveEncodingKind::FileCode, 4, None, &data);
    assert_eq!(filecode_keys(&b, ArrowRowSelection::All), Err(CoveError::OffsetRange));
}

#[test]
fn decoded_values_follow_the_arrow_type() {
    let data: [u8; 0] = [];
    let nulls = [0b0000_0010u8];
    let a = array(
        CoveLogicalType::UInt64,
        CovePhysicalKind::NumCode,
        CoveEncodingKind::PlainFixed,
        4,
        Some(ValidityBitmap::new(&nulls, 4)),
        &data,
    );
    let values = [3u64, 999, 200, 7];
    let (out, validity) =
        direct_u64_slice_values(&a, &values, ArrowRowSelection::All, ArrowType::UInt8).unwrap().unwrap();
    assert_eq!(out, vec![3, 0, 200, 7]);
    assert_eq!(validity, Some((vec![0b0000_1101], 4, 1)));
    let (out, _) = direct_u64_slice_values(&a, &values, ArrowRowSelection::Rows(&[3, 0]), ArrowType::Int32)
        .unwrap()
        .unwrap();
    assert_eq!(out, vec![7, 3]);
    assert_eq!(direct_u64_slice_values(&a, &values, ArrowRowSelection::All, ArrowType::Utf8), Ok(None));
    assert_eq!(
        direct_u64_slice_values(&a, &values, ArrowRowSelection::Rows(&[2]), ArrowType::Boolean),
        Err(CoveError::PageCorrupt)
    );
    assert_eq!(
        direct_u64_slice_values(&a, &values, ArrowRowSelection::Rows(&[4]), ArrowType::UInt64),
        Err(CoveError::OffsetRange)
    );
    assert_eq!(
        direct_u64_slice_values(&a, &values[..3], ArrowRowSelection::All, ArrowType::UInt64),
        Err(CoveError::PageCorrupt)
    );
}

#[test]
fn decoded_signed_values_follow_the_arrow_type() {
    let data: [u8; 0] = [];
    let nulls = [0b0000_0010u8];
    let a = array(
        CoveLogicalType::Int64,
        CovePhysicalKind::NumCode,
        CoveEncodingKind::PlainFixed,
        4,
        Some(ValidityBitmap::new(&nulls, 4)),
        &data,
    );
    let values = [-1i64, 99_999, 300, 0];
    assert_eq!(
        direct_i64_slice_values(&a, &values, ArrowRowSelection::Rows(&[0, 1, 3]), ArrowType::Int8),
        Ok(Some((vec![-1, 0, 0], Some((vec![0b0000_0101], 3, 1)))))
    );
    assert_eq!(
        direct_i64_slice_values(&a, &values, ArrowRowSelection::All, ArrowType::Int8),
        Err(CoveError::PageCorrupt)
    );
    assert_eq!(
        direct_i64_slice_values(&a, &values, ArrowRowSelection::All, ArrowType::Int16),
        Ok(Some((vec![-1, 0, 300, 0], Some((vec![0b0000_1101], 4, 1)))))
    );
    assert_eq!(
        direct_i64_slice_values(&a, &values, ArrowRowSelection::Rows(&[0]), ArrowType::UInt64),
        Err(CoveError::PageCorrupt)
    );
    assert_eq!(
        direct_i64_slice_values(&a, &values, ArrowRowSelection::Rows(&[3]), ArrowType::Boolean).unwrap().unwrap().0,
        vec![0]
    );
    assert_eq!(
        direct_i64_slice_values(&a, &values, ArrowRowSelection::All, ArrowType::Decimal128(10, 2)),
        Ok(None)
    );
    assert_eq!(
        direct_i64_slice_values(&a, &values[..2], ArrowRowSelection::All, ArrowType::Int64),
        Err(CoveError::PageCorrupt)
    );
    let d = array(CoveLogicalType::Decimal64, CovePhysicalKind::NumCode, CoveEncodingKind::PlainFixed, 1, None, &data);
    assert_eq!(
        direct_i64_slice_values(&d, &[-42], ArrowRowSelection::All, ArrowType::Decimal128(10, 2)),
        Ok(Some((vec![-42], None)))
    );
}

#[test]
fn out_of_line_views_match_arrow_byte_views() {
    let data: Vec<u8> = (0u8..40).collect();
    let view = cove_core::byte_views::byte_view_for_range(&data, 3, 30).unwrap();
    let expected = arrow_data::ByteView::new(27, &data[3..7]).with_buffer_index(0).with_offset(3).as_u128();
    assert_eq!(view, expected);
}

fn utf8_plan() -> BytePayloadPlan {
    BytePayloadPlan { layout: BytePayloadLayout::U32LengthPrefixed }
}

#[test]
fn rejects_invalid_plain_bool_array() {
    let values = [1u8, 2u8];
    let a = array(CoveLogicalType::Bool, CovePhysicalKind::Boolean, CoveEncodingKind::PlainFixed, 2, None, &values);
    assert!(matches!(collect_bool_buffers(&a, ArrowRowSelection::All), Err(CoveError::PageCorrupt)));
}

#[test]
fn rejects_invalid_plain_bool_array_even_for_null_row() {
    let values = [1u8, 2u8];
    let nulls = [0b0000_0010u8];
    let a = array(
        CoveLogicalType::Bool,
        CovePhysicalKind::Boolean,
        CoveEncodingKind::PlainFixed,
        2,
        Some(ValidityBitmap::new(&nulls, 2)),
        &values,
    );
    assert!(matches!(collect_bool_buffers(&a, ArrowRowSelection::All), Err(CoveError::PageCorrupt)));
}

#[test]
fn strict_utf8_rejects_invalid_row_boundaries_even_if_concat_valid() {
    let page = u32_page(&[&[0xc2], &[0xa2]]);
    let a = array(CoveLogicalType::Utf8, CovePhysicalKind::VarBytes, CoveEncodingKind::VarBytes, 2, None, &page);
    assert!(utf8_plan().materialize_utf8(&a, ArrowRowSelection::All, ArrowStringValidationPolicy::Strict).is_err());
}

#[test]
fn selected_utf8_rejects_invalid_row_boundaries_even_if_concat_valid() {
    let page = u32_page(&[&[0xc2], &[0xa2]]);
    let a = array(CoveLogicalType::Utf8, CovePhysicalKind::VarBytes, CoveEncodingKind::VarBytes, 2, None, &page);
    assert!(utf8_plan()
        .materialize_utf8(&a, ArrowRowSelection::Rows(&[0, 1]), ArrowStringValidationPolicy::Strict)
        .is_err());
}

#[test]
fn rejects_truncated_utf8_varbytes_payload() {
    let mut page = 4u32.to_le_bytes().to_vec();
    page.extend_from_slice(b"hi");
    let a = array(CoveLogicalType::Utf8, CovePhysicalKind::VarBytes, CoveEncodingKind::VarBytes, 1, None, &page);
    assert!(matches!(
        utf8_plan().materialize_utf8(&a, ArrowRowSelection::All, ArrowStringValidationPolicy::Strict),
        Err(CoveError::OffsetRange)
    ));
}

#[test]
fn rejects_trailing_utf8_varbytes_payload() {
    let mut page = u32_page(&[b"hi"]);
    page.push(0);
    let a = array(CoveLogicalType::Utf8, CovePhysicalKind::VarBytes, CoveEncodingKind::VarBytes, 1, None, &page);
    assert!(matches!(
        utf8_plan().materialize_utf8(&a, ArrowRowSelection::All, ArrowStringValidationPolicy::Strict),
        Err(CoveError::PageCorrupt)
    ));
}

#[test]
fn selected_export_rejects_trailing_varbytes_payload() {
    let mut page = u32_page(&[b"hi", b"there"]);
    page.push(0);
    let a = array(CoveLogicalType::Utf8, CovePhysicalKind::VarBytes, CoveEncodingKind::VarBytes, 2, None, &page);
    assert!(matches!(
        utf8_plan().materialize_utf8(&a, ArrowRowSelection::Rows(&[1]), ArrowStringValidationPolicy::Strict),
        Err(CoveError::PageCorrupt)
    ));
}

#[test]
fn rejects_numcode_int64_overflow_all_rows() {
    let mut values = 10u64.to_le_bytes().to_vec();
    values.extend_from_slice(&(i64::MAX as u64 + 1).to_le_bytes());
    let a = array(CoveLogicalType::Int64, CovePhysicalKind::NumCode, CoveEncodingKind::NumCode, 2, None, &values);
    assert!(matches!(collect_numcode_i64_buffers(&a, ArrowRowSelection::All), Err(CoveError::PageCorrupt)));
}

#[test]
fn bitset_export_rejects_wrong_page_length() {
    let page = u32_page(&[b"hi"]);
    let a = array(CoveLogicalType::Utf8, CovePhysicalKind::VarBytes, CoveEncodingKind::VarBytes, 1, None, &page);
    assert!(matches!(
        utf8_plan().materialize_utf8(
            &a,
            ArrowRowSelection::Bitset { words: &[0b1], len: 2 },
            ArrowStringValidationPolicy::Strict
        ),
        Err(CoveError::OffsetRange)
    ));
}
