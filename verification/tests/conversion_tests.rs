use cove_core::conversion::{
    build_segment_layouts, distinct_len, is_null_row, non_null_indices, null_count_range,
    reorder_clone, reorder_copy, run_count_u32, segment_position_for_row, should_emit_aggregate,
    should_emit_exact_set, validity_bitmap_len, validity_bytes, varbytes_payload_len,
    MaterializedValues, ParquetAccelerationPolicy, ParquetAggregatePolicy, SegmentLayout,
};
use cove_core::conversion::{column_unique_keys, numcode_range_stats, page_specs_range, validate_declared_columns, PageNulls, PagePlan, key_bytes_for_bloom, key_kind, key_u64, IndexKeyKind};
use cove_core::constants::{CompressionCodec, CoveEncodingKind};
use cove_core::CoveError;

fn seg(segment_id: u32, row_start: usize, row_count: usize) -> SegmentLayout {
    SegmentLayout { segment_id, row_start, row_count }
}

#[test]
fn segments_cut_rows_with_a_short_tail() {
    assert_eq!(
        build_segment_layouts(10, 4).unwrap(),
        vec![seg(0, 0, 4), seg(1, 4, 4), seg(2, 8, 2)]
    );
    assert_eq!(build_segment_layouts(8, 4).unwrap(), vec![seg(0, 0, 4), seg(1, 4, 4)]);
    assert_eq!(build_segment_layouts(3, u32::MAX).unwrap(), vec![seg(0, 0, 3)]);
}

#[test]
fn no_rows_give_one_empty_segment() {
    assert_eq!(build_segment_layouts(0, 5).unwrap(), vec![seg(0, 0, 0)]);
}

#[test]
fn zero_segment_size_is_a_schema_error() {
    assert!(matches!(build_segment_layouts(10, 0), Err(CoveError::BadSchema(_))));
}

#[test]
fn segment_lookup_finds_the_covering_segment() {
    let segments = build_segment_layouts(10, 4).unwrap();
    assert_eq!(segment_position_for_row(0, &segments).unwrap(), seg(0, 0, 4));
    assert_eq!(segment_position_for_row(5, &segments).unwrap(), seg(1, 4, 4));
    assert_eq!(segment_position_for_row(9, &segments).unwrap(), seg(2, 8, 2));
    assert!(matches!(
        segment_position_for_row(10, &segments),
        Err(CoveError::BadSchema(_))
    ));
    assert!(matches!(
        segment_position_for_row(0, &[seg(0, usize::MAX, 1)]),
        Err(CoveError::ArithOverflow)
    ));
}

#[test]
fn bitmap_length_rounds_up() {
    assert_eq!(validity_bitmap_len(0), Ok(0));
    assert_eq!(validity_bitmap_len(1), Ok(1));
    assert_eq!(validity_bitmap_len(8), Ok(1));
    assert_eq!(validity_bitmap_len(9), Ok(2));
    assert_eq!(validity_bitmap_len(u32::MAX), Ok(536_870_912));
}

#[test]
fn exact_set_and_aggregate_policies() {
    assert!(!should_emit_exact_set(ParquetAccelerationPolicy::Disabled, true, true));
    assert!(should_emit_exact_set(ParquetAccelerationPolicy::DeclaredOnly, true, true));
    assert!(!should_emit_exact_set(ParquetAccelerationPolicy::DeclaredOnly, false, true));
    assert!(!should_emit_exact_set(ParquetAccelerationPolicy::DeclaredOnly, true, false));
    assert!(should_emit_exact_set(ParquetAccelerationPolicy::Auto, false, true));
    assert!(!should_emit_exact_set(ParquetAccelerationPolicy::Auto, true, false));

    assert!(!should_emit_aggregate(ParquetAggregatePolicy::Auto, true, false));
    assert!(should_emit_aggregate(ParquetAggregatePolicy::Auto, false, true));
    assert!(should_emit_aggregate(ParquetAggregatePolicy::DeclaredOnly, true, true));
    assert!(!should_emit_aggregate(ParquetAggregatePolicy::DeclaredOnly, false, true));
    assert!(!should_emit_aggregate(ParquetAggregatePolicy::Disabled, true, true));
}

#[test]
fn encode_rows_layouts() {
    let b = MaterializedValues::Boolean(vec![1, 0, 1]);
    assert_eq!(b.row_count(), 3);
    assert_eq!(b.encode_rows(1, 2).unwrap(), vec![0, 1]);

    let f = MaterializedValues::FileCode(vec![1, 0x0102_0304]);
    assert_eq!(f.encode_rows(0, 2).unwrap(), vec![1, 0, 0, 0, 4, 3, 2, 1]);

    let n = MaterializedValues::NumCode(vec![7, u64::MAX]);
    assert_eq!(
        n.encode_rows(0, 2).unwrap(),
        vec![7, 0, 0, 0, 0, 0, 0, 0, 255, 255, 255, 255, 255, 255, 255, 255]
    );
    assert_eq!(n.encode_rows(1, 0).unwrap(), Vec::<u8>::new());

    let v = MaterializedValues::VarBytes(vec![b"ab".to_vec(), vec![], b"c".to_vec()]);
    assert_eq!(
        v.encode_rows(0, 3).unwrap(),
        vec![2, 0, 0, 0, b'a', b'b', 0, 0, 0, 0, 1, 0, 0, 0, b'c']
    );
    assert_eq!(varbytes_payload_len(&v), Ok(15));

    let x = MaterializedValues::FixedBytes { width: 2, values: vec![b"ab".to_vec(), b"cd".to_vec()] };
    assert_eq!(x.encode_rows(0, 2).unwrap(), b"abcd".to_vec());
    let bad = MaterializedValues::FixedBytes { width: 2, values: vec![b"abc".to_vec()] };
    assert!(matches!(bad.encode_rows(0, 1), Err(CoveError::BadSchema(_))));
}

#[test]
fn reorder_takes_values_in_order() {
    let mut v = vec![10u64, 20, 30];
    reorder_copy(&mut v, &[2, 0, 1]);
    assert_eq!(v, vec![30, 10, 20]);

    let mut b = vec![b"x".to_vec(), b"y".to_vec()];
    reorder_clone(&mut b, &[1, 1, 0]);
    assert_eq!(b, vec![b"y".to_vec(), b"y".to_vec(), b"x".to_vec()]);

    let mut m = MaterializedValues::FileCode(vec![5, 6, 7]);
    m.reorder(&[2, 1, 0]);
    assert_eq!(m, MaterializedValues::FileCode(vec![7, 6, 5]));
}

#[test]
fn distinct_and_run_counts() {
    assert_eq!(distinct_len(&[]), Ok(0));
    assert_eq!(distinct_len(&[3, 1, 3, 2, 1]), Ok(3));
    assert_eq!(run_count_u32(&[]), Ok(0));
    assert_eq!(run_count_u32(&[1, 1, 2, 2, 2, 1]), Ok(3));
    assert_eq!(run_count_u32(&[4]), Ok(1));
}

#[test]
fn null_flag_helpers() {
    let nulls = [false, true, true, false, true];
    assert!(is_null_row(&nulls, 1));
    assert!(!is_null_row(&nulls, 0));
    assert!(!is_null_row(&nulls, 99));
    assert_eq!(null_count_range(&nulls, 1, 3), Ok(2));
    assert_eq!(null_count_range(&nulls, 0, 5), Ok(3));
    assert!(matches!(null_count_range(&nulls, 3, 3), Err(CoveError::BadSchema(_))));
    assert!(matches!(
        null_count_range(&nulls, usize::MAX, 2),
        Err(CoveError::ArithOverflow)
    ));
    assert_eq!(non_null_indices(&nulls, 0, 5).unwrap(), vec![0, 3]);
    assert_eq!(non_null_indices(&nulls, 2, 2).unwrap(), vec![3]);
    assert!(matches!(non_null_indices(&nulls, 4, 2), Err(CoveError::BadSchema(_))));
    assert_eq!(validity_bytes(&nulls, 0, 5).unwrap(), vec![0b0001_0110]);
    assert_eq!(validity_bytes(&nulls, 1, 2).unwrap(), vec![0b0000_0011]);
    assert_eq!(validity_bytes(&nulls, 3, 4).unwrap(), vec![0b0000_0010]);
}

#[test]
fn index_keys_of_rows() {
    let codes = MaterializedValues::FileCode(vec![7, 3]);
    let nulls = [false, true];
    assert_eq!(key_kind(&codes), Some(IndexKeyKind::FileCode));
    assert_eq!(key_u64(&codes, &nulls, 0), Some((7, IndexKeyKind::FileCode)));
    assert_eq!(key_u64(&codes, &nulls, 1), None);
    assert_eq!(key_u64(&codes, &nulls, 2), None);
    assert_eq!(key_bytes_for_bloom(&codes, &nulls, 0), Some((vec![7, 0, 0, 0], IndexKeyKind::FileCode)));

    let flags = MaterializedValues::Boolean(vec![0, 5]);
    assert_eq!(key_kind(&flags), Some(IndexKeyKind::NumCode));
    assert_eq!(key_u64(&flags, &[], 1), Some((1, IndexKeyKind::NumCode)));
    let nums = MaterializedValues::NumCode(vec![0x0102]);
    assert_eq!(
        key_bytes_for_bloom(&nums, &[], 0),
        Some((vec![2, 1, 0, 0, 0, 0, 0, 0], IndexKeyKind::NumCode))
    );
    let text = MaterializedValues::VarBytes(vec![b"a".to_vec()]);
    assert_eq!(key_kind(&text), None);
    assert_eq!(key_u64(&text, &[], 0), None);
}

#[test]
fn unique_keys_are_sorted_and_distinct() {
    let nums = MaterializedValues::NumCode(vec![9, 2, 9, 5, 1, 2]);
    assert_eq!(column_unique_keys(&nums, &[false, false, false, false, true]), vec![2, 5, 9]);
    assert_eq!(column_unique_keys(&nums, &[]), vec![1, 2, 5, 9]);
    let text = MaterializedValues::VarBytes(vec![b"a".to_vec()]);
    assert_eq!(column_unique_keys(&text, &[]), Vec::<u64>::new());
    assert_eq!(column_unique_keys(&MaterializedValues::FileCode(Vec::new()), &[]), Vec::<u64>::new());
}

#[test]
fn declared_columns_must_exist() {
    let columns = vec!["id".to_string(), "name".to_string()];
    let declared = vec!["name".to_string(), "id".to_string()];
    assert_eq!(validate_declared_columns(&columns, &declared, "point lookup"), Ok(()));
    assert_eq!(validate_declared_columns(&columns, &[], "Top-N"), Ok(()));
    let declared = vec!["id".to_string(), "age".to_string(), "zip".to_string()];
    assert_eq!(
        validate_declared_columns(&columns, &declared, "Top-N"),
        Err(CoveError::BadSchema("Top-N option references unknown column 'age'".to_string()))
    );
}

fn le64(values: &[u64]) -> Vec<u8> {
    values.iter().flat_map(|v| v.to_le_bytes()).collect()
}

#[test]
fn pages_cut_a_range_into_morsels() {
    let values = MaterializedValues::NumCode(vec![1, 2, 3, 4, 5]);
    let nulls = [false, true, false, false, false];
    let plan = |row_count, payload, non_null_count, null_count, nulls| PagePlan {
        row_count,
        payload,
        compression: CompressionCodec::Uncompressed,
        encoding: CoveEncodingKind::PlainFixed,
        non_null_count,
        null_count,
        nulls,
    };
    let pages = page_specs_range(
        "c",
        &values,
        &nulls,
        CoveEncodingKind::PlainFixed,
        0,
        5,
        2,
        CompressionCodec::Uncompressed,
    )
    .unwrap();
    let mut first = vec![0b0000_0010u8];
    first.extend(le64(&[1, 2]));
    assert_eq!(
        pages,
        vec![
            plan(2, first, 1, 1, PageNulls::SomeNulls),
            plan(2, le64(&[3, 4]), 2, 0, PageNulls::NoNulls),
            plan(1, le64(&[5]), 1, 0, PageNulls::NoNulls),
        ]
    );
    let pages = page_specs_range("c", &values, &nulls, CoveEncodingKind::PlainFixed, 1, 1, 4, CompressionCodec::Uncompressed)
        .unwrap();
    let mut only = vec![0b0000_0001u8];
    only.extend(le64(&[2]));
    assert_eq!(pages, vec![plan(1, only, 0, 1, PageNulls::AllNulls)]);
    assert_eq!(
        page_specs_range("c", &values, &nulls, CoveEncodingKind::PlainFixed, 3, 0, 4, CompressionCodec::Uncompressed),
        Ok(Vec::new())
    );
}

#[test]
fn page_plans_reject_bad_ranges() {
    let values = MaterializedValues::NumCode(vec![1, 2, 3]);
    let nulls = [false, false, false];
    let bad_schema = |r: Result<Vec<PagePlan>, CoveError>| matches!(r, Err(CoveError::BadSchema(_)));
    let codec = CompressionCodec::Uncompressed;
    let enc = CoveEncodingKind::PlainFixed;
    assert!(bad_schema(page_specs_range("c", &values, &nulls, enc, 0, 3, 0, codec)));
    assert!(bad_schema(page_specs_range("c", &values, &nulls, enc, 2, 2, 2, codec)));
    assert_eq!(page_specs_range("c", &values, &nulls, enc, usize::MAX, 2, 2, codec), Err(CoveError::ArithOverflow));
    assert_eq!(
        page_specs_range("c", &values, &nulls[..2], enc, 0, 3, 2, codec),
        Err(CoveError::BadSchema("column 'c' materialized row/null counts diverged".to_string()))
    );
    let fixed = MaterializedValues::FixedBytes { width: 2, values: vec![vec![1, 2], vec![3]] };
    assert!(bad_schema(page_specs_range("f", &fixed, &[false, false], enc, 0, 2, 1, codec)));
}

#[test]
fn numcode_statistics_over_listed_rows() {
    let values = [5u64, 3, 3, u64::MAX, 9];
    assert_eq!(numcode_range_stats(&values, &[0, 1, 2, 4], false), Ok((3, 9, 3, 3)));
    assert_eq!(numcode_range_stats(&values, &[3, 0, 4], false), Ok((5, u64::MAX, 3, 3)));
    assert_eq!(numcode_range_stats(&values, &[3, 0, 4], true), Ok((u64::MAX, 9, 3, 3)));
    assert_eq!(numcode_range_stats(&values, &[1, 2, 1], true), Ok((3, 3, 1, 1)));
    assert_eq!(numcode_range_stats(&values, &[], false), Err(CoveError::BadStats));
}
