use cove_core::constants::{CoveLogicalType, CovePhysicalKind};
use cove_core::conversion::MaterializedValues;
use cove_core::source_columns::{
    append_source_values, numcode_column, source_column_layout, ParquetSourceType, SourceBatch,
    SourceColumnKind, SourceTimeUnit, SourceValues,
};
use cove_core::CoveError;

#[test]
fn source_types_map_to_cove_layouts() {
    let l = source_column_layout("a", &ParquetSourceType::Int8).unwrap();
    assert_eq!(l.logical, CoveLogicalType::Int8);
    assert_eq!(l.physical, CovePhysicalKind::NumCode);
    assert_eq!(l.source_kind, SourceColumnKind::Int8);
    assert_eq!(l.values, MaterializedValues::NumCode(Vec::new()));
    assert!(l.notes.is_empty());

    let l = source_column_layout("d", &ParquetSourceType::Date32).unwrap();
    assert_eq!(l.logical, CoveLogicalType::DateDays);

    let l = source_column_layout("b", &ParquetSourceType::Boolean).unwrap();
    assert_eq!((l.logical, l.physical), (CoveLogicalType::Bool, CovePhysicalKind::Boolean));
    assert_eq!(l.values, MaterializedValues::Boolean(Vec::new()));

    let l = source_column_layout("s", &ParquetSourceType::LargeUtf8).unwrap();
    assert_eq!((l.logical, l.physical), (CoveLogicalType::Utf8, CovePhysicalKind::VarBytes));
    assert_eq!(l.source_kind, SourceColumnKind::LargeUtf8);
}

#[test]
fn timestamps_are_normalised_with_notes() {
    let l = source_column_layout("t", &ParquetSourceType::Timestamp(SourceTimeUnit::Second)).unwrap();
    assert_eq!(l.logical, CoveLogicalType::TimestampMicros);
    assert_eq!(l.source_kind, SourceColumnKind::TimestampSecond);
    assert_eq!(l.notes, vec!["normalized seconds timestamps to TimestampMicros".to_string()]);
    let l =
        source_column_layout("t", &ParquetSourceType::Timestamp(SourceTimeUnit::Millisecond)).unwrap();
    assert_eq!(l.notes, vec!["normalized millisecond timestamps to TimestampMicros".to_string()]);
    let l =
        source_column_layout("t", &ParquetSourceType::Timestamp(SourceTimeUnit::Nanosecond)).unwrap();
    assert_eq!(l.logical, CoveLogicalType::TimestampNanos);
    assert!(l.notes.is_empty());
}

#[test]
fn decimals_nested_and_unsupported_types() {
    let l = source_column_layout("m", &ParquetSourceType::Decimal128(10, -2)).unwrap();
    assert_eq!((l.logical, l.physical), (CoveLogicalType::Decimal128, CovePhysicalKind::FixedBytes));
    assert_eq!((l.precision, l.scale), (10, -2));
    assert_eq!(l.values, MaterializedValues::FixedBytes { width: 16, values: Vec::new() });

    let l = source_column_layout("n", &ParquetSourceType::Nested("List(Int32)".to_string())).unwrap();
    assert_eq!(l.logical, CoveLogicalType::Json);
    assert_eq!(l.source_kind, SourceColumnKind::NestedJson);
    assert_eq!(
        l.notes,
        vec![
            "nested Parquet source type List(Int32) encoded as opaque JSON fallback; pushdown-limited"
                .to_string()
        ]
    );

    let err = source_column_layout("h", &ParquetSourceType::Unsupported("Float16".to_string()));
    assert_eq!(
        err.err(),
        Some(CoveError::BadSchema(
            "Parquet MVP converter does not support source column 'h' with type Float16".to_string()
        ))
    );
}

#[test]
fn numcode_column_starts_empty() {
    let l = numcode_column(CoveLogicalType::UInt16, SourceColumnKind::UInt16);
    assert_eq!(l.physical, CovePhysicalKind::NumCode);
    assert_eq!(l.values, MaterializedValues::NumCode(Vec::new()));
    assert_eq!((l.precision, l.scale), (0, 0));
}

fn batch(kind: SourceColumnKind, values: SourceValues) -> SourceBatch {
    SourceBatch { kind, values }
}

#[test]
fn integers_and_timestamps_become_numcodes() {
    let mut values = MaterializedValues::NumCode(vec![9]);
    let mut nulls = vec![false];
    let b = batch(SourceColumnKind::Int8, SourceValues::Integers(vec![Some(-1), None, Some(5)]));
    append_source_values("a", true, SourceColumnKind::Int8, &mut values, &mut nulls, &b).unwrap();
    assert_eq!(values, MaterializedValues::NumCode(vec![9, u64::MAX, 0, 5]));
    assert_eq!(nulls, vec![false, false, true, false]);

    let mut values = MaterializedValues::NumCode(Vec::new());
    let mut nulls = Vec::new();
    let b = batch(SourceColumnKind::TimestampSecond, SourceValues::Integers(vec![Some(2), Some(-3)]));
    append_source_values("t", false, SourceColumnKind::TimestampSecond, &mut values, &mut nulls, &b)
        .unwrap();
    assert_eq!(values, MaterializedValues::NumCode(vec![2_000_000, (-3_000_000i64) as u64]));

    let mut values = MaterializedValues::NumCode(Vec::new());
    let mut nulls = Vec::new();
    let b = batch(SourceColumnKind::TimestampMillisecond, SourceValues::Integers(vec![Some(7)]));
    append_source_values("t", false, SourceColumnKind::TimestampMillisecond, &mut values, &mut nulls, &b)
        .unwrap();
    assert_eq!(values, MaterializedValues::NumCode(vec![7_000]));
}

#[test]
fn overflowing_timestamps_change_nothing() {
    let mut values = MaterializedValues::NumCode(vec![1]);
    let mut nulls = vec![false];
    let b = batch(SourceColumnKind::TimestampSecond, SourceValues::Integers(vec![Some(1), Some(i64::MAX)]));
    assert_eq!(
        append_source_values("t", true, SourceColumnKind::TimestampSecond, &mut values, &mut nulls, &b),
        Err(CoveError::ArithOverflow)
    );
    assert_eq!(values, MaterializedValues::NumCode(vec![1]));
    assert_eq!(nulls, vec![false]);
}

#[test]
fn booleans_unsigned_bytes_and_decimals() {
    let mut values = MaterializedValues::Boolean(Vec::new());
    let mut nulls = Vec::new();
    let b = batch(SourceColumnKind::Boolean, SourceValues::Booleans(vec![Some(true), None, Some(false)]));
    append_source_values("b", true, SourceColumnKind::Boolean, &mut values, &mut nulls, &b).unwrap();
    assert_eq!(values, MaterializedValues::Boolean(vec![1, 0, 0]));
    assert_eq!(nulls, vec![false, true, false]);

    let mut values = MaterializedValues::NumCode(Vec::new());
    let mut nulls = Vec::new();
    let bits = 1.5f64.to_bits();
    let b = batch(SourceColumnKind::Float64, SourceValues::Unsigned(vec![Some(bits), None]));
    append_source_values("f", true, SourceColumnKind::Float64, &mut values, &mut nulls, &b).unwrap();
    assert_eq!(values, MaterializedValues::NumCode(vec![bits, 0]));

    let mut values = MaterializedValues::VarBytes(Vec::new());
    let mut nulls = Vec::new();
    let b = batch(SourceColumnKind::Utf8, SourceValues::Bytes(vec![Some(b"hi".to_vec()), None]));
    append_source_values("s", true, SourceColumnKind::Utf8, &mut values, &mut nulls, &b).unwrap();
    assert_eq!(values, MaterializedValues::VarBytes(vec![b"hi".to_vec(), Vec::new()]));

    let mut values = MaterializedValues::VarBytes(Vec::new());
    let mut nulls = Vec::new();
    let b = batch(SourceColumnKind::NestedJson, SourceValues::Bytes(vec![None, Some(b"[1]".to_vec())]));
    append_source_values("n", true, SourceColumnKind::NestedJson, &mut values, &mut nulls, &b).unwrap();
    assert_eq!(values, MaterializedValues::VarBytes(vec![b"null".to_vec(), b"[1]".to_vec()]));
    assert_eq!(nulls, vec![true, false]);

    let mut values = MaterializedValues::FixedBytes { width: 16, values: Vec::new() };
    let mut nulls = Vec::new();
    let b = batch(SourceColumnKind::Decimal128, SourceValues::Decimals(vec![Some(-2), None, Some(258)]));
    append_source_values("m", true, SourceColumnKind::Decimal128, &mut values, &mut nulls, &b).unwrap();
    assert_eq!(
        values,
        MaterializedValues::FixedBytes {
            width: 16,
            values: vec![
                (-2i128).to_le_bytes().to_vec(),
                vec![0u8; 16],
                258i128.to_le_bytes().to_vec()
            ]
        }
    );
}

#[test]
fn append_rejects_schema_mismatches() {
    let bad_schema = |r: Result<(), CoveError>| matches!(r, Err(CoveError::BadSchema(_)));

    let mut values = MaterializedValues::NumCode(Vec::new());
    let mut nulls = Vec::new();
    let b = batch(SourceColumnKind::Int32, SourceValues::Integers(vec![Some(1), None]));
    let r = append_source_values("c", false, SourceColumnKind::Int32, &mut values, &mut nulls, &b);
    assert_eq!(
        r,
        Err(CoveError::BadSchema(
            "Parquet source produced null values for non-nullable column 'c'".to_string()
        ))
    );

    let b = batch(SourceColumnKind::Int16, SourceValues::Integers(vec![Some(1)]));
    let r = append_source_values("c", true, SourceColumnKind::Int32, &mut values, &mut nulls, &b);
    assert_eq!(
        r,
        Err(CoveError::BadSchema(
            "Parquet reader produced an unexpected Arrow array type for column 'c'".to_string()
        ))
    );
    let b = batch(SourceColumnKind::Int32, SourceValues::Unsigned(vec![Some(1)]));
    assert!(bad_schema(append_source_values("c", true, SourceColumnKind::Int32, &mut values, &mut nulls, &b)));

    let mut wrong = MaterializedValues::VarBytes(Vec::new());
    let b = batch(SourceColumnKind::Int32, SourceValues::Integers(vec![Some(1)]));
    let r = append_source_values("c", true, SourceColumnKind::Int32, &mut wrong, &mut nulls, &b);
    assert_eq!(r, Err(CoveError::BadSchema("expected NumCode materialized values".to_string())));

    let mut values = MaterializedValues::NumCode(vec![1, 2]);
    let mut nulls = vec![false];
    let r = append_source_values("c", true, SourceColumnKind::Int32, &mut values, &mut nulls, &b);
    assert_eq!(
        r,
        Err(CoveError::BadSchema("column 'c' materialized row/null counts diverged".to_string()))
    );
    assert_eq!(values, MaterializedValues::NumCode(vec![1, 2]));
    assert_eq!(nulls, vec![false]);
}

#[test]
fn hex_text_of_bytes() {
    assert_eq!(cove_core::source_columns::hex_encode(&[0x00, 0xab, 0x7f, 0x10]), "00ab7f10");
    assert_eq!(cove_core::source_columns::hex_encode(&[]), "");
}
