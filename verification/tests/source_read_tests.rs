use cove_core::constants::{CoveLogicalType, CovePhysicalKind};
use cove_core::conversion::{MaterializedValues, ParquetConversionOptions};
use cove_core::source_columns::{
    ParquetSourceType, SourceBatch, SourceColumnKind, SourceTimeUnit, SourceValues,
};
use cove_core::source_read::{
    append_source_batch, check_read_options, source_column, source_columns, SourceField,
};
use cove_core::CoveError;

fn field(name: &str, nullable: bool, source_type: ParquetSourceType) -> SourceField {
    SourceField { name: name.to_string(), nullable, source_type }
}

#[test]
fn zero_batch_or_segment_sizes_are_refused_first() {
    let mut options = ParquetConversionOptions::default();
    options.morsel_row_count = 0;
    options.segment_row_count = 0;
    assert_eq!(
        check_read_options(&options),
        Err(CoveError::BadSchema("morsel_row_count must be greater than zero".to_string()))
    );
    options.morsel_row_count = 10;
    assert_eq!(
        check_read_options(&options),
        Err(CoveError::BadSchema("segment_row_count must be greater than zero".to_string()))
    );
    options.segment_row_count = 10;
    assert_eq!(check_read_options(&options), Ok(()));
}

#[test]
fn a_field_keeps_its_number_name_and_nullability() {
    let ts = field("ts", true, ParquetSourceType::Timestamp(SourceTimeUnit::Millisecond));
    let c = source_column(7, &ts).unwrap();
    assert_eq!(c.column_id, 7);
    assert_eq!(c.name, "ts");
    assert!(c.nullable);
    assert_eq!(c.layout.logical, CoveLogicalType::TimestampMicros);
    assert_eq!(c.layout.physical, CovePhysicalKind::NumCode);
    assert_eq!(c.layout.values, MaterializedValues::NumCode(Vec::new()));
    assert!(c.nulls.is_empty());
    assert_eq!(c.layout.notes.len(), 1);
}

#[test]
fn columns_are_numbered_from_one_and_unsupported_types_refused() {
    let fields = vec![field("a", false, ParquetSourceType::Int32), field("b", true, ParquetSourceType::Utf8)];
    let cs = source_columns(&fields).unwrap();
    assert_eq!((cs[0].column_id, cs[1].column_id), (1, 2));
    assert_eq!((cs[0].name.as_str(), cs[1].name.as_str()), ("a", "b"));
    assert_eq!((cs[0].nullable, cs[1].nullable), (false, true));
    let bad = vec![field("a", false, ParquetSourceType::Int32), field("x", true, ParquetSourceType::Unsupported("Float16".to_string()))];
    assert!(matches!(source_columns(&bad), Err(CoveError::BadSchema(m)) if m.contains("'x'")));
}

#[test]
fn batches_are_appended_column_by_column_with_a_running_total() {
    let fields = vec![field("a", true, ParquetSourceType::Int32), field("b", false, ParquetSourceType::Boolean)];
    let mut cs = source_columns(&fields).unwrap();
    let batch = vec![
        SourceBatch { kind: SourceColumnKind::Int32, values: SourceValues::Integers(vec![Some(5), None]) },
        SourceBatch { kind: SourceColumnKind::Boolean, values: SourceValues::Booleans(vec![Some(true), Some(false)]) },
    ];
    let total = append_source_batch(&mut cs, &batch, 3, 2).unwrap();
    assert_eq!(total, 5);
    assert_eq!(cs[0].layout.values, MaterializedValues::NumCode(vec![5, 0]));
    assert_eq!(cs[0].nulls, vec![false, true]);
    assert_eq!(cs[1].layout.values, MaterializedValues::Boolean(vec![1, 0]));
    assert_eq!(append_source_batch(&mut cs, &batch, usize::MAX, 1), Err(CoveError::ArithOverflow));
    let nulls_in_required = vec![
        SourceBatch { kind: SourceColumnKind::Int32, values: SourceValues::Integers(vec![Some(1)]) },
        SourceBatch { kind: SourceColumnKind::Boolean, values: SourceValues::Booleans(vec![None]) },
    ];
    assert!(matches!(append_source_batch(&mut cs, &nulls_in_required, 5, 1), Err(CoveError::BadSchema(_))));
}
