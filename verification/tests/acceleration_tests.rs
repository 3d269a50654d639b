use cove_core::acceleration::plan_acceleration;
use cove_core::conversion::{ParquetAccelerationPolicy, ParquetAggregatePolicy, ParquetConversionOptions};
use cove_core::source_columns::{ParquetSourceType, SourceBatch, SourceColumnKind, SourceValues};
use cove_core::source_read::{append_source_batch, source_columns, SourceColumn, SourceField};
use cove_core::CoveError;

fn columns() -> Vec<SourceColumn> {
    let fields = vec![
        SourceField { name: "id".to_string(), nullable: false, source_type: ParquetSourceType::Int64 },
        SourceField { name: "s".to_string(), nullable: false, source_type: ParquetSourceType::Utf8 },
    ];
    let mut cs = source_columns(&fields).unwrap();
    let batch = vec![
        SourceBatch { kind: SourceColumnKind::Int64, values: SourceValues::Integers(vec![Some(1), Some(2), Some(2)]) },
        SourceBatch {
            kind: SourceColumnKind::Utf8,
            values: SourceValues::Bytes(vec![Some(b"a".to_vec()), Some(b"b".to_vec()), Some(b"c".to_vec())]),
        },
    ];
    append_source_batch(&mut cs, &batch, 0, 3).unwrap();
    cs
}

fn names(v: &[&str]) -> Vec<String> {
    v.iter().map(|s| s.to_string()).collect()
}

#[test]
fn declared_lookups_get_exact_sets_and_lookup_indexes() {
    let mut o = ParquetConversionOptions::default();
    o.acceleration_policy = ParquetAccelerationPolicy::DeclaredOnly;
    o.aggregate_policy = ParquetAggregatePolicy::Auto;
    o.point_lookup_columns = names(&["id", "s"]);
    o.topn_columns = names(&["s"]);
    let plans = plan_acceleration(&columns(), &o).unwrap();
    assert!(plans[0].exact_set && plans[0].lookup && !plans[0].bloom && plans[0].aggregate);
    assert!(!plans[1].exact_set && !plans[1].lookup && !plans[1].topn && !plans[1].aggregate);
    assert_eq!(
        plans[1].unsupported,
        vec![
            "Point-lookup index for column 's' requires FileCode, NumCode, or Boolean materialization".to_string(),
            "Top-N summary for column 's' requires FileCode, NumCode, or Boolean materialization".to_string(),
        ]
    );
}

#[test]
fn unknown_declared_columns_and_short_groups_are_refused() {
    let mut o = ParquetConversionOptions::default();
    o.topn_columns = names(&["nope"]);
    assert_eq!(
        plan_acceleration(&columns(), &o).err(),
        Some(CoveError::BadSchema("Top-N option references unknown column 'nope'".to_string()))
    );
    let mut o = ParquetConversionOptions::default();
    o.composite_zone_groups = vec![names(&["id"])];
    assert_eq!(
        plan_acceleration(&columns(), &o).err(),
        Some(CoveError::BadSchema("composite-zone groups require at least two columns".to_string()))
    );
}
