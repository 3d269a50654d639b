use cove_core::clustering::apply_stable_clustering;
use cove_core::conversion::{MaterializedValues, ParquetClusteringPolicy, ParquetConversionOptions};
use cove_core::source_columns::{ParquetSourceType, SourceBatch, SourceColumnKind, SourceValues};
use cove_core::source_read::{append_source_batch, source_columns, SourceColumn, SourceField};
use cove_core::CoveError;

fn columns() -> Vec<SourceColumn> {
    let fields = vec![
        SourceField { name: "k".to_string(), nullable: true, source_type: ParquetSourceType::Int32 },
        SourceField { name: "s".to_string(), nullable: false, source_type: ParquetSourceType::Utf8 },
    ];
    let mut cs = source_columns(&fields).unwrap();
    let batch = vec![
        SourceBatch {
            kind: SourceColumnKind::Int32,
            values: SourceValues::Integers(vec![Some(3), Some(-1), None, Some(3)]),
        },
        SourceBatch {
            kind: SourceColumnKind::Utf8,
            values: SourceValues::Bytes(vec![
                Some(b"a".to_vec()),
                Some(b"b".to_vec()),
                Some(b"c".to_vec()),
                Some(b"d".to_vec()),
            ]),
        },
    ];
    append_source_batch(&mut cs, &batch, 0, 4).unwrap();
    cs
}

fn options(policy: ParquetClusteringPolicy, names: &[&str]) -> ParquetConversionOptions {
    let mut o = ParquetConversionOptions::default();
    o.clustering_policy = policy;
    o.cluster_columns = names.iter().map(|n| n.to_string()).collect();
    o
}

#[test]
fn clustering_puts_nulls_first_then_values_keeping_ties_in_order() {
    let mut cs = columns();
    let note = apply_stable_clustering(&mut cs, &options(ParquetClusteringPolicy::StableClusterDeclaredColumns, &["k"]))
        .unwrap();
    assert_eq!(note, Some("Applied stable clustering by declared columns: k".to_string()));
    assert_eq!(cs[0].nulls, vec![true, false, false, false]);
    assert_eq!(
        cs[1].layout.values,
        MaterializedValues::VarBytes(vec![b"c".to_vec(), b"b".to_vec(), b"a".to_vec(), b"d".to_vec()])
    );
}

#[test]
fn clustering_notes_when_it_is_not_applied() {
    let mut cs = columns();
    assert_eq!(apply_stable_clustering(&mut cs, &options(ParquetClusteringPolicy::PreserveSourceOrder, &[])), Ok(None));
    assert_eq!(
        apply_stable_clustering(&mut cs, &options(ParquetClusteringPolicy::PreserveSourceOrder, &["k"])),
        Ok(Some("Cluster columns were declared, but stable clustering was not enabled; source row order was preserved".to_string()))
    );
    assert_eq!(
        apply_stable_clustering(&mut cs, &options(ParquetClusteringPolicy::StableClusterDeclaredColumns, &[])),
        Ok(Some("Stable clustering was requested without declared cluster columns; source row order was preserved".to_string()))
    );
    assert_eq!(cs[0].nulls, vec![false, false, true, false]);
}

#[test]
fn clustering_by_an_unknown_column_is_refused() {
    let mut cs = columns();
    assert_eq!(
        apply_stable_clustering(&mut cs, &options(ParquetClusteringPolicy::StableClusterDeclaredColumns, &["s", "zz"])),
        Err(CoveError::BadSchema("stable clustering references unknown column 'zz'".to_string()))
    );
}

#[test]
fn clustering_by_two_columns_joins_their_names() {
    let mut cs = columns();
    let note = apply_stable_clustering(&mut cs, &options(ParquetClusteringPolicy::StableClusterDeclaredColumns, &["k", "s"]))
        .unwrap();
    assert_eq!(note, Some("Applied stable clustering by declared columns: k,s".to_string()));
}
