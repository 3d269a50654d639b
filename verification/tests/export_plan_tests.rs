use cove_core::array::EncodedArray;
use cove_core::arrow_export::{ArrowExportColumn, ArrowExportNode};
use cove_core::constants::{CoveEncodingKind, CoveLogicalType, CovePhysicalKind};
use cove_core::encoding::nested::{ListLayout, StructLayout};
use cove_core::export_plan::{export_node_plan, ExportStep};
use cove_core::validity::{ValidityBitmap, ValidityBitmapBuilder};
use cove_core::CoveError;

fn int32s<'a>(rows: u64, data: &'a [u8], validity: Option<ValidityBitmap<'a>>) -> EncodedArray<'a> {
    EncodedArray::new(
        CoveLogicalType::Int32,
        CovePhysicalKind::FixedBytes,
        rows,
        CoveEncodingKind::PlainFixed,
        validity,
        data,
        None,
    )
}

fn second_row_null() -> Vec<u8> {
    let mut b = ValidityBitmapBuilder::new(2).unwrap();
    b.set_null(1).unwrap();
    b.into_bytes()
}

#[test]
fn plans_a_list_with_narrowed_offsets() {
    let values = [1i32.to_le_bytes(), 2i32.to_le_bytes(), 3i32.to_le_bytes()].concat();
    let child = int32s(3, &values, None);
    let layout = ListLayout { offsets: vec![0, 2, 3] };
    let node = ArrowExportNode::List {
        layout: &layout,
        child: Box::new(ArrowExportNode::scalar(&child)),
        validity: None,
    };
    let plan = export_node_plan(&node).unwrap();
    assert_eq!(
        plan.steps,
        vec![
            ExportStep::List { offsets: vec![0, 2, 3], validity: None },
            ExportStep::Scalar { rows: 3 },
        ]
    );
}

#[test]
fn plans_a_nullable_list_with_row_flags() {
    let values = [1i32.to_le_bytes(), 2i32.to_le_bytes()].concat();
    let child = int32s(2, &values, None);
    let layout = ListLayout { offsets: vec![0, 2, 2] };
    let bytes = second_row_null();
    let node = ArrowExportNode::List {
        layout: &layout,
        child: Box::new(ArrowExportNode::scalar(&child)),
        validity: Some(ValidityBitmap::new(&bytes, 2)),
    };
    let plan = export_node_plan(&node).unwrap();
    assert_eq!(
        plan.steps[0],
        ExportStep::List { offsets: vec![0, 2, 2], validity: Some(vec![true, false]) }
    );
}

#[test]
fn list_child_row_count_must_match_last_offset() {
    let values = [1i32.to_le_bytes(), 2i32.to_le_bytes()].concat();
    let child = int32s(2, &values, None);
    let layout = ListLayout { offsets: vec![0, 2, 3] };
    let node = ArrowExportNode::List {
        layout: &layout,
        child: Box::new(ArrowExportNode::scalar(&child)),
        validity: None,
    };
    assert_eq!(export_node_plan(&node), Err(CoveError::PageCorrupt));
}

#[test]
fn list_offsets_are_validated_then_narrowed() {
    let child = int32s(0, &[], None);
    let bad = ListLayout { offsets: vec![0, 5, 4] };
    let node = ArrowExportNode::List {
        layout: &bad,
        child: Box::new(ArrowExportNode::scalar(&child)),
        validity: None,
    };
    assert_eq!(export_node_plan(&node), Err(CoveError::PageCorrupt));
    let wide = ListLayout { offsets: vec![0, 0x8000_0000] };
    let node = ArrowExportNode::List {
        layout: &wide,
        child: Box::new(ArrowExportNode::scalar(&child)),
        validity: None,
    };
    assert!(matches!(export_node_plan(&node), Err(CoveError::UnsupportedEncoding(_))));
}

#[test]
fn short_list_validity_is_rejected() {
    let values = [1i32.to_le_bytes(), 2i32.to_le_bytes()].concat();
    let child = int32s(2, &values, None);
    let layout = ListLayout { offsets: vec![0, 1, 2] };
    let bytes = second_row_null();
    let node = ArrowExportNode::List {
        layout: &layout,
        child: Box::new(ArrowExportNode::scalar(&child)),
        validity: Some(ValidityBitmap::new(&bytes, 1)),
    };
    assert_eq!(export_node_plan(&node), Err(CoveError::OffsetRange));
    let node = ArrowExportNode::List {
        layout: &layout,
        child: Box::new(ArrowExportNode::scalar(&child)),
        validity: Some(ValidityBitmap::new(&[], 2)),
    };
    assert_eq!(export_node_plan(&node), Err(CoveError::BufferTooShort));
}

#[test]
fn plans_a_struct_field_by_field() {
    let ids = [10i32.to_le_bytes(), 20i32.to_le_bytes()].concat();
    let id_array = int32s(2, &ids, None);
    let more = [1i32.to_le_bytes(), 2i32.to_le_bytes()].concat();
    let more_array = int32s(2, &more, None);
    let layout = StructLayout { field_row_counts: vec![2, 2] };
    let bytes = second_row_null();
    let node = ArrowExportNode::Struct {
        layout: &layout,
        fields: vec![
            ArrowExportColumn::scalar("id", &id_array),
            ArrowExportColumn::scalar("more", &more_array),
        ],
        validity: Some(ValidityBitmap::new(&bytes, 2)),
    };
    let plan = export_node_plan(&node).unwrap();
    assert_eq!(
        plan.steps,
        vec![
            ExportStep::Struct { rows: 2, validity: Some(vec![true, false]) },
            ExportStep::Scalar { rows: 2 },
            ExportStep::Scalar { rows: 2 },
        ]
    );
}

#[test]
fn struct_fields_must_match_their_layout() {
    let ids = [10i32.to_le_bytes(), 20i32.to_le_bytes()].concat();
    let id_array = int32s(2, &ids, None);
    let three = int32s(3, &[0u8; 12], None);
    let layout = StructLayout { field_row_counts: vec![2, 2] };
    let missing = ArrowExportNode::Struct {
        layout: &layout,
        fields: vec![ArrowExportColumn::scalar("id", &id_array)],
        validity: None,
    };
    assert_eq!(export_node_plan(&missing), Err(CoveError::PageCorrupt));
    let mismatched = ArrowExportNode::Struct {
        layout: &layout,
        fields: vec![
            ArrowExportColumn::scalar("id", &id_array),
            ArrowExportColumn::scalar("three", &three),
        ],
        validity: None,
    };
    assert_eq!(export_node_plan(&mismatched), Err(CoveError::PageCorrupt));
}

#[test]
fn plans_a_map_with_key_step_then_values() {
    let keys_data = [1i32.to_le_bytes(), 2i32.to_le_bytes(), 3i32.to_le_bytes()].concat();
    let keys = int32s(3, &keys_data, None);
    let vals = int32s(3, &keys_data, None);
    let layout = ListLayout { offsets: vec![0, 2, 3] };
    let node = ArrowExportNode::MapEntries {
        layout: &layout,
        keys: Box::new(ArrowExportNode::scalar(&keys)),
        values: Box::new(ArrowExportNode::scalar(&vals)),
        validity: None,
        ordered: true,
    };
    let plan = export_node_plan(&node).unwrap();
    assert_eq!(
        plan.steps,
        vec![
            ExportStep::MapEntries { offsets: vec![0, 2, 3], validity: None, ordered: true },
            ExportStep::Scalar { rows: 3 },
            ExportStep::Scalar { rows: 3 },
        ]
    );
}

#[test]
fn map_keys_must_be_scalar_and_non_null() {
    let keys_data = [1i32.to_le_bytes(), 2i32.to_le_bytes()].concat();
    let bytes = second_row_null();
    let nullable_keys = int32s(2, &keys_data, Some(ValidityBitmap::new(&bytes, 2)));
    let vals = int32s(2, &keys_data, None);
    let layout = ListLayout { offsets: vec![0, 2] };
    let node = ArrowExportNode::MapEntries {
        layout: &layout,
        keys: Box::new(ArrowExportNode::scalar(&nullable_keys)),
        values: Box::new(ArrowExportNode::scalar(&vals)),
        validity: None,
        ordered: false,
    };
    assert!(matches!(export_node_plan(&node), Err(CoveError::UnsupportedEncoding(_))));
    let inner = ListLayout { offsets: vec![0, 2] };
    let nested_keys = ArrowExportNode::List {
        layout: &inner,
        child: Box::new(ArrowExportNode::scalar(&vals)),
        validity: None,
    };
    let node = ArrowExportNode::MapEntries {
        layout: &layout,
        keys: Box::new(nested_keys),
        values: Box::new(ArrowExportNode::scalar(&vals)),
        validity: None,
        ordered: false,
    };
    assert_eq!(export_node_plan(&node), Err(CoveError::PageCorrupt));
}
