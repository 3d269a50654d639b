use cove_core::encoding::nested::{validate_no_duplicate_keys, ListLayout, StructLayout};
use cove_core::CoveError;

#[test]
fn list_offsets_must_start_at_zero() {
    let l = ListLayout {
        offsets: vec![1, 2],
    };
    assert_eq!(l.validate(), Err(CoveError::PageCorrupt));
}

#[test]
fn list_offsets_must_be_monotonic() {
    let l = ListLayout {
        offsets: vec![0, 5, 4],
    };
    assert_eq!(l.validate(), Err(CoveError::PageCorrupt));
}

#[test]
fn list_valid() {
    let l = ListLayout {
        offsets: vec![0, 3, 3, 7],
    };
    l.validate().unwrap();
    assert_eq!(l.row_count(), 3);
}

#[test]
fn struct_fields_must_share_row_count() {
    let s = StructLayout {
        field_row_counts: vec![10, 9],
    };
    assert_eq!(s.validate(), Err(CoveError::PageCorrupt));
}

#[test]
fn map_duplicate_key_within_value_rejected() {
    let keys = vec![b"a".to_vec(), b"a".to_vec()];
    assert_eq!(
        validate_no_duplicate_keys(&keys),
        Err(CoveError::PageCorrupt)
    );
}

#[test]
fn map_distinct_keys_ok() {
    let keys = vec![b"a".to_vec(), b"b".to_vec(), b"c".to_vec()];
    validate_no_duplicate_keys(&keys).unwrap();
}

#[test]
fn empty_layouts_are_rejected_and_counted() {
    let l = ListLayout { offsets: vec![] };
    assert_eq!(l.validate(), Err(CoveError::PageCorrupt));
    assert_eq!(l.row_count(), 0);
    let s = StructLayout { field_row_counts: vec![] };
    assert_eq!(s.validate(), Err(CoveError::PageCorrupt));
    let ok = StructLayout { field_row_counts: vec![4, 4, 4] };
    assert!(ok.validate().is_ok());
    let keys = vec![b"x".to_vec(), b"y".to_vec(), b"x".to_vec()];
    assert_eq!(validate_no_duplicate_keys(&keys), Err(CoveError::PageCorrupt));
    assert!(validate_no_duplicate_keys(&[]).is_ok());
}
