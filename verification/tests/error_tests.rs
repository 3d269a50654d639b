use std::collections::BTreeSet;

use cove_core::CoveError;

#[test]
fn spec_76_errors_expose_stable_codes() {
    assert_eq!(CoveError::BadMagic.spec_code(), Some("COVE_E_BAD_MAGIC"));
    assert_eq!(
        CoveError::UnknownRequiredFeature(1).spec_code(),
        Some("COVE_E_UNKNOWN_REQUIRED_FEATURE")
    );
    assert_eq!(
        CoveError::BufferTooShort.spec_code(),
        Some("COVE_E_OFFSET_RANGE")
    );
    assert_eq!(
        CoveError::ReservedNotZero.spec_code(),
        Some("COVE_E_BAD_SECTION")
    );
    assert_eq!(
        CoveError::MapInvalid.spec_code(),
        Some("COVE_E_MAP_INVALID")
    );
    assert_eq!(CoveError::Io("disk".into()).spec_code(), None);
}

#[test]
fn normalized_structural_errors_render_with_spec_codes() {
    assert_eq!(
        CoveError::BufferTooShort.message(),
        "COVE_E_OFFSET_RANGE: buffer too short to parse structure"
    );
    assert_eq!(
        CoveError::ReservedNotZero.message(),
        "COVE_E_BAD_SECTION: reserved field is non-zero"
    );
}

#[test]
fn spec_76_code_inventory_is_unique() {
    let all = CoveError::all_spec_codes();
    let unique = all.iter().copied().collect::<BTreeSet<_>>();
    assert_eq!(unique.len(), all.len());
    assert!(unique.contains("COVE_E_BAD_MAGIC"));
    assert!(unique.contains("COVE_E_SIDECAR_STALE"));
    assert!(unique.contains("COVE_E_MAP_EVIDENCE_INVALID"));
}

#[test]
fn error_messages_carry_payloads() {
    assert_eq!(
        CoveError::UnknownRequiredFeature(0x20).message(),
        "COVE_E_UNKNOWN_REQUIRED_FEATURE: unknown required feature bits 0x0000000000000020"
    );
    assert_eq!(
        CoveError::BadSection("bad".into()).message(),
        "COVE_E_BAD_SECTION: bad"
    );
    assert_eq!(CoveError::Io("disk".into()).message(), "I/O error: disk");
    assert_eq!(
        CoveError::UnsupportedEncoding("Sequence".into()).message(),
        "COVE_E_UNSUPPORTED_ENCODING: Sequence"
    );
}

#[test]
fn every_spec_code_belongs_to_the_inventory() {
    let all = CoveError::all_spec_codes();
    let errors = vec![
        CoveError::BadMagic,
        CoveError::OffsetRange,
        CoveError::BufferTooShort,
        CoveError::BadSchema("x".into()),
        CoveError::PageCorrupt,
        CoveError::MapEvidenceInvalid,
    ];
    for e in errors {
        assert!(all.contains(&e.spec_code().unwrap()));
    }
}
