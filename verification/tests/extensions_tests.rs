use cove_core::extensions::{ExtensionRegistry, ExtensionRegistryEntry};
use cove_core::CoveError;

fn make_registry_bytes(entries: &[(u64, u64, &[u8], &[u8])]) -> Vec<u8> {
    let mut out = (entries.len() as u32).to_le_bytes().to_vec();
    out.extend_from_slice(&0u32.to_le_bytes());
    for (req_bit, opt_bit, ns, nm) in entries {
        out.extend_from_slice(&1u32.to_le_bytes());
        out.extend_from_slice(&(ns.len() as u16).to_le_bytes());
        out.extend_from_slice(ns);
        out.extend_from_slice(&(nm.len() as u16).to_le_bytes());
        out.extend_from_slice(nm);
        out.extend_from_slice(&1u16.to_le_bytes());
        out.extend_from_slice(&0u16.to_le_bytes());
        out.extend_from_slice(&0u16.to_le_bytes());
        out.extend_from_slice(&req_bit.to_le_bytes());
        out.extend_from_slice(&opt_bit.to_le_bytes());
        out.extend_from_slice(&0u16.to_le_bytes());
        out.extend_from_slice(&0u32.to_le_bytes());
        out.extend_from_slice(&0u32.to_le_bytes());
        out.extend_from_slice(&0u32.to_le_bytes());
    }
    out
}

#[test]
fn empty_registry_parses_and_validates() {
    let bytes = make_registry_bytes(&[]);
    let reg = ExtensionRegistry::parse(&bytes).unwrap();
    assert_eq!(reg.entries.len(), 0);
    assert!(reg.validate_known(true).is_ok());
}

#[test]
fn optional_unknown_extension_accepted() {
    let bytes = make_registry_bytes(&[(0, 0x0020_0000, b"com.example", b"my-ext")]);
    let reg = ExtensionRegistry::parse(&bytes).unwrap();
    assert_eq!(reg.entries.len(), 1);
    assert_eq!(reg.entries[0].required_feature_bit, 0);
    assert!(reg.validate_known(true).is_ok());
}

#[test]
fn required_unknown_extension_rejected() {
    let bytes = make_registry_bytes(&[(0x0020_0000, 0, b"com.example", b"must-have")]);
    let reg = ExtensionRegistry::parse(&bytes).unwrap();
    assert_eq!(reg.validate_known(true), Err(CoveError::BadExtension));
}

#[test]
fn optional_extension_rejected_when_strict() {
    let bytes = make_registry_bytes(&[(0, 0x0020_0000, b"com.example", b"opt-ext")]);
    let reg = ExtensionRegistry::parse(&bytes).unwrap();
    assert_eq!(reg.validate_known(false), Err(CoveError::BadExtension));
}

#[test]
fn truncated_registry_header_rejected() {
    let bytes = 1u32.to_le_bytes().to_vec();
    assert_eq!(
        ExtensionRegistry::parse(&bytes),
        Err(CoveError::BufferTooShort)
    );
}

#[test]
fn truncated_registry_entry_rejected() {
    let mut bytes = 1u32.to_le_bytes().to_vec();
    bytes.extend_from_slice(&0u32.to_le_bytes());
    assert_eq!(
        ExtensionRegistry::parse(&bytes),
        Err(CoveError::BufferTooShort)
    );
}

#[test]
fn extensions_serialize_round_trip() {
    let reg = ExtensionRegistry {
        entries: vec![ExtensionRegistryEntry {
            extension_id: 9,
            namespace: b"org.example".to_vec(),
            name: b"feature-x".to_vec(),
            version_major: 1,
            version_minor: 2,
            extension_kind: 3,
            required_feature_bit: 0x1000,
            optional_feature_bit: 0,
            fallback_kind: 0,
            fallback_ref: 0,
            payload_ref: 11,
            checksum: 0xDEADBEEF,
        }],
    };
    let bytes = reg.serialize().unwrap();
    assert_eq!(ExtensionRegistry::parse(&bytes).unwrap(), reg);
}

#[test]
fn serialize_rejects_namespace_longer_than_u16() {
    let reg = ExtensionRegistry {
        entries: vec![ExtensionRegistryEntry {
            extension_id: 9,
            namespace: vec![b'a'; usize::from(u16::MAX) + 1],
            name: b"feature-x".to_vec(),
            version_major: 1,
            version_minor: 2,
            extension_kind: 3,
            required_feature_bit: 0x1000,
            optional_feature_bit: 0,
            fallback_kind: 0,
            fallback_ref: 0,
            payload_ref: 11,
            checksum: 0xDEADBEEF,
        }],
    };

    assert!(matches!(reg.serialize(), Err(CoveError::BadSection(_))));
}

#[test]
fn serialized_entry_has_expected_layout() {
    let reg = ExtensionRegistry {
        entries: vec![ExtensionRegistryEntry {
            extension_id: 1,
            namespace: b"ns".to_vec(),
            name: b"n".to_vec(),
            version_major: 1,
            version_minor: 0,
            extension_kind: 0,
            required_feature_bit: 0,
            optional_feature_bit: 7,
            fallback_kind: 0,
            fallback_ref: 0,
            payload_ref: 0,
            checksum: 0,
        }],
    };
    let bytes = reg.serialize().unwrap();
    assert_eq!(bytes, make_registry_bytes(&[(0, 7, b"ns", b"n")]));
    assert_eq!(bytes.len(), 8 + 4 + 2 + 2 + 2 + 1 + 36);
}
