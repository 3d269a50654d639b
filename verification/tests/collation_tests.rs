use cove_core::collation::{
    compare_bytes, v1_collations, CollationEntry, CollationKind, CollationRegistry, Ordering3,
};
use cove_core::CoveError;

fn make_registry_bytes(entries: &[(&str, &[u8])]) -> Vec<u8> {
    let mut out = (entries.len() as u32).to_le_bytes().to_vec();
    for (name, meta) in entries {
        out.extend_from_slice(&(name.len() as u16).to_le_bytes());
        out.extend_from_slice(name.as_bytes());
        out.extend_from_slice(&(meta.len() as u16).to_le_bytes());
        out.extend_from_slice(meta);
    }
    out
}

#[test]
fn collation_serialize_round_trip() {
    let reg = CollationRegistry {
        entries: vec![
            CollationEntry {
                name: "utf8-bytewise".into(),
                metadata: vec![],
                kind: Some(CollationKind::Utf8Bytewise),
            },
            CollationEntry {
                name: "vendor-x".into(),
                metadata: vec![1, 2, 3, 4],
                kind: None,
            },
        ],
    };
    let bytes = reg.serialize();
    let back = CollationRegistry::parse(&bytes).unwrap();
    assert_eq!(back.entries.len(), 2);
    assert_eq!(back.entries[0].name, "utf8-bytewise");
    assert_eq!(back.entries[1].metadata, vec![1, 2, 3, 4]);
}

#[test]
fn serialize_empty() {
    let reg = CollationRegistry::default();
    let bytes = reg.serialize();
    assert_eq!(bytes, vec![0u8; 4]);
    assert!(CollationRegistry::parse(&bytes).unwrap().entries.is_empty());
}

#[test]
fn empty_registry_parses() {
    let reg = CollationRegistry::parse(&make_registry_bytes(&[])).unwrap();
    assert_eq!(reg.entries.len(), 0);
    assert!(reg.all_known());
}

#[test]
fn spec_22_v1_collations_all_resolve() {
    for c in v1_collations() {
        assert_eq!(CollationKind::from_name(c.name()), Some(c));
    }
}

#[test]
fn spec_22_none_supports_only_equality() {
    let none = CollationKind::EqualityOnly;
    assert!(!none.supports_ordering());
    assert_eq!(none.compare(b"a", b"a"), Ok(Ordering3::Equal));
    assert!(matches!(none.compare(b"a", b"b"), Err(CoveError::BadStats)));
}

#[test]
fn utf8_bytewise_orders_strings_lexicographically() {
    let c = CollationKind::Utf8Bytewise;
    assert_eq!(c.compare(b"abc", b"abd"), Ok(Ordering3::Less));
    assert_eq!(c.compare(b"abc", b"abc"), Ok(Ordering3::Equal));
}

#[test]
fn unsigned_fixed_bytes_orders_by_byte_lex() {
    let c = CollationKind::UnsignedFixedBytes;
    assert_eq!(
        c.compare(&[0x01, 0x00], &[0x00, 0xff]),
        Ok(Ordering3::Greater)
    );
}

#[test]
fn unsigned_fixed_bytes_rejects_mismatched_widths() {
    let c = CollationKind::UnsignedFixedBytes;
    assert!(matches!(c.compare(&[0x01], &[0x01, 0x00]), Err(CoveError::BadStats)));
    assert_eq!(c.compare(&[0x02, 0x00], &[0x02, 0x00]), Ok(Ordering3::Equal));
}

#[test]
fn signed_numeric_handles_negative_values() {
    let c = CollationKind::SignedNumeric;
    let neg_one = (-1i32).to_le_bytes();
    let zero = 0i32.to_le_bytes();
    assert_eq!(c.compare(&neg_one, &zero), Ok(Ordering3::Less));
}

#[test]
fn unsigned_numeric_orders_by_value_not_bytes() {
    let c = CollationKind::UnsignedNumeric;
    let small = 1u16.to_le_bytes();
    let big = 256u16.to_le_bytes();
    assert_eq!(c.compare(&small, &big), Ok(Ordering3::Less));
}

#[test]
fn timestamp_chronological_uses_signed_compare() {
    let c = CollationKind::TimestampChronological;
    let earlier = (-100i64).to_le_bytes();
    let later = 100i64.to_le_bytes();
    assert_eq!(c.compare(&earlier, &later), Ok(Ordering3::Less));
}

#[test]
fn known_collation_check() {
    assert!(CollationRegistry::is_known_collation("utf8-bytewise"));
    assert!(!CollationRegistry::is_known_collation("utf8-icu"));
}

#[test]
fn registry_with_v1_entries_resolves_all() {
    let bytes = make_registry_bytes(&[("utf8-bytewise", b""), ("signed-numeric", b"")]);
    let reg = CollationRegistry::parse(&bytes).unwrap();
    assert_eq!(reg.entries.len(), 2);
    assert!(reg.all_known());
}

#[test]
fn registry_with_unknown_entry_is_not_all_known() {
    let bytes = make_registry_bytes(&[("vendor-magic", b"")]);
    let reg = CollationRegistry::parse(&bytes).unwrap();
    assert!(!reg.all_known());
}

#[test]
fn numeric_collations_reject_mismatched_or_odd_widths() {
    let c = CollationKind::UnsignedNumeric;
    assert_eq!(c.compare(&[1, 2, 3], &[1, 2, 3]), Err(CoveError::BadStats));
    assert_eq!(c.compare(&[1, 2], &[1, 2, 3, 4]), Err(CoveError::BadStats));
    let s = CollationKind::SignedNumeric;
    let a = i128::MIN.to_le_bytes();
    let b = i128::MAX.to_le_bytes();
    assert_eq!(s.compare(&a, &b), Ok(Ordering3::Less));
    assert_eq!(s.compare(&b, &a), Ok(Ordering3::Greater));
    let u = CollationKind::UnsignedNumeric;
    assert_eq!(u.compare(&u128::MAX.to_le_bytes(), &0u128.to_le_bytes()), Ok(Ordering3::Greater));
    assert_eq!(s.compare(&[0x80], &[0x7f]), Ok(Ordering3::Less));
}

#[test]
fn byte_order_places_prefix_first_and_swaps_symmetrically() {
    assert_eq!(compare_bytes(b"ab", b"abc"), Ordering3::Less);
    assert_eq!(compare_bytes(b"abc", b"ab"), Ordering3::Greater);
    assert_eq!(compare_bytes(b"", b""), Ordering3::Equal);
}

#[test]
fn registry_rejects_invalid_utf8_and_truncation() {
    let mut bytes = 1u32.to_le_bytes().to_vec();
    bytes.extend_from_slice(&2u16.to_le_bytes());
    bytes.extend_from_slice(&[0xff, 0xfe]);
    bytes.extend_from_slice(&0u16.to_le_bytes());
    assert!(matches!(CollationRegistry::parse(&bytes), Err(CoveError::BadSection(_))));
    assert!(matches!(CollationRegistry::parse(&[1, 0]), Err(CoveError::BufferTooShort)));
    let mut short = 1u32.to_le_bytes().to_vec();
    short.extend_from_slice(&5u16.to_le_bytes());
    short.extend_from_slice(b"ab");
    assert!(matches!(CollationRegistry::parse(&short), Err(CoveError::BufferTooShort)));
}
