use cove_core::canonical::{
    canonicalize_list, canonicalize_map, canonicalize_map_entries, canonicalize_struct,
    encode_i64_width, encode_u64_width, length_prefixed, CanonicalField, CanonicalValue, ValueTag,
};
use cove_core::CoveError;

fn bad_section(r: Result<Vec<u8>, CoveError>) -> bool {
    matches!(r, Err(CoveError::BadSection(_)))
}

#[test]
fn signed_integers_are_eight_le_bytes_after_range_checks() {
    assert_eq!(encode_i64_width(4, -1), Ok((-1i64).to_le_bytes().to_vec()));
    assert_eq!(encode_i64_width(1, -128), Ok((-128i64).to_le_bytes().to_vec()));
    assert_eq!(encode_i64_width(8, i64::MAX as i128), Ok(i64::MAX.to_le_bytes().to_vec()));
    assert!(bad_section(encode_i64_width(1, 128)));
    assert!(bad_section(encode_i64_width(2, -32769)));
    assert!(bad_section(encode_i64_width(3, 0)));
    assert!(bad_section(encode_i64_width(8, i64::MAX as i128 + 1)));
}

#[test]
fn unsigned_integers_are_eight_le_bytes_after_range_checks() {
    assert_eq!(encode_u64_width(8, 42), Ok(42u64.to_le_bytes().to_vec()));
    assert_eq!(encode_u64_width(2, 65535), Ok(65535u64.to_le_bytes().to_vec()));
    assert!(bad_section(encode_u64_width(2, 65536)));
    assert!(bad_section(encode_u64_width(16, 1)));
    assert!(bad_section(encode_u64_width(8, u64::MAX as u128 + 1)));
}

#[test]
fn variable_values_carry_a_leb128_length() {
    assert_eq!(length_prefixed(b"abc"), b"\x03abc".to_vec());
    assert_eq!(length_prefixed(b""), vec![0]);
    let long = vec![7u8; 200];
    let framed = length_prefixed(&long);
    assert_eq!(&framed[..2], &[0xc8, 0x01]);
    assert_eq!(&framed[2..], &long[..]);
}

fn text(t: &str) -> CanonicalValue {
    CanonicalValue::Utf8(t.to_string())
}

fn tag(t: ValueTag) -> u8 {
    t.code() as u8
}

#[test]
fn spec_17_bool_has_no_payload() {
    assert_eq!(CanonicalValue::Bool(true).encode().unwrap(), Vec::<u8>::new());
    assert_eq!(CanonicalValue::Bool(false).encode().unwrap(), Vec::<u8>::new());
}

#[test]
fn spec_17_signed_int_le_round_trip() {
    let v = CanonicalValue::Int { width: 4, value: -1 };
    assert_eq!(v.encode().unwrap(), (-1i64).to_le_bytes().to_vec());
}

#[test]
fn spec_17_unsigned_int_le_round_trip() {
    let v = CanonicalValue::Uint { width: 8, value: 42 };
    assert_eq!(v.encode().unwrap(), 42u64.to_le_bytes().to_vec());
}

#[test]
fn spec_17_float_uses_raw_bits() {
    let v = CanonicalValue::Float32Bits(1.0_f32.to_bits());
    assert_eq!(v.encode().unwrap(), 1.0_f32.to_bits().to_le_bytes().to_vec());
    let w = CanonicalValue::Float64Bits((-2.5_f64).to_bits());
    assert_eq!(w.encode().unwrap(), (-2.5_f64).to_bits().to_le_bytes().to_vec());
}

#[test]
fn spec_17_utf8_is_varint_length_prefixed() {
    assert_eq!(text("abc").encode().unwrap(), b"\x03abc".to_vec());
}

#[test]
fn spec_17_list_uses_tags_and_varint_count() {
    let l = canonicalize_list(&[CanonicalValue::Bool(true), text("a")]).unwrap();
    assert_eq!(l, vec![2, tag(ValueTag::BoolTrue), tag(ValueTag::Utf8), 1, b'a']);
}

#[test]
fn spec_17_6_map_rejects_duplicate_keys() {
    let entries = vec![(text("k"), text("v1")), (text("k"), text("v2"))];
    assert!(matches!(canonicalize_map_entries(&entries), Err(CoveError::BadSchema(_))));
    assert!(matches!(canonicalize_map(&entries), Err(CoveError::BadSchema(_))));
}

#[test]
fn map_keys_must_be_scalar() {
    let entries = vec![(CanonicalValue::List(vec![]), text("v"))];
    assert!(matches!(canonicalize_map_entries(&entries), Err(CoveError::BadSchema(_))));
    assert!(!CanonicalValue::Struct(vec![]).is_scalar_key());
    assert!(text("x").is_scalar_key());
}

#[test]
fn spec_17_6_map_keys_emitted_in_sorted_order() {
    let entries = vec![(text("b"), text("1")), (text("a"), text("2"))];
    let result = canonicalize_map_entries(&entries).unwrap();
    assert_eq!(result[0].0, vec![tag(ValueTag::Utf8), 1, b'a']);
    assert_eq!(result[1].0, vec![tag(ValueTag::Utf8), 1, b'b']);
    assert_eq!(result[0].1, vec![tag(ValueTag::Utf8), 1, b'2']);
}

#[test]
fn map_bytes_do_not_depend_on_entry_order() {
    let forward = vec![(text("a"), text("x")), (text("bb"), text("y")), (text("c"), text("z"))];
    let shuffled = vec![(text("c"), text("z")), (text("a"), text("x")), (text("bb"), text("y"))];
    let bytes = canonicalize_map(&forward).unwrap();
    assert_eq!(canonicalize_map(&shuffled).unwrap(), bytes);
    // Keys sort by their tagged bytes, so the one-byte "c" comes before "bb".
    let mut expected = vec![3u8];
    for (k, v) in [&forward[0], &forward[2], &forward[1]] {
        expected.extend_from_slice(&k.encode_tagged().unwrap());
        expected.extend_from_slice(&v.encode_tagged().unwrap());
    }
    assert_eq!(bytes, expected);
    assert_eq!(canonicalize_map(&[]).unwrap(), vec![0u8]);
    assert_eq!(CanonicalValue::MapEntries(shuffled).encode().unwrap(), bytes);
}

#[test]
fn spec_17_struct_fields_are_sorted_by_id() {
    let encoded = CanonicalValue::Struct(vec![
        CanonicalField { field_id: 7, value: CanonicalValue::Bool(false) },
        CanonicalField { field_id: 1, value: CanonicalValue::Int { width: 8, value: 9 } },
    ])
    .encode()
    .unwrap();
    assert_eq!(encoded[0], 2);
    assert_eq!(encoded[1], 1);
    let mut expected = vec![2u8, 1, tag(ValueTag::Int64)];
    expected.extend_from_slice(&9i64.to_le_bytes());
    expected.extend_from_slice(&[7, tag(ValueTag::BoolFalse)]);
    assert_eq!(encoded, expected);
}

#[test]
fn struct_with_repeated_field_id_is_refused() {
    let fields = vec![
        CanonicalField { field_id: 3, value: CanonicalValue::Null },
        CanonicalField { field_id: 3, value: CanonicalValue::Null },
    ];
    assert!(matches!(canonicalize_struct(&fields), Err(CoveError::BadSchema(_))));
}

#[test]
fn value_tag_is_consistent_with_kind() {
    assert_eq!(CanonicalValue::Bool(false).value_tag(), ValueTag::BoolFalse);
    assert_eq!(text("x").value_tag(), ValueTag::Utf8);
    assert_eq!(CanonicalValue::Int { width: 4, value: 0 }.value_tag(), ValueTag::Int64);
    assert_eq!(ValueTag::Utf8.code(), 12);
}

#[test]
fn out_of_range_integers_fail_inside_nested_values() {
    let bad = CanonicalValue::List(vec![CanonicalValue::Int { width: 1, value: 300 }]);
    assert!(matches!(bad.encode(), Err(CoveError::BadSection(_))));
    let uuid = CanonicalValue::Uuid([7u8; 16]);
    assert_eq!(uuid.encode().unwrap(), vec![7u8; 16]);
    assert_eq!(CanonicalValue::Bytes(vec![1, 2]).encode().unwrap(), vec![2, 1, 2]);
    assert_eq!(CanonicalValue::DateDays(-1).encode().unwrap(), (-1i32).to_le_bytes().to_vec());
    assert_eq!(CanonicalValue::Decimal128(-2).encode().unwrap(), (-2i128).to_le_bytes().to_vec());
}
