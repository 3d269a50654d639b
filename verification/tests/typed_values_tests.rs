use cove_core::array::CoveArrayValue;
use cove_core::arrow_export::{ArrowDecimalContext, ArrowExportOptions};
use cove_core::arrow_types::ArrowType;
use cove_core::constants::CoveLogicalType;
use cove_core::dictionary::{DictionaryValue, FileDictionary};
use cove_core::typed_values::{dictionary_typed_values, typed_values, TypedValues};
use cove_core::CoveError;

#[test]
fn integers_are_narrowed_to_the_arrow_type() {
    let rows = [CoveArrayValue::NumCode(5), CoveArrayValue::Null, CoveArrayValue::Int64(-7)];
    assert_eq!(
        typed_values(CoveLogicalType::Int8, &rows, ArrowType::Int8),
        Ok(TypedValues::Signed(vec![Some(5), None, Some(-7)]))
    );
    let wide = [CoveArrayValue::Int64(200)];
    assert_eq!(typed_values(CoveLogicalType::Int16, &wide, ArrowType::Int8), Err(CoveError::PageCorrupt));
    assert_eq!(
        typed_values(CoveLogicalType::Int16, &wide, ArrowType::Int16),
        Ok(TypedValues::Signed(vec![Some(200)]))
    );
    let codes = [CoveArrayValue::NumCode(256), CoveArrayValue::FileCode(3)];
    assert_eq!(typed_values(CoveLogicalType::UInt16, &codes, ArrowType::UInt8), Err(CoveError::PageCorrupt));
    assert_eq!(
        typed_values(CoveLogicalType::UInt16, &codes, ArrowType::UInt16),
        Ok(TypedValues::Unsigned(vec![Some(256), Some(3)]))
    );
    let negative = [CoveArrayValue::Int64(-1)];
    assert_eq!(
        typed_values(CoveLogicalType::UInt64, &negative, ArrowType::UInt64),
        Err(CoveError::PageCorrupt)
    );
}

#[test]
fn booleans_floats_and_decimals() {
    let rows = [CoveArrayValue::Boolean(true), CoveArrayValue::Bytes(&[0]), CoveArrayValue::Null];
    assert_eq!(
        typed_values(CoveLogicalType::Bool, &rows, ArrowType::Boolean),
        Ok(TypedValues::Booleans(vec![Some(true), Some(false), None]))
    );
    let one = 1.0f32.to_le_bytes();
    let rows = [CoveArrayValue::Bytes(&one), CoveArrayValue::Null];
    assert_eq!(
        typed_values(CoveLogicalType::Float32, &rows, ArrowType::Float32),
        Ok(TypedValues::FloatBits(vec![Some(u64::from(1.0f32.to_bits())), None]))
    );
    assert_eq!(typed_values(CoveLogicalType::Float64, &rows, ArrowType::Float64), Err(CoveError::PageCorrupt));
    let half = 0.5f64.to_le_bytes();
    let rows = [CoveArrayValue::Bytes(&half)];
    assert_eq!(
        typed_values(CoveLogicalType::Float64, &rows, ArrowType::Float64),
        Ok(TypedValues::FloatBits(vec![Some(0.5f64.to_bits())]))
    );
    let d = (-5i128).to_le_bytes();
    let rows = [CoveArrayValue::Bytes(&d)];
    assert_eq!(
        typed_values(CoveLogicalType::Decimal128, &rows, ArrowType::Decimal128(10, 2)),
        Ok(TypedValues::Decimals(vec![Some(-5)]))
    );
}

#[test]
fn strings_and_fixed_size_binaries_are_checked() {
    let bad = [0xffu8, 0xfe];
    let rows = [CoveArrayValue::Bytes(b"ok"), CoveArrayValue::Bytes(&bad)];
    assert_eq!(
        typed_values(CoveLogicalType::Utf8, &rows, ArrowType::Utf8),
        Err(CoveError::BadSection("Arrow Utf8 export requires valid UTF-8".to_string()))
    );
    assert_eq!(
        typed_values(CoveLogicalType::Utf8, &rows, ArrowType::Utf8View),
        Err(CoveError::BadSection("Arrow Utf8View export requires valid UTF-8".to_string()))
    );
    assert_eq!(
        typed_values(CoveLogicalType::Binary, &rows, ArrowType::Binary),
        Ok(TypedValues::Bytes(vec![Some(b"ok".to_vec()), Some(bad.to_vec())]))
    );
    assert_eq!(
        typed_values(CoveLogicalType::Uuid, &rows, ArrowType::FixedSizeBinary(2)),
        Ok(TypedValues::Bytes(vec![Some(b"ok".to_vec()), Some(bad.to_vec())]))
    );
    assert_eq!(
        typed_values(CoveLogicalType::Uuid, &rows, ArrowType::FixedSizeBinary(3)),
        Err(CoveError::PageCorrupt)
    );
    assert_eq!(
        typed_values(CoveLogicalType::Uuid, &[], ArrowType::FixedSizeBinary(-1)),
        Err(CoveError::PageCorrupt)
    );
}

#[test]
fn dictionary_entries_are_exported_in_code_order() {
    let dictionary = FileDictionary::new(vec![
        DictionaryValue::RawBytes(vec![1, b'a']),
        DictionaryValue::RawBytes(vec![2, b'b', b'c']),
    ]);
    let (t, values) =
        dictionary_typed_values(CoveLogicalType::Utf8, &dictionary, ArrowExportOptions::default()).unwrap();
    assert_eq!(t, ArrowType::Utf8);
    assert_eq!(values, TypedValues::Bytes(vec![Some(b"a".to_vec()), Some(b"bc".to_vec())]));

    let redacted = FileDictionary::new(vec![DictionaryValue::RedactedPresent]);
    assert_eq!(
        dictionary_typed_values(CoveLogicalType::Utf8, &redacted, ArrowExportOptions::default()),
        Err(CoveError::RedactionPolicy)
    );
    let empty = FileDictionary::new(Vec::new());
    let with_decimal = ArrowExportOptions {
        decimal: Some(ArrowDecimalContext { precision: 10, scale: 2 }),
        ..ArrowExportOptions::default()
    };
    assert!(matches!(
        dictionary_typed_values(CoveLogicalType::Decimal128, &empty, with_decimal),
        Err(CoveError::UnsupportedEncoding(_))
    ));
    assert_eq!(
        dictionary_typed_values(CoveLogicalType::Decimal128, &empty, ArrowExportOptions::default()),
        Ok((ArrowType::FixedSizeBinary(16), TypedValues::Bytes(Vec::new())))
    );
}
