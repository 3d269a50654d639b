use cove_core::array::EncodedArray;
use cove_core::arrow_export::{
    ArrowDecimalContext, ArrowDictionaryPolicy, ArrowExportOptions, ArrowExportReport,
    ArrowFidelitySeverity, ArrowVarBytesExportPolicy, BytePayloadLayout,
};
use cove_core::arrow_types::{
    arrow_data_type, arrow_data_type_for_column_export_options,
    arrow_data_type_for_export_options, arrow_data_type_with_report, decoded_arrow_data_type,
    export_route, page_exports_keys, ArrowColumnType, ArrowType, ExportRoute,
};
use cove_core::constants::{CoveEncodingKind, CoveLogicalType, CovePhysicalKind};
use cove_core::CoveError;

#[test]
fn plain_types_map_one_to_one() {
    assert_eq!(arrow_data_type(CoveLogicalType::Bool), Ok(ArrowType::Boolean));
    assert_eq!(arrow_data_type(CoveLogicalType::DateDays), Ok(ArrowType::Date32));
    assert_eq!(arrow_data_type(CoveLogicalType::Json), Ok(ArrowType::Utf8));
    assert_eq!(arrow_data_type(CoveLogicalType::Uuid), Ok(ArrowType::FixedSizeBinary(16)));
    assert!(matches!(
        arrow_data_type(CoveLogicalType::Null),
        Err(CoveError::UnsupportedEncoding(_))
    ));
}

#[test]
fn decimals_without_context_are_lossy() {
    let options = ArrowExportOptions::default();
    let mut report = ArrowExportReport::default();
    assert_eq!(
        arrow_data_type_with_report(CoveLogicalType::Decimal64, &options, &mut report),
        Ok(ArrowType::Int64)
    );
    assert_eq!(report.issues.len(), 1);
    assert_eq!(report.issues[0].severity, ArrowFidelitySeverity::Lossy);
    assert!(report.has_lossy_or_unsupported());

    let with_context = ArrowExportOptions {
        decimal: Some(ArrowDecimalContext { precision: 18, scale: 2 }),
        ..ArrowExportOptions::default()
    };
    let result = arrow_data_type_for_export_options(CoveLogicalType::Decimal128, with_context).unwrap();
    assert_eq!(result.value, ArrowType::Decimal128(18, 2));
    assert!(result.report.issues.is_empty());
}

#[test]
fn views_and_extension_notes() {
    let views = ArrowExportOptions {
        varbytes_policy: ArrowVarBytesExportPolicy::View,
        ..ArrowExportOptions::default()
    };
    let result = arrow_data_type_for_export_options(CoveLogicalType::Json, views).unwrap();
    assert_eq!(result.value, ArrowType::Utf8View);
    assert_eq!(
        result.report.issues[0].message,
        "Json exported as Utf8View without Arrow extension metadata"
    );
    assert_eq!(
        arrow_data_type_for_export_options(CoveLogicalType::Binary, views).unwrap().value,
        ArrowType::BinaryView
    );
    let uuid = arrow_data_type_for_export_options(CoveLogicalType::Uuid, ArrowExportOptions::default())
        .unwrap();
    assert_eq!(uuid.report.issues[0].severity, ArrowFidelitySeverity::Informational);
}

#[test]
fn dictionary_keys_for_filecode_columns() {
    let keys = ArrowExportOptions {
        dictionary_policy: ArrowDictionaryPolicy::DictionaryKeys,
        ..ArrowExportOptions::default()
    };
    let result = arrow_data_type_for_column_export_options(
        CoveLogicalType::Utf8,
        CovePhysicalKind::FileCode,
        true,
        keys,
    )
    .unwrap();
    assert_eq!(result.value, ArrowColumnType::DictionaryKeys(ArrowType::Utf8));
    assert_eq!(result.report.issues[0].message, "FileCode values exported as Arrow dictionary keys");
    let plain = arrow_data_type_for_column_export_options(
        CoveLogicalType::Utf8,
        CovePhysicalKind::FileCode,
        false,
        keys,
    )
    .unwrap();
    assert_eq!(plain.value, ArrowColumnType::Plain(ArrowType::Utf8));
}

#[test]
fn decoded_type_refuses_lossy_exports() {
    assert_eq!(decoded_arrow_data_type(CoveLogicalType::Int32), Ok(ArrowType::Int32));
    assert_eq!(decoded_arrow_data_type(CoveLogicalType::Uuid), Ok(ArrowType::FixedSizeBinary(16)));
    assert!(matches!(
        decoded_arrow_data_type(CoveLogicalType::Decimal64),
        Err(CoveError::UnsupportedEncoding(_))
    ));
    assert!(matches!(
        decoded_arrow_data_type(CoveLogicalType::Json),
        Err(CoveError::UnsupportedEncoding(_))
    ));
}

#[test]
fn export_routes_follow_the_page_layout() {
    let data: [u8; 0] = [];
    let page = |logical, physical, encoding| {
        EncodedArray::new(logical, physical, 0, encoding, None, &data, None)
    };
    let varbytes = page(CoveLogicalType::Utf8, CovePhysicalKind::VarBytes, CoveEncodingKind::VarBytes);
    assert_eq!(export_route(&varbytes, ArrowType::Utf8), ExportRoute::Bytes(BytePayloadLayout::U32LengthPrefixed));
    assert_eq!(export_route(&varbytes, ArrowType::Int64), ExportRoute::Rows);
    let canonical = page(CoveLogicalType::Json, CovePhysicalKind::VarBytes, CoveEncodingKind::Canonical);
    assert_eq!(
        export_route(&canonical, ArrowType::Utf8View),
        ExportRoute::Bytes(BytePayloadLayout::Leb128LengthPrefixed)
    );
    let codes = page(CoveLogicalType::Int64, CovePhysicalKind::NumCode, CoveEncodingKind::NumCode);
    assert_eq!(export_route(&codes, ArrowType::TimestampNanos), ExportRoute::NumCodes);
    assert_eq!(export_route(&codes, ArrowType::Int32), ExportRoute::Rows);
    let flags = page(CoveLogicalType::Bool, CovePhysicalKind::FixedBytes, CoveEncodingKind::PlainFixed);
    assert_eq!(export_route(&flags, ArrowType::Boolean), ExportRoute::PlainBooleans);
    assert_eq!(export_route(&flags, ArrowType::UInt8), ExportRoute::PlainFixed);
    let varints = page(CoveLogicalType::UInt32, CovePhysicalKind::NumCode, CoveEncodingKind::PlainVarint);
    assert_eq!(export_route(&varints, ArrowType::UInt32), ExportRoute::Varints);
    assert!(!page_exports_keys(&varints, ArrowExportOptions::default()));
}
