use cove_core::validity::{
    arrow_validity_to_cove_null, bitmap_len, cove_null_to_arrow_validity, ValidityBitmap,
    ValidityBitmapBuilder,
};
use cove_core::CoveError;

#[test]
fn round_trip_inversion_preserves_payload() {
    let cove = vec![0b0000_1010u8]; // rows 1 and 3 are null
    let arrow = cove_null_to_arrow_validity(&cove, 8).unwrap();
    // Arrow: bits 1 and 3 should be 0 (invalid), others 1 (valid).
    assert_eq!(arrow[0], !cove[0]);
    let back = arrow_validity_to_cove_null(&arrow, 8).unwrap();
    assert_eq!(back, cove);
}

#[test]
fn partial_byte_only_iterates_row_count() {
    let cove = vec![0b1111_0000u8];
    let arrow = cove_null_to_arrow_validity(&cove, 4).unwrap();
    // Only the lower 4 bits of byte 0 are touched; high bits stay 0.
    assert_eq!(arrow[0] & 0b0000_1111, 0b0000_1111);
    assert_eq!(arrow[0] & 0b1111_0000, 0);
}

#[test]
fn rejects_short_cove_null_bitmap() {
    assert!(matches!(cove_null_to_arrow_validity(&[], 1), Err(CoveError::BufferTooShort)));
}

#[test]
fn rejects_short_arrow_validity_bitmap() {
    assert!(matches!(arrow_validity_to_cove_null(&[], 1), Err(CoveError::BufferTooShort)));
}

#[test]
fn conversion_output_has_exactly_the_needed_bytes() {
    let cove = vec![0u8, 0, 0];
    assert_eq!(cove_null_to_arrow_validity(&cove, 9).unwrap(), vec![0xFF, 0x01]);
    assert_eq!(cove_null_to_arrow_validity(&cove, 0).unwrap(), Vec::<u8>::new());
    assert_eq!(bitmap_len(9), 2);
    assert_eq!(bitmap_len(16), 2);
}

#[test]
fn builder_marks_rows_null_and_bitmap_reads_them() {
    let mut builder = ValidityBitmapBuilder::new(10).unwrap();
    builder.set_null(0).unwrap();
    builder.set_null(9).unwrap();
    assert_eq!(builder.set_null(10), Err(CoveError::OffsetRange));
    let bytes = builder.into_bytes();
    assert_eq!(bytes, vec![0b0000_0001, 0b0000_0010]);
    let bm = ValidityBitmap::new(&bytes, 10);
    assert_eq!(bm.is_null(0), Ok(true));
    assert_eq!(bm.is_null(1), Ok(false));
    assert_eq!(bm.is_valid(1), Ok(true));
    assert_eq!(bm.is_null(9), Ok(true));
    assert_eq!(bm.is_null(10), Err(CoveError::OffsetRange));
    assert_eq!(bm.null_count(), Ok(2));
    assert_eq!(bm.validate_len(10), Ok(()));
    assert_eq!(bm.validate_len(17), Err(CoveError::BufferTooShort));
}

#[test]
fn short_bitmap_reports_buffer_too_short() {
    let bytes = [0u8];
    let bm = ValidityBitmap::new(&bytes, 9);
    assert_eq!(bm.is_null(8), Err(CoveError::BufferTooShort));
    assert_eq!(bm.null_count(), Err(CoveError::BufferTooShort));
}
