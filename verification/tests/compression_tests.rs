use cove_core::compression::{
    lz4_runs_fit, payload_raw_bytes, section_payload, section_payload_checked, section_spec_payload,
    section_spec_payload_checked, CoveSectionEntryV1, LZ4_MAX_FF_RUN,
    CoveSectionSpecV1,
};
use cove_core::CoveError;

fn make_entry(
    offset: u64,
    length: u64,
    uncompressed_length: u64,
    compression: u8,
) -> CoveSectionEntryV1 {
    CoveSectionEntryV1 {
        section_id: 1,
        section_kind: 1,
        profile: 0,
        flags: 0,
        offset,
        length,
        uncompressed_length,
        item_count: 0,
        row_count: 0,
        compression,
        encryption: 0,
        alignment_log2: 0,
        reserved0: 0,
        required_features: 0,
        optional_features: 0,
        crc32c: 0,
        reserved1: 0,
    }
}

fn make_spec(
    offset: u64,
    length: u64,
    uncompressed_length: u64,
    compression: u8,
) -> CoveSectionSpecV1 {
    CoveSectionSpecV1 {
        offset,
        length,
        uncompressed_length,
        compression,
        encryption: 0,
        alignment_log2: 0,
        flags: 0,
        crc32c: 0,
        reserved: 0,
    }
}

#[test]
fn none_compression_returns_borrowed_slice() {
    let data = b"hello world";
    let entry = make_entry(0, 5, 5, 0);
    let result = section_payload(data, &entry).unwrap();
    assert_eq!(&*result, b"hello");
}

#[test]
fn section_spec_none_returns_borrowed_slice() {
    let data = b"hello world";
    let spec = make_spec(6, 5, 5, 0);
    let result = section_spec_payload(data, &spec).unwrap();
    assert_eq!(&*result, b"world");
}

#[test]
fn uncompressed_length_mismatch_rejected() {
    let data = b"hello world";
    let entry = make_entry(0, 5, 6, 0);
    assert!(matches!(section_payload(data, &entry), Err(CoveError::BadSection(_))));
}

#[test]
fn out_of_bounds_section_rejected() {
    let data = b"hi";
    let entry = make_entry(0, 10, 10, 0);
    assert_eq!(section_payload(data, &entry), Err(CoveError::OffsetRange));
}

#[test]
fn lz4_round_trip_decompresses_payload() {
    let payload = b"Cove Format reference implementation showcase payload payload payload";
    let compressed = lz4_flex::block::compress(payload);
    let mut file = vec![0u8; 16];
    let offset = file.len() as u64;
    file.extend_from_slice(&compressed);
    let entry = make_entry(offset, compressed.len() as u64, payload.len() as u64, 1);
    let result = section_payload(&file, &entry).unwrap();
    assert_eq!(&*result, payload);
}

#[test]
fn lz4_corrupt_payload_rejected() {
    let entry = make_entry(0, 4, 1024, 1);
    let bytes = [0x00u8, 0x00, 0x00, 0x00];
    assert!(matches!(section_payload(&bytes, &entry), Err(CoveError::BadSection(_))));
}

#[test]
fn borrowed_result_for_uncompressed_codec() {
    let data = b"hello world";
    let entry = make_entry(6, 5, 5, 0);
    let result = section_payload(data, &entry).unwrap();
    assert!(matches!(result, std::borrow::Cow::Borrowed(_)));
}

#[test]
fn unknown_codec_rejected() {
    let data = b"hello world";
    let entry = make_entry(0, 5, 5, 9);
    assert!(matches!(section_payload(data, &entry), Err(CoveError::BadSection(_))));
}

#[test]
fn offset_overflow_is_arith_overflow() {
    let data = b"hello";
    assert_eq!(payload_raw_bytes(data, u64::MAX, 2), Err(CoveError::ArithOverflow));
}

#[test]
fn zstd_garbage_rejected() {
    let data = [1u8, 2, 3, 4, 5, 6, 7, 8];
    let entry = make_entry(0, 8, 8, 2);
    assert!(matches!(section_payload(&data, &entry), Err(CoveError::BadSection(_))));
}

#[test]
fn zstd_raw_block_frame_decodes() {
    // A single-segment frame holding one raw (stored) block with "abc".
    let frame = [
        0x28u8, 0xB5, 0x2F, 0xFD, // magic
        0x20, // frame header descriptor: single segment, 1-byte content size
        0x03, // content size = 3
        0x19, 0x00, 0x00, // last block, raw, size 3
        b'a', b'b', b'c',
    ];
    let entry = make_entry(0, frame.len() as u64, 3, 2);
    let result = section_payload(&frame, &entry).unwrap();
    assert_eq!(&*result, b"abc");
    let wrong = make_entry(0, frame.len() as u64, 4, 2);
    assert!(matches!(section_payload(&frame, &wrong), Err(CoveError::BadSection(_))));
}

#[test]
fn lz4_run_check_rejects_only_overlong_ff_runs() {
    assert!(lz4_runs_fit(&[0xFF, 0xFF, 0x00, 0xFF]));
    assert!(lz4_runs_fit(&[]));
    let mut long = vec![0xFFu8; LZ4_MAX_FF_RUN - 1];
    assert!(lz4_runs_fit(&long));
    long.push(0xFF);
    assert!(!lz4_runs_fit(&long));
}

#[test]
fn checked_payload_refuses_overlong_lz4_runs_and_decodes_the_rest() {
    let mut data = vec![0xF0u8];
    data.extend(std::iter::repeat(0xFFu8).take(LZ4_MAX_FF_RUN));
    let entry = make_entry(0, data.len() as u64, 16, 1);
    assert!(matches!(section_payload_checked(&data, &entry), Err(CoveError::BadSection(_))));
    let spec = make_spec(0, data.len() as u64, 16, 1);
    assert!(matches!(section_spec_payload_checked(&data, &spec), Err(CoveError::BadSection(_))));
    let plain = b"hello world";
    let entry = make_entry(0, 5, 5, 0);
    assert_eq!(&*section_payload_checked(plain, &entry).unwrap(), b"hello");
}
