use cove_core::checksum::crc32c;
use cove_core::constants::DigestAlgorithm;
use cove_core::digest::{
    compute_digest, verify_digest, DigestEntry, DigestManifest, DigestScope, DigestTargetKind,
    DIGEST_ENTRY_FIXED_LEN, DIGEST_MANIFEST_HEADER_LEN,
};
use cove_core::CoveError;

fn section_entry(section_id: u32, payload: &[u8]) -> DigestEntry {
    DigestEntry {
        target_kind: DigestTargetKind::Section,
        section_id,
        local_id: 0,
        offset: 0,
        length: payload.len() as u64,
        digest: compute_digest(DigestAlgorithm::Sha256, payload).unwrap(),
    }
}

fn manifest(entries: Vec<DigestEntry>) -> DigestManifest {
    DigestManifest {
        algorithm: DigestAlgorithm::Sha256,
        scope: DigestScope::Section,
        root_digest: [0; 32],
        entries,
    }
}

#[test]
fn empty_manifest_parses() {
    let m = DigestManifest::parse(&manifest(Vec::new()).serialize().unwrap()).unwrap();
    assert_eq!(m.algorithm, DigestAlgorithm::Sha256);
    assert_eq!(m.scope, DigestScope::Section);
    assert_eq!(m.entries.len(), 0);
}

#[test]
fn parse_manifest_with_section_entry() {
    let bytes = manifest(vec![DigestEntry {
        target_kind: DigestTargetKind::Section,
        section_id: 42,
        local_id: 7,
        offset: 128,
        length: 16,
        digest: vec![0xCD; 32],
    }])
    .serialize()
    .unwrap();
    let m = DigestManifest::parse(&bytes).unwrap();
    assert_eq!(m.entries[0].section_id, 42);
    assert_eq!(m.entries[0].local_id, 7);
    assert_eq!(m.entries[0].offset, 128);
}

#[test]
fn truncated_manifest_rejected() {
    let bytes = vec![0; DIGEST_MANIFEST_HEADER_LEN - 1];
    assert_eq!(DigestManifest::parse(&bytes), Err(CoveError::BufferTooShort));
}

#[test]
fn bad_header_checksum_rejected() {
    let mut bytes = manifest(Vec::new()).serialize().unwrap();
    bytes[0] ^= 0xFF;
    assert_eq!(DigestManifest::parse(&bytes), Err(CoveError::ChecksumMismatch));
}

#[test]
fn missing_entry_is_not_an_error() {
    let m = DigestManifest::default();
    assert!(m.verify_section(7, b"anything").is_ok());
}

#[test]
fn sha256_round_trip_verifies() {
    let payload = b"Cove Format showcase";
    let bytes = manifest(vec![section_entry(5, payload)]).serialize().unwrap();
    let m = DigestManifest::parse(&bytes).unwrap();
    assert!(m.verify_section(5, payload).is_ok());
}

#[test]
fn sha256_mismatch_reports_digest_mismatch() {
    let bytes = manifest(vec![section_entry(5, b"original")]).serialize().unwrap();
    let m = DigestManifest::parse(&bytes).unwrap();
    assert_eq!(m.verify_section(5, b"tampered"), Err(CoveError::DigestMismatch));
}

#[test]
fn blake3_round_trip_verifies() {
    let payload = b"Cove Format showcase";
    let digest = compute_digest(DigestAlgorithm::Blake3, payload).unwrap();
    let bytes = DigestManifest {
        algorithm: DigestAlgorithm::Blake3,
        scope: DigestScope::Section,
        root_digest: [0; 32],
        entries: vec![DigestEntry {
            target_kind: DigestTargetKind::Section,
            section_id: 5,
            local_id: 0,
            offset: 0,
            length: payload.len() as u64,
            digest,
        }],
    }
    .serialize()
    .unwrap();
    let m = DigestManifest::parse(&bytes).unwrap();
    assert!(m.verify_section(5, payload).is_ok());
}

#[test]
fn wrong_length_digest_rejected_at_parse() {
    let mut bytes = manifest(vec![DigestEntry {
        target_kind: DigestTargetKind::Section,
        section_id: 1,
        local_id: 0,
        offset: 0,
        length: 4,
        digest: vec![0u8; 32],
    }])
    .serialize()
    .unwrap();
    let digest_len_pos = DIGEST_MANIFEST_HEADER_LEN + 2;
    bytes[digest_len_pos..digest_len_pos + 2].copy_from_slice(&4u16.to_le_bytes());
    bytes.truncate(DIGEST_MANIFEST_HEADER_LEN + DIGEST_ENTRY_FIXED_LEN + 4);
    let entries_length = (DIGEST_ENTRY_FIXED_LEN + 4) as u64;
    bytes[16..24].copy_from_slice(&entries_length.to_le_bytes());
    bytes[56..60].fill(0);
    let crc = crc32c(&bytes[..DIGEST_MANIFEST_HEADER_LEN]);
    bytes[56..60].copy_from_slice(&crc.to_le_bytes());
    assert!(matches!(DigestManifest::parse(&bytes), Err(CoveError::BadSection(_))));
}

#[test]
fn digest_serialize_round_trip() {
    let m = DigestManifest {
        algorithm: DigestAlgorithm::Sha256,
        scope: DigestScope::Section,
        root_digest: [0x11; 32],
        entries: vec![
            DigestEntry {
                target_kind: DigestTargetKind::Section,
                section_id: 3,
                local_id: 0,
                offset: 100,
                length: 20,
                digest: vec![0xAB; 32],
            },
            DigestEntry {
                target_kind: DigestTargetKind::Page,
                section_id: 5,
                local_id: 9,
                offset: 120,
                length: 30,
                digest: vec![0xCD; 32],
            },
        ],
    };
    let bytes = m.serialize().unwrap();
    assert_eq!(DigestManifest::parse(&bytes).unwrap(), m);
}

#[test]
fn sha256_of_abc_matches_known_vector() {
    let d = compute_digest(DigestAlgorithm::Sha256, b"abc").unwrap();
    let hex: String = d.iter().map(|b| format!("{b:02x}")).collect();
    assert_eq!(hex, "ba7816bf8f01cfea414140de5dae2223b00361a396177a9cb410ff61f20015ad");
}

#[test]
fn blake3_of_empty_matches_known_vector() {
    let d = compute_digest(DigestAlgorithm::Blake3, b"").unwrap();
    let hex: String = d.iter().map(|b| format!("{b:02x}")).collect();
    assert_eq!(hex, "af1349b9f5f9a1a6a0404dea36dcc9499bcb25c9adc112b7cc9a93cae41f3262");
}

#[test]
fn none_algorithm_digest_is_empty_and_always_verifies() {
    assert!(compute_digest(DigestAlgorithm::NoDigest, b"x").unwrap().is_empty());
    assert!(verify_digest(DigestAlgorithm::NoDigest, b"x", b"whatever").is_ok());
}

#[test]
fn computed_digest_verifies_and_other_data_does_not() {
    let d = compute_digest(DigestAlgorithm::Blake3, b"payload").unwrap();
    assert!(verify_digest(DigestAlgorithm::Blake3, b"payload", &d).is_ok());
    assert_eq!(
        verify_digest(DigestAlgorithm::Blake3, b"payloae", &d),
        Err(CoveError::DigestMismatch)
    );
}

#[test]
fn section_length_mismatch_is_bad_section() {
    let m = manifest(vec![section_entry(5, b"abcd")]);
    assert!(matches!(m.verify_section(5, b"abc"), Err(CoveError::BadSection(_))));
}

#[test]
fn none_algorithm_manifest_refuses_to_serialize() {
    let mut m = manifest(Vec::new());
    m.algorithm = DigestAlgorithm::NoDigest;
    assert!(matches!(m.serialize(), Err(CoveError::BadSection(_))));
}

#[test]
fn crc32c_check_value() {
    assert_eq!(crc32c(b"123456789"), 0xE306_9283);
}
