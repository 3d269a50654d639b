//! Error types.
use vstd::prelude::*;

use crate::util::{concat, hex16, spec_hex16, text};

verus! {

/// All errors that can occur while reading, writing, or validating a COVE file.
#[derive(Debug, Clone, PartialEq, Eq)]
pub enum CoveError {
    /// Missing or invalid magic bytes (COVE_E_BAD_MAGIC).
    BadMagic,
    /// Unsupported COVE version (COVE_E_BAD_VERSION).
    BadVersion,
    /// Unknown required feature bit set (COVE_E_UNKNOWN_REQUIRED_FEATURE).
    UnknownRequiredFeature(u64),
    /// Checksum mismatch (COVE_E_CHECKSUM_MISMATCH).
    ChecksumMismatch,
    /// Cryptographic digest mismatch (COVE_E_DIGEST_MISMATCH).
    DigestMismatch,
    /// Offset/length/count exceeds file bounds (COVE_E_OFFSET_RANGE).
    OffsetRange,
    /// Arithmetic overflow in offset/count/size (COVE_E_ARITH_OVERFLOW).
    ArithOverflow,
    /// Section malformed or invalid (COVE_E_BAD_SECTION).
    BadSection(String),
    /// Catalog or schema malformed (COVE_E_BAD_SCHEMA).
    BadSchema(String),
    /// Logical type incompatible with physical kind (COVE_E_BAD_LOGICAL_PHYSICAL_PAIR).
    BadLogicalPhysicalPair,
    /// FileCode missing from dictionary (COVE_E_DICT_MISS).
    DictMiss,
    /// FileCode outside dictionary range (COVE_E_BAD_FILECODE).
    BadFileCode,
    /// NumCode invalid for declared logical type (COVE_E_BAD_NUMCODE).
    BadNumCode,
    /// ColumnDomain invalid (COVE_E_BAD_DOMAIN).
    BadDomain,
    /// Statistics invalid or unsafe (COVE_E_BAD_STATS).
    BadStats,
    /// Optional index invalid or corrupt (COVE_E_BAD_INDEX).
    BadIndex,
    /// Extension invalid or required extension unsupported (COVE_E_BAD_EXTENSION).
    BadExtension,
    /// Engine profile invalid or unsupported when required (COVE_E_BAD_ENGINE_PROFILE).
    BadEngineProfile,
    /// Engine-local code mapping failed (COVE_E_EXECUTION_CODE_MAP).
    ExecutionCodeMap,
    /// Harbor code lease resolution failed (COVE_E_HARBOR_MOUNT_LEASE).
    HarborMountLease,
    /// COVE-O prev_ref invalid (COVE_E_REF_INVALID).
    RefInvalid,
    /// COVE-O chain lacks baseline/snapshot/full chain (COVE_E_NOT_SELF_CONTAINED).
    NotSelfContained,
    /// Segment structure invalid (COVE_E_SEGMENT_CORRUPT).
    SegmentCorrupt,
    /// Page structure invalid (COVE_E_PAGE_CORRUPT).
    PageCorrupt,
    /// Redacted value cannot be surfaced under current policy (COVE_E_REDACTION_POLICY).
    RedactionPolicy,
    /// COVX/COVM sidecar does not match referenced COVE (COVE_E_SIDECAR_STALE).
    SidecarStale,
    /// Semantic mapping payload invalid (COVE_E_MAP_INVALID).
    MapInvalid,
    /// Referenced map function was not declared (COVE_E_MAP_FUNCTION_UNDECLARED).
    MapFunctionUndeclared,
    /// Semantic mapping identity rules conflict (COVE_E_MAP_IDENTITY_CONFLICT).
    MapIdentityConflict,
    /// Semantic mapping source metadata is stale (COVE_E_MAP_SOURCE_STALE).
    MapSourceStale,
    /// Semantic mapping evidence payload invalid (COVE_E_MAP_EVIDENCE_INVALID).
    MapEvidenceInvalid,
    /// Input buffer is too short to parse the requested structure.
    BufferTooShort,
    /// A field that MUST be zero contained a non-zero value.
    ReservedNotZero,
    /// I/O error during file reading or writing.
    Io(String),
    /// Encoding kind is not supported by this implementation (COVE_E_UNSUPPORTED_ENCODING).
    UnsupportedEncoding(String),
}

/// The variant of a [`CoveError`] without its payload. Contracts state which
/// error a function returns through this code.
#[derive(Debug, Clone, Copy, PartialEq, Eq, Structural)]
pub enum ErrorCode {
    BadMagic,
    BadVersion,
    UnknownRequiredFeature,
    ChecksumMismatch,
    DigestMismatch,
    OffsetRange,
    ArithOverflow,
    BadSection,
    BadSchema,
    BadLogicalPhysicalPair,
    DictMiss,
    BadFileCode,
    BadNumCode,
    BadDomain,
    BadStats,
    BadIndex,
    BadExtension,
    BadEngineProfile,
    ExecutionCodeMap,
    HarborMountLease,
    RefInvalid,
    NotSelfContained,
    SegmentCorrupt,
    PageCorrupt,
    RedactionPolicy,
    SidecarStale,
    MapInvalid,
    MapFunctionUndeclared,
    MapIdentityConflict,
    MapSourceStale,
    MapEvidenceInvalid,
    BufferTooShort,
    ReservedNotZero,
    Io,
    UnsupportedEncoding,
}

impl CoveError {
    /// The payload-free variant of this error.
    pub open spec fn code(&self) -> ErrorCode {
        match self {
            CoveError::BadMagic => ErrorCode::BadMagic,
            CoveError::BadVersion => ErrorCode::BadVersion,
            CoveError::UnknownRequiredFeature(_) => ErrorCode::UnknownRequiredFeature,
            CoveError::ChecksumMismatch => ErrorCode::ChecksumMismatch,
            CoveError::DigestMismatch => ErrorCode::DigestMismatch,
            CoveError::OffsetRange => ErrorCode::OffsetRange,
            CoveError::ArithOverflow => ErrorCode::ArithOverflow,
            CoveError::BadSection(_) => ErrorCode::BadSection,
            CoveError::BadSchema(_) => ErrorCode::BadSchema,
            CoveError::BadLogicalPhysicalPair => ErrorCode::BadLogicalPhysicalPair,
            CoveError::DictMiss => ErrorCode::DictMiss,
            CoveError::BadFileCode => ErrorCode::BadFileCode,
            CoveError::BadNumCode => ErrorCode::BadNumCode,
            CoveError::BadDomain => ErrorCode::BadDomain,
            CoveError::BadStats => ErrorCode::BadStats,
            CoveError::BadIndex => ErrorCode::BadIndex,
            CoveError::BadExtension => ErrorCode::BadExtension,
            CoveError::BadEngineProfile => ErrorCode::BadEngineProfile,
            CoveError::ExecutionCodeMap => ErrorCode::ExecutionCodeMap,
            CoveError::HarborMountLease => ErrorCode::HarborMountLease,
            CoveError::RefInvalid => ErrorCode::RefInvalid,
            CoveError::NotSelfContained => ErrorCode::NotSelfContained,
            CoveError::SegmentCorrupt => ErrorCode::SegmentCorrupt,
            CoveError::PageCorrupt => ErrorCode::PageCorrupt,
            CoveError::RedactionPolicy => ErrorCode::RedactionPolicy,
            CoveError::SidecarStale => ErrorCode::SidecarStale,
            CoveError::MapInvalid => ErrorCode::MapInvalid,
            CoveError::MapFunctionUndeclared => ErrorCode::MapFunctionUndeclared,
            CoveError::MapIdentityConflict => ErrorCode::MapIdentityConflict,
            CoveError::MapSourceStale => ErrorCode::MapSourceStale,
            CoveError::MapEvidenceInvalid => ErrorCode::MapEvidenceInvalid,
            CoveError::BufferTooShort => ErrorCode::BufferTooShort,
            CoveError::ReservedNotZero => ErrorCode::ReservedNotZero,
            CoveError::Io(_) => ErrorCode::Io,
            CoveError::UnsupportedEncoding(_) => ErrorCode::UnsupportedEncoding,
        }
    }
}

/// `res` is an error whose variant is `c`.
pub open spec fn fails_with<T>(res: Result<T, CoveError>, c: ErrorCode) -> bool {
    match res {
        Err(e) => e.code() == c,
        Ok(_) => false,
    }
}

/// The format error code that an error variant reports, if any.
pub open spec fn spec_code_of(c: ErrorCode) -> Option<&'static str> {
    match c {
        ErrorCode::BadMagic => Some("COVE_E_BAD_MAGIC"),
        ErrorCode::BadVersion => Some("COVE_E_BAD_VERSION"),
        ErrorCode::UnknownRequiredFeature => Some("COVE_E_UNKNOWN_REQUIRED_FEATURE"),
        ErrorCode::ChecksumMismatch => Some("COVE_E_CHECKSUM_MISMATCH"),
        ErrorCode::DigestMismatch => Some("COVE_E_DIGEST_MISMATCH"),
        ErrorCode::OffsetRange => Some("COVE_E_OFFSET_RANGE"),
        ErrorCode::BufferTooShort => Some("COVE_E_OFFSET_RANGE"),
        ErrorCode::ArithOverflow => Some("COVE_E_ARITH_OVERFLOW"),
        ErrorCode::BadSection => Some("COVE_E_BAD_SECTION"),
        ErrorCode::ReservedNotZero => Some("COVE_E_BAD_SECTION"),
        ErrorCode::BadSchema => Some("COVE_E_BAD_SCHEMA"),
        ErrorCode::BadLogicalPhysicalPair => Some("COVE_E_BAD_LOGICAL_PHYSICAL_PAIR"),
        ErrorCode::DictMiss => Some("COVE_E_DICT_MISS"),
        ErrorCode::BadFileCode => Some("COVE_E_BAD_FILECODE"),
        ErrorCode::BadNumCode => Some("COVE_E_BAD_NUMCODE"),
        ErrorCode::BadDomain => Some("COVE_E_BAD_DOMAIN"),
        ErrorCode::BadStats => Some("COVE_E_BAD_STATS"),
        ErrorCode::BadIndex => Some("COVE_E_BAD_INDEX"),
        ErrorCode::BadExtension => Some("COVE_E_BAD_EXTENSION"),
        ErrorCode::BadEngineProfile => Some("COVE_E_BAD_ENGINE_PROFILE"),
        ErrorCode::ExecutionCodeMap => Some("COVE_E_EXECUTION_CODE_MAP"),
        ErrorCode::HarborMountLease => Some("COVE_E_HARBOR_MOUNT_LEASE"),
        ErrorCode::RefInvalid => Some("COVE_E_REF_INVALID"),
        ErrorCode::NotSelfContained => Some("COVE_E_NOT_SELF_CONTAINED"),
        ErrorCode::SegmentCorrupt => Some("COVE_E_SEGMENT_CORRUPT"),
        ErrorCode::PageCorrupt => Some("COVE_E_PAGE_CORRUPT"),
        ErrorCode::RedactionPolicy => Some("COVE_E_REDACTION_POLICY"),
        ErrorCode::SidecarStale => Some("COVE_E_SIDECAR_STALE"),
        ErrorCode::MapInvalid => Some("COVE_E_MAP_INVALID"),
        ErrorCode::MapFunctionUndeclared => Some("COVE_E_MAP_FUNCTION_UNDECLARED"),
        ErrorCode::MapIdentityConflict => Some("COVE_E_MAP_IDENTITY_CONFLICT"),
        ErrorCode::MapSourceStale => Some("COVE_E_MAP_SOURCE_STALE"),
        ErrorCode::MapEvidenceInvalid => Some("COVE_E_MAP_EVIDENCE_INVALID"),
        ErrorCode::Io => None,
        ErrorCode::UnsupportedEncoding => None,
    }
}

/// The complete error code inventory, in format order.
pub open spec fn spec_all_codes() -> Seq<&'static str> {
    seq![
        "COVE_E_BAD_MAGIC",
        "COVE_E_BAD_VERSION",
        "COVE_E_UNKNOWN_REQUIRED_FEATURE",
        "COVE_E_CHECKSUM_MISMATCH",
        "COVE_E_DIGEST_MISMATCH",
        "COVE_E_OFFSET_RANGE",
        "COVE_E_ARITH_OVERFLOW",
        "COVE_E_BAD_SECTION",
        "COVE_E_BAD_SCHEMA",
        "COVE_E_BAD_LOGICAL_PHYSICAL_PAIR",
        "COVE_E_DICT_MISS",
        "COVE_E_BAD_FILECODE",
        "COVE_E_BAD_NUMCODE",
        "COVE_E_BAD_DOMAIN",
        "COVE_E_BAD_STATS",
        "COVE_E_BAD_INDEX",
        "COVE_E_BAD_EXTENSION",
        "COVE_E_BAD_ENGINE_PROFILE",
        "COVE_E_EXECUTION_CODE_MAP",
        "COVE_E_HARBOR_MOUNT_LEASE",
        "COVE_E_REF_INVALID",
        "COVE_E_NOT_SELF_CONTAINED",
        "COVE_E_SEGMENT_CORRUPT",
        "COVE_E_PAGE_CORRUPT",
        "COVE_E_REDACTION_POLICY",
        "COVE_E_SIDECAR_STALE",
        "COVE_E_MAP_INVALID",
        "COVE_E_MAP_FUNCTION_UNDECLARED",
        "COVE_E_MAP_IDENTITY_CONFLICT",
        "COVE_E_MAP_SOURCE_STALE",
        "COVE_E_MAP_EVIDENCE_INVALID",
    ]
}

/// The human-readable rendering of an error: its format error code, a colon,
/// and a description.
pub open spec fn spec_message(e: CoveError) -> Seq<char> {
    match e {
        CoveError::BadMagic => "COVE_E_BAD_MAGIC: missing or invalid magic bytes"@,
        CoveError::BadVersion => "COVE_E_BAD_VERSION: unsupported COVE version"@,
        CoveError::UnknownRequiredFeature(bits) => "COVE_E_UNKNOWN_REQUIRED_FEATURE: unknown required feature bits 0x"@ + spec_hex16(bits),
        CoveError::ChecksumMismatch => "COVE_E_CHECKSUM_MISMATCH: CRC32C mismatch"@,
        CoveError::DigestMismatch => "COVE_E_DIGEST_MISMATCH: cryptographic digest mismatch"@,
        CoveError::OffsetRange => "COVE_E_OFFSET_RANGE: offset or length out of file bounds"@,
        CoveError::ArithOverflow => "COVE_E_ARITH_OVERFLOW: arithmetic overflow in offset/count"@,
        CoveError::BadSection(s) => "COVE_E_BAD_SECTION: "@ + s@,
        CoveError::BadSchema(s) => "COVE_E_BAD_SCHEMA: "@ + s@,
        CoveError::BadLogicalPhysicalPair => "COVE_E_BAD_LOGICAL_PHYSICAL_PAIR: logical type incompatible with physical kind"@,
        CoveError::DictMiss => "COVE_E_DICT_MISS: FileCode missing from dictionary"@,
        CoveError::BadFileCode => "COVE_E_BAD_FILECODE: FileCode outside dictionary range"@,
        CoveError::BadNumCode => "COVE_E_BAD_NUMCODE: NumCode invalid for declared logical type"@,
        CoveError::BadDomain => "COVE_E_BAD_DOMAIN: ColumnDomain invalid"@,
        CoveError::BadStats => "COVE_E_BAD_STATS: statistics invalid or unsafe"@,
        CoveError::BadIndex => "COVE_E_BAD_INDEX: optional index invalid or corrupt"@,
        CoveError::BadExtension => "COVE_E_BAD_EXTENSION: extension invalid or unsupported"@,
        CoveError::BadEngineProfile => "COVE_E_BAD_ENGINE_PROFILE: engine profile invalid or unsupported"@,
        CoveError::ExecutionCodeMap => "COVE_E_EXECUTION_CODE_MAP: execution code mapping failed"@,
        CoveError::HarborMountLease => "COVE_E_HARBOR_MOUNT_LEASE: Harbor lease resolution failed"@,
        CoveError::RefInvalid => "COVE_E_REF_INVALID: COVE-O prev_ref invalid"@,
        CoveError::NotSelfContained => "COVE_E_NOT_SELF_CONTAINED: COVE-O chain not self-contained"@,
        CoveError::SegmentCorrupt => "COVE_E_SEGMENT_CORRUPT: segment structure invalid"@,
        CoveError::PageCorrupt => "COVE_E_PAGE_CORRUPT: page structure invalid"@,
        CoveError::RedactionPolicy => "COVE_E_REDACTION_POLICY: redacted value cannot be surfaced"@,
        CoveError::SidecarStale => "COVE_E_SIDECAR_STALE: COVX/COVM sidecar does not match COVE file"@,
        CoveError::MapInvalid => "COVE_E_MAP_INVALID: semantic mapping payload invalid"@,
        CoveError::MapFunctionUndeclared => "COVE_E_MAP_FUNCTION_UNDECLARED: semantic mapping function not declared"@,
        CoveError::MapIdentityConflict => "COVE_E_MAP_IDENTITY_CONFLICT: semantic mapping identity rules conflict"@,
        CoveError::MapSourceStale => "COVE_E_MAP_SOURCE_STALE: semantic mapping source metadata is stale"@,
        CoveError::MapEvidenceInvalid => "COVE_E_MAP_EVIDENCE_INVALID: semantic mapping evidence invalid"@,
        CoveError::BufferTooShort => "COVE_E_OFFSET_RANGE: buffer too short to parse structure"@,
        CoveError::ReservedNotZero => "COVE_E_BAD_SECTION: reserved field is non-zero"@,
        CoveError::Io(s) => "I/O error: "@ + s@,
        CoveError::UnsupportedEncoding(s) => "COVE_E_UNSUPPORTED_ENCODING: "@ + s@,
    }
}

impl CoveError {
    /// Human-readable rendering of this error, led by its format error code
    /// where it has one.
    pub fn message(&self) -> (res: String)
        ensures
            res@ == spec_message(*self),
    {
        match self {
            CoveError::BadMagic => text("COVE_E_BAD_MAGIC: missing or invalid magic bytes"),
            CoveError::BadVersion => text("COVE_E_BAD_VERSION: unsupported COVE version"),
            CoveError::UnknownRequiredFeature(bits) => concat("COVE_E_UNKNOWN_REQUIRED_FEATURE: unknown required feature bits 0x", hex16(*bits).as_str()),
            CoveError::ChecksumMismatch => text("COVE_E_CHECKSUM_MISMATCH: CRC32C mismatch"),
            CoveError::DigestMismatch => text("COVE_E_DIGEST_MISMATCH: cryptographic digest mismatch"),
            CoveError::OffsetRange => text("COVE_E_OFFSET_RANGE: offset or length out of file bounds"),
            CoveError::ArithOverflow => text("COVE_E_ARITH_OVERFLOW: arithmetic overflow in offset/count"),
            CoveError::BadSection(s) => concat("COVE_E_BAD_SECTION: ", s.as_str()),
            CoveError::BadSchema(s) => concat("COVE_E_BAD_SCHEMA: ", s.as_str()),
            CoveError::BadLogicalPhysicalPair => text("COVE_E_BAD_LOGICAL_PHYSICAL_PAIR: logical type incompatible with physical kind"),
            CoveError::DictMiss => text("COVE_E_DICT_MISS: FileCode missing from dictionary"),
            CoveError::BadFileCode => text("COVE_E_BAD_FILECODE: FileCode outside dictionary range"),
            CoveError::BadNumCode => text("COVE_E_BAD_NUMCODE: NumCode invalid for declared logical type"),
            CoveError::BadDomain => text("COVE_E_BAD_DOMAIN: ColumnDomain invalid"),
            CoveError::BadStats => text("COVE_E_BAD_STATS: statistics invalid or unsafe"),
            CoveError::BadIndex => text("COVE_E_BAD_INDEX: optional index invalid or corrupt"),
            CoveError::BadExtension => text("COVE_E_BAD_EXTENSION: extension invalid or unsupported"),
            CoveError::BadEngineProfile => text("COVE_E_BAD_ENGINE_PROFILE: engine profile invalid or unsupported"),
            CoveError::ExecutionCodeMap => text("COVE_E_EXECUTION_CODE_MAP: execution code mapping failed"),
            CoveError::HarborMountLease => text("COVE_E_HARBOR_MOUNT_LEASE: Harbor lease resolution failed"),
            CoveError::RefInvalid => text("COVE_E_REF_INVALID: COVE-O prev_ref invalid"),
            CoveError::NotSelfContained => text("COVE_E_NOT_SELF_CONTAINED: COVE-O chain not self-contained"),
            CoveError::SegmentCorrupt => text("COVE_E_SEGMENT_CORRUPT: segment structure invalid"),
            CoveError::PageCorrupt => text("COVE_E_PAGE_CORRUPT: page structure invalid"),
            CoveError::RedactionPolicy => text("COVE_E_REDACTION_POLICY: redacted value cannot be surfaced"),
            CoveError::SidecarStale => text("COVE_E_SIDECAR_STALE: COVX/COVM sidecar does not match COVE file"),
            CoveError::MapInvalid => text("COVE_E_MAP_INVALID: semantic mapping payload invalid"),
            CoveError::MapFunctionUndeclared => text("COVE_E_MAP_FUNCTION_UNDECLARED: semantic mapping function not declared"),
            CoveError::MapIdentityConflict => text("COVE_E_MAP_IDENTITY_CONFLICT: semantic mapping identity rules conflict"),
            CoveError::MapSourceStale => text("COVE_E_MAP_SOURCE_STALE: semantic mapping source metadata is stale"),
            CoveError::MapEvidenceInvalid => text("COVE_E_MAP_EVIDENCE_INVALID: semantic mapping evidence invalid"),
            CoveError::BufferTooShort => text("COVE_E_OFFSET_RANGE: buffer too short to parse structure"),
            CoveError::ReservedNotZero => text("COVE_E_BAD_SECTION: reserved field is non-zero"),
            CoveError::Io(s) => concat("I/O error: ", s.as_str()),
            CoveError::UnsupportedEncoding(s) => concat("COVE_E_UNSUPPORTED_ENCODING: ", s.as_str()),
        }
    }

    /// Complete format error-code inventory surfaced by [`Self::spec_code`].
    pub fn all_spec_codes() -> (res: Vec<&'static str>)
        ensures
            res@ == spec_all_codes(),
    {
        let v: Vec<&'static str> = vec![
            "COVE_E_BAD_MAGIC",
            "COVE_E_BAD_VERSION",
            "COVE_E_UNKNOWN_REQUIRED_FEATURE",
            "COVE_E_CHECKSUM_MISMATCH",
            "COVE_E_DIGEST_MISMATCH",
            "COVE_E_OFFSET_RANGE",
            "COVE_E_ARITH_OVERFLOW",
            "COVE_E_BAD_SECTION",
            "COVE_E_BAD_SCHEMA",
            "COVE_E_BAD_LOGICAL_PHYSICAL_PAIR",
            "COVE_E_DICT_MISS",
            "COVE_E_BAD_FILECODE",
            "COVE_E_BAD_NUMCODE",
            "COVE_E_BAD_DOMAIN",
            "COVE_E_BAD_STATS",
            "COVE_E_BAD_INDEX",
            "COVE_E_BAD_EXTENSION",
            "COVE_E_BAD_ENGINE_PROFILE",
            "COVE_E_EXECUTION_CODE_MAP",
            "COVE_E_HARBOR_MOUNT_LEASE",
            "COVE_E_REF_INVALID",
            "COVE_E_NOT_SELF_CONTAINED",
            "COVE_E_SEGMENT_CORRUPT",
            "COVE_E_PAGE_CORRUPT",
            "COVE_E_REDACTION_POLICY",
            "COVE_E_SIDECAR_STALE",
            "COVE_E_MAP_INVALID",
            "COVE_E_MAP_FUNCTION_UNDECLARED",
            "COVE_E_MAP_IDENTITY_CONFLICT",
            "COVE_E_MAP_SOURCE_STALE",
            "COVE_E_MAP_EVIDENCE_INVALID",
        ];
        assert(v@ =~= spec_all_codes());
        v
    }

    /// Return the closest format error code for this error.
    ///
    /// Implementation-level errors such as [`CoveError::BufferTooShort`] and
    /// [`CoveError::ReservedNotZero`] are normalized to their structural
    /// category so callers can report stable conformance diagnostics.
    pub fn spec_code(&self) -> (res: Option<&'static str>)
        ensures
            res == spec_code_of(self.code()),
    {
        match self {
            CoveError::BadMagic => Some("COVE_E_BAD_MAGIC"),
            CoveError::BadVersion => Some("COVE_E_BAD_VERSION"),
            CoveError::UnknownRequiredFeature(_) => Some("COVE_E_UNKNOWN_REQUIRED_FEATURE"),
            CoveError::ChecksumMismatch => Some("COVE_E_CHECKSUM_MISMATCH"),
            CoveError::DigestMismatch => Some("COVE_E_DIGEST_MISMATCH"),
            CoveError::OffsetRange | CoveError::BufferTooShort => Some("COVE_E_OFFSET_RANGE"),
            CoveError::ArithOverflow => Some("COVE_E_ARITH_OVERFLOW"),
            CoveError::BadSection(_) | CoveError::ReservedNotZero => Some("COVE_E_BAD_SECTION"),
            CoveError::BadSchema(_) => Some("COVE_E_BAD_SCHEMA"),
            CoveError::BadLogicalPhysicalPair => Some("COVE_E_BAD_LOGICAL_PHYSICAL_PAIR"),
            CoveError::DictMiss => Some("COVE_E_DICT_MISS"),
            CoveError::BadFileCode => Some("COVE_E_BAD_FILECODE"),
            CoveError::BadNumCode => Some("COVE_E_BAD_NUMCODE"),
            CoveError::BadDomain => Some("COVE_E_BAD_DOMAIN"),
            CoveError::BadStats => Some("COVE_E_BAD_STATS"),
            CoveError::BadIndex => Some("COVE_E_BAD_INDEX"),
            CoveError::BadExtension => Some("COVE_E_BAD_EXTENSION"),
            CoveError::BadEngineProfile => Some("COVE_E_BAD_ENGINE_PROFILE"),
            CoveError::ExecutionCodeMap => Some("COVE_E_EXECUTION_CODE_MAP"),
            CoveError::HarborMountLease => Some("COVE_E_HARBOR_MOUNT_LEASE"),
            CoveError::RefInvalid => Some("COVE_E_REF_INVALID"),
            CoveError::NotSelfContained => Some("COVE_E_NOT_SELF_CONTAINED"),
            CoveError::SegmentCorrupt => Some("COVE_E_SEGMENT_CORRUPT"),
            CoveError::PageCorrupt => Some("COVE_E_PAGE_CORRUPT"),
            CoveError::RedactionPolicy => Some("COVE_E_REDACTION_POLICY"),
            CoveError::SidecarStale => Some("COVE_E_SIDECAR_STALE"),
            CoveError::MapInvalid => Some("COVE_E_MAP_INVALID"),
            CoveError::MapFunctionUndeclared => Some("COVE_E_MAP_FUNCTION_UNDECLARED"),
            CoveError::MapIdentityConflict => Some("COVE_E_MAP_IDENTITY_CONFLICT"),
            CoveError::MapSourceStale => Some("COVE_E_MAP_SOURCE_STALE"),
            CoveError::MapEvidenceInvalid => Some("COVE_E_MAP_EVIDENCE_INVALID"),
            CoveError::Io(_) | CoveError::UnsupportedEncoding(_) => None,
        }
    }
}

/// Every code that [`CoveError::spec_code`] reports belongs to the
/// format error-code inventory returned by [`CoveError::all_spec_codes`].
pub proof fn lemma_spec_code_in_inventory(e: CoveError)
    ensures
        spec_code_of(e.code()) matches Some(c) ==> spec_all_codes().contains(c),
{
    let codes = spec_all_codes();
    match spec_code_of(e.code()) {
        Some(c) => {
            assert(exists|i: int| 0 <= i < codes.len() && codes[i] == c) by {
                if c == codes[0] { assert(codes[0] == c); }
                else if c == codes[1] { assert(codes[1] == c); }
                else if c == codes[2] { assert(codes[2] == c); }
                else if c == codes[3] { assert(codes[3] == c); }
                else if c == codes[4] { assert(codes[4] == c); }
                else if c == codes[5] { assert(codes[5] == c); }
                else if c == codes[6] { assert(codes[6] == c); }
                else if c == codes[7] { assert(codes[7] == c); }
                else if c == codes[8] { assert(codes[8] == c); }
                else if c == codes[9] { assert(codes[9] == c); }
                else if c == codes[10] { assert(codes[10] == c); }
                else if c == codes[11] { assert(codes[11] == c); }
                else if c == codes[12] { assert(codes[12] == c); }
                else if c == codes[13] { assert(codes[13] == c); }
                else if c == codes[14] { assert(codes[14] == c); }
                else if c == codes[15] { assert(codes[15] == c); }
                else if c == codes[16] { assert(codes[16] == c); }
                else if c == codes[17] { assert(codes[17] == c); }
                else if c == codes[18] { assert(codes[18] == c); }
                else if c == codes[19] { assert(codes[19] == c); }
                else if c == codes[20] { assert(codes[20] == c); }
                else if c == codes[21] { assert(codes[21] == c); }
                else if c == codes[22] { assert(codes[22] == c); }
                else if c == codes[23] { assert(codes[23] == c); }
                else if c == codes[24] { assert(codes[24] == c); }
                else if c == codes[25] { assert(codes[25] == c); }
                else if c == codes[26] { assert(codes[26] == c); }
                else if c == codes[27] { assert(codes[27] == c); }
                else if c == codes[28] { assert(codes[28] == c); }
                else if c == codes[29] { assert(codes[29] == c); }
                else { assert(codes[30] == c); }
            }
        },
        None => {},
    }
}


/// Every error that has a format error code renders as that code, a colon
/// and a space, then its description.
pub proof fn lemma_message_leads_with_code(e: CoveError)
    ensures
        spec_code_of(e.code()) matches Some(c) ==> spec_message(e).len() >= c@.len() + 2
            && spec_message(e).subrange(0, c@.len() + 2int) == c@ + ": "@,
{
    reveal_strlit(": ");
    match e {
        CoveError::BadMagic => {
            reveal_strlit("COVE_E_BAD_MAGIC");
            reveal_strlit("COVE_E_BAD_MAGIC: missing or invalid magic bytes");
            assert(spec_message(e).subrange(0, 18) =~= "COVE_E_BAD_MAGIC"@ + ": "@);
        },
        CoveError::BadVersion => {
            reveal_strlit("COVE_E_BAD_VERSION");
            reveal_strlit("COVE_E_BAD_VERSION: unsupported COVE version");
            assert(spec_message(e).subrange(0, 20) =~= "COVE_E_BAD_VERSION"@ + ": "@);
        },
        CoveError::UnknownRequiredFeature(..) => {
            reveal_strlit("COVE_E_UNKNOWN_REQUIRED_FEATURE");
            reveal_strlit("COVE_E_UNKNOWN_REQUIRED_FEATURE: unknown required feature bits 0x");
            assert(spec_message(e).subrange(0, 33) =~= "COVE_E_UNKNOWN_REQUIRED_FEATURE"@ + ": "@);
        },
        CoveError::ChecksumMismatch => {
            reveal_strlit("COVE_E_CHECKSUM_MISMATCH");
            reveal_strlit("COVE_E_CHECKSUM_MISMATCH: CRC32C mismatch");
            assert(spec_message(e).subrange(0, 26) =~= "COVE_E_CHECKSUM_MISMATCH"@ + ": "@);
        },
        CoveError::DigestMismatch => {
            reveal_strlit("COVE_E_DIGEST_MISMATCH");
            reveal_strlit("COVE_E_DIGEST_MISMATCH: cryptographic digest mismatch");
            assert(spec_message(e).subrange(0, 24) =~= "COVE_E_DIGEST_MISMATCH"@ + ": "@);
        },
        CoveError::OffsetRange => {
            reveal_strlit("COVE_E_OFFSET_RANGE");
            reveal_strlit("COVE_E_OFFSET_RANGE: offset or length out of file bounds");
            assert(spec_message(e).subrange(0, 21) =~= "COVE_E_OFFSET_RANGE"@ + ": "@);
        },
        CoveError::ArithOverflow => {
            reveal_strlit("COVE_E_ARITH_OVERFLOW");
            reveal_strlit("COVE_E_ARITH_OVERFLOW: arithmetic overflow in offset/count");
            assert(spec_message(e).subrange(0, 23) =~= "COVE_E_ARITH_OVERFLOW"@ + ": "@);
        },
        CoveError::BadSection(..) => {
            reveal_strlit("COVE_E_BAD_SECTION");
            reveal_strlit("COVE_E_BAD_SECTION: ");
            assert(spec_message(e).subrange(0, 20) =~= "COVE_E_BAD_SECTION"@ + ": "@);
        },
        CoveError::BadSchema(..) => {
            reveal_strlit("COVE_E_BAD_SCHEMA");
            reveal_strlit("COVE_E_BAD_SCHEMA: ");
            assert(spec_message(e).subrange(0, 19) =~= "COVE_E_BAD_SCHEMA"@ + ": "@);
        },
        CoveError::BadLogicalPhysicalPair => {
            reveal_strlit("COVE_E_BAD_LOGICAL_PHYSICAL_PAIR");
            reveal_strlit("COVE_E_BAD_LOGICAL_PHYSICAL_PAIR: logical type incompatible with physical kind");
            assert(spec_message(e).subrange(0, 34) =~= "COVE_E_BAD_LOGICAL_PHYSICAL_PAIR"@ + ": "@);
        },
        CoveError::DictMiss => {
            reveal_strlit("COVE_E_DICT_MISS");
            reveal_strlit("COVE_E_DICT_MISS: FileCode missing from dictionary");
            assert(spec_message(e).subrange(0, 18) =~= "COVE_E_DICT_MISS"@ + ": "@);
        },
        CoveError::BadFileCode => {
            reveal_strlit("COVE_E_BAD_FILECODE");
            reveal_strlit("COVE_E_BAD_FILECODE: FileCode outside dictionary range");
            assert(spec_message(e).subrange(0, 21) =~= "COVE_E_BAD_FILECODE"@ + ": "@);
        },
        CoveError::BadNumCode => {
            reveal_strlit("COVE_E_BAD_NUMCODE");
            reveal_strlit("COVE_E_BAD_NUMCODE: NumCode invalid for declared logical type");
            assert(spec_message(e).subrange(0, 20) =~= "COVE_E_BAD_NUMCODE"@ + ": "@);
        },
        CoveError::BadDomain => {
            reveal_strlit("COVE_E_BAD_DOMAIN");
            reveal_strlit("COVE_E_BAD_DOMAIN: ColumnDomain invalid");
            assert(spec_message(e).subrange(0, 19) =~= "COVE_E_BAD_DOMAIN"@ + ": "@);
        },
        CoveError::BadStats => {
            reveal_strlit("COVE_E_BAD_STATS");
            reveal_strlit("COVE_E_BAD_STATS: statistics invalid or unsafe");
            assert(spec_message(e).subrange(0, 18) =~= "COVE_E_BAD_STATS"@ + ": "@);
        },
        CoveError::BadIndex => {
            reveal_strlit("COVE_E_BAD_INDEX");
            reveal_strlit("COVE_E_BAD_INDEX: optional index invalid or corrupt");
            assert(spec_message(e).subrange(0, 18) =~= "COVE_E_BAD_INDEX"@ + ": "@);
        },
        CoveError::BadExtension => {
            reveal_strlit("COVE_E_BAD_EXTENSION");
            reveal_strlit("COVE_E_BAD_EXTENSION: extension invalid or unsupported");
            assert(spec_message(e).subrange(0, 22) =~= "COVE_E_BAD_EXTENSION"@ + ": "@);
        },
        CoveError::BadEngineProfile => {
            reveal_strlit("COVE_E_BAD_ENGINE_PROFILE");
            reveal_strlit("COVE_E_BAD_ENGINE_PROFILE: engine profile invalid or unsupported");
            assert(spec_message(e).subrange(0, 27) =~= "COVE_E_BAD_ENGINE_PROFILE"@ + ": "@);
        },
        CoveError::ExecutionCodeMap => {
            reveal_strlit("COVE_E_EXECUTION_CODE_MAP");
            reveal_strlit("COVE_E_EXECUTION_CODE_MAP: execution code mapping failed");
            assert(spec_message(e).subrange(0, 27) =~= "COVE_E_EXECUTION_CODE_MAP"@ + ": "@);
        },
        CoveError::HarborMountLease => {
            reveal_strlit("COVE_E_HARBOR_MOUNT_LEASE");
            reveal_strlit("COVE_E_HARBOR_MOUNT_LEASE: Harbor lease resolution failed");
            assert(spec_message(e).subrange(0, 27) =~= "COVE_E_HARBOR_MOUNT_LEASE"@ + ": "@);
        },
        CoveError::RefInvalid => {
            reveal_strlit("COVE_E_REF_INVALID");
            reveal_strlit("COVE_E_REF_INVALID: COVE-O prev_ref invalid");
            assert(spec_message(e).subrange(0, 20) =~= "COVE_E_REF_INVALID"@ + ": "@);
        },
        CoveError::NotSelfContained => {
            reveal_strlit("COVE_E_NOT_SELF_CONTAINED");
            reveal_strlit("COVE_E_NOT_SELF_CONTAINED: COVE-O chain not self-contained");
            assert(spec_message(e).subrange(0, 27) =~= "COVE_E_NOT_SELF_CONTAINED"@ + ": "@);
        },
        CoveError::SegmentCorrupt => {
            reveal_strlit("COVE_E_SEGMENT_CORRUPT");
            reveal_strlit("COVE_E_SEGMENT_CORRUPT: segment structure invalid");
            assert(spec_message(e).subrange(0, 24) =~= "COVE_E_SEGMENT_CORRUPT"@ + ": "@);
        },
        CoveError::PageCorrupt => {
            reveal_strlit("COVE_E_PAGE_CORRUPT");
            reveal_strlit("COVE_E_PAGE_CORRUPT: page structure invalid");
            assert(spec_message(e).subrange(0, 21) =~= "COVE_E_PAGE_CORRUPT"@ + ": "@);
        },
        CoveError::RedactionPolicy => {
            reveal_strlit("COVE_E_REDACTION_POLICY");
            reveal_strlit("COVE_E_REDACTION_POLICY: redacted value cannot be surfaced");
            assert(spec_message(e).subrange(0, 25) =~= "COVE_E_REDACTION_POLICY"@ + ": "@);
        },
        CoveError::SidecarStale => {
            reveal_strlit("COVE_E_SIDECAR_STALE");
            reveal_strlit("COVE_E_SIDECAR_STALE: COVX/COVM sidecar does not match COVE file");
            assert(spec_message(e).subrange(0, 22) =~= "COVE_E_SIDECAR_STALE"@ + ": "@);
        },
        CoveError::MapInvalid => {
            reveal_strlit("COVE_E_MAP_INVALID");
            reveal_strlit("COVE_E_MAP_INVALID: semantic mapping payload invalid");
            assert(spec_message(e).subrange(0, 20) =~= "COVE_E_MAP_INVALID"@ + ": "@);
        },
        CoveError::MapFunctionUndeclared => {
            reveal_strlit("COVE_E_MAP_FUNCTION_UNDECLARED");
            reveal_strlit("COVE_E_MAP_FUNCTION_UNDECLARED: semantic mapping function not declared");
            assert(spec_message(e).subrange(0, 32) =~= "COVE_E_MAP_FUNCTION_UNDECLARED"@ + ": "@);
        },
        CoveError::MapIdentityConflict => {
            reveal_strlit("COVE_E_MAP_IDENTITY_CONFLICT");
            reveal_strlit("COVE_E_MAP_IDENTITY_CONFLICT: semantic mapping identity rules conflict");
            assert(spec_message(e).subrange(0, 30) =~= "COVE_E_MAP_IDENTITY_CONFLICT"@ + ": "@);
        },
        CoveError::MapSourceStale => {
            reveal_strlit("COVE_E_MAP_SOURCE_STALE");
            reveal_strlit("COVE_E_MAP_SOURCE_STALE: semantic mapping source metadata is stale");
            assert(spec_message(e).subrange(0, 25) =~= "COVE_E_MAP_SOURCE_STALE"@ + ": "@);
        },
        CoveError::MapEvidenceInvalid => {
            reveal_strlit("COVE_E_MAP_EVIDENCE_INVALID");
            reveal_strlit("COVE_E_MAP_EVIDENCE_INVALID: semantic mapping evidence invalid");
            assert(spec_message(e).subrange(0, 29) =~= "COVE_E_MAP_EVIDENCE_INVALID"@ + ": "@);
        },
        CoveError::BufferTooShort => {
            reveal_strlit("COVE_E_OFFSET_RANGE");
            reveal_strlit("COVE_E_OFFSET_RANGE: buffer too short to parse structure");
            assert(spec_message(e).subrange(0, 21) =~= "COVE_E_OFFSET_RANGE"@ + ": "@);
        },
        CoveError::ReservedNotZero => {
            reveal_strlit("COVE_E_BAD_SECTION");
            reveal_strlit("COVE_E_BAD_SECTION: reserved field is non-zero");
            assert(spec_message(e).subrange(0, 20) =~= "COVE_E_BAD_SECTION"@ + ": "@);
        },
        _ => {},
    }
}

} // verus!
