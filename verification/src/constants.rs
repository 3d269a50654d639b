//! Enumerations shared across the format: logical types, physical kinds,
//! encodings, compression codecs and digest algorithms.
use vstd::prelude::*;

verus! {

/// Logical type of a column.
#[derive(Debug, Clone, Copy, PartialEq, Eq, Hash, Structural)]
pub enum CoveLogicalType {
    Null,
    Bool,
    Int8,
    Int16,
    Int32,
    Int64,
    UInt8,
    UInt16,
    UInt32,
    UInt64,
    Float32,
    Float64,
    Decimal64,
    Decimal128,
    DateDays,
    TimestampMicros,
    TimestampNanos,
    Uuid,
    Utf8,
    Binary,
    Json,
}

/// Physical storage kind of a column.
#[derive(Debug, Clone, Copy, PartialEq, Eq, Hash, Structural)]
pub enum CovePhysicalKind {
    Boolean,
    FileCode,
    NumCode,
    FixedBytes,
    VarBytes,
}

/// Encoding applied to a column's data buffer.
#[derive(Debug, Clone, Copy, PartialEq, Eq, Hash, Structural)]
pub enum CoveEncodingKind {
    PlainFixed,
    PlainVarint,
    VarBytes,
    Validity,
    Constant,
    FileCode,
    NumCode,
    LocalCodebook,
    Rle,
    RunEnd,
    BitPacked,
    Delta,
    FrameOfReference,
    PatchedBase,
    Sparse,
    Canonical,
    Sequence,
    Lz4Block,
    ZstdBlock,
}

/// Section compression codec.
#[derive(Debug, Clone, Copy, PartialEq, Eq, Hash, Structural)]
pub enum CompressionCodec {
    /// Stored uncompressed (wire value 0, `none`).
    Uncompressed,
    /// LZ4 block format (wire value 1).
    Lz4,
    /// Zstandard frame (wire value 2).
    Zstd,
}

/// The codec a wire value names, if any.
pub open spec fn spec_codec_from_u8(v: u8) -> Option<CompressionCodec> {
    if v == 0 {
        Some(CompressionCodec::Uncompressed)
    } else if v == 1 {
        Some(CompressionCodec::Lz4)
    } else if v == 2 {
        Some(CompressionCodec::Zstd)
    } else {
        None
    }
}

impl CompressionCodec {
    /// The codec a wire value names, if any.
    pub fn from_u8(v: u8) -> (res: Option<Self>)
        ensures
            res == spec_codec_from_u8(v),
    {
        if v == 0 {
            Some(CompressionCodec::Uncompressed)
        } else if v == 1 {
            Some(CompressionCodec::Lz4)
        } else if v == 2 {
            Some(CompressionCodec::Zstd)
        } else {
            None
        }
    }
}

/// Cryptographic digest algorithm.
#[derive(Debug, Clone, Copy, PartialEq, Eq, Hash, Structural)]
pub enum DigestAlgorithm {
    /// No digest (wire value 0, `none`).
    NoDigest,
    /// SHA-256 (wire value 1).
    Sha256,
    /// BLAKE3 (wire value 2).
    Blake3,
}

/// The wire value of a digest algorithm.
pub open spec fn spec_digest_algorithm_code(a: DigestAlgorithm) -> u16 {
    match a {
        DigestAlgorithm::NoDigest => 0,
        DigestAlgorithm::Sha256 => 1,
        DigestAlgorithm::Blake3 => 2,
    }
}

/// The digest algorithm a wire value names, if any.
pub open spec fn spec_digest_algorithm_from_u16(v: u16) -> Option<DigestAlgorithm> {
    if v == 0 {
        Some(DigestAlgorithm::NoDigest)
    } else if v == 1 {
        Some(DigestAlgorithm::Sha256)
    } else if v == 2 {
        Some(DigestAlgorithm::Blake3)
    } else {
        None
    }
}

impl DigestAlgorithm {
    /// The digest algorithm a wire value names, if any.
    pub fn from_u16(v: u16) -> (res: Option<Self>)
        ensures
            res == spec_digest_algorithm_from_u16(v),
    {
        if v == 0 {
            Some(DigestAlgorithm::NoDigest)
        } else if v == 1 {
            Some(DigestAlgorithm::Sha256)
        } else if v == 2 {
            Some(DigestAlgorithm::Blake3)
        } else {
            None
        }
    }

    /// The wire value of this algorithm.
    pub fn to_u16(self) -> (res: u16)
        ensures
            res == spec_digest_algorithm_code(self),
    {
        match self {
            DigestAlgorithm::NoDigest => 0,
            DigestAlgorithm::Sha256 => 1,
            DigestAlgorithm::Blake3 => 2,
        }
    }
}

} // verus!
