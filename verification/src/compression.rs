//! Section decompression layer.
//!
//! Section payloads may be stored uncompressed, as an LZ4 block or as a
//! Zstandard frame. Every v1 codec is available.
use std::borrow::Cow;
use std::io::Read;

use vstd::prelude::*;

use crate::constants::{spec_codec_from_u8, CompressionCodec};
use crate::error::{fails_with, CoveError, ErrorCode};
use crate::util::text;

verus! {

/// A footer directory entry describing one section.
#[derive(Debug, Clone, Copy, PartialEq, Eq)]
pub struct CoveSectionEntryV1 {
    pub section_id: u32,
    pub section_kind: u16,
    pub profile: u16,
    pub flags: u32,
    pub offset: u64,
    pub length: u64,
    pub uncompressed_length: u64,
    pub item_count: u64,
    pub row_count: u64,
    pub compression: u8,
    pub encryption: u8,
    pub alignment_log2: u8,
    pub reserved0: u8,
    pub required_features: u64,
    pub optional_features: u64,
    pub crc32c: u32,
    pub reserved1: u32,
}

/// The placement of the footer or postscript section.
#[derive(Debug, Clone, Copy, PartialEq, Eq)]
pub struct CoveSectionSpecV1 {
    pub offset: u64,
    pub length: u64,
    pub uncompressed_length: u64,
    pub compression: u8,
    pub encryption: u8,
    pub alignment_log2: u8,
    pub flags: u8,
    pub crc32c: u32,
    pub reserved: u32,
}

#[verifier::external_type_specification]
#[verifier::external_body]
pub struct ExLz4DecompressError(lz4_flex::block::DecompressError);

/// What decoding `input` as an LZ4 block into a buffer of `capacity` bytes
/// gives: the decoded bytes, or `None` when the block is malformed or does not
/// fit.
pub uninterp spec fn lz4_block_of(input: Seq<u8>, capacity: usize) -> Option<Seq<u8>>;

/// What decoding `input` as one Zstandard frame gives: the decoded bytes, or
/// `None` when the frame is malformed.
pub uninterp spec fn zstd_frame_of(input: Seq<u8>) -> Option<Seq<u8>>;

/// The longest run of `0xFF` bytes that an LZ4 block handed to the decoder
/// may hold.
pub const LZ4_MAX_FF_RUN: usize = 8_000_000;

/// The number of `0xFF` bytes that directly precede position `j` of `b`.
pub open spec fn ff_run_before(b: Seq<u8>, j: int) -> nat
    decreases j,
{
    if j <= 0 || j > b.len() || b[j - 1] != 0xFF {
        0
    } else {
        1 + ff_run_before(b, j - 1)
    }
}

/// Whether every run of `0xFF` bytes in `b` is shorter than
/// [`LZ4_MAX_FF_RUN`].
pub open spec fn lz4_ff_runs_fit(b: Seq<u8>) -> bool {
    forall|j: int| 0 <= j <= b.len() ==> #[trigger] ff_run_before(b, j) < LZ4_MAX_FF_RUN
}

/// Whether an LZ4 block may be handed to the decoder: every run of `0xFF`
/// bytes in it is shorter than [`LZ4_MAX_FF_RUN`].
pub fn lz4_runs_fit(b: &[u8]) -> (res: bool)
    ensures
        res == lz4_ff_runs_fit(b@),
{
    let mut run: usize = 0;
    let mut i: usize = 0;
    while i < b.len()
        invariant
            i <= b@.len(),
            run == ff_run_before(b@, i as int),
            forall|j: int| 0 <= j <= i ==> #[trigger] ff_run_before(b@, j) < LZ4_MAX_FF_RUN,
        decreases b@.len() - i,
    {
        if b[i] == 0xFF {
            run = run + 1;
        } else {
            run = 0;
        }
        if run >= LZ4_MAX_FF_RUN {
            assert(ff_run_before(b@, i + 1) >= LZ4_MAX_FF_RUN);
            return false;
        }
        i = i + 1;
    }
    true
}

/// `lz4_flex::block::decompress`: decodes an LZ4 block into a buffer of
/// `capacity` bytes, so a decoded block is never longer than `capacity`.
/// The decoder adds the bytes of each length run into a `u32` and then into a
/// `usize` position, with no check for overflow; a run of `0xFF` bytes shorter
/// than [`LZ4_MAX_FF_RUN`] keeps those sums in range on 32-bit and 64-bit
/// targets, so `requires` asks for that. The buffer is allocated up front; how
/// an allocation that the machine cannot satisfy ends is left unsaid.
#[verifier::external_body]
fn lz4_block_decompress(input: &[u8], capacity: usize) -> (res: Result<
    Vec<u8>,
    lz4_flex::block::DecompressError,
>)
    requires
        lz4_ff_runs_fit(input@),
    ensures
        match res {
            Ok(v) => lz4_block_of(input@, capacity) == Some(v@) && v@.len() <= capacity,
            Err(_) => lz4_block_of(input@, capacity) is None,
        },
{
    lz4_flex::block::decompress(input, capacity)
}

/// `ruzstd::decoding::StreamingDecoder` read to its end: the bytes of the
/// Zstandard frame that `input` holds, or `None` when the decoder reports an
/// error. The decoder's `panic!` and `unreachable!` arms each sit behind a
/// check made first on the same input: a reserved block type is refused when
/// the block header is read, the literals size format is two bits, a
/// literals section without a compressed size is raw or run-length, FSE
/// tables refuse symbols past the largest length code, the frame state is
/// initialised before blocks are decoded, and the checked copy inside its ring
/// buffer is only called from its own tests. That no index inside the decoder
/// goes out of range, and how an allocation that the machine cannot satisfy
/// ends, are left unsaid.
#[verifier::external_body]
fn zstd_decode_frame(input: &[u8]) -> (res: Option<Vec<u8>>)
    ensures
        match res {
            Some(v) => zstd_frame_of(input@) == Some(v@),
            None => zstd_frame_of(input@) is None,
        },
{
    let mut decoder = ruzstd::decoding::StreamingDecoder::new(input).ok()?;
    let mut out = Vec::new();
    decoder.read_to_end(&mut out).ok()?;
    Some(out)
}

/// The byte range `[offset, offset + length)` inside a file of `file_len`
/// bytes: `ArithOverflow` when the end overflows `u64`, `OffsetRange` when
/// it lies past the file.
pub open spec fn spec_raw_range(file_len: nat, offset: u64, length: u64) -> Result<
    (int, int),
    ErrorCode,
> {
    if offset + length > u64::MAX {
        Err(ErrorCode::ArithOverflow)
    } else if offset + length > file_len {
        Err(ErrorCode::OffsetRange)
    } else {
        Ok((offset as int, offset + length))
    }
}

/// Decoding the stored bytes `raw` of a section: the payload, or the error.
pub open spec fn spec_decode_payload(raw: Seq<u8>, uncompressed_length: u64, codec: u8) -> Result<
    Seq<u8>,
    ErrorCode,
> {
    match spec_codec_from_u8(codec) {
        None => Err(ErrorCode::BadSection),
        Some(CompressionCodec::Uncompressed) => if uncompressed_length != raw.len() {
            Err(ErrorCode::BadSection)
        } else {
            Ok(raw)
        },
        Some(CompressionCodec::Lz4) => if uncompressed_length > usize::MAX {
            Err(ErrorCode::ArithOverflow)
        } else {
            match lz4_block_of(raw, uncompressed_length as usize) {
                Some(out) => Ok(out),
                None => Err(ErrorCode::BadSection),
            }
        },
        Some(CompressionCodec::Zstd) => if uncompressed_length > usize::MAX {
            Err(ErrorCode::ArithOverflow)
        } else {
            match zstd_frame_of(raw) {
                Some(out) => if out.len() == uncompressed_length {
                    Ok(out)
                } else {
                    Err(ErrorCode::BadSection)
                },
                None => Err(ErrorCode::BadSection),
            }
        },
    }
}

/// The payload of the section stored at `[offset, offset + length)` of
/// `file`, decoded with `codec`.
pub open spec fn spec_section_payload(
    file: Seq<u8>,
    offset: u64,
    length: u64,
    uncompressed_length: u64,
    codec: u8,
) -> Result<Seq<u8>, ErrorCode> {
    match spec_raw_range(file.len(), offset, length) {
        Err(e) => Err(e),
        Ok((start, end)) => spec_decode_payload(
            file.subrange(start, end),
            uncompressed_length,
            codec,
        ),
    }
}

/// Whether the section at `[offset, offset + length)` of `file` may be
/// handed to its decoder: an LZ4 section whose range lies inside the file
/// holds no run of `0xFF` bytes as long as [`LZ4_MAX_FF_RUN`].
pub open spec fn spec_section_decodable(file: Seq<u8>, offset: u64, length: u64, codec: u8) -> bool {
    codec == 1 ==> match spec_raw_range(file.len(), offset, length) {
        Ok((s, e)) => lz4_ff_runs_fit(file.subrange(s, e)),
        Err(_) => true,
    }
}

/// The stored bytes of the section at `[offset, offset + length)`.
pub fn payload_raw_bytes<'a>(file_data: &'a [u8], offset: u64, length: u64) -> (res: Result<
    &'a [u8],
    CoveError,
>)
    ensures
        match spec_raw_range(file_data@.len(), offset, length) {
            Ok((s, e)) => (res matches Ok(r) && r@ == file_data@.subrange(s, e)),
            Err(c) => fails_with(res, c),
        },
{
    let end = match offset.checked_add(length) {
        Some(v) => v,
        None => return Err(CoveError::ArithOverflow),
    };
    if end > file_data.len() as u64 {
        return Err(CoveError::OffsetRange);
    }
    Ok(&file_data[offset as usize..end as usize])
}

fn lz4_decompress(raw: &[u8], expected_len: u64) -> (res: Result<Vec<u8>, CoveError>)
    requires
        lz4_ff_runs_fit(raw@),
    ensures
        match spec_decode_payload(raw@, expected_len, 1) {
            Ok(b) => (res matches Ok(v) && v@ == b),
            Err(c) => fails_with(res, c),
        },
{
    if expected_len > usize::MAX as u64 {
        return Err(CoveError::ArithOverflow);
    }
    match lz4_block_decompress(raw, expected_len as usize) {
        Ok(v) => Ok(v),
        Err(_) => Err(CoveError::BadSection(text("LZ4 decompression failed"))),
    }
}

fn zstd_decompress(raw: &[u8], expected_len: u64) -> (res: Result<Vec<u8>, CoveError>)
    ensures
        match spec_decode_payload(raw@, expected_len, 2) {
            Ok(b) => (res matches Ok(v) && v@ == b),
            Err(c) => fails_with(res, c),
        },
{
    if expected_len > usize::MAX as u64 {
        return Err(CoveError::ArithOverflow);
    }
    let out = match zstd_decode_frame(raw) {
        Some(v) => v,
        None => return Err(CoveError::BadSection(text("Zstd decompression failed"))),
    };
    if out.len() as u64 != expected_len {
        return Err(
            CoveError::BadSection(
                text("Zstd output length differs from the declared uncompressed length"),
            ),
        );
    }
    Ok(out)
}

/// Decodes the stored bytes `raw` of a section with `compression`; the
/// uncompressed codec hands `raw` back borrowed.
fn decode_payload<'a>(raw: &'a [u8], uncompressed_length: u64, compression: u8) -> (res:
    Result<Cow<'a, [u8]>, CoveError>)
    requires
        compression == 1 ==> lz4_ff_runs_fit(raw@),
    ensures
        match spec_decode_payload(raw@, uncompressed_length, compression) {
            Ok(b) => (res matches Ok(v) && v@ == b),
            Err(c) => fails_with(res, c),
        },
        compression == 0 ==> !(res matches Ok(Cow::Owned(_))),
{
    let codec = match CompressionCodec::from_u8(compression) {
        Some(c) => c,
        None => return Err(CoveError::BadSection(text("unknown compression codec"))),
    };
    match codec {
        CompressionCodec::Uncompressed => {
            if uncompressed_length != raw.len() as u64 {
                return Err(
                    CoveError::BadSection(
                        text("uncompressed_length must equal length when codec=None"),
                    ),
                );
            }
            Ok(Cow::Borrowed(raw))
        },
        CompressionCodec::Lz4 => match lz4_decompress(raw, uncompressed_length) {
            Ok(v) => Ok(Cow::Owned(v)),
            Err(e) => Err(e),
        },
        CompressionCodec::Zstd => match zstd_decompress(raw, uncompressed_length) {
            Ok(v) => Ok(Cow::Owned(v)),
            Err(e) => Err(e),
        },
    }
}

fn payload_from_spec<'a>(
    file_data: &'a [u8],
    offset: u64,
    length: u64,
    uncompressed_length: u64,
    compression: u8,
) -> (res: Result<Cow<'a, [u8]>, CoveError>)
    requires
        spec_section_decodable(file_data@, offset, length, compression),
    ensures
        match spec_section_payload(file_data@, offset, length, uncompressed_length, compression) {
            Ok(b) => (res matches Ok(v) && v@ == b),
            Err(c) => fails_with(res, c),
        },
        compression == 0 ==> !(res matches Ok(Cow::Owned(_))),
{
    let raw = match payload_raw_bytes(file_data, offset, length) {
        Ok(r) => r,
        Err(e) => return Err(e),
    };
    decode_payload(raw, uncompressed_length, compression)
}

/// The decompressed payload of a footer directory section: for the
/// uncompressed codec the stored bytes themselves (their length must equal
/// `uncompressed_length`), for LZ4 and Zstandard the decoded bytes.
pub fn section_payload<'a>(file_data: &'a [u8], entry: &CoveSectionEntryV1) -> (res: Result<
    Cow<'a, [u8]>,
    CoveError,
>)
    requires
        spec_section_decodable(file_data@, entry.offset, entry.length, entry.compression),
    ensures
        match spec_section_payload(
            file_data@,
            entry.offset,
            entry.length,
            entry.uncompressed_length,
            entry.compression,
        ) {
            Ok(b) => (res matches Ok(v) && v@ == b),
            Err(c) => fails_with(res, c),
        },
        entry.compression == 0 ==> !(res matches Ok(Cow::Owned(_))),
{
    payload_from_spec(
        file_data,
        entry.offset,
        entry.length,
        entry.uncompressed_length,
        entry.compression,
    )
}

/// The decompressed payload of the footer or postscript section, under the
/// same codec rules as directory sections.
pub fn section_spec_payload<'a>(file_data: &'a [u8], spec: &CoveSectionSpecV1) -> (res: Result<
    Cow<'a, [u8]>,
    CoveError,
>)
    requires
        spec_section_decodable(file_data@, spec.offset, spec.length, spec.compression),
    ensures
        match spec_section_payload(
            file_data@,
            spec.offset,
            spec.length,
            spec.uncompressed_length,
            spec.compression,
        ) {
            Ok(b) => (res matches Ok(v) && v@ == b),
            Err(c) => fails_with(res, c),
        },
        spec.compression == 0 ==> !(res matches Ok(Cow::Owned(_))),
{
    payload_from_spec(file_data, spec.offset, spec.length, spec.uncompressed_length, spec.compression)
}

/// An uncompressed section reads back exactly the bytes stored at its range
/// when its declared lengths agree and the range lies inside the file (and
/// its end fits in a `u64`).
pub proof fn lemma_uncompressed_payload_is_stored_bytes(file: Seq<u8>, offset: u64, length: u64)
    requires
        offset + length <= file.len(),
        offset + length <= u64::MAX,
    ensures
        spec_section_payload(file, offset, length, length, 0) == Ok::<Seq<u8>, ErrorCode>(
            file.subrange(offset as int, offset + length),
        ),
{
}


/// The payload of a section as [`spec_section_payload`] gives it, except
/// that an LZ4 section holding a run of `0xFF` bytes as long as
/// [`LZ4_MAX_FF_RUN`] is `BadSection` without being decoded.
pub open spec fn spec_checked_section_payload(
    file: Seq<u8>,
    offset: u64,
    length: u64,
    uncompressed_length: u64,
    codec: u8,
) -> Result<Seq<u8>, ErrorCode> {
    if !spec_section_decodable(file, offset, length, codec) {
        Err(ErrorCode::BadSection)
    } else {
        spec_section_payload(file, offset, length, uncompressed_length, codec)
    }
}

fn checked_payload<'a>(
    file_data: &'a [u8],
    offset: u64,
    length: u64,
    uncompressed_length: u64,
    compression: u8,
) -> (res: Result<Cow<'a, [u8]>, CoveError>)
    ensures
        match spec_checked_section_payload(file_data@, offset, length, uncompressed_length, compression) {
            Ok(b) => (res matches Ok(v) && v@ == b),
            Err(c) => fails_with(res, c),
        },
{
    if compression == 1 {
        match payload_raw_bytes(file_data, offset, length) {
            Ok(raw) => {
                if !lz4_runs_fit(raw) {
                    return Err(
                        CoveError::BadSection(text("LZ4 block holds a length run too long to decode")),
                    );
                }
            },
            Err(_) => {},
        }
    }
    payload_from_spec(file_data, offset, length, uncompressed_length, compression)
}

/// The decompressed payload of a footer directory section for any file
/// bytes: an LZ4 block that the decoder could not count through is refused
/// first (see [`spec_checked_section_payload`]).
pub fn section_payload_checked<'a>(file_data: &'a [u8], entry: &CoveSectionEntryV1) -> (res:
    Result<Cow<'a, [u8]>, CoveError>)
    ensures
        match spec_checked_section_payload(
            file_data@,
            entry.offset,
            entry.length,
            entry.uncompressed_length,
            entry.compression,
        ) {
            Ok(b) => (res matches Ok(v) && v@ == b),
            Err(c) => fails_with(res, c),
        },
{
    checked_payload(
        file_data,
        entry.offset,
        entry.length,
        entry.uncompressed_length,
        entry.compression,
    )
}

/// The decompressed payload of the footer or postscript section for any
/// file bytes, under the same rule as [`section_payload_checked`].
pub fn section_spec_payload_checked<'a>(file_data: &'a [u8], spec: &CoveSectionSpecV1) -> (res:
    Result<Cow<'a, [u8]>, CoveError>)
    ensures
        match spec_checked_section_payload(
            file_data@,
            spec.offset,
            spec.length,
            spec.uncompressed_length,
            spec.compression,
        ) {
            Ok(b) => (res matches Ok(v) && v@ == b),
            Err(c) => fails_with(res, c),
        },
{
    checked_payload(file_data, spec.offset, spec.length, spec.uncompressed_length, spec.compression)
}

} // verus!
