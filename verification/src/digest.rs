//! Digest manifest.
//!
//! Digest manifests bind cryptographic hashes to sections, pages, the whole
//! file, or custom targets. Validation is policy-aware: a missing digest
//! entry for a target is not an error (digests are optional), but a present
//! entry that fails verification is reported as [`CoveError::DigestMismatch`].
use vstd::prelude::*;

use crate::checksum::{crc32c, spec_crc32c};
use crate::constants::{
    spec_digest_algorithm_code, spec_digest_algorithm_from_u16, DigestAlgorithm,
};
use crate::error::{fails_with, CoveError, ErrorCode};
use crate::util::{bytes_eq, text};
use crate::wire::{
    append_bytes, get_u16_le, get_u32_le, get_u64_le, push_u16_le, push_u32_le, push_u64_le,
    spec_u16_at, spec_u32_at, spec_u64_at, u16_le_bytes, u32_le_bytes, u64_le_bytes,
};
use vstd::slice::slice_to_vec;
use sha2::Digest;

verus! {

/// Length of the fixed manifest header.
pub const DIGEST_MANIFEST_HEADER_LEN: usize = 60;

/// Length of an entry before its digest bytes.
pub const DIGEST_ENTRY_FIXED_LEN: usize = 32;

/// What a manifest's digests cover.
#[derive(Debug, Clone, Copy, PartialEq, Eq, Structural)]
pub enum DigestScope {
    File,
    Section,
    Page,
    Merkle,
}

/// The scope a wire value names, if any.
pub open spec fn spec_scope_from_u16(v: u16) -> Option<DigestScope> {
    if v == 0 {
        Some(DigestScope::File)
    } else if v == 1 {
        Some(DigestScope::Section)
    } else if v == 2 {
        Some(DigestScope::Page)
    } else if v == 3 {
        Some(DigestScope::Merkle)
    } else {
        None
    }
}

/// The wire value of a scope.
pub open spec fn spec_scope_code(s: DigestScope) -> u16 {
    match s {
        DigestScope::File => 0,
        DigestScope::Section => 1,
        DigestScope::Page => 2,
        DigestScope::Merkle => 3,
    }
}

impl DigestScope {
    /// The scope a wire value names, if any.
    pub fn from_u16(value: u16) -> (res: Option<Self>)
        ensures
            res == spec_scope_from_u16(value),
    {
        if value == 0 {
            Some(DigestScope::File)
        } else if value == 1 {
            Some(DigestScope::Section)
        } else if value == 2 {
            Some(DigestScope::Page)
        } else if value == 3 {
            Some(DigestScope::Merkle)
        } else {
            None
        }
    }

    /// The wire value of this scope.
    pub fn to_u16(self) -> (res: u16)
        ensures
            res == spec_scope_code(self),
    {
        match self {
            DigestScope::File => 0,
            DigestScope::Section => 1,
            DigestScope::Page => 2,
            DigestScope::Merkle => 3,
        }
    }
}

/// What a single digest entry covers.
#[derive(Debug, Clone, Copy, PartialEq, Eq, Structural)]
pub enum DigestTargetKind {
    Section,
    Page,
    File,
    Custom,
}

/// The target kind a wire value names, if any.
pub open spec fn spec_target_kind_from_u16(v: u16) -> Option<DigestTargetKind> {
    if v == 0 {
        Some(DigestTargetKind::Section)
    } else if v == 1 {
        Some(DigestTargetKind::Page)
    } else if v == 2 {
        Some(DigestTargetKind::File)
    } else if v == 3 {
        Some(DigestTargetKind::Custom)
    } else {
        None
    }
}

/// The wire value of a target kind.
pub open spec fn spec_target_kind_code(k: DigestTargetKind) -> u16 {
    match k {
        DigestTargetKind::Section => 0,
        DigestTargetKind::Page => 1,
        DigestTargetKind::File => 2,
        DigestTargetKind::Custom => 3,
    }
}

impl DigestTargetKind {
    /// The target kind a wire value names, if any.
    pub fn from_u16(value: u16) -> (res: Option<Self>)
        ensures
            res == spec_target_kind_from_u16(value),
    {
        if value == 0 {
            Some(DigestTargetKind::Section)
        } else if value == 1 {
            Some(DigestTargetKind::Page)
        } else if value == 2 {
            Some(DigestTargetKind::File)
        } else if value == 3 {
            Some(DigestTargetKind::Custom)
        } else {
            None
        }
    }

    /// The wire value of this target kind.
    pub fn to_u16(self) -> (res: u16)
        ensures
            res == spec_target_kind_code(self),
    {
        match self {
            DigestTargetKind::Section => 0,
            DigestTargetKind::Page => 1,
            DigestTargetKind::File => 2,
            DigestTargetKind::Custom => 3,
        }
    }
}

/// A single digest entry.
#[derive(Debug, Clone, PartialEq, Eq)]
pub struct DigestEntry {
    pub target_kind: DigestTargetKind,
    pub section_id: u32,
    pub local_id: u64,
    pub offset: u64,
    pub length: u64,
    pub digest: Vec<u8>,
}

/// The abstract content of a [`DigestEntry`].
pub struct DigestEntryView {
    pub target_kind: DigestTargetKind,
    pub section_id: u32,
    pub local_id: u64,
    pub offset: u64,
    pub length: u64,
    pub digest: Seq<u8>,
}

impl View for DigestEntry {
    type V = DigestEntryView;

    open spec fn view(&self) -> DigestEntryView {
        DigestEntryView {
            target_kind: self.target_kind,
            section_id: self.section_id,
            local_id: self.local_id,
            offset: self.offset,
            length: self.length,
            digest: self.digest@,
        }
    }
}

/// A parsed digest manifest.
#[derive(Debug, Clone, PartialEq, Eq)]
pub struct DigestManifest {
    pub algorithm: DigestAlgorithm,
    pub scope: DigestScope,
    pub root_digest: [u8; 32],
    /// All digest entries.
    pub entries: Vec<DigestEntry>,
}

/// The abstract content of a [`DigestManifest`].
pub struct DigestManifestView {
    pub algorithm: DigestAlgorithm,
    pub scope: DigestScope,
    pub root_digest: Seq<u8>,
    pub entries: Seq<DigestEntryView>,
}

impl View for DigestManifest {
    type V = DigestManifestView;

    open spec fn view(&self) -> DigestManifestView {
        DigestManifestView {
            algorithm: self.algorithm,
            scope: self.scope,
            root_digest: self.root_digest@,
            entries: self.entries@.map_values(|e: DigestEntry| e@),
        }
    }
}

impl DigestManifest {
    /// An empty SHA-256 section-scope manifest with a zero root digest.
    pub fn default() -> (res: Self)
        ensures
            res.algorithm == DigestAlgorithm::Sha256,
            res.scope == DigestScope::Section,
            res.root_digest@ == Seq::new(32, |i: int| 0u8),
            res.entries@.len() == 0,
    {
        let root = [0u8; 32];
        assert(root@ =~= Seq::new(32, |i: int| 0u8));
        Self {
            algorithm: DigestAlgorithm::Sha256,
            scope: DigestScope::Section,
            root_digest: root,
            entries: Vec::new(),
        }
    }
}

/// Digest length that an algorithm produces.
pub open spec fn spec_expected_digest_len(a: DigestAlgorithm) -> nat {
    match a {
        DigestAlgorithm::NoDigest => 0,
        DigestAlgorithm::Sha256 | DigestAlgorithm::Blake3 => 32,
    }
}

fn expected_digest_len(algorithm: DigestAlgorithm) -> (res: usize)
    ensures
        res == spec_expected_digest_len(algorithm),
{
    match algorithm {
        DigestAlgorithm::NoDigest => 0,
        DigestAlgorithm::Sha256 | DigestAlgorithm::Blake3 => 32,
    }
}

/// Parsing one entry at `pos` inside an entries region that ends at `end`.
#[verifier::opaque]
pub open spec fn spec_parse_digest_entry(
    b: Seq<u8>,
    pos: int,
    end: int,
    alg: DigestAlgorithm,
) -> Result<(DigestEntryView, int), ErrorCode> {
    if pos + 32 > usize::MAX {
        Err(ErrorCode::ArithOverflow)
    } else if pos + 32 > end {
        Err(ErrorCode::BufferTooShort)
    } else {
        match spec_target_kind_from_u16(spec_u16_at(b, pos)) {
            None => Err(ErrorCode::BadSection),
            Some(target_kind) => {
                let digest_len = spec_u16_at(b, pos + 2) as int;
                let p = pos + 32;
                if p + digest_len > usize::MAX {
                    Err(ErrorCode::ArithOverflow)
                } else if p + digest_len > end {
                    Err(ErrorCode::BufferTooShort)
                } else if digest_len != spec_expected_digest_len(alg) {
                    Err(ErrorCode::BadSection)
                } else {
                    Ok(
                        (
                            DigestEntryView {
                                target_kind,
                                section_id: spec_u32_at(b, pos + 4),
                                local_id: spec_u64_at(b, pos + 8),
                                offset: spec_u64_at(b, pos + 16),
                                length: spec_u64_at(b, pos + 24),
                                digest: b.subrange(p, p + digest_len),
                            },
                            p + digest_len,
                        ),
                    )
                }
            },
        }
    }
}

/// Parsing `n` entries from `pos`: the entries and the position after them.
pub open spec fn spec_parse_digest_entries(
    b: Seq<u8>,
    pos: int,
    end: int,
    alg: DigestAlgorithm,
    n: nat,
) -> Result<(Seq<DigestEntryView>, int), ErrorCode>
    decreases n,
{
    if n == 0 {
        Ok((Seq::empty(), pos))
    } else {
        match spec_parse_digest_entry(b, pos, end, alg) {
            Err(e) => Err(e),
            Ok((entry, next)) => match spec_parse_digest_entries(b, next, end, alg, (n - 1) as nat) {
                Err(e) => Err(e),
                Ok((rest, last)) => Ok((seq![entry] + rest, last)),
            },
        }
    }
}

/// The header bytes that the header checksum covers: the first 56 bytes and
/// the checksum field read as zero.
pub open spec fn checksum_input(b: Seq<u8>) -> Seq<u8> {
    b.subrange(0, 56) + seq![0u8, 0u8, 0u8, 0u8]
}

/// The manifest that a parsed run of entries completes: the entries must end
/// exactly at `end`.
pub open spec fn manifest_from_entries(
    b: Seq<u8>,
    algorithm: DigestAlgorithm,
    scope: DigestScope,
    parsed: Result<(Seq<DigestEntryView>, int), ErrorCode>,
    end: int,
) -> Result<DigestManifestView, ErrorCode> {
    match parsed {
        Err(e) => Err(e),
        Ok((entries, pos)) => if pos != end {
            Err(ErrorCode::BadSection)
        } else {
            Ok(DigestManifestView { algorithm, scope, root_digest: b.subrange(24, 56), entries })
        },
    }
}

/// Parsing a whole manifest.
pub open spec fn spec_parse_digest_manifest(b: Seq<u8>) -> Result<DigestManifestView, ErrorCode> {
    if b.len() < 60 {
        Err(ErrorCode::BufferTooShort)
    } else if spec_crc32c(checksum_input(b)) != spec_u32_at(b, 56) {
        Err(ErrorCode::ChecksumMismatch)
    } else {
        match spec_digest_algorithm_from_u16(spec_u16_at(b, 0)) {
            None => Err(ErrorCode::BadSection),
            Some(DigestAlgorithm::NoDigest) => Err(ErrorCode::BadSection),
            Some(algorithm) => match spec_scope_from_u16(spec_u16_at(b, 2)) {
                None => Err(ErrorCode::BadSection),
                Some(scope) => {
                    let count = spec_u32_at(b, 4) as nat;
                    let off = spec_u64_at(b, 8) as int;
                    let len = spec_u64_at(b, 16) as int;
                    if off > usize::MAX || len > usize::MAX {
                        Err(ErrorCode::OffsetRange)
                    } else if off < 60 {
                        Err(ErrorCode::OffsetRange)
                    } else if off + len > usize::MAX {
                        Err(ErrorCode::ArithOverflow)
                    } else if off + len > b.len() {
                        Err(ErrorCode::OffsetRange)
                    } else if off + len != b.len() {
                        Err(ErrorCode::BadSection)
                    } else {
                        manifest_from_entries(
                            b,
                            algorithm,
                            scope,
                            spec_parse_digest_entries(b, off, off + len, algorithm, count),
                            off + len,
                        )
                    }
                },
            },
        }
    }
}

/// The wire form of one entry.
pub open spec fn spec_serialize_digest_entry(e: DigestEntryView) -> Seq<u8> {
    u16_le_bytes(spec_target_kind_code(e.target_kind)) + u16_le_bytes(e.digest.len() as u16)
        + u32_le_bytes(e.section_id) + u64_le_bytes(e.local_id) + u64_le_bytes(e.offset)
        + u64_le_bytes(e.length) + e.digest
}

/// The wire form of a run of entries.
pub open spec fn spec_serialize_digest_entries(es: Seq<DigestEntryView>) -> Seq<u8>
    decreases es.len(),
{
    if es.len() == 0 {
        Seq::empty()
    } else {
        spec_serialize_digest_entries(es.drop_last()) + spec_serialize_digest_entry(es.last())
    }
}

/// The header with a zero checksum field.
pub open spec fn spec_digest_header(m: DigestManifestView) -> Seq<u8> {
    u16_le_bytes(spec_digest_algorithm_code(m.algorithm)) + u16_le_bytes(
        spec_scope_code(m.scope),
    ) + u32_le_bytes(m.entries.len() as u32) + u64_le_bytes(60) + u64_le_bytes(
        spec_serialize_digest_entries(m.entries).len() as u64,
    ) + m.root_digest + u32_le_bytes(0)
}

/// Serializing a manifest: header with its CRC32C, then the entries; or
/// `BadSection` for the `none` algorithm, a digest of the wrong length, or
/// more entries than a `u32` counts.
pub open spec fn spec_serialize_digest_manifest(m: DigestManifestView) -> Result<
    Seq<u8>,
    ErrorCode,
> {
    if m.algorithm == DigestAlgorithm::NoDigest {
        Err(ErrorCode::BadSection)
    } else if exists|i: int|
        0 <= i < m.entries.len() && #[trigger] m.entries[i].digest.len()
            != spec_expected_digest_len(m.algorithm) {
        Err(ErrorCode::BadSection)
    } else if m.entries.len() > u32::MAX {
        Err(ErrorCode::BadSection)
    } else {
        let header = spec_digest_header(m);
        Ok(
            header.subrange(0, 56) + u32_le_bytes(spec_crc32c(header))
                + spec_serialize_digest_entries(m.entries),
        )
    }
}

proof fn lemma_serialize_entries_step(es: Seq<DigestEntryView>, i: int)
    requires
        0 <= i < es.len(),
    ensures
        spec_serialize_digest_entries(es.take(i + 1)) == spec_serialize_digest_entries(es.take(i))
            + spec_serialize_digest_entry(es[i]),
{
    assert(es.take(i + 1).drop_last() =~= es.take(i));
}

fn parse_entry(bytes: &[u8], pos: usize, end: usize, algorithm: DigestAlgorithm) -> (res: Result<
    (DigestEntry, usize),
    CoveError,
>)
    requires
        end <= bytes@.len(),
    ensures
        match spec_parse_digest_entry(bytes@, pos as int, end as int, algorithm) {
            Ok((e, p)) => (res matches Ok((r, q)) && r@ == e && q == p),
            Err(c) => fails_with(res, c),
        },
{
    reveal(spec_parse_digest_entry);
    let fixed_end = match pos.checked_add(DIGEST_ENTRY_FIXED_LEN) {
        Some(v) => v,
        None => return Err(CoveError::ArithOverflow),
    };
    if fixed_end > end {
        return Err(CoveError::BufferTooShort);
    }
    let target_kind = match DigestTargetKind::from_u16(get_u16_le(bytes, pos)) {
        Some(k) => k,
        None => return Err(CoveError::BadSection(text("unknown digest target kind"))),
    };
    let digest_len = get_u16_le(bytes, pos + 2) as usize;
    let section_id = get_u32_le(bytes, pos + 4);
    let local_id = get_u64_le(bytes, pos + 8);
    let offset = get_u64_le(bytes, pos + 16);
    let length = get_u64_le(bytes, pos + 24);
    let p = fixed_end;
    let digest_end = match p.checked_add(digest_len) {
        Some(v) => v,
        None => return Err(CoveError::ArithOverflow),
    };
    if digest_end > end {
        return Err(CoveError::BufferTooShort);
    }
    let digest = slice_to_vec(&bytes[p..digest_end]);
    if digest.len() != expected_digest_len(algorithm) {
        return Err(
            CoveError::BadSection(text("digest length does not match the manifest algorithm")),
        );
    }
    Ok((DigestEntry { target_kind, section_id, local_id, offset, length, digest }, digest_end))
}

fn write_entry(out: &mut Vec<u8>, e: &DigestEntry)
    requires
        e.digest@.len() <= u16::MAX,
    ensures
        final(out)@ == old(out)@ + spec_serialize_digest_entry(e@),
{
    let ghost start = out@;
    push_u16_le(out, e.target_kind.to_u16());
    push_u16_le(out, e.digest.len() as u16);
    push_u32_le(out, e.section_id);
    push_u64_le(out, e.local_id);
    push_u64_le(out, e.offset);
    push_u64_le(out, e.length);
    append_bytes(out, e.digest.as_slice());
    assert(out@ =~= start + spec_serialize_digest_entry(e@));
}

/// The wire form of `entries`, or `None` when some digest's length is not
/// the one `algorithm` produces.
fn serialize_entries(entries: &Vec<DigestEntry>, algorithm: DigestAlgorithm) -> (res: Option<
    Vec<u8>,
>)
    ensures
        ({
            let es = entries@.map_values(|e: DigestEntry| e@);
            &&& res is Some <==> forall|j: int|
                0 <= j < es.len() ==> #[trigger] es[j].digest.len() == spec_expected_digest_len(
                    algorithm,
                )
            &&& res matches Some(v) ==> v@ == spec_serialize_digest_entries(es)
        }),
{
    let expected = expected_digest_len(algorithm);
    let ghost es = entries@.map_values(|e: DigestEntry| e@);
    let mut out: Vec<u8> = Vec::new();
    let mut i: usize = 0;
    while i < entries.len()
        invariant
            i <= entries@.len(),
            es == entries@.map_values(|e: DigestEntry| e@),
            expected == spec_expected_digest_len(algorithm),
            expected <= 32,
            forall|j: int| 0 <= j < i ==> #[trigger] es[j].digest.len() == expected,
            out@ == spec_serialize_digest_entries(es.take(i as int)),
        decreases entries@.len() - i,
    {
        let e = &entries[i];
        assert(es[i as int] == e@);
        if e.digest.len() != expected {
            assert(es[i as int].digest.len() != spec_expected_digest_len(algorithm));
            return None;
        }
        write_entry(&mut out, e);
        proof {
            lemma_serialize_entries_step(es, i as int);
        }
        i = i + 1;
    }
    assert(es.take(es.len() as int) =~= es);
    Some(out)
}

impl DigestManifest {
    /// Parse a digest manifest from raw section bytes. The header checksum
    /// is verified before any other field is trusted.
    pub fn parse(bytes: &[u8]) -> (res: Result<Self, CoveError>)
        ensures
            match spec_parse_digest_manifest(bytes@) {
                Ok(m) => (res matches Ok(r) && r@ == m),
                Err(c) => fails_with(res, c),
            },
    {
        if bytes.len() < DIGEST_MANIFEST_HEADER_LEN {
            return Err(CoveError::BufferTooShort);
        }
        let mut checksum_bytes = slice_to_vec(&bytes[0..56]);
        checksum_bytes.push(0);
        checksum_bytes.push(0);
        checksum_bytes.push(0);
        checksum_bytes.push(0);
        assert(checksum_bytes@ =~= checksum_input(bytes@));
        let expected_checksum = get_u32_le(bytes, 56);
        if crc32c(checksum_bytes.as_slice()) != expected_checksum {
            return Err(CoveError::ChecksumMismatch);
        }
        let algorithm = match DigestAlgorithm::from_u16(get_u16_le(bytes, 0)) {
            Some(DigestAlgorithm::NoDigest) | None => {
                return Err(
                    CoveError::BadSection(
                        text("digest manifest algorithm must be SHA-256 or BLAKE3"),
                    ),
                )
            },
            Some(a) => a,
        };
        let scope = match DigestScope::from_u16(get_u16_le(bytes, 2)) {
            Some(s) => s,
            None => {
                return Err(CoveError::BadSection(text("unknown digest manifest scope")))
            },
        };
        let entry_count = get_u32_le(bytes, 4);
        let entries_offset = get_u64_le(bytes, 8);
        let entries_length = get_u64_le(bytes, 16);
        let mut root_digest = [0u8; 32];
        let mut i: usize = 0;
        while i < 32
            invariant
                i <= 32,
                bytes@.len() >= 60,
                forall|j: int| 0 <= j < i ==> root_digest@[j] == bytes@[24 + j],
            decreases 32 - i,
        {
            root_digest[i] = bytes[24 + i];
            i = i + 1;
        }
        assert(root_digest@ =~= bytes@.subrange(24, 56));
        if entries_offset > usize::MAX as u64 || entries_length > usize::MAX as u64 {
            return Err(CoveError::OffsetRange);
        }
        let entries_offset = entries_offset as usize;
        let entries_length = entries_length as usize;
        if entries_offset < DIGEST_MANIFEST_HEADER_LEN {
            return Err(CoveError::OffsetRange);
        }
        let entries_end = match entries_offset.checked_add(entries_length) {
            Some(v) => v,
            None => return Err(CoveError::ArithOverflow),
        };
        if entries_end > bytes.len() {
            return Err(CoveError::OffsetRange);
        }
        if entries_end != bytes.len() {
            return Err(
                CoveError::BadSection(
                    text("digest manifest has bytes outside the declared entries region"),
                ),
            );
        }
        let mut pos = entries_offset;
        let mut entries: Vec<DigestEntry> = Vec::new();
        let mut k: u32 = 0;
        while k < entry_count
            invariant
                k <= entry_count,
                entries_end == bytes@.len(),
                root_digest@ == bytes@.subrange(24, 56),
                spec_parse_digest_manifest(bytes@) == manifest_from_entries(
                    bytes@,
                    algorithm,
                    scope,
                    spec_parse_digest_entries(
                        bytes@,
                        entries_offset as int,
                        entries_end as int,
                        algorithm,
                        entry_count as nat,
                    ),
                    entries_end as int,
                ),
                spec_parse_digest_entries(
                    bytes@,
                    entries_offset as int,
                    entries_end as int,
                    algorithm,
                    entry_count as nat,
                ) == match spec_parse_digest_entries(
                    bytes@,
                    pos as int,
                    entries_end as int,
                    algorithm,
                    (entry_count - k) as nat,
                ) {
                    Ok((rest, last)) => Ok::<(Seq<DigestEntryView>, int), ErrorCode>(
                        (entries@.map_values(|e: DigestEntry| e@) + rest, last),
                    ),
                    Err(e) => Err(e),
                },
            decreases entry_count - k,
        {
            let ghost before = entries@.map_values(|e: DigestEntry| e@);
            let ghost old_pos = pos as int;
            let ghost n = (entry_count - k) as nat;
            let (entry, next) = match parse_entry(bytes, pos, entries_end, algorithm) {
                Ok(v) => v,
                Err(e) => {
                    proof {
                        reveal(spec_parse_digest_entry);
                        assert(spec_parse_digest_entries(
                            bytes@,
                            pos as int,
                            entries_end as int,
                            algorithm,
                            n,
                        ) == Err::<(Seq<DigestEntryView>, int), ErrorCode>(e.code()));
                    }
                    return Err(e);
                },
            };
            let ghost ev = entry@;
            entries.push(entry);
            pos = next;
            proof {
                let after = entries@.map_values(|e: DigestEntry| e@);
                assert(after =~= before + seq![ev]);
                let r = spec_parse_digest_entries(
                    bytes@,
                    pos as int,
                    entries_end as int,
                    algorithm,
                    (n - 1) as nat,
                );
                match r {
                    Ok((rest, last)) => {
                        assert(before + (seq![ev] + rest) =~= after + rest);
                    },
                    Err(_) => {},
                }
            }
            k = k + 1;
        }
        assert(entries@.map_values(|e: DigestEntry| e@) + Seq::<DigestEntryView>::empty()
            =~= entries@.map_values(|e: DigestEntry| e@));
        if pos != entries_end {
            return Err(
                CoveError::BadSection(text("digest manifest entries region has trailing bytes")),
            );
        }
        Ok(Self { algorithm, scope, root_digest, entries })
    }

    /// Inverse of [`Self::parse`]; produces canonical bytes that round-trip.
    #[verifier::rlimit(40)]
    pub fn serialize(&self) -> (res: Result<Vec<u8>, CoveError>)
        ensures
            match spec_serialize_digest_manifest(self@) {
                Ok(b) => (res matches Ok(v) && v@ == b),
                Err(c) => fails_with(res, c),
            },
    {
        if self.algorithm == DigestAlgorithm::NoDigest {
            return Err(CoveError::BadSection(text("digest manifest algorithm cannot be None")));
        }
        let entries = match serialize_entries(&self.entries, self.algorithm) {
            Some(v) => v,
            None => {
                return Err(
                    CoveError::BadSection(text("digest length does not match the manifest algorithm")),
                )
            },
        };
        if self.entries.len() > 0xffff_ffff {
            return Err(CoveError::BadSection(text("too many digest entries")));
        }
        let mut out: Vec<u8> = Vec::new();
        push_u16_le(&mut out, self.algorithm.to_u16());
        push_u16_le(&mut out, self.scope.to_u16());
        push_u32_le(&mut out, self.entries.len() as u32);
        push_u64_le(&mut out, DIGEST_MANIFEST_HEADER_LEN as u64);
        push_u64_le(&mut out, entries.len() as u64);
        append_bytes(&mut out, self.root_digest.as_slice());
        push_u32_le(&mut out, 0);
        assert(out@ =~= spec_digest_header(self@));
        let crc = crc32c(out.as_slice());
        let mut framed = slice_to_vec(&out.as_slice()[0..56]);
        push_u32_le(&mut framed, crc);
        append_bytes(&mut framed, entries.as_slice());
        Ok(framed)
    }
}

/// Whether an entry is the digest of section `section_id`.
pub open spec fn is_section_entry(e: DigestEntryView, section_id: u32) -> bool {
    e.target_kind == DigestTargetKind::Section && e.section_id == section_id
}

/// Whether some entry of `es` is the digest of section `section_id`.
pub open spec fn has_section_entry(es: Seq<DigestEntryView>, section_id: u32) -> bool {
    exists|i: int| 0 <= i < es.len() && is_section_entry(#[trigger] es[i], section_id)
}

/// Whether `i` is the first entry of `es` for section `section_id`.
pub open spec fn is_first_section_entry(es: Seq<DigestEntryView>, section_id: u32, i: int) -> bool {
    &&& 0 <= i < es.len()
    &&& is_section_entry(es[i], section_id)
    &&& forall|j: int| 0 <= j < i ==> !is_section_entry(#[trigger] es[j], section_id)
}

/// The SHA-256 digest of `data`.
pub uninterp spec fn sha256_of(data: Seq<u8>) -> Seq<u8>;

/// The BLAKE3 hash of `data`.
pub uninterp spec fn blake3_of(data: Seq<u8>) -> Seq<u8>;

/// The digest of `data` under `algorithm`; empty for `none`.
pub open spec fn spec_digest_of(algorithm: DigestAlgorithm, data: Seq<u8>) -> Seq<u8> {
    match algorithm {
        DigestAlgorithm::NoDigest => Seq::empty(),
        DigestAlgorithm::Sha256 => sha256_of(data),
        DigestAlgorithm::Blake3 => blake3_of(data),
    }
}

/// Checking `data` against an expected digest: success for `none`, otherwise
/// success exactly when the computed digest equals `expected`.
pub open spec fn spec_verify_digest(
    algorithm: DigestAlgorithm,
    data: Seq<u8>,
    expected: Seq<u8>,
) -> Result<(), ErrorCode> {
    if algorithm == DigestAlgorithm::NoDigest {
        Ok(())
    } else if spec_digest_of(algorithm, data) == expected {
        Ok(())
    } else {
        Err(ErrorCode::DigestMismatch)
    }
}

/// Checking a section against a manifest: success when no entry names the
/// section; otherwise the first such entry's length must equal the section's
/// length and its digest must verify.
pub open spec fn spec_verify_section(
    m: DigestManifestView,
    section_id: u32,
    bytes: Seq<u8>,
) -> Result<(), ErrorCode> {
    if !has_section_entry(m.entries, section_id) {
        Ok(())
    } else {
        let i = choose|i: int| is_first_section_entry(m.entries, section_id, i);
        let e = m.entries[i];
        if e.length != bytes.len() {
            Err(ErrorCode::BadSection)
        } else {
            spec_verify_digest(m.algorithm, bytes, e.digest)
        }
    }
}

/// `sha2::Sha256::digest`: the 32-byte SHA-256 digest of `data`.
#[verifier::external_body]
fn sha256_digest(data: &[u8]) -> (res: Vec<u8>)
    ensures
        res@ == sha256_of(data@),
        res@.len() == 32,
{
    sha2::Sha256::digest(data).to_vec()
}

/// `blake3::hash`: the 32-byte BLAKE3 hash of `data`.
#[verifier::external_body]
fn blake3_digest(data: &[u8]) -> (res: Vec<u8>)
    ensures
        res@ == blake3_of(data@),
        res@.len() == 32,
{
    blake3::hash(data).as_bytes().to_vec()
}

/// Compute the digest of `data` under `algorithm` (empty for `none`).
pub fn compute_digest(algorithm: DigestAlgorithm, data: &[u8]) -> (res: Result<Vec<u8>, CoveError>)
    ensures
        res matches Ok(v) && v@ == spec_digest_of(algorithm, data@),
        res matches Ok(v) && v@.len() == spec_expected_digest_len(algorithm),
{
    match algorithm {
        DigestAlgorithm::NoDigest => Ok(Vec::new()),
        DigestAlgorithm::Sha256 => Ok(sha256_digest(data)),
        DigestAlgorithm::Blake3 => Ok(blake3_digest(data)),
    }
}

/// Verify that `data` hashes to `expected` under `algorithm`.
pub fn verify_digest(algorithm: DigestAlgorithm, data: &[u8], expected: &[u8]) -> (res: Result<
    (),
    CoveError,
>)
    ensures
        match spec_verify_digest(algorithm, data@, expected@) {
            Ok(()) => res is Ok,
            Err(c) => fails_with(res, c),
        },
{
    match algorithm {
        DigestAlgorithm::NoDigest => Ok(()),
        DigestAlgorithm::Sha256 | DigestAlgorithm::Blake3 => {
            let actual = match compute_digest(algorithm, data) {
                Ok(v) => v,
                Err(e) => return Err(e),
            };
            if bytes_eq(actual.as_slice(), expected) {
                Ok(())
            } else {
                Err(CoveError::DigestMismatch)
            }
        },
    }
}

impl DigestManifest {
    /// Verify a section's digest. Succeeds when no entry names the section
    /// (digests are optional); a present entry whose digest differs gives
    /// [`CoveError::DigestMismatch`].
    pub fn verify_section(&self, section_id: u32, section_bytes: &[u8]) -> (res: Result<
        (),
        CoveError,
    >)
        ensures
            match spec_verify_section(self@, section_id, section_bytes@) {
                Ok(()) => res is Ok,
                Err(c) => fails_with(res, c),
            },
    {
        let ghost es = self@.entries;
        let mut i: usize = 0;
        while i < self.entries.len()
            invariant
                i <= self.entries@.len(),
                es == self@.entries,
                es.len() == self.entries@.len(),
                forall|j: int| 0 <= j < i ==> !is_section_entry(#[trigger] es[j], section_id),
            decreases self.entries@.len() - i,
        {
            let e = &self.entries[i];
            assert(es[i as int] == e@);
            if e.target_kind == DigestTargetKind::Section && e.section_id == section_id {
                proof {
                    assert(is_first_section_entry(es, section_id, i as int));
                    let c = choose|c: int| is_first_section_entry(es, section_id, c);
                    assert(is_first_section_entry(es, section_id, c));
                    if c < i {
                        assert(!is_section_entry(es[c], section_id));
                    } else if c > i {
                        assert(!is_section_entry(es[i as int], section_id));
                    }
                    assert(c == i);
                }
                if e.length != section_bytes.len() as u64 {
                    return Err(
                        CoveError::BadSection(
                            text("digest entry length does not match the section length"),
                        ),
                    );
                }
                return self.verify_bytes(e, section_bytes);
            }
            i = i + 1;
        }
        assert(!has_section_entry(es, section_id));
        Ok(())
    }

    /// Verify `bytes` against one entry's digest under this manifest's
    /// algorithm.
    pub fn verify_bytes(&self, entry: &DigestEntry, bytes: &[u8]) -> (res: Result<(), CoveError>)
        ensures
            match spec_verify_digest(self.algorithm, bytes@, entry.digest@) {
                Ok(()) => res is Ok,
                Err(c) => fails_with(res, c),
            },
    {
        verify_digest(self.algorithm, bytes, entry.digest.as_slice())
    }
}

/// A computed digest always verifies: checking `data` against its own digest
/// under the same algorithm succeeds.
pub proof fn lemma_verify_computed_digest(algorithm: DigestAlgorithm, data: Seq<u8>)
    ensures
        spec_verify_digest(algorithm, data, spec_digest_of(algorithm, data)) == Ok::<
            (),
            ErrorCode,
        >(()),
{
}

/// A section that no entry names always verifies, whatever its bytes.
pub proof fn lemma_missing_entry_verifies(m: DigestManifestView, section_id: u32, bytes: Seq<u8>)
    requires
        !has_section_entry(m.entries, section_id),
    ensures
        spec_verify_section(m, section_id, bytes) == Ok::<(), ErrorCode>(()),
{
}

#[verifier::spinoff_prover]
proof fn lemma_serialize_entries_front(es: Seq<DigestEntryView>)
    requires
        es.len() > 0,
    ensures
        spec_serialize_digest_entries(es) == spec_serialize_digest_entry(es[0])
            + spec_serialize_digest_entries(es.drop_first()),
    decreases es.len(),
{
    if es.len() > 1 {
        let dl = es.drop_last();
        let df = es.drop_first();
        lemma_serialize_entries_front(dl);
        assert(dl.drop_first() =~= df.drop_last());
        assert(dl[0] == es[0]);
        assert(df.last() == es.last());
        assert(spec_serialize_digest_entries(es) =~= spec_serialize_digest_entry(es[0])
            + spec_serialize_digest_entries(df));
    } else {
        assert(es.drop_first().len() == 0);
        assert(es.drop_last().len() == 0);
        assert(spec_serialize_digest_entries(es.drop_last()) =~= Seq::<u8>::empty());
        assert(spec_serialize_digest_entries(es.drop_first()) =~= Seq::<u8>::empty());
        assert(spec_serialize_digest_entries(es) =~= spec_serialize_digest_entry(es[0])
            + spec_serialize_digest_entries(es.drop_first()));
    }
}

/// A window of `b` holding `x + y` holds `x` and then `y`.
proof fn lemma_split_window(b: Seq<u8>, p: int, x: Seq<u8>, y: Seq<u8>)
    requires
        0 <= p,
        p + x.len() + y.len() <= b.len(),
        b.subrange(p, p + x.len() + y.len()) == x + y,
    ensures
        b.subrange(p, p + x.len()) == x,
        b.subrange(p + x.len(), p + x.len() + y.len()) == y,
{
    assert forall|k: int| 0 <= k < x.len() implies b.subrange(p, p + x.len())[k] == x[k] by {
        assert(b.subrange(p, p + x.len() + y.len())[k] == (x + y)[k]);
    }
    assert(b.subrange(p, p + x.len()) =~= x);
    assert forall|k: int| 0 <= k < y.len() implies b.subrange(
        p + x.len(),
        p + x.len() + y.len(),
    )[k] == y[k] by {
        assert(b.subrange(p, p + x.len() + y.len())[x.len() + k] == (x + y)[x.len() + k]);
        assert(b.subrange(p, p + x.len() + y.len())[x.len() + k] == b[p + x.len() + k]);
        assert((x + y)[x.len() + k] == y[k]);
    }
    assert(b.subrange(p + x.len(), p + x.len() + y.len()) =~= y);
}

proof fn lemma_parse_one_entry(b: Seq<u8>, p: int, end: int, alg: DigestAlgorithm, e: DigestEntryView)
    requires
        e.digest.len() == spec_expected_digest_len(alg),
        0 <= p,
        p + spec_serialize_digest_entry(e).len() <= end,
        end <= b.len(),
        b.len() <= usize::MAX,
        b.subrange(p, p + spec_serialize_digest_entry(e).len()) == spec_serialize_digest_entry(e),
    ensures
        spec_parse_digest_entry(b, p, end, alg) == Ok::<(DigestEntryView, int), ErrorCode>(
            (e, p + spec_serialize_digest_entry(e).len()),
        ),
{
    let code = spec_target_kind_code(e.target_kind);
    let s0 = u16_le_bytes(code);
    let s1 = u16_le_bytes(e.digest.len() as u16);
    let s2 = u32_le_bytes(e.section_id);
    let s3 = u64_le_bytes(e.local_id);
    let s4 = u64_le_bytes(e.offset);
    let s5 = u64_le_bytes(e.length);
    let x1 = s0 + s1;
    let x2 = x1 + s2;
    let x3 = x2 + s3;
    let x4 = x3 + s4;
    let x5 = x4 + s5;
    assert(x5.len() == 32);
    lemma_split_window(b, p, x5, e.digest);
    lemma_split_window(b, p, x4, s5);
    lemma_split_window(b, p, x3, s4);
    lemma_split_window(b, p, x2, s3);
    lemma_split_window(b, p, x1, s2);
    lemma_split_window(b, p, s0, s1);
    crate::wire::lemma_u16_roundtrip(code, b, p);
    crate::wire::lemma_u16_roundtrip(e.digest.len() as u16, b, p + 2);
    crate::wire::lemma_u32_roundtrip(e.section_id, b, p + 4);
    crate::wire::lemma_u64_roundtrip(e.local_id, b, p + 8);
    crate::wire::lemma_u64_roundtrip(e.offset, b, p + 16);
    crate::wire::lemma_u64_roundtrip(e.length, b, p + 24);
    lemma_parse_entry_from_fields(b, p, end, alg, e);
}

proof fn lemma_parse_entry_from_fields(
    b: Seq<u8>,
    p: int,
    end: int,
    alg: DigestAlgorithm,
    e: DigestEntryView,
)
    requires
        e.digest.len() == spec_expected_digest_len(alg),
        0 <= p,
        p + 32 + e.digest.len() <= end,
        end <= b.len(),
        b.len() <= usize::MAX,
        spec_u16_at(b, p) == spec_target_kind_code(e.target_kind),
        spec_u16_at(b, p + 2) == e.digest.len() as u16,
        spec_u32_at(b, p + 4) == e.section_id,
        spec_u64_at(b, p + 8) == e.local_id,
        spec_u64_at(b, p + 16) == e.offset,
        spec_u64_at(b, p + 24) == e.length,
        b.subrange(p + 32, p + 32 + e.digest.len()) == e.digest,
    ensures
        spec_parse_digest_entry(b, p, end, alg) == Ok::<(DigestEntryView, int), ErrorCode>(
            (e, p + 32 + e.digest.len()),
        ),
{
    reveal(spec_parse_digest_entry);
    assert(spec_target_kind_from_u16(spec_target_kind_code(e.target_kind)) == Some(e.target_kind));
    assert(spec_u16_at(b, p + 2) as int == e.digest.len());
}

proof fn lemma_parse_entries_roundtrip(prefix: Seq<u8>, es: Seq<DigestEntryView>, alg: DigestAlgorithm)
    requires
        forall|i: int|
            0 <= i < es.len() ==> (#[trigger] es[i]).digest.len() == spec_expected_digest_len(alg),
        prefix.len() + spec_serialize_digest_entries(es).len() <= usize::MAX,
    ensures
        ({
            let b = prefix + spec_serialize_digest_entries(es);
            spec_parse_digest_entries(b, prefix.len() as int, b.len() as int, alg, es.len())
                == Ok::<(Seq<DigestEntryView>, int), ErrorCode>((es, b.len() as int))
        }),
    decreases es.len(),
{
    let b = prefix + spec_serialize_digest_entries(es);
    if es.len() == 0 {
        assert(es =~= Seq::<DigestEntryView>::empty());
        assert(spec_serialize_digest_entries(es) =~= Seq::<u8>::empty());
    } else {
        let e = es[0];
        let rest = es.drop_first();
        lemma_serialize_entries_front(es);
        let se = spec_serialize_digest_entry(e);
        let p = prefix.len() as int;
        let prefix2 = prefix + se;
        assert(b =~= prefix2 + spec_serialize_digest_entries(rest));
        assert(b.subrange(p, p + se.len()) =~= se);
        assert(es[0].digest.len() == spec_expected_digest_len(alg));
        lemma_parse_one_entry(b, p, b.len() as int, alg, e);
        assert forall|i: int| 0 <= i < rest.len() implies (#[trigger] rest[i]).digest.len()
            == spec_expected_digest_len(alg) by {
            assert(rest[i] == es[i + 1]);
        }
        lemma_parse_entries_roundtrip(prefix2, rest, alg);
        assert(seq![e] + rest =~= es);
    }
}

/// Parsing reads back what serializing wrote: whenever serializing a
/// manifest succeeds and its bytes fit in memory, parsing them gives the same
/// manifest.
#[verifier::spinoff_prover]
#[verifier::rlimit(60)]
pub proof fn lemma_digest_manifest_roundtrip(m: DigestManifestView)
    requires
        m.root_digest.len() == 32,
        spec_serialize_digest_manifest(m) matches Ok(b) && b.len() <= usize::MAX,
    ensures
        spec_serialize_digest_manifest(m) matches Ok(b) && spec_parse_digest_manifest(b) == Ok::<
            DigestManifestView,
            ErrorCode,
        >(m),
{
    let es = m.entries;
    let header = spec_digest_header(m);
    let eb = spec_serialize_digest_entries(es);
    let crc = spec_crc32c(header);
    let b = header.subrange(0, 56) + u32_le_bytes(crc) + eb;
    assert(header.len() == 60);
    assert(b.len() == 60 + eb.len());
    let alg_code = spec_digest_algorithm_code(m.algorithm);
    let scope_code = spec_scope_code(m.scope);
    assert(b.subrange(0, 2) =~= u16_le_bytes(alg_code));
    crate::wire::lemma_u16_roundtrip(alg_code, b, 0);
    assert(b.subrange(2, 4) =~= u16_le_bytes(scope_code));
    crate::wire::lemma_u16_roundtrip(scope_code, b, 2);
    assert(b.subrange(4, 8) =~= u32_le_bytes(es.len() as u32));
    crate::wire::lemma_u32_roundtrip(es.len() as u32, b, 4);
    assert(b.subrange(8, 16) =~= u64_le_bytes(60));
    crate::wire::lemma_u64_roundtrip(60, b, 8);
    assert(b.subrange(16, 24) =~= u64_le_bytes(eb.len() as u64));
    crate::wire::lemma_u64_roundtrip(eb.len() as u64, b, 16);
    assert(b.subrange(56, 60) =~= u32_le_bytes(crc));
    crate::wire::lemma_u32_roundtrip(crc, b, 56);
    assert(u32_le_bytes(0) =~= seq![0u8, 0u8, 0u8, 0u8]);
    assert(checksum_input(b) =~= header);
    assert(b.subrange(24, 56) =~= m.root_digest);
    assert forall|i: int| 0 <= i < es.len() implies (#[trigger] es[i]).digest.len()
        == spec_expected_digest_len(m.algorithm) by {
        if es[i].digest.len() != spec_expected_digest_len(m.algorithm) {
            assert(exists|k: int|
                0 <= k < m.entries.len() && #[trigger] m.entries[k].digest.len()
                    != spec_expected_digest_len(m.algorithm));
        }
    }
    let prefix = header.subrange(0, 56) + u32_le_bytes(crc);
    assert(b =~= prefix + eb);
    lemma_parse_entries_roundtrip(prefix, es, m.algorithm);
}


/// The bytes a run of entries takes on the wire: 32 bytes of fixed fields
/// plus the digest, for each entry.
pub open spec fn entries_wire_len(es: Seq<DigestEntryView>) -> int
    decreases es.len(),
{
    if es.len() == 0 {
        0
    } else {
        entries_wire_len(es.drop_last()) + 32 + es.last().digest.len()
    }
}

proof fn lemma_entries_wire_len(es: Seq<DigestEntryView>)
    ensures
        spec_serialize_digest_entries(es).len() == entries_wire_len(es),
    decreases es.len(),
{
    if es.len() > 0 {
        lemma_entries_wire_len(es.drop_last());
    }
}

/// A manifest that serializes takes 60 header bytes plus, per entry, 32
/// bytes and its digest; bytes 56..60 hold the CRC-32C of the first 56 bytes
/// followed by four zero bytes (the header with its checksum field zeroed).
pub proof fn lemma_serialized_manifest_layout(m: DigestManifestView)
    requires
        m.root_digest.len() == 32,
    ensures
        spec_serialize_digest_manifest(m) matches Ok(b) ==> b.len() == 60 + entries_wire_len(
            m.entries,
        ) && b.subrange(56, 60) == u32_le_bytes(
            spec_crc32c(b.subrange(0, 56) + seq![0u8, 0u8, 0u8, 0u8]),
        ),
{
    lemma_entries_wire_len(m.entries);
    if let Ok(b) = spec_serialize_digest_manifest(m) {
        let header = spec_digest_header(m);
        assert(header.len() == 60);
        assert(b.subrange(0, 56) =~= header.subrange(0, 56));
        assert(u32_le_bytes(0) =~= seq![0u8, 0u8, 0u8, 0u8]);
        assert(header =~= header.subrange(0, 56) + seq![0u8, 0u8, 0u8, 0u8]);
        assert(b.subrange(56, 60) =~= u32_le_bytes(spec_crc32c(header)));
    }
}


/// A manifest's bytes whose checksum field holds the CRC-32C of their
/// header: changing any one byte of the header makes parsing fail with
/// `ChecksumMismatch`.
pub proof fn lemma_header_change_detected(b: Seq<u8>, b2: Seq<u8>, p: int)
    requires
        b.len() >= 60,
        spec_crc32c(checksum_input(b)) == spec_u32_at(b, 56),
        b2.len() == b.len(),
        0 <= p < 56,
        b2[p] != b[p],
        forall|i: int| 0 <= i < b.len() && i != p ==> b2[i] == b[i],
    ensures
        spec_parse_digest_manifest(b2) == Err::<DigestManifestView, ErrorCode>(
            ErrorCode::ChecksumMismatch,
        ),
{
    let x = checksum_input(b);
    let y = checksum_input(b2);
    assert(y[p] != x[p]);
    assert forall|i: int| 0 <= i < x.len() && i != p implies x[i] == y[i] by {}
    crate::checksum::lemma_crc_detects_one_byte_change(x, y, p);
    assert(spec_u32_at(b2, 56) == spec_u32_at(b, 56));
}

/// The bytes of a serialized manifest carry the CRC-32C of their header,
/// so any one-byte change in their first 56 bytes is caught as
/// `ChecksumMismatch` (see [`lemma_header_change_detected`]).
#[verifier::spinoff_prover]
pub proof fn lemma_serialized_header_checksum(m: DigestManifestView)
    requires
        m.root_digest.len() == 32,
        spec_serialize_digest_manifest(m) matches Ok(b) && b.len() <= usize::MAX,
    ensures
        spec_serialize_digest_manifest(m) matches Ok(b) && b.len() >= 60 && spec_crc32c(
            checksum_input(b),
        ) == spec_u32_at(b, 56),
{
    lemma_digest_manifest_roundtrip(m);
}

} // verus!
