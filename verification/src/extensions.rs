//! Extension registry.
use vstd::prelude::*;

use crate::error::{fails_with, CoveError, ErrorCode};
use crate::util::{prepend, text};
use crate::wire::{
    append_bytes, get_u16_le, get_u32_le, get_u64_le, push_u16_le, push_u32_le, push_u64_le,
    spec_u16_at, spec_u32_at, spec_u64_at, u16_le_bytes, u32_le_bytes, u64_le_bytes,
};
use vstd::slice::slice_to_vec;

verus! {

/// An entry in the extension registry (`ExtensionEntryV1`).
#[derive(Debug, Clone, PartialEq)]
pub struct ExtensionRegistryEntry {
    /// Opaque numeric identifier assigned to this extension in the registry.
    pub extension_id: u32,
    /// Extension namespace (e.g. reverse-DNS org name).
    pub namespace: Vec<u8>,
    /// Extension name within the namespace.
    pub name: Vec<u8>,
    /// Major version of the extension.
    pub version_major: u16,
    /// Minor version of the extension.
    pub version_minor: u16,
    /// Extension kind tag.
    pub extension_kind: u16,
    /// Feature bit that, when non-zero, marks this extension as required.
    /// Readers that do not understand a required extension must reject the file.
    pub required_feature_bit: u64,
    /// Feature bit that, when non-zero, marks this extension as optional.
    /// Readers that do not understand an optional extension must ignore it.
    pub optional_feature_bit: u64,
    /// Fallback kind tag (0 = none).
    pub fallback_kind: u16,
    /// Section-directory reference for the fallback section (0 = none).
    pub fallback_ref: u32,
    /// Section-directory reference for the extension payload (0 = none).
    pub payload_ref: u32,
    /// CRC32C of this entry's preceding fields.
    pub checksum: u32,
}

/// The abstract content of an [`ExtensionRegistryEntry`].
pub struct ExtensionEntryView {
    pub extension_id: u32,
    pub namespace: Seq<u8>,
    pub name: Seq<u8>,
    pub version_major: u16,
    pub version_minor: u16,
    pub extension_kind: u16,
    pub required_feature_bit: u64,
    pub optional_feature_bit: u64,
    pub fallback_kind: u16,
    pub fallback_ref: u32,
    pub payload_ref: u32,
    pub checksum: u32,
}

impl View for ExtensionRegistryEntry {
    type V = ExtensionEntryView;

    open spec fn view(&self) -> ExtensionEntryView {
        ExtensionEntryView {
            extension_id: self.extension_id,
            namespace: self.namespace@,
            name: self.name@,
            version_major: self.version_major,
            version_minor: self.version_minor,
            extension_kind: self.extension_kind,
            required_feature_bit: self.required_feature_bit,
            optional_feature_bit: self.optional_feature_bit,
            fallback_kind: self.fallback_kind,
            fallback_ref: self.fallback_ref,
            payload_ref: self.payload_ref,
            checksum: self.checksum,
        }
    }
}

/// A parsed extension registry (`ExtensionRegistryHeaderV1` + entries).
#[derive(Debug, Clone, Default, PartialEq)]
pub struct ExtensionRegistry {
    /// All entries in the registry.
    pub entries: Vec<ExtensionRegistryEntry>,
}

impl View for ExtensionRegistry {
    type V = Seq<ExtensionEntryView>;

    open spec fn view(&self) -> Seq<ExtensionEntryView> {
        self.entries@.map_values(|e: ExtensionRegistryEntry| e@)
    }
}

/// Advancing over `n` bytes at `pos`: the position after them, or why the
/// bytes are not there.
pub open spec fn spec_advance(b: Seq<u8>, pos: int, n: int) -> Result<int, ErrorCode> {
    if pos + n > usize::MAX {
        Err(ErrorCode::ArithOverflow)
    } else if pos + n > b.len() {
        Err(ErrorCode::BufferTooShort)
    } else {
        Ok(pos + n)
    }
}

/// The fixed-width tail of an entry, after its name, starting at `p`.
pub open spec fn spec_entry_tail(
    b: Seq<u8>,
    p: int,
    extension_id: u32,
    namespace: Seq<u8>,
    name: Seq<u8>,
) -> Result<(ExtensionEntryView, int), ErrorCode> {
    match spec_advance(b, p, 36) {
        Err(e) => Err(e),
        Ok(end) => Ok(
            (
                ExtensionEntryView {
                    extension_id,
                    namespace,
                    name,
                    version_major: spec_u16_at(b, p),
                    version_minor: spec_u16_at(b, p + 2),
                    extension_kind: spec_u16_at(b, p + 4),
                    required_feature_bit: spec_u64_at(b, p + 6),
                    optional_feature_bit: spec_u64_at(b, p + 14),
                    fallback_kind: spec_u16_at(b, p + 22),
                    fallback_ref: spec_u32_at(b, p + 24),
                    payload_ref: spec_u32_at(b, p + 28),
                    checksum: spec_u32_at(b, p + 32),
                },
                end,
            ),
        ),
    }
}

/// Parsing one `ExtensionEntryV1` at `pos`: the entry and the position after it.
#[verifier::opaque]
pub open spec fn spec_parse_extension_entry(b: Seq<u8>, pos: int) -> Result<
    (ExtensionEntryView, int),
    ErrorCode,
> {
    match spec_advance(b, pos, 4) {
        Err(e) => Err(e),
        Ok(p1) => match spec_advance(b, p1, 2) {
            Err(e) => Err(e),
            Ok(p2) => {
                let ns_len = spec_u16_at(b, p1) as int;
                match spec_advance(b, p2, ns_len) {
                    Err(e) => Err(e),
                    Ok(p3) => match spec_advance(b, p3, 2) {
                        Err(e) => Err(e),
                        Ok(p4) => {
                            let name_len = spec_u16_at(b, p3) as int;
                            match spec_advance(b, p4, name_len) {
                                Err(e) => Err(e),
                                Ok(p5) => spec_entry_tail(
                                    b,
                                    p5,
                                    spec_u32_at(b, pos),
                                    b.subrange(p2, p3),
                                    b.subrange(p4, p5),
                                ),
                            }
                        },
                    },
                }
            },
        },
    }
}

/// Parsing `n` consecutive entries starting at `pos`.
pub open spec fn spec_parse_extension_entries(b: Seq<u8>, pos: int, n: nat) -> Result<
    Seq<ExtensionEntryView>,
    ErrorCode,
>
    decreases n,
{
    if n == 0 {
        Ok(Seq::empty())
    } else {
        match spec_parse_extension_entry(b, pos) {
            Err(e) => Err(e),
            Ok((entry, next)) => prepend(
                seq![entry],
                spec_parse_extension_entries(b, next, (n - 1) as nat),
            ),
        }
    }
}

/// Parsing a whole extension registry section.
pub open spec fn spec_parse_extension_registry(b: Seq<u8>) -> Result<
    Seq<ExtensionEntryView>,
    ErrorCode,
> {
    if b.len() < 8 {
        Err(ErrorCode::BufferTooShort)
    } else {
        spec_parse_extension_entries(b, 8, spec_u32_at(b, 0) as nat)
    }
}

/// The wire form of one entry.
pub open spec fn spec_serialize_extension_entry(e: ExtensionEntryView) -> Seq<u8> {
    u32_le_bytes(e.extension_id) + u16_le_bytes(e.namespace.len() as u16) + e.namespace
        + u16_le_bytes(e.name.len() as u16) + e.name + spec_serialize_entry_tail(e)
}

/// The wire form of an entry's fixed-width tail.
pub open spec fn spec_serialize_entry_tail(e: ExtensionEntryView) -> Seq<u8> {
    u16_le_bytes(e.version_major) + u16_le_bytes(e.version_minor) + u16_le_bytes(
        e.extension_kind,
    ) + u64_le_bytes(e.required_feature_bit) + u64_le_bytes(e.optional_feature_bit)
        + u16_le_bytes(e.fallback_kind) + u32_le_bytes(e.fallback_ref) + u32_le_bytes(
        e.payload_ref,
    ) + u32_le_bytes(e.checksum)
}

/// The wire form of a run of entries.
pub open spec fn spec_serialize_extension_entries(es: Seq<ExtensionEntryView>) -> Seq<u8>
    decreases es.len(),
{
    if es.len() == 0 {
        Seq::empty()
    } else {
        spec_serialize_extension_entries(es.drop_last()) + spec_serialize_extension_entry(
            es.last(),
        )
    }
}

/// Whether an entry's variable-length fields fit their `u16` length prefixes.
pub open spec fn extension_entry_encodable(e: ExtensionEntryView) -> bool {
    e.namespace.len() <= u16::MAX && e.name.len() <= u16::MAX
}

/// Serializing a registry: the header (count, zero flags) and the entries,
/// or `BadSection` when some entry's namespace or name is too long.
pub open spec fn spec_serialize_extension_registry(es: Seq<ExtensionEntryView>) -> Result<
    Seq<u8>,
    ErrorCode,
> {
    if forall|i: int| 0 <= i < es.len() ==> extension_entry_encodable(#[trigger] es[i]) {
        Ok(
            u32_le_bytes(es.len() as u32) + u32_le_bytes(0) + spec_serialize_extension_entries(
                es,
            ),
        )
    } else {
        Err(ErrorCode::BadSection)
    }
}

fn advance(bytes: &[u8], pos: usize, n: usize) -> (res: Result<usize, CoveError>)
    ensures
        match spec_advance(bytes@, pos as int, n as int) {
            Ok(p) => res == Ok::<usize, CoveError>(p as usize),
            Err(c) => fails_with(res, c),
        },
{
    let end = match pos.checked_add(n) {
        Some(end) => end,
        None => return Err(CoveError::ArithOverflow),
    };
    if end > bytes.len() {
        return Err(CoveError::BufferTooShort);
    }
    Ok(end)
}

fn parse_entry(bytes: &[u8], pos: usize) -> (res: Result<
    (ExtensionRegistryEntry, usize),
    CoveError,
>)
    ensures
        match spec_parse_extension_entry(bytes@, pos as int) {
            Ok((e, p)) => (res matches Ok((r, q)) && r@ == e && q == p),
            Err(c) => fails_with(res, c),
        },
{
    reveal(spec_parse_extension_entry);
    let p1 = advance(bytes, pos, 4)?;
    let extension_id = get_u32_le(bytes, pos);
    let p2 = advance(bytes, p1, 2)?;
    let ns_len = get_u16_le(bytes, p1) as usize;
    let p3 = advance(bytes, p2, ns_len)?;
    let namespace = slice_to_vec(&bytes[p2..p3]);
    let p4 = advance(bytes, p3, 2)?;
    let name_len = get_u16_le(bytes, p3) as usize;
    let p5 = advance(bytes, p4, name_len)?;
    let name = slice_to_vec(&bytes[p4..p5]);
    let end = advance(bytes, p5, 36)?;
    let entry = ExtensionRegistryEntry {
        extension_id,
        namespace,
        name,
        version_major: get_u16_le(bytes, p5),
        version_minor: get_u16_le(bytes, p5 + 2),
        extension_kind: get_u16_le(bytes, p5 + 4),
        required_feature_bit: get_u64_le(bytes, p5 + 6),
        optional_feature_bit: get_u64_le(bytes, p5 + 14),
        fallback_kind: get_u16_le(bytes, p5 + 22),
        fallback_ref: get_u32_le(bytes, p5 + 24),
        payload_ref: get_u32_le(bytes, p5 + 28),
        checksum: get_u32_le(bytes, p5 + 32),
    };
    Ok((entry, end))
}

fn write_entry(out: &mut Vec<u8>, e: &ExtensionRegistryEntry)
    requires
        extension_entry_encodable(e@),
    ensures
        final(out)@ == old(out)@ + spec_serialize_extension_entry(e@),
{
    let ghost start = out@;
    push_u32_le(out, e.extension_id);
    push_u16_le(out, e.namespace.len() as u16);
    append_bytes(out, e.namespace.as_slice());
    push_u16_le(out, e.name.len() as u16);
    append_bytes(out, e.name.as_slice());
    let ghost mid = out@;
    push_u16_le(out, e.version_major);
    push_u16_le(out, e.version_minor);
    push_u16_le(out, e.extension_kind);
    push_u64_le(out, e.required_feature_bit);
    push_u64_le(out, e.optional_feature_bit);
    push_u16_le(out, e.fallback_kind);
    push_u32_le(out, e.fallback_ref);
    push_u32_le(out, e.payload_ref);
    push_u32_le(out, e.checksum);
    assert(out@ =~= mid + spec_serialize_entry_tail(e@));
    assert(mid =~= start + u32_le_bytes(e.extension_id) + u16_le_bytes(
        e.namespace@.len() as u16,
    ) + e.namespace@ + u16_le_bytes(e.name@.len() as u16) + e.name@);
    assert(out@ =~= start + spec_serialize_extension_entry(e@));
}

impl ExtensionRegistry {
    /// Parse an extension registry from raw section bytes.
    ///
    /// Wire format: header `{ extension_count: u32, flags: u32 }`, then
    /// `extension_count` entries of `extension_id: u32`, `namespace_len: u16`,
    /// namespace, `name_len: u16`, name, `version_major: u16`,
    /// `version_minor: u16`, `extension_kind: u16`, `required_feature_bit: u64`,
    /// `optional_feature_bit: u64`, `fallback_kind: u16`, `fallback_ref: u32`,
    /// `payload_ref: u32`, `checksum: u32`. All integers are little-endian.
    pub fn parse(bytes: &[u8]) -> (res: Result<Self, CoveError>)
        ensures
            match spec_parse_extension_registry(bytes@) {
                Ok(es) => (res matches Ok(r) && r@ == es),
                Err(c) => fails_with(res, c),
            },
    {
        if bytes.len() < 8 {
            return Err(CoveError::BufferTooShort);
        }
        let extension_count = get_u32_le(bytes, 0);
        let mut pos: usize = 8;
        let mut entries: Vec<ExtensionRegistryEntry> = Vec::new();
        let mut k: u32 = 0;
        while k < extension_count
            invariant
                k <= extension_count,
                extension_count == spec_u32_at(bytes@, 0),
                bytes@.len() >= 8,
                spec_parse_extension_registry(bytes@) == prepend(
                    entries@.map_values(|e: ExtensionRegistryEntry| e@),
                    spec_parse_extension_entries(
                        bytes@,
                        pos as int,
                        (extension_count - k) as nat,
                    ),
                ),
            decreases extension_count - k,
        {
            let ghost before = entries@.map_values(|e: ExtensionRegistryEntry| e@);
            let ghost old_pos = pos as int;
            let ghost n = (extension_count - k) as nat;
            let (entry, next) = parse_entry(bytes, pos)?;
            let ghost ev = entry@;
            entries.push(entry);
            pos = next;
            proof {
                let after = entries@.map_values(|e: ExtensionRegistryEntry| e@);
                assert(after =~= before + seq![ev]);
                let r = spec_parse_extension_entries(bytes@, pos as int, (n - 1) as nat);
                assert(spec_parse_extension_entries(bytes@, old_pos, n) == prepend(seq![ev], r));
                match r {
                    Ok(rest) => {
                        assert(before + (seq![ev] + rest) =~= after + rest);
                    },
                    Err(_) => {},
                }
            }
            k = k + 1;
        }
        Ok(Self { entries })
    }

    /// Inverse of [`Self::parse`]; produces canonical bytes that round-trip.
    /// The header `flags` field is emitted as zero (reserved in v1).
    pub fn serialize(&self) -> (res: Result<Vec<u8>, CoveError>)
        ensures
            match spec_serialize_extension_registry(self@) {
                Ok(b) => (res matches Ok(v) && v@ == b),
                Err(c) => fails_with(res, c),
            },
    {
        let mut out: Vec<u8> = Vec::new();
        push_u32_le(&mut out, self.entries.len() as u32);
        push_u32_le(&mut out, 0);
        let mut i: usize = 0;
        while i < self.entries.len()
            invariant
                i <= self.entries@.len(),
                forall|j: int| 0 <= j < i ==> extension_entry_encodable(#[trigger] self@[j]),
                out@ == u32_le_bytes(self@.len() as u32) + u32_le_bytes(0)
                    + spec_serialize_extension_entries(self@.take(i as int)),
            decreases self.entries@.len() - i,
        {
            let e = &self.entries[i];
            assert(self@[i as int] == e@);
            if e.namespace.len() > 0xffff {
                return Err(
                    CoveError::BadSection(text("extension namespace exceeds u16 length limit")),
                );
            }
            if e.name.len() > 0xffff {
                return Err(CoveError::BadSection(text("extension name exceeds u16 length limit")));
            }
            write_entry(&mut out, e);
            proof {
                assert(self@.take(i + 1).drop_last() =~= self@.take(i as int));
                assert(self@.take(i + 1).last() == e@);
            }
            i = i + 1;
        }
        assert(self@.take(self@.len() as int) =~= self@);
        Ok(out)
    }

    /// Validate entries against known extensions.
    ///
    /// This reader knows no extensions. Entries with a non-zero
    /// `required_feature_bit` are treated as required and return
    /// [`CoveError::BadExtension`]. Entries with a zero `required_feature_bit`
    /// are treated as optional and are ignored when `allow_unknown_optional`
    /// is `true`, and rejected otherwise.
    pub fn validate_known(&self, allow_unknown_optional: bool) -> (res: Result<(), CoveError>)
        ensures
            res is Ok <==> (self@.len() == 0 || (allow_unknown_optional && forall|i: int|
                0 <= i < self@.len() ==> (#[trigger] self@[i]).required_feature_bit == 0)),
            res is Err ==> res == Err::<(), CoveError>(CoveError::BadExtension),
    {
        let mut i: usize = 0;
        while i < self.entries.len()
            invariant
                i <= self.entries@.len(),
                i > 0 ==> allow_unknown_optional,
                forall|j: int| 0 <= j < i ==> (#[trigger] self@[j]).required_feature_bit == 0,
            decreases self.entries@.len() - i,
        {
            assert(self@[i as int] == self.entries@[i as int]@);
            if self.entries[i].required_feature_bit != 0 {
                assert(self@[i as int].required_feature_bit != 0);
                return Err(CoveError::BadExtension);
            } else if !allow_unknown_optional {
                assert(self@.len() > 0);
                return Err(CoveError::BadExtension);
            }
            i = i + 1;
        }
        assert(self@.len() == self.entries@.len());
        Ok(())
    }
}

} // verus!

verus! {

proof fn lemma_serialize_entries_front(es: Seq<ExtensionEntryView>)
    requires
        es.len() > 0,
    ensures
        spec_serialize_extension_entries(es) == spec_serialize_extension_entry(es[0])
            + spec_serialize_extension_entries(es.drop_first()),
    decreases es.len(),
{
    if es.len() > 1 {
        let dl = es.drop_last();
        let df = es.drop_first();
        lemma_serialize_entries_front(dl);
        assert(dl.drop_first() =~= df.drop_last());
        assert(dl[0] == es[0]);
        assert(df.last() == es.last());
        assert(spec_serialize_extension_entries(df) == spec_serialize_extension_entries(
            df.drop_last(),
        ) + spec_serialize_extension_entry(df.last()));
        assert(spec_serialize_extension_entries(es) =~= spec_serialize_extension_entry(es[0])
            + spec_serialize_extension_entries(df));
    } else {
        assert(es.drop_first().len() == 0);
        assert(es.drop_last().len() == 0);
        assert(spec_serialize_extension_entries(es.drop_last()) =~= Seq::<u8>::empty());
        assert(spec_serialize_extension_entries(es.drop_first()) =~= Seq::<u8>::empty());
        assert(spec_serialize_extension_entries(es) =~= spec_serialize_extension_entry(es[0])
            + spec_serialize_extension_entries(es.drop_first()));
    }
}

proof fn lemma_tail_roundtrip(b: Seq<u8>, p: int, e: ExtensionEntryView)
    requires
        0 <= p,
        p + 36 <= b.len(),
        b.len() <= usize::MAX,
        b.subrange(p, p + 36) == spec_serialize_entry_tail(e),
    ensures
        spec_entry_tail(b, p, e.extension_id, e.namespace, e.name) == Ok::<
            (ExtensionEntryView, int),
            ErrorCode,
        >((e, p + 36)),
{
    let t = spec_serialize_entry_tail(e);
    assert(t.len() == 36);
    assert(b.subrange(p, p + 2) =~= u16_le_bytes(e.version_major)) by {
        assert(b.subrange(p, p + 2) =~= t.subrange(0, 2));
    }
    crate::wire::lemma_u16_roundtrip(e.version_major, b, p);
    assert(b.subrange(p + 2, p + 4) =~= u16_le_bytes(e.version_minor)) by {
        assert(b.subrange(p + 2, p + 4) =~= t.subrange(2, 4));
    }
    crate::wire::lemma_u16_roundtrip(e.version_minor, b, p + 2);
    assert(b.subrange(p + 4, p + 6) =~= u16_le_bytes(e.extension_kind)) by {
        assert(b.subrange(p + 4, p + 6) =~= t.subrange(4, 6));
    }
    crate::wire::lemma_u16_roundtrip(e.extension_kind, b, p + 4);
    assert(b.subrange(p + 6, p + 14) =~= u64_le_bytes(e.required_feature_bit)) by {
        assert(b.subrange(p + 6, p + 14) =~= t.subrange(6, 14));
    }
    crate::wire::lemma_u64_roundtrip(e.required_feature_bit, b, p + 6);
    assert(b.subrange(p + 14, p + 22) =~= u64_le_bytes(e.optional_feature_bit)) by {
        assert(b.subrange(p + 14, p + 22) =~= t.subrange(14, 22));
    }
    crate::wire::lemma_u64_roundtrip(e.optional_feature_bit, b, p + 14);
    assert(b.subrange(p + 22, p + 24) =~= u16_le_bytes(e.fallback_kind)) by {
        assert(b.subrange(p + 22, p + 24) =~= t.subrange(22, 24));
    }
    crate::wire::lemma_u16_roundtrip(e.fallback_kind, b, p + 22);
    assert(b.subrange(p + 24, p + 28) =~= u32_le_bytes(e.fallback_ref)) by {
        assert(b.subrange(p + 24, p + 28) =~= t.subrange(24, 28));
    }
    crate::wire::lemma_u32_roundtrip(e.fallback_ref, b, p + 24);
    assert(b.subrange(p + 28, p + 32) =~= u32_le_bytes(e.payload_ref)) by {
        assert(b.subrange(p + 28, p + 32) =~= t.subrange(28, 32));
    }
    crate::wire::lemma_u32_roundtrip(e.payload_ref, b, p + 28);
    assert(b.subrange(p + 32, p + 36) =~= u32_le_bytes(e.checksum)) by {
        assert(b.subrange(p + 32, p + 36) =~= t.subrange(32, 36));
    }
    crate::wire::lemma_u32_roundtrip(e.checksum, b, p + 32);
}

#[verifier::spinoff_prover]
#[verifier::rlimit(40)]
proof fn lemma_parse_one_entry(b: Seq<u8>, p: int, e: ExtensionEntryView)
    requires
        extension_entry_encodable(e),
        0 <= p,
        p + spec_serialize_extension_entry(e).len() <= b.len(),
        b.len() <= usize::MAX,
        b.subrange(p, p + spec_serialize_extension_entry(e).len())
            == spec_serialize_extension_entry(e),
    ensures
        spec_parse_extension_entry(b, p) == Ok::<(ExtensionEntryView, int), ErrorCode>(
            (e, p + spec_serialize_extension_entry(e).len()),
        ),
{
    reveal(spec_parse_extension_entry);
    let se = spec_serialize_extension_entry(e);
    let n = e.namespace.len() as int;
    let m = e.name.len() as int;
    assert(se.len() == 4 + 2 + n + 2 + m + 36);
    assert(b.subrange(p, p + 4) =~= u32_le_bytes(e.extension_id)) by {
        assert(b.subrange(p, p + 4) =~= se.subrange(0, 4));
    }
    crate::wire::lemma_u32_roundtrip(e.extension_id, b, p);
    assert(b.subrange(p + 4, p + 6) =~= u16_le_bytes(e.namespace.len() as u16)) by {
        assert(b.subrange(p + 4, p + 6) =~= se.subrange(4, 6));
    }
    crate::wire::lemma_u16_roundtrip(e.namespace.len() as u16, b, p + 4);
    assert(b.subrange(p + 6, p + 6 + n) =~= e.namespace) by {
        assert(b.subrange(p + 6, p + 6 + n) =~= se.subrange(6, 6 + n));
    }
    let p3 = p + 6 + n;
    assert(b.subrange(p3, p3 + 2) =~= u16_le_bytes(e.name.len() as u16)) by {
        assert(b.subrange(p3, p3 + 2) =~= se.subrange(6 + n, 8 + n));
    }
    crate::wire::lemma_u16_roundtrip(e.name.len() as u16, b, p3);
    assert(b.subrange(p3 + 2, p3 + 2 + m) =~= e.name) by {
        assert(b.subrange(p3 + 2, p3 + 2 + m) =~= se.subrange(8 + n, 8 + n + m));
    }
    let p5 = p3 + 2 + m;
    assert(b.subrange(p5, p5 + 36) =~= spec_serialize_entry_tail(e)) by {
        assert(b.subrange(p5, p5 + 36) =~= se.subrange(8 + n + m, 44 + n + m));
    }
    lemma_tail_roundtrip(b, p5, e);
}

proof fn lemma_parse_entries_roundtrip(
    prefix: Seq<u8>,
    es: Seq<ExtensionEntryView>,
    tail: Seq<u8>,
)
    requires
        forall|i: int| 0 <= i < es.len() ==> extension_entry_encodable(#[trigger] es[i]),
        prefix.len() + spec_serialize_extension_entries(es).len() + tail.len() <= usize::MAX,
    ensures
        spec_parse_extension_entries(
            prefix + spec_serialize_extension_entries(es) + tail,
            prefix.len() as int,
            es.len(),
        ) == Ok::<Seq<ExtensionEntryView>, ErrorCode>(es),
    decreases es.len(),
{
    let b = prefix + spec_serialize_extension_entries(es) + tail;
    if es.len() == 0 {
        assert(es =~= Seq::<ExtensionEntryView>::empty());
    } else {
        let e = es[0];
        let rest = es.drop_first();
        lemma_serialize_entries_front(es);
        let se = spec_serialize_extension_entry(e);
        let p = prefix.len() as int;
        let prefix2 = prefix + se;
        assert(b =~= prefix2 + spec_serialize_extension_entries(rest) + tail);
        assert(b.subrange(p, p + se.len()) =~= se);
        assert(extension_entry_encodable(es[0]));
        lemma_parse_one_entry(b, p, e);
        assert forall|i: int| 0 <= i < rest.len() implies extension_entry_encodable(
            #[trigger] rest[i],
        ) by {
            assert(rest[i] == es[i + 1]);
        }
        lemma_parse_entries_roundtrip(prefix2, rest, tail);
        assert(seq![e] + rest =~= es);
    }
}

/// Parsing reads back what serializing wrote: whenever serializing a
/// registry succeeds (every namespace and name fits its `u16` length prefix),
/// its entry count fits in `u32` and the output fits in memory, parsing the
/// output gives the same entries.
pub proof fn lemma_extension_registry_roundtrip(es: Seq<ExtensionEntryView>)
    requires
        es.len() <= u32::MAX,
        spec_serialize_extension_registry(es) matches Ok(b) && b.len() <= usize::MAX,
    ensures
        spec_serialize_extension_registry(es) matches Ok(b) && spec_parse_extension_registry(b)
            == Ok::<Seq<ExtensionEntryView>, ErrorCode>(es),
{
    let head = u32_le_bytes(es.len() as u32) + u32_le_bytes(0);
    let b = head + spec_serialize_extension_entries(es);
    assert(b.subrange(0, 4) =~= u32_le_bytes(es.len() as u32));
    crate::wire::lemma_u32_roundtrip(es.len() as u32, b, 0);
    assert(b =~= head + spec_serialize_extension_entries(es) + Seq::<u8>::empty());
    lemma_parse_entries_roundtrip(head, es, Seq::<u8>::empty());
}


/// Serializing a registry fails exactly when some entry's namespace or name
/// is longer than a `u16` counts; otherwise its bytes 4..8 (the flags) are
/// zero and parsing them gives the registry back when its entry count fits
/// in `u32` and the bytes fit in memory.
pub proof fn lemma_extension_serialize_outcome(es: Seq<ExtensionEntryView>)
    ensures
        spec_serialize_extension_registry(es) is Err <==> exists|i: int|
            0 <= i < es.len() && !extension_entry_encodable(#[trigger] es[i]),
        spec_serialize_extension_registry(es) matches Ok(b) ==> b.subrange(4, 8) == seq![
            0u8,
            0u8,
            0u8,
            0u8,
        ],
        spec_serialize_extension_registry(es) matches Ok(b) ==> (es.len() <= u32::MAX && b.len()
            <= usize::MAX ==> spec_parse_extension_registry(b) == Ok::<
            Seq<ExtensionEntryView>,
            ErrorCode,
        >(es)),
{
    if let Ok(b) = spec_serialize_extension_registry(es) {
        let head = u32_le_bytes(es.len() as u32) + u32_le_bytes(0);
        assert(b.subrange(4, 8) =~= u32_le_bytes(0));
        assert(u32_le_bytes(0) =~= seq![0u8, 0u8, 0u8, 0u8]);
        if es.len() <= u32::MAX && b.len() <= usize::MAX {
            lemma_extension_registry_roundtrip(es);
        }
    }
}

} // verus!
