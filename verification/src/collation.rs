//! Collation registry.
//!
//! Every COVE v1 reader must recognise the six minimum collations. Each
//! collation has a stable name and a deterministic comparison rule; the
//! ordering collations are total orders so they can drive rank maps, min/max
//! statistics and ordered indexes safely.
use vstd::prelude::*;
use vstd::utf8::*;

use crate::error::{fails_with, CoveError, ErrorCode};
use crate::util::{int_of, prepend, str_eq, string_from_utf8, text};
use crate::wire::{append_bytes, push_u16_le, push_u32_le, spec_u16_at, spec_u32_at, u16_le_bytes, u32_le_bytes, get_u16_le, get_u32_le};
use vstd::slice::slice_to_vec;

verus! {

broadcast use {encode_utf8_decode_utf8, encode_utf8_valid_utf8};

/// Total order produced by comparing two values under a collation.
#[derive(Debug, Clone, Copy, PartialEq, Eq, PartialOrd, Ord, Structural)]
pub enum Ordering3 {
    Less,
    Equal,
    Greater,
}

/// The order of two integers.
pub open spec fn order_of_ints(a: int, b: int) -> Ordering3 {
    if a < b {
        Ordering3::Less
    } else if a == b {
        Ordering3::Equal
    } else {
        Ordering3::Greater
    }
}

/// The order of two `u128` values.
pub open spec fn order_of_u128(a: u128, b: u128) -> Ordering3 {
    if a < b {
        Ordering3::Less
    } else if a == b {
        Ordering3::Equal
    } else {
        Ordering3::Greater
    }
}

/// The order of two `i128` values.
pub open spec fn order_of_i128(a: i128, b: i128) -> Ordering3 {
    if a < b {
        Ordering3::Less
    } else if a == b {
        Ordering3::Equal
    } else {
        Ordering3::Greater
    }
}

/// The reverse of an ordering.
pub open spec fn flip(o: Ordering3) -> Ordering3 {
    match o {
        Ordering3::Less => Ordering3::Greater,
        Ordering3::Equal => Ordering3::Equal,
        Ordering3::Greater => Ordering3::Less,
    }
}

/// Lexicographic byte order (a proper prefix sorts first).
pub open spec fn lex_order(a: Seq<u8>, b: Seq<u8>) -> Ordering3
    decreases a.len(),
{
    if a.len() == 0 {
        if b.len() == 0 {
            Ordering3::Equal
        } else {
            Ordering3::Less
        }
    } else if b.len() == 0 {
        Ordering3::Greater
    } else if a[0] < b[0] {
        Ordering3::Less
    } else if a[0] > b[0] {
        Ordering3::Greater
    } else {
        lex_order(a.drop_first(), b.drop_first())
    }
}

/// Value of little-endian unsigned bytes.
pub open spec fn le_unsigned(s: Seq<u8>) -> int
    decreases s.len(),
{
    if s.len() == 0 {
        0
    } else {
        le_unsigned(s.drop_last()) + pow256((s.len() - 1) as nat) * s.last() as int
    }
}

/// `256^n`.
pub open spec fn pow256(n: nat) -> nat
    decreases n,
{
    if n == 0 {
        1
    } else {
        256 * pow256((n - 1) as nat)
    }
}

/// A byte read as a two's-complement `i8`.
pub open spec fn signed_byte(b: u8) -> int {
    if b < 128 {
        b as int
    } else {
        b as int - 256
    }
}

/// Value of little-endian two's-complement bytes.
pub open spec fn le_signed(s: Seq<u8>) -> int {
    if s.len() == 0 {
        0
    } else {
        le_unsigned(s.drop_last()) + pow256((s.len() - 1) as nat) * signed_byte(s.last())
    }
}

/// Widths accepted by the numeric collations.
pub open spec fn numeric_width(n: nat) -> bool {
    n == 1 || n == 2 || n == 4 || n == 8 || n == 16
}

/// One of the six v1 collations (`None` permits equality only).
#[derive(Debug, Clone, Copy, PartialEq, Eq, Hash, Structural)]
pub enum CollationKind {
    /// `none`: equality only, no ordering allowed.
    EqualityOnly,
    /// `utf8-bytewise`: byte-by-byte comparison of UTF-8 encoded text.
    Utf8Bytewise,
    /// `unsigned-fixed-bytes`: lexicographic on fixed-width unsigned bytes.
    UnsignedFixedBytes,
    /// `signed-numeric`: two's-complement signed integers.
    SignedNumeric,
    /// `unsigned-numeric`: unsigned integers.
    UnsignedNumeric,
    /// `timestamp-chronological`: chronological ordering on timestamps.
    TimestampChronological,
}

/// The stable format name of a collation.
pub open spec fn spec_collation_name(k: CollationKind) -> &'static str {
    match k {
        CollationKind::EqualityOnly => "none",
        CollationKind::Utf8Bytewise => "utf8-bytewise",
        CollationKind::UnsignedFixedBytes => "unsigned-fixed-bytes",
        CollationKind::SignedNumeric => "signed-numeric",
        CollationKind::UnsignedNumeric => "unsigned-numeric",
        CollationKind::TimestampChronological => "timestamp-chronological",
    }
}

/// The collation whose format name is `name`, if any.
pub open spec fn spec_from_name(name: Seq<char>) -> Option<CollationKind> {
    if name == "none"@ {
        Some(CollationKind::EqualityOnly)
    } else if name == "utf8-bytewise"@ {
        Some(CollationKind::Utf8Bytewise)
    } else if name == "unsigned-fixed-bytes"@ {
        Some(CollationKind::UnsignedFixedBytes)
    } else if name == "signed-numeric"@ {
        Some(CollationKind::SignedNumeric)
    } else if name == "unsigned-numeric"@ {
        Some(CollationKind::UnsignedNumeric)
    } else if name == "timestamp-chronological"@ {
        Some(CollationKind::TimestampChronological)
    } else {
        None
    }
}

/// The result of comparing `lhs` and `rhs` under collation `k`.
pub open spec fn spec_compare(k: CollationKind, lhs: Seq<u8>, rhs: Seq<u8>) -> Result<
    Ordering3,
    ErrorCode,
> {
    match k {
        CollationKind::EqualityOnly => if lhs == rhs {
            Ok(Ordering3::Equal)
        } else {
            Err(ErrorCode::BadStats)
        },
        CollationKind::Utf8Bytewise => Ok(lex_order(lhs, rhs)),
        CollationKind::UnsignedFixedBytes => if lhs.len() == rhs.len() {
            Ok(lex_order(lhs, rhs))
        } else {
            Err(ErrorCode::BadStats)
        },
        CollationKind::UnsignedNumeric => if lhs.len() == rhs.len() && numeric_width(lhs.len()) {
            Ok(order_of_ints(le_unsigned(lhs), le_unsigned(rhs)))
        } else {
            Err(ErrorCode::BadStats)
        },
        CollationKind::SignedNumeric | CollationKind::TimestampChronological => if lhs.len()
            == rhs.len() && numeric_width(lhs.len()) {
            Ok(order_of_ints(le_signed(lhs), le_signed(rhs)))
        } else {
            Err(ErrorCode::BadStats)
        },
    }
}

/// The six v1 collations in format order.
pub open spec fn spec_v1_collations() -> Seq<CollationKind> {
    seq![
        CollationKind::EqualityOnly,
        CollationKind::Utf8Bytewise,
        CollationKind::UnsignedFixedBytes,
        CollationKind::SignedNumeric,
        CollationKind::UnsignedNumeric,
        CollationKind::TimestampChronological,
    ]
}

/// The six v1 collations enumerated in format order.
pub fn v1_collations() -> (res: Vec<CollationKind>)
    ensures
        res@ == spec_v1_collations(),
{
    let v = vec![
        CollationKind::EqualityOnly,
        CollationKind::Utf8Bytewise,
        CollationKind::UnsignedFixedBytes,
        CollationKind::SignedNumeric,
        CollationKind::UnsignedNumeric,
        CollationKind::TimestampChronological,
    ];
    assert(v@ =~= spec_v1_collations());
    v
}

impl CollationKind {
    /// Stable format name for this collation.
    pub fn name(self) -> (res: &'static str)
        ensures
            res == spec_collation_name(self),
    {
        match self {
            CollationKind::EqualityOnly => "none",
            CollationKind::Utf8Bytewise => "utf8-bytewise",
            CollationKind::UnsignedFixedBytes => "unsigned-fixed-bytes",
            CollationKind::SignedNumeric => "signed-numeric",
            CollationKind::UnsignedNumeric => "unsigned-numeric",
            CollationKind::TimestampChronological => "timestamp-chronological",
        }
    }

    /// Look up a collation by its format name.
    pub fn from_name(name: &str) -> (res: Option<Self>)
        ensures
            res == spec_from_name(name@),
    {
        if str_eq(name, "none") {
            Some(CollationKind::EqualityOnly)
        } else if str_eq(name, "utf8-bytewise") {
            Some(CollationKind::Utf8Bytewise)
        } else if str_eq(name, "unsigned-fixed-bytes") {
            Some(CollationKind::UnsignedFixedBytes)
        } else if str_eq(name, "signed-numeric") {
            Some(CollationKind::SignedNumeric)
        } else if str_eq(name, "unsigned-numeric") {
            Some(CollationKind::UnsignedNumeric)
        } else if str_eq(name, "timestamp-chronological") {
            Some(CollationKind::TimestampChronological)
        } else {
            None
        }
    }

    /// Whether this collation defines a total order (supports min/max,
    /// ColumnDomain ranks and ordered indexes). `None` does not.
    pub fn supports_ordering(self) -> (res: bool)
        ensures
            res == !(self is EqualityOnly),
    {
        !matches!(self, CollationKind::EqualityOnly)
    }

    /// Compare two values under this collation. Returns `BadStats` when the
    /// inputs do not match the expected width for the collation (two fixed-width
    /// values of different lengths among them), and for two different values
    /// under `None`.
    pub fn compare(self, lhs: &[u8], rhs: &[u8]) -> (res: Result<Ordering3, CoveError>)
        ensures
            match spec_compare(self, lhs@, rhs@) {
                Ok(o) => res == Ok::<Ordering3, CoveError>(o),
                Err(c) => fails_with(res, c),
            },
    {
        match self {
            CollationKind::EqualityOnly => {
                if crate::util::bytes_eq(lhs, rhs) {
                    Ok(Ordering3::Equal)
                } else {
                    Err(CoveError::BadStats)
                }
            },
            CollationKind::Utf8Bytewise => Ok(compare_bytes(lhs, rhs)),
            CollationKind::UnsignedFixedBytes => {
                if lhs.len() == rhs.len() {
                    Ok(compare_bytes(lhs, rhs))
                } else {
                    Err(CoveError::BadStats)
                }
            },
            CollationKind::UnsignedNumeric => unsigned_numeric(lhs, rhs),
            CollationKind::SignedNumeric => signed_numeric(lhs, rhs),
            CollationKind::TimestampChronological => signed_numeric(lhs, rhs),
        }
    }
}

/// Orders two byte strings lexicographically.
pub fn compare_bytes(a: &[u8], b: &[u8]) -> (res: Ordering3)
    ensures
        res == lex_order(a@, b@),
{
    let mut i: usize = 0;
    assert(a@.skip(0) =~= a@);
    assert(b@.skip(0) =~= b@);
    while i < a.len() && i < b.len()
        invariant
            i <= a@.len(),
            i <= b@.len(),
            lex_order(a@, b@) == lex_order(a@.skip(int_of(i)), b@.skip(int_of(i))),
        decreases a@.len() - i,
    {
        assert(a@.skip(int_of(i))[0] == a@[int_of(i)]);
        assert(b@.skip(int_of(i))[0] == b@[int_of(i)]);
        if a[i] < b[i] {
            return Ordering3::Less;
        }
        if a[i] > b[i] {
            return Ordering3::Greater;
        }
        assert(a@.skip(int_of(i)).drop_first() =~= a@.skip(i + 1));
        assert(b@.skip(int_of(i)).drop_first() =~= b@.skip(i + 1));
        i = i + 1;
    }
    if i < a.len() {
        Ordering3::Greater
    } else if i < b.len() {
        Ordering3::Less
    } else {
        Ordering3::Equal
    }
}

fn int_order_u128(a: u128, b: u128) -> (res: Ordering3)
    ensures
        res == order_of_u128(a, b),
{
    if a < b {
        Ordering3::Less
    } else if a == b {
        Ordering3::Equal
    } else {
        Ordering3::Greater
    }
}

fn int_order_i128(a: i128, b: i128) -> (res: Ordering3)
    ensures
        res == order_of_i128(a, b),
{
    if a < b {
        Ordering3::Less
    } else if a == b {
        Ordering3::Equal
    } else {
        Ordering3::Greater
    }
}

fn check_same_len(lhs: &[u8], rhs: &[u8]) -> (res: Result<(), CoveError>)
    ensures
        res is Ok <==> (lhs@.len() == rhs@.len() && numeric_width(lhs@.len())),
        res is Err ==> fails_with(res, ErrorCode::BadStats),
{
    let n = lhs.len();
    if n != rhs.len() || !(n == 1 || n == 2 || n == 4 || n == 8 || n == 16) {
        Err(CoveError::BadStats)
    } else {
        Ok(())
    }
}

pub(crate) proof fn lemma_le_unsigned_bound(s: Seq<u8>)
    ensures
        le_unsigned(s) < pow256(s.len()),
    decreases s.len(),
{
    if s.len() > 0 {
        lemma_le_unsigned_bound(s.drop_last());
        let a = le_unsigned(s.drop_last());
        let p = pow256((s.len() - 1) as nat);
        let b = s.last() as nat;
        assert(a + p * b < 256 * p) by (nonlinear_arith)
            requires
                a < p,
                b <= 255,
        ;
    }
}

pub(crate) proof fn lemma_pow256_16()
    ensures
        pow256(15) == 0x1_0000_0000_0000_0000_0000_0000_0000_00,
        pow256(16) == 0x1_0000_0000_0000_0000_0000_0000_0000_0000,
{
    reveal_with_fuel(pow256, 17);
}

pub(crate) proof fn lemma_pow256_mono(a: nat, b: nat)
    requires
        a <= b,
    ensures
        pow256(a) <= pow256(b),
    decreases b,
{
    if a < b {
        lemma_pow256_mono(a, (b - 1) as nat);
    }
}

/// Value of the first `n` little-endian bytes as a `u128`.
pub(crate) fn read_unsigned_prefix(b: &[u8], n: usize) -> (res: u128)
    requires
        n <= b@.len(),
        n <= 16,
    ensures
        res == le_unsigned(b@.subrange(0, n as int)),
{
    let mut acc: u128 = 0;
    let mut p: u128 = 1;
    let mut i: usize = 0;
    proof {
        lemma_pow256_16();
    }
    while i < n
        invariant
            i <= n,
            n <= b@.len(),
            n <= 16,
            acc == le_unsigned(b@.subrange(0, i as int)),
            i < n ==> p == pow256(i as nat),
            pow256(16) == 0x1_0000_0000_0000_0000_0000_0000_0000_0000,
        decreases n - i,
    {
        let ghost prefix = b@.subrange(0, i as int);
        let ghost next = b@.subrange(0, i + 1);
        proof {
            assert(next.drop_last() =~= prefix);
            lemma_le_unsigned_bound(next);
            lemma_pow256_mono((i + 1) as nat, 16);
            lemma_pow256_mono(i as nat, 15);
            assert(pow256(15) == 0x1_0000_0000_0000_0000_0000_0000_0000_00) by {
                lemma_pow256_16();
            }
            assert(next.last() == b@[i as int]);
            assert(le_unsigned(next) == acc + p * b@[i as int]) by (nonlinear_arith)
                requires
                    le_unsigned(next) == le_unsigned(prefix) + pow256(i as nat) * next.last() as int,
                    acc == le_unsigned(prefix),
                    p == pow256(i as nat),
                    next.last() == b@[i as int],
            ;
        }
        acc = acc + p * (b[i] as u128);
        i = i + 1;
        if i < n {
            proof {
                lemma_pow256_mono(i as nat, 15);
            }
            p = p * 256;
        }
    }
    acc
}

/// Value of a little-endian unsigned integer of 1 to 16 bytes.
pub(crate) fn read_unsigned(b: &[u8]) -> (res: u128)
    requires
        b@.len() <= 16,
    ensures
        res == le_unsigned(b@),
{
    assert(b@.subrange(0, b@.len() as int) =~= b@);
    read_unsigned_prefix(b, b.len())
}

/// Value of a little-endian two's-complement integer of 1 to 16 bytes.
pub(crate) fn read_signed(b: &[u8]) -> (res: i128)
    requires
        1 <= b@.len() <= 16,
    ensures
        res == le_signed(b@),
{
    let n = b.len();
    let low = read_unsigned_prefix(b, n - 1);
    let last = b[n - 1];
    proof {
        assert(b@.subrange(0, n - 1) =~= b@.drop_last());
        lemma_le_unsigned_bound(b@.drop_last());
        lemma_pow256_16();
        lemma_pow256_mono((n - 1) as nat, 15);
    }
    let p = pow256_exec(n - 1);
    let hi: i128 = if last < 128 {
        last as i128
    } else {
        last as i128 - 256
    };
    proof {
        let pp = p as int;
        assert(-128 * pp <= hi * pp <= 127 * pp) by (nonlinear_arith)
            requires
                -128 <= hi <= 127,
                pp >= 0,
        ;
    }
    let r = low as i128 + hi * (p as i128);
    proof {
        assert(hi == signed_byte(last));
        assert(hi * p == p * hi) by (nonlinear_arith);
    }
    r
}

fn pow256_exec(n: usize) -> (res: u128)
    requires
        n <= 15,
    ensures
        res == pow256(n as nat),
{
    let mut p: u128 = 1;
    let mut i: usize = 0;
    proof {
        lemma_pow256_16();
    }
    while i < n
        invariant
            i <= n,
            n <= 15,
            p == pow256(i as nat),
            pow256(15) == 0x1_0000_0000_0000_0000_0000_0000_0000_00,
        decreases n - i,
    {
        proof {
            lemma_pow256_mono((i + 1) as nat, 15);
        }
        p = p * 256;
        i = i + 1;
    }
    p
}

fn unsigned_numeric(lhs: &[u8], rhs: &[u8]) -> (res: Result<Ordering3, CoveError>)
    ensures
        match spec_compare(CollationKind::UnsignedNumeric, lhs@, rhs@) {
            Ok(o) => res == Ok::<Ordering3, CoveError>(o),
            Err(c) => fails_with(res, c),
        },
{
    check_same_len(lhs, rhs)?;
    Ok(int_order_u128(read_unsigned(lhs), read_unsigned(rhs)))
}

fn signed_numeric(lhs: &[u8], rhs: &[u8]) -> (res: Result<Ordering3, CoveError>)
    ensures
        match spec_compare(CollationKind::SignedNumeric, lhs@, rhs@) {
            Ok(o) => res == Ok::<Ordering3, CoveError>(o),
            Err(c) => fails_with(res, c),
        },
{
    check_same_len(lhs, rhs)?;
    Ok(int_order_i128(read_signed(lhs), read_signed(rhs)))
}

} // verus!

verus! {

/// A collation entry, mapping a column or domain to a named collation.
#[derive(Debug, Clone)]
pub struct CollationEntry {
    /// Collation name (e.g. "utf8-bytewise").
    pub name: String,
    /// Optional vendor-defined metadata bytes.
    pub metadata: Vec<u8>,
    /// Resolved kind, if it matches a v1 collation.
    pub kind: Option<CollationKind>,
}

/// The abstract content of a [`CollationEntry`].
pub struct CollationEntryView {
    pub name: Seq<char>,
    pub metadata: Seq<u8>,
    pub kind: Option<CollationKind>,
}

impl View for CollationEntry {
    type V = CollationEntryView;

    open spec fn view(&self) -> CollationEntryView {
        CollationEntryView { name: self.name@, metadata: self.metadata@, kind: self.kind }
    }
}

/// A parsed collation registry section.
#[derive(Debug, Clone, Default)]
pub struct CollationRegistry {
    pub entries: Vec<CollationEntry>,
}

impl View for CollationRegistry {
    type V = Seq<CollationEntryView>;

    open spec fn view(&self) -> Seq<CollationEntryView> {
        self.entries@.map_values(|e: CollationEntry| e@)
    }
}

/// Parsing one registry entry at `pos`: the entry and the position after it.
#[verifier::opaque]
pub open spec fn spec_parse_collation_entry(b: Seq<u8>, pos: int) -> Result<
    (CollationEntryView, int),
    ErrorCode,
> {
    if b.len() - pos < 2 {
        Err(ErrorCode::BufferTooShort)
    } else {
        let name_len = spec_u16_at(b, pos) as int;
        let p1 = pos + 2;
        if p1 + name_len > usize::MAX {
            Err(ErrorCode::ArithOverflow)
        } else if p1 + name_len > b.len() {
            Err(ErrorCode::BufferTooShort)
        } else if !valid_utf8(b.subrange(p1, p1 + name_len)) {
            Err(ErrorCode::BadSection)
        } else {
            let name = decode_utf8(b.subrange(p1, p1 + name_len));
            let p2 = p1 + name_len;
            if b.len() - p2 < 2 {
                Err(ErrorCode::BufferTooShort)
            } else {
                let meta_len = spec_u16_at(b, p2) as int;
                let p3 = p2 + 2;
                if p3 + meta_len > usize::MAX {
                    Err(ErrorCode::ArithOverflow)
                } else if p3 + meta_len > b.len() {
                    Err(ErrorCode::BufferTooShort)
                } else {
                    Ok(
                        (
                            CollationEntryView {
                                name,
                                metadata: b.subrange(p3, p3 + meta_len),
                                kind: spec_from_name(name),
                            },
                            p3 + meta_len,
                        ),
                    )
                }
            }
        }
    }
}

/// Parsing `n` consecutive registry entries starting at `pos`.
pub open spec fn spec_parse_collation_entries(b: Seq<u8>, pos: int, n: nat) -> Result<
    Seq<CollationEntryView>,
    ErrorCode,
>
    decreases n,
{
    if n == 0 {
        Ok(Seq::empty())
    } else {
        match spec_parse_collation_entry(b, pos) {
            Err(e) => Err(e),
            Ok((entry, next)) => prepend(
                seq![entry],
                spec_parse_collation_entries(b, next, (n - 1) as nat),
            ),
        }
    }
}

/// Parsing a whole collation registry section.
pub open spec fn spec_parse_collation_registry(b: Seq<u8>) -> Result<
    Seq<CollationEntryView>,
    ErrorCode,
> {
    if b.len() < 4 {
        Err(ErrorCode::BufferTooShort)
    } else {
        spec_parse_collation_entries(b, 4, spec_u32_at(b, 0) as nat)
    }
}

/// The wire form of one entry.
pub open spec fn spec_serialize_collation_entry(e: CollationEntryView) -> Seq<u8> {
    u16_le_bytes(encode_utf8(e.name).len() as u16) + encode_utf8(e.name) + u16_le_bytes(
        e.metadata.len() as u16,
    ) + e.metadata
}

/// The wire form of a run of entries.
pub open spec fn spec_serialize_collation_entries(es: Seq<CollationEntryView>) -> Seq<u8>
    decreases es.len(),
{
    if es.len() == 0 {
        Seq::empty()
    } else {
        spec_serialize_collation_entries(es.drop_last()) + spec_serialize_collation_entry(
            es.last(),
        )
    }
}

/// The wire form of a registry: entry count, then the entries.
pub open spec fn spec_serialize_collation_registry(es: Seq<CollationEntryView>) -> Seq<u8> {
    u32_le_bytes(es.len() as u32) + spec_serialize_collation_entries(es)
}

/// An entry that the wire format can carry and that parsing reproduces.
pub open spec fn collation_entry_encodable(e: CollationEntryView) -> bool {
    &&& encode_utf8(e.name).len() <= u16::MAX
    &&& e.metadata.len() <= u16::MAX
    &&& e.kind == spec_from_name(e.name)
}

impl CollationRegistry {
    /// Parse a collation registry section.
    ///
    /// Wire format: `u32` LE entry count, then entries of `u16` LE
    /// `name_len`, name bytes (UTF-8), `u16` LE `meta_len`, meta bytes.
    pub fn parse(bytes: &[u8]) -> (res: Result<Self, CoveError>)
        ensures
            match spec_parse_collation_registry(bytes@) {
                Ok(es) => res matches Ok(r) && r@ == es,
                Err(c) => fails_with(res, c),
            },
    {
        if bytes.len() < 4 {
            return Err(CoveError::BufferTooShort);
        }
        let entry_count = get_u32_le(bytes, 0);
        let mut pos: usize = 4;
        let mut entries: Vec<CollationEntry> = Vec::new();
        let mut k: u32 = 0;
        while k < entry_count
            invariant
                4 <= pos <= bytes@.len(),
                k <= entry_count,
                entry_count == spec_u32_at(bytes@, 0),
                spec_parse_collation_registry(bytes@) == prepend(
                    entries@.map_values(|e: CollationEntry| e@),
                    spec_parse_collation_entries(bytes@, pos as int, (entry_count - k) as nat),
                ),
            decreases entry_count - k,
        {
            let ghost before = entries@.map_values(|e: CollationEntry| e@);
            let ghost old_pos = pos as int;
            let ghost n = (entry_count - k) as nat;
            reveal(spec_parse_collation_entry);
            if bytes.len() - pos < 2 {
                return Err(CoveError::BufferTooShort);
            }
            let name_len = get_u16_le(bytes, pos) as usize;
            pos = pos + 2;
            let name_end = match pos.checked_add(name_len) {
                Some(end) => end,
                None => return Err(CoveError::ArithOverflow),
            };
            if name_end > bytes.len() {
                return Err(CoveError::BufferTooShort);
            }
            let name = match string_from_utf8(&bytes[pos..name_end]) {
                Some(name) => name,
                None => {
                    return Err(CoveError::BadSection(text("collation name is not valid UTF-8")))
                },
            };
            pos = name_end;
            if bytes.len() - pos < 2 {
                return Err(CoveError::BufferTooShort);
            }
            let meta_len = get_u16_le(bytes, pos) as usize;
            pos = pos + 2;
            let meta_end = match pos.checked_add(meta_len) {
                Some(end) => end,
                None => return Err(CoveError::ArithOverflow),
            };
            if meta_end > bytes.len() {
                return Err(CoveError::BufferTooShort);
            }
            let metadata = slice_to_vec(&bytes[pos..meta_end]);
            pos = meta_end;
            let kind = CollationKind::from_name(name.as_str());
            let entry = CollationEntry { name, metadata, kind };
            entries.push(entry);
            proof {
                let after = entries@.map_values(|e: CollationEntry| e@);
                assert(after =~= before + seq![entry@]);
                assert(spec_parse_collation_entry(bytes@, old_pos) == Ok::<
                    (CollationEntryView, int),
                    ErrorCode,
                >((entry@, pos as int)));
                let r = spec_parse_collation_entries(bytes@, pos as int, (n - 1) as nat);
                assert(spec_parse_collation_entries(bytes@, old_pos, n) == prepend(
                    seq![entry@],
                    r,
                ));
                match r {
                    Ok(rest) => {
                        assert(before + (seq![entry@] + rest) =~= after + rest);
                    },
                    Err(_) => {},
                }
            }
            k = k + 1;
        }
        Ok(Self { entries })
    }

    /// Inverse of [`Self::parse`]; produces canonical bytes that round-trip.
    pub fn serialize(&self) -> (res: Vec<u8>)
        ensures
            res@ == spec_serialize_collation_registry(self@),
    {
        let mut out: Vec<u8> = Vec::new();
        push_u32_le(&mut out, self.entries.len() as u32);
        let mut i: usize = 0;
        while i < self.entries.len()
            invariant
                i <= self.entries@.len(),
                out@ == u32_le_bytes(self@.len() as u32) + spec_serialize_collation_entries(
                    self@.take(i as int),
                ),
            decreases self.entries@.len() - i,
        {
            let entry = &self.entries[i];
            let name_bytes = entry.name.as_str().as_bytes();
            push_u16_le(&mut out, name_bytes.len() as u16);
            append_bytes(&mut out, name_bytes);
            push_u16_le(&mut out, entry.metadata.len() as u16);
            append_bytes(&mut out, entry.metadata.as_slice());
            proof {
                assert(self@.take(i + 1).drop_last() =~= self@.take(i as int));
                assert(self@.take(i + 1).last() == entry@);
            }
            i = i + 1;
        }
        assert(self@.take(self@.len() as int) =~= self@);
        out
    }

    /// Returns true if every named collation is one of the six v1 collations.
    pub fn all_known(&self) -> (res: bool)
        ensures
            res == forall|i: int| 0 <= i < self@.len() ==> self@[i].kind is Some,
    {
        let mut i: usize = 0;
        while i < self.entries.len()
            invariant
                i <= self.entries@.len(),
                forall|j: int| 0 <= j < i ==> self@[j].kind is Some,
            decreases self.entries@.len() - i,
        {
            if self.entries[i].kind.is_none() {
                assert(self@[i as int] == self.entries@[i as int]@);
                return false;
            }
            assert(self@[i as int] == self.entries@[i as int]@);
            i = i + 1;
        }
        true
    }

    /// Whether a given collation name is recognised by this v1 reader.
    pub fn is_known_collation(name: &str) -> (res: bool)
        ensures
            res == spec_from_name(name@) is Some,
    {
        CollationKind::from_name(name).is_some()
    }
}

} // verus!

verus! {

/// Every v1 collation name resolves back to its collation.
pub proof fn lemma_collation_name_roundtrip(k: CollationKind)
    ensures
        spec_from_name(spec_collation_name(k)@) == Some(k),
{
    reveal_strlit("none");
    reveal_strlit("utf8-bytewise");
    reveal_strlit("unsigned-fixed-bytes");
    reveal_strlit("signed-numeric");
    reveal_strlit("unsigned-numeric");
    reveal_strlit("timestamp-chronological");
    let n = spec_collation_name(k)@;
    assert(n.len() != "none"@.len() || n =~= "none"@ || n[0] != "none"@[0]);
    assert("utf8-bytewise"@ != "none"@) by {
        assert("utf8-bytewise"@.len() != "none"@.len());
    }
    assert("unsigned-fixed-bytes"@ != "none"@) by {
        assert("unsigned-fixed-bytes"@.len() != "none"@.len());
    }
    assert("unsigned-fixed-bytes"@ != "utf8-bytewise"@) by {
        assert("unsigned-fixed-bytes"@.len() != "utf8-bytewise"@.len());
    }
    assert("signed-numeric"@ != "none"@) by {
        assert("signed-numeric"@.len() != "none"@.len());
    }
    assert("signed-numeric"@ != "utf8-bytewise"@) by {
        assert("signed-numeric"@.len() != "utf8-bytewise"@.len());
    }
    assert("signed-numeric"@ != "unsigned-fixed-bytes"@) by {
        assert("signed-numeric"@.len() != "unsigned-fixed-bytes"@.len());
    }
    assert("unsigned-numeric"@ != "none"@) by {
        assert("unsigned-numeric"@.len() != "none"@.len());
    }
    assert("unsigned-numeric"@ != "utf8-bytewise"@) by {
        assert("unsigned-numeric"@.len() != "utf8-bytewise"@.len());
    }
    assert("unsigned-numeric"@ != "unsigned-fixed-bytes"@) by {
        assert("unsigned-numeric"@.len() != "unsigned-fixed-bytes"@.len());
    }
    assert("unsigned-numeric"@ != "signed-numeric"@) by {
        assert("unsigned-numeric"@.len() != "signed-numeric"@.len());
    }
    assert("timestamp-chronological"@ != "none"@) by {
        assert("timestamp-chronological"@.len() != "none"@.len());
    }
    assert("timestamp-chronological"@ != "utf8-bytewise"@) by {
        assert("timestamp-chronological"@.len() != "utf8-bytewise"@.len());
    }
    assert("timestamp-chronological"@ != "unsigned-fixed-bytes"@) by {
        assert("timestamp-chronological"@.len() != "unsigned-fixed-bytes"@.len());
    }
    assert("timestamp-chronological"@ != "signed-numeric"@) by {
        assert("timestamp-chronological"@.len() != "signed-numeric"@.len());
    }
    assert("timestamp-chronological"@ != "unsigned-numeric"@) by {
        assert("timestamp-chronological"@.len() != "unsigned-numeric"@.len());
    }
}

/// Two byte strings compare `Equal` exactly when they are the same.
pub(crate) proof fn lemma_lex_equal(a: Seq<u8>, b: Seq<u8>)
    ensures
        lex_order(a, b) == Ordering3::Equal <==> a == b,
    decreases a.len(),
{
    lemma_lex_reflexive(a);
    if lex_order(a, b) == Ordering3::Equal {
        if a.len() == 0 {
            assert(a =~= b);
        } else {
            assert(b.len() > 0 && a[0] == b[0]);
            lemma_lex_equal(a.drop_first(), b.drop_first());
            assert forall|i: int| 0 <= i < a.len() implies a[i] == b[i] by {
                if i > 0 {
                    assert(a[i] == a.drop_first()[i - 1]);
                    assert(b[i] == b.drop_first()[i - 1]);
                }
            }
            assert(a =~= b);
        }
    }
}

pub(crate) proof fn lemma_lex_reflexive(a: Seq<u8>)
    ensures
        lex_order(a, a) == Ordering3::Equal,
    decreases a.len(),
{
    if a.len() > 0 {
        lemma_lex_reflexive(a.drop_first());
    }
}

pub(crate) proof fn lemma_lex_antisymmetric(a: Seq<u8>, b: Seq<u8>)
    ensures
        lex_order(b, a) == flip(lex_order(a, b)),
    decreases a.len(),
{
    if a.len() > 0 && b.len() > 0 && a[0] == b[0] {
        lemma_lex_antisymmetric(a.drop_first(), b.drop_first());
    }
}

pub(crate) proof fn lemma_lex_transitive(a: Seq<u8>, b: Seq<u8>, c: Seq<u8>)
    requires
        lex_order(a, b) == Ordering3::Less,
        lex_order(b, c) == Ordering3::Less,
    ensures
        lex_order(a, c) == Ordering3::Less,
    decreases a.len(),
{
    if a.len() > 0 && b.len() > 0 && c.len() > 0 && a[0] == b[0] && b[0] == c[0] {
        lemma_lex_transitive(a.drop_first(), b.drop_first(), c.drop_first());
    }
}

/// Every collation compares a value equal to itself whenever the comparison
/// is defined.
pub proof fn lemma_compare_reflexive(k: CollationKind, a: Seq<u8>)
    ensures
        spec_compare(k, a, a) matches Ok(o) ==> o == Ordering3::Equal,
{
    lemma_lex_reflexive(a);
}

/// Swapping the operands reverses the order, and both comparisons are
/// defined together.
pub proof fn lemma_compare_antisymmetric(k: CollationKind, a: Seq<u8>, b: Seq<u8>)
    ensures
        spec_compare(k, a, b) matches Ok(o) ==> spec_compare(k, b, a) == Ok::<
            Ordering3,
            ErrorCode,
        >(flip(o)),
        spec_compare(k, a, b) is Err <==> spec_compare(k, b, a) is Err,
{
    lemma_lex_antisymmetric(a, b);
}

/// `Less` is transitive under every collation.
pub proof fn lemma_compare_transitive(k: CollationKind, a: Seq<u8>, b: Seq<u8>, c: Seq<u8>)
    requires
        spec_compare(k, a, b) == Ok::<Ordering3, ErrorCode>(Ordering3::Less),
        spec_compare(k, b, c) == Ok::<Ordering3, ErrorCode>(Ordering3::Less),
    ensures
        spec_compare(k, a, c) == Ok::<Ordering3, ErrorCode>(Ordering3::Less),
{
    match k {
        CollationKind::Utf8Bytewise | CollationKind::UnsignedFixedBytes => {
            lemma_lex_transitive(a, b, c);
        },
        _ => {},
    }
}

proof fn lemma_serialize_entries_front(es: Seq<CollationEntryView>)
    requires
        es.len() > 0,
    ensures
        spec_serialize_collation_entries(es) == spec_serialize_collation_entry(es[0])
            + spec_serialize_collation_entries(es.drop_first()),
    decreases es.len(),
{
    if es.len() > 1 {
        let dl = es.drop_last();
        let df = es.drop_first();
        lemma_serialize_entries_front(dl);
        assert(dl.drop_first() =~= df.drop_last());
        assert(dl[0] == es[0]);
        assert(df.last() == es.last());
        assert(spec_serialize_collation_entries(df) == spec_serialize_collation_entries(
            df.drop_last(),
        ) + spec_serialize_collation_entry(df.last()));
        assert(spec_serialize_collation_entries(es) =~= spec_serialize_collation_entry(es[0])
            + spec_serialize_collation_entries(df));
    } else {
        assert(es.drop_first().len() == 0);
        assert(es.drop_last().len() == 0);
        assert(spec_serialize_collation_entries(es.drop_last()) =~= Seq::<u8>::empty());
        assert(spec_serialize_collation_entries(es.drop_first()) =~= Seq::<u8>::empty());
        assert(spec_serialize_collation_entries(es) =~= spec_serialize_collation_entry(es[0])
            + spec_serialize_collation_entries(es.drop_first()));
    }
}

proof fn lemma_parse_one_entry(b: Seq<u8>, p: int, e: CollationEntryView)
    requires
        collation_entry_encodable(e),
        0 <= p,
        p + spec_serialize_collation_entry(e).len() <= b.len(),
        b.len() <= usize::MAX,
        b.subrange(p, p + spec_serialize_collation_entry(e).len())
            == spec_serialize_collation_entry(e),
    ensures
        spec_parse_collation_entry(b, p) == Ok::<(CollationEntryView, int), ErrorCode>(
            (e, p + spec_serialize_collation_entry(e).len()),
        ),
{
    reveal(spec_parse_collation_entry);
    let se = spec_serialize_collation_entry(e);
    let nb = encode_utf8(e.name);
    let n = nb.len() as int;
    let m = e.metadata.len() as int;
    assert(se.len() == 2 + n + 2 + m);
    assert(b.subrange(p, p + 2) =~= se.subrange(0, 2));
    assert(se.subrange(0, 2) =~= u16_le_bytes(nb.len() as u16));
    crate::wire::lemma_u16_roundtrip(nb.len() as u16, b, p);
    assert(b.subrange(p + 2, p + 2 + n) =~= se.subrange(2, 2 + n));
    assert(se.subrange(2, 2 + n) =~= nb);
    let p2 = p + 2 + n;
    assert(b.subrange(p2, p2 + 2) =~= se.subrange(2 + n, 4 + n));
    assert(se.subrange(2 + n, 4 + n) =~= u16_le_bytes(e.metadata.len() as u16));
    crate::wire::lemma_u16_roundtrip(e.metadata.len() as u16, b, p2);
    assert(b.subrange(p2 + 2, p2 + 2 + m) =~= se.subrange(4 + n, 4 + n + m));
    assert(se.subrange(4 + n, 4 + n + m) =~= e.metadata);
}

proof fn lemma_parse_entries_roundtrip(
    prefix: Seq<u8>,
    es: Seq<CollationEntryView>,
    tail: Seq<u8>,
)
    requires
        forall|i: int| 0 <= i < es.len() ==> collation_entry_encodable(#[trigger] es[i]),
        prefix.len() + spec_serialize_collation_entries(es).len() + tail.len() <= usize::MAX,
    ensures
        spec_parse_collation_entries(
            prefix + spec_serialize_collation_entries(es) + tail,
            prefix.len() as int,
            es.len(),
        ) == Ok::<Seq<CollationEntryView>, ErrorCode>(es),
    decreases es.len(),
{
    let b = prefix + spec_serialize_collation_entries(es) + tail;
    if es.len() == 0 {
        assert(spec_parse_collation_entries(b, prefix.len() as int, 0) == Ok::<
            Seq<CollationEntryView>,
            ErrorCode,
        >(Seq::empty()));
        assert(es =~= Seq::<CollationEntryView>::empty());
    } else {
        let e = es[0];
        let rest = es.drop_first();
        lemma_serialize_entries_front(es);
        let se = spec_serialize_collation_entry(e);
        let p = prefix.len() as int;
        let prefix2 = prefix + se;
        assert(b =~= prefix2 + spec_serialize_collation_entries(rest) + tail);
        assert(b.subrange(p, p + se.len()) =~= se);
        assert(collation_entry_encodable(es[0]));
        lemma_parse_one_entry(b, p, e);
        assert forall|i: int| 0 <= i < rest.len() implies collation_entry_encodable(
            #[trigger] rest[i],
        ) by {
            assert(rest[i] == es[i + 1]);
        }
        lemma_parse_entries_roundtrip(prefix2, rest, tail);
        assert(seq![e] + rest =~= es);
    }
}

proof fn lemma_resolved_registry_roundtrip(es: Seq<CollationEntryView>)
    requires
        es.len() <= u32::MAX,
        forall|i: int| 0 <= i < es.len() ==> collation_entry_encodable(#[trigger] es[i]),
        spec_serialize_collation_registry(es).len() <= usize::MAX,
    ensures
        spec_parse_collation_registry(spec_serialize_collation_registry(es)) == Ok::<
            Seq<CollationEntryView>,
            ErrorCode,
        >(es),
{
    let head = u32_le_bytes(es.len() as u32);
    let b = spec_serialize_collation_registry(es);
    assert(b.subrange(0, 4) =~= head);
    crate::wire::lemma_u32_roundtrip(es.len() as u32, b, 0);
    assert(b =~= head + spec_serialize_collation_entries(es) + Seq::<u8>::empty());
    lemma_parse_entries_roundtrip(head, es, Seq::<u8>::empty());
}

/// The entry that parsing gives back for `e`: its name and metadata, with
/// the kind that its name resolves to.
pub open spec fn resolved_collation_entry(e: CollationEntryView) -> CollationEntryView {
    CollationEntryView { name: e.name, metadata: e.metadata, kind: spec_from_name(e.name) }
}

/// Whether an entry's name and metadata fit the wire format's `u16` length
/// fields.
pub open spec fn collation_entry_fits(e: CollationEntryView) -> bool {
    &&& encode_utf8(e.name).len() <= u16::MAX
    &&& e.metadata.len() <= u16::MAX
}

proof fn lemma_serialize_ignores_kind(es: Seq<CollationEntryView>)
    ensures
        spec_serialize_collation_entries(es) == spec_serialize_collation_entries(
            es.map_values(|e: CollationEntryView| resolved_collation_entry(e)),
        ),
    decreases es.len(),
{
    let rs = es.map_values(|e: CollationEntryView| resolved_collation_entry(e));
    if es.len() > 0 {
        lemma_serialize_ignores_kind(es.drop_last());
        assert(rs.drop_last() =~= es.drop_last().map_values(
            |e: CollationEntryView| resolved_collation_entry(e),
        ));
        assert(rs.last() == resolved_collation_entry(es.last()));
    }
}

/// Parsing reads back what serializing wrote: for every registry whose
/// entries fit the wire format's length fields and whose entry count fits in
/// `u32`, parsing the serialized bytes gives the same entries in the same
/// order, each with its name and metadata, and with the kind that its name
/// resolves to (an entry's stored kind is not written).
pub proof fn lemma_collation_registry_roundtrip(es: Seq<CollationEntryView>)
    requires
        es.len() <= u32::MAX,
        forall|i: int| 0 <= i < es.len() ==> collation_entry_fits(#[trigger] es[i]),
        spec_serialize_collation_registry(es).len() <= usize::MAX,
    ensures
        spec_parse_collation_registry(spec_serialize_collation_registry(es)) == Ok::<
            Seq<CollationEntryView>,
            ErrorCode,
        >(es.map_values(|e: CollationEntryView| resolved_collation_entry(e))),
{
    let rs = es.map_values(|e: CollationEntryView| resolved_collation_entry(e));
    lemma_serialize_ignores_kind(es);
    assert(spec_serialize_collation_registry(es) == spec_serialize_collation_registry(rs));
    assert forall|i: int| 0 <= i < rs.len() implies collation_entry_encodable(#[trigger] rs[i]) by {
        assert(collation_entry_fits(es[i]));
    }
    lemma_resolved_registry_roundtrip(rs);
}

proof fn lemma_parsed_entries_resolved(b: Seq<u8>, pos: int, n: nat)
    ensures
        spec_parse_collation_entries(b, pos, n) matches Ok(es) ==> es.len() == n && forall|i: int|
            0 <= i < es.len() ==> (#[trigger] es[i]).kind == spec_from_name(es[i].name),
    decreases n,
{
    reveal(spec_parse_collation_entry);
    if n > 0 {
        if let Ok((e, next)) = spec_parse_collation_entry(b, pos) {
            lemma_parsed_entries_resolved(b, next, (n - 1) as nat);
            if let Ok(rest) = spec_parse_collation_entries(b, next, (n - 1) as nat) {
                let es = seq![e] + rest;
                assert forall|i: int| 0 <= i < es.len() implies (#[trigger] es[i]).kind
                    == spec_from_name(es[i].name) by {
                    if i > 0 {
                        assert(es[i] == rest[i - 1]);
                    }
                }
            }
        }
    }
}

/// A registry that parses holds as many entries as its `u32` header
/// counts, and each entry carries the kind its name resolves to (`None` for
/// a name outside the six v1 collations).
pub proof fn lemma_parsed_registry_shape(b: Seq<u8>)
    ensures
        spec_parse_collation_registry(b) matches Ok(es) ==> b.len() >= 4 && es.len()
            == spec_u32_at(b, 0) && forall|i: int|
            0 <= i < es.len() ==> (#[trigger] es[i]).kind == spec_from_name(es[i].name),
{
    if b.len() >= 4 {
        lemma_parsed_entries_resolved(b, 4, spec_u32_at(b, 0) as nat);
    }
}

} // verus!
