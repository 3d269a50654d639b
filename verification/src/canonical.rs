//! Canonical byte forms of scalar values: integers as eight little-endian
//! bytes after range checks against their declared width, variable-length
//! values behind a LEB128 length.
use vstd::prelude::*;
use vstd::slice::slice_to_vec;

use crate::collation::{
    compare_bytes, lemma_lex_antisymmetric, lemma_lex_equal, lemma_lex_transitive, lex_order,
    Ordering3,
};
use crate::error::{fails_with, CoveError, ErrorCode};
use crate::util::text;
use crate::source_columns::{decimal_bytes, decimal_le};
use crate::wire::{
    append_bytes, encode_u64_leb128, lemma_leb_roundtrip, lemma_u32_roundtrip, lemma_u64_roundtrip,
    push_u32_le, push_u64_le, spec_leb_encode, u32_le_bytes, u64_le_bytes,
};
use crate::util::lemma_utf8_roundtrip;
use vstd::utf8::encode_utf8;

verus! {

/// The range of a signed integer of `width` bytes; `None` for widths other
/// than 1, 2, 4 and 8.
pub open spec fn signed_range(width: u8) -> Option<(int, int)> {
    if width == 1 {
        Some((-0x80, 0x7f))
    } else if width == 2 {
        Some((-0x8000, 0x7fff))
    } else if width == 4 {
        Some((-0x8000_0000, 0x7fff_ffff))
    } else if width == 8 {
        Some((i64::MIN as int, i64::MAX as int))
    } else {
        None
    }
}

/// The largest unsigned integer of `width` bytes; `None` for widths other
/// than 1, 2, 4 and 8.
pub open spec fn unsigned_max(width: u8) -> Option<int> {
    if width == 1 {
        Some(0xff)
    } else if width == 2 {
        Some(0xffff)
    } else if width == 4 {
        Some(0xffff_ffff)
    } else if width == 8 {
        Some(u64::MAX as int)
    } else {
        None
    }
}

/// The canonical bytes of a signed integer declared `width` bytes wide: the
/// value as a little-endian `i64`. An unknown width or a value outside the
/// width's range is `BadSection`.
pub fn encode_i64_width(width: u8, value: i128) -> (res: Result<Vec<u8>, CoveError>)
    ensures
        match signed_range(width) {
            Some((lo, hi)) => if lo <= value <= hi {
                res matches Ok(b) && b@ == u64_le_bytes((value as i64) as u64)
            } else {
                fails_with(res, ErrorCode::BadSection)
            },
            None => fails_with(res, ErrorCode::BadSection),
        },
{
    let (min, max): (i128, i128) = if width == 1 {
        (-0x80, 0x7f)
    } else if width == 2 {
        (-0x8000, 0x7fff)
    } else if width == 4 {
        (-0x8000_0000, 0x7fff_ffff)
    } else if width == 8 {
        (-0x8000_0000_0000_0000, 0x7fff_ffff_ffff_ffff)
    } else {
        return Err(CoveError::BadSection(text("invalid signed integer width")));
    };
    if value < min || value > max {
        return Err(CoveError::BadSection(text("signed integer canonical value out of range")));
    }
    let mut out: Vec<u8> = Vec::new();
    push_u64_le(&mut out, (value as i64) as u64);
    Ok(out)
}

/// The canonical bytes of an unsigned integer declared `width` bytes wide:
/// the value as a little-endian `u64`. An unknown width or a value above
/// the width's maximum is `BadSection`.
pub fn encode_u64_width(width: u8, value: u128) -> (res: Result<Vec<u8>, CoveError>)
    ensures
        match unsigned_max(width) {
            Some(hi) => if value <= hi {
                res matches Ok(b) && b@ == u64_le_bytes(value as u64)
            } else {
                fails_with(res, ErrorCode::BadSection)
            },
            None => fails_with(res, ErrorCode::BadSection),
        },
{
    let max: u128 = if width == 1 {
        0xff
    } else if width == 2 {
        0xffff
    } else if width == 4 {
        0xffff_ffff
    } else if width == 8 {
        0xffff_ffff_ffff_ffff
    } else {
        return Err(CoveError::BadSection(text("invalid unsigned integer width")));
    };
    if value > max {
        return Err(CoveError::BadSection(text("unsigned integer canonical value out of range")));
    }
    let mut out: Vec<u8> = Vec::new();
    push_u64_le(&mut out, value as u64);
    Ok(out)
}

/// Bytes behind their LEB128-encoded length.
pub fn length_prefixed(bytes: &[u8]) -> (res: Vec<u8>)
    ensures
        res@ == spec_leb_encode(bytes@.len()) + bytes@,
{
    let mut out = encode_u64_leb128(bytes.len() as u64);
    append_bytes(&mut out, bytes);
    out
}

/// A map entry as the tagged canonical bytes of its key and of its value.
pub open spec fn entry_view(e: (Vec<u8>, Vec<u8>)) -> (Seq<u8>, Seq<u8>) {
    (e.0@, e.1@)
}

/// The entries of a map as byte pairs.
pub open spec fn entries_view(es: Seq<(Vec<u8>, Vec<u8>)>) -> Seq<(Seq<u8>, Seq<u8>)> {
    es.map_values(|e: (Vec<u8>, Vec<u8>)| entry_view(e))
}

/// Whether the entries' keys strictly ascend bytewise.
pub open spec fn keys_ascending(es: Seq<(Seq<u8>, Seq<u8>)>) -> bool {
    forall|i: int, j: int|
        0 <= i < j < es.len() ==> lex_order(#[trigger] es[i].0, #[trigger] es[j].0)
            == Ordering3::Less
}

/// Whether no two entries share a key.
pub open spec fn keys_distinct(es: Seq<(Seq<u8>, Seq<u8>)>) -> bool {
    forall|i: int, j: int| 0 <= i < j < es.len() ==> #[trigger] es[i].0 != #[trigger] es[j].0
}

/// The entries of a canonical map in canonical order: the same entries,
/// sorted by ascending key bytes. Two entries with the same key are
/// `BadSchema`, since a canonical map holds each key once.
pub fn canonical_map_order(entries: &[(Vec<u8>, Vec<u8>)]) -> (res: Result<
    Vec<(Vec<u8>, Vec<u8>)>,
    CoveError,
>)
    ensures
        keys_distinct(entries_view(entries@)) ==> (res matches Ok(out) && keys_ascending(
            entries_view(out@),
        ) && entries_view(out@).to_multiset() == entries_view(entries@).to_multiset()),
        !keys_distinct(entries_view(entries@)) ==> fails_with(res, ErrorCode::BadSchema),
{
    broadcast use vstd::seq_lib::group_to_multiset_ensures;

    let ghost input = entries_view(entries@);
    let mut out: Vec<(Vec<u8>, Vec<u8>)> = Vec::new();
    let mut k: usize = 0;
    proof {
        assert(entries_view(out@) =~= Seq::<(Seq<u8>, Seq<u8>)>::empty());
        assert(input.take(0) =~= Seq::<(Seq<u8>, Seq<u8>)>::empty());
    }
    while k < entries.len()
        invariant
            k <= entries@.len(),
            input == entries_view(entries@),
            keys_ascending(entries_view(out@)),
            entries_view(out@).to_multiset() == input.take(k as int).to_multiset(),
            keys_distinct(input.take(k as int)),
        decreases entries@.len() - k,
    {
        let key = entries[k].0.as_slice();
        let ghost cur = entries_view(out@);
        let mut q: usize = 0;
        while q < out.len() && compare_bytes(key, out[q].0.as_slice()) == Ordering3::Greater
            invariant
                q <= out@.len(),
                cur == entries_view(out@),
                forall|p: int| 0 <= p < q ==> lex_order(key@, #[trigger] cur[p].0) == Ordering3::Greater,
            decreases out@.len() - q,
        {
            q = q + 1;
        }
        if q < out.len() && compare_bytes(key, out[q].0.as_slice()) == Ordering3::Equal {
            proof {
                lemma_lex_equal(key@, cur[q as int].0);
                let e = cur[q as int];
                assert(cur[q as int] == e);
                assert(cur.contains(e));
                vstd::seq_lib::to_multiset_contains(cur, e);
                vstd::seq_lib::to_multiset_contains(input.take(k as int), e);
                assert(input.take(k as int).to_multiset().count(e) > 0);
                let i = choose|i: int| 0 <= i < k && input.take(k as int)[i] == e;
                assert(input[i] == e);
                assert(input[k as int].0 == key@);
                assert(!keys_distinct(input));
            }
            return Err(CoveError::BadSchema(text("duplicate key in canonical map encoding")));
        }
        let ghost x = input[k as int];
        proof {
            assert(x.0 == key@);
            // every key already placed differs from the new one
            assert forall|p: int| 0 <= p < cur.len() implies #[trigger] cur[p].0 != key@ by {
                if p < q {
                    crate::collation::lemma_lex_reflexive(key@);
                } else {
                    lemma_lex_equal(key@, cur[q as int].0);
                    lemma_lex_antisymmetric(key@, cur[q as int].0);
                    crate::collation::lemma_lex_reflexive(key@);
                    if p > q {
                        assert(lex_order(cur[q as int].0, cur[p].0) == Ordering3::Less);
                        if lex_order(key@, cur[q as int].0) == Ordering3::Less {
                            lemma_lex_transitive(key@, cur[q as int].0, cur[p].0);
                        }
                    }
                }
            }
            assert forall|i: int, j: int| 0 <= i < j < k + 1 implies #[trigger] input.take(
                k + 1,
            )[i].0 != #[trigger] input.take(k + 1)[j].0 by {
                if j == k {
                    let e = input[i];
                    assert(input.take(k as int)[i] == e);
                    assert(input.take(k as int).contains(e));
                    vstd::seq_lib::to_multiset_contains(cur, e);
                    vstd::seq_lib::to_multiset_contains(input.take(k as int), e);
                    assert(cur.to_multiset().count(e) > 0);
                    assert(cur.contains(e));
                    let p = choose|p: int| 0 <= p < cur.len() && cur[p] == e;
                    assert(cur[p].0 != key@);
                } else {
                    assert(input.take(k as int)[i] == input.take(k + 1)[i]);
                    assert(input.take(k as int)[j] == input.take(k + 1)[j]);
                }
            }
        }
        let entry = (slice_to_vec(entries[k].0.as_slice()), slice_to_vec(entries[k].1.as_slice()));
        out.insert(q, entry);
        proof {
            let next = entries_view(out@);
            assert(next =~= cur.insert(q as int, x));
            assert(input.take(k + 1) =~= input.take(k as int).push(x));
            vstd::seq_lib::to_multiset_insert(cur, q as int, x);
            vstd::seq_lib::to_multiset_build(input.take(k as int), x);
            assert forall|i: int, j: int| 0 <= i < j < next.len() implies lex_order(
                #[trigger] next[i].0,
                #[trigger] next[j].0,
            ) == Ordering3::Less by {
                lemma_lex_equal(key@, cur[q as int].0);
                if i < q && j == q {
                    lemma_lex_antisymmetric(key@, cur[i].0);
                } else if i < q && j > q {
                    assert(lex_order(cur[i].0, cur[j - 1].0) == Ordering3::Less);
                } else if i == q && j > q {
                    if j - 1 > q {
                        assert(lex_order(cur[q as int].0, cur[j - 1].0) == Ordering3::Less);
                        lemma_lex_transitive(key@, cur[q as int].0, cur[j - 1].0);
                    }
                } else if i > q {
                    assert(lex_order(cur[i - 1].0, cur[j - 1].0) == Ordering3::Less);
                } else {
                    assert(lex_order(cur[i].0, cur[j].0) == Ordering3::Less);
                }
            }
        }
        k = k + 1;
    }
    proof {
        assert(input.take(entries@.len() as int) =~= input);
    }
    Ok(out)
}

/// Two key-ascending arrangements of the same entries are the same: the
/// canonical order of a map does not depend on the order its entries came
/// in.
pub proof fn lemma_canonical_order_unique(a: Seq<(Seq<u8>, Seq<u8>)>, b: Seq<(Seq<u8>, Seq<u8>)>)
    requires
        keys_ascending(a),
        keys_ascending(b),
        a.to_multiset() == b.to_multiset(),
    ensures
        a == b,
    decreases a.len(),
{
    broadcast use vstd::seq_lib::group_to_multiset_ensures;

    vstd::seq_lib::to_multiset_len(a);
    vstd::seq_lib::to_multiset_len(b);
    if a.len() == 0 {
        assert(b.len() == 0);
        assert(a =~= b);
    } else {
        let x = a[0];
        let y = b[0];
        assert(a.contains(x));
        vstd::seq_lib::to_multiset_contains(a, x);
        vstd::seq_lib::to_multiset_contains(b, x);
        let j = choose|j: int| 0 <= j < b.len() && b[j] == x;
        assert(b.contains(y));
        vstd::seq_lib::to_multiset_contains(b, y);
        vstd::seq_lib::to_multiset_contains(a, y);
        let i = choose|i: int| 0 <= i < a.len() && a[i] == y;
        crate::collation::lemma_lex_reflexive(x.0);
        crate::collation::lemma_lex_reflexive(y.0);
        if j > 0 {
            assert(lex_order(y.0, x.0) == Ordering3::Less);
            if i > 0 {
                assert(lex_order(x.0, y.0) == Ordering3::Less);
                lemma_lex_antisymmetric(x.0, y.0);
            }
            assert(false);
        }
        assert(x == y);
        vstd::seq_lib::to_multiset_remove(a, 0);
        vstd::seq_lib::to_multiset_remove(b, 0);
        assert(a.remove(0) =~= a.drop_first());
        assert(b.remove(0) =~= b.drop_first());
        lemma_canonical_order_unique(a.drop_first(), b.drop_first());
        assert(a =~= seq![x] + a.drop_first());
        assert(b =~= seq![y] + b.drop_first());
    }
}

/// The key-ascending arrangement of a map's entries.
pub open spec fn spec_canonical_order(es: Seq<(Seq<u8>, Seq<u8>)>) -> Seq<(Seq<u8>, Seq<u8>)> {
    choose|o: Seq<(Seq<u8>, Seq<u8>)>| keys_ascending(o) && o.to_multiset() == es.to_multiset()
}

/// The entries' bytes one after another: each key, then its value.
pub open spec fn spec_entries_bytes(es: Seq<(Seq<u8>, Seq<u8>)>) -> Seq<u8>
    decreases es.len(),
{
    if es.len() == 0 {
        Seq::empty()
    } else {
        spec_entries_bytes(es.drop_last()) + es.last().0 + es.last().1
    }
}

/// The tag that says which kind of logical value a canonical payload holds.
/// Smaller integer widths share the `Int64` and `UInt64` tags.
#[derive(Debug, Clone, Copy, PartialEq, Eq, Hash, Structural)]
pub enum ValueTag {
    Null,
    BoolFalse,
    BoolTrue,
    Int64,
    UInt64,
    Float32Bits,
    Float64Bits,
    Decimal64,
    Decimal128,
    DateDays,
    TimestampMicros,
    TimestampNanos,
    Utf8,
    Binary,
    Json,
    Uuid,
    List,
    Struct,
    MapEntries,
}

/// The number a value tag is written as.
pub open spec fn spec_tag_code(t: ValueTag) -> u16 {
    match t {
        ValueTag::Null => 0,
        ValueTag::BoolFalse => 1,
        ValueTag::BoolTrue => 2,
        ValueTag::Int64 => 3,
        ValueTag::UInt64 => 4,
        ValueTag::Float32Bits => 5,
        ValueTag::Float64Bits => 6,
        ValueTag::Decimal64 => 7,
        ValueTag::Decimal128 => 8,
        ValueTag::DateDays => 9,
        ValueTag::TimestampMicros => 10,
        ValueTag::TimestampNanos => 11,
        ValueTag::Utf8 => 12,
        ValueTag::Binary => 13,
        ValueTag::Json => 14,
        ValueTag::Uuid => 15,
        ValueTag::List => 16,
        ValueTag::Struct => 17,
        ValueTag::MapEntries => 18,
    }
}

impl ValueTag {
    /// The number this tag is written as.
    pub fn code(self) -> (res: u16)
        ensures
            res == spec_tag_code(self),
    {
        match self {
            ValueTag::Null => 0,
            ValueTag::BoolFalse => 1,
            ValueTag::BoolTrue => 2,
            ValueTag::Int64 => 3,
            ValueTag::UInt64 => 4,
            ValueTag::Float32Bits => 5,
            ValueTag::Float64Bits => 6,
            ValueTag::Decimal64 => 7,
            ValueTag::Decimal128 => 8,
            ValueTag::DateDays => 9,
            ValueTag::TimestampMicros => 10,
            ValueTag::TimestampNanos => 11,
            ValueTag::Utf8 => 12,
            ValueTag::Binary => 13,
            ValueTag::Json => 14,
            ValueTag::Uuid => 15,
            ValueTag::List => 16,
            ValueTag::Struct => 17,
            ValueTag::MapEntries => 18,
        }
    }
}

/// A struct field of a canonical value: its field id and its value.
pub struct CanonicalField {
    pub field_id: u64,
    pub value: CanonicalValue,
}

/// A logical value in the form whose canonical bytes are its identity for
/// dictionary equality and trust-chain hashing. Floats are held as their
/// IEEE 754 bit patterns.
pub enum CanonicalValue {
    Null,
    Bool(bool),
    /// A signed integer declared `width` bytes wide.
    Int { width: u8, value: i128 },
    /// An unsigned integer declared `width` bytes wide.
    Uint { width: u8, value: u128 },
    Float32Bits(u32),
    Float64Bits(u64),
    Decimal64(i64),
    Decimal128(i128),
    DateDays(i32),
    TimestampMicros(i64),
    TimestampNanos(i64),
    Uuid([u8; 16]),
    Utf8(String),
    Bytes(Vec<u8>),
    Json(String),
    List(Vec<CanonicalValue>),
    Struct(Vec<CanonicalField>),
    /// Key/value entries of a map.
    MapEntries(Vec<(CanonicalValue, CanonicalValue)>),
}

/// The tag of a value.
pub open spec fn spec_value_tag(v: CanonicalValue) -> ValueTag {
    match v {
        CanonicalValue::Null => ValueTag::Null,
        CanonicalValue::Bool(b) => if b {
            ValueTag::BoolTrue
        } else {
            ValueTag::BoolFalse
        },
        CanonicalValue::Int { .. } => ValueTag::Int64,
        CanonicalValue::Uint { .. } => ValueTag::UInt64,
        CanonicalValue::Float32Bits(_) => ValueTag::Float32Bits,
        CanonicalValue::Float64Bits(_) => ValueTag::Float64Bits,
        CanonicalValue::Decimal64(_) => ValueTag::Decimal64,
        CanonicalValue::Decimal128(_) => ValueTag::Decimal128,
        CanonicalValue::DateDays(_) => ValueTag::DateDays,
        CanonicalValue::TimestampMicros(_) => ValueTag::TimestampMicros,
        CanonicalValue::TimestampNanos(_) => ValueTag::TimestampNanos,
        CanonicalValue::Uuid(_) => ValueTag::Uuid,
        CanonicalValue::Utf8(_) => ValueTag::Utf8,
        CanonicalValue::Bytes(_) => ValueTag::Binary,
        CanonicalValue::Json(_) => ValueTag::Json,
        CanonicalValue::List(_) => ValueTag::List,
        CanonicalValue::Struct(_) => ValueTag::Struct,
        CanonicalValue::MapEntries(_) => ValueTag::MapEntries,
    }
}

/// Whether a value may be a map key: anything but a list, struct or map.
pub open spec fn spec_is_scalar_key(v: CanonicalValue) -> bool {
    !(v is List || v is Struct || v is MapEntries)
}

/// The LEB128 form of a value's tag.
pub open spec fn tag_bytes(v: CanonicalValue) -> Seq<u8> {
    spec_leb_encode(spec_tag_code(spec_value_tag(v)) as nat)
}

/// Bytes behind their LEB128 length.
pub open spec fn prefixed(b: Seq<u8>) -> Seq<u8> {
    spec_leb_encode(b.len()) + b
}

/// The field ids of a run of fields.
pub open spec fn field_ids(fs: Seq<CanonicalField>) -> Seq<u64> {
    fs.map_values(|f: CanonicalField| f.field_id)
}

/// Whether no two fields share an id.
pub open spec fn ids_distinct(ids: Seq<u64>) -> bool {
    forall|i: int, j: int| 0 <= i < j < ids.len() ==> #[trigger] ids[i] != #[trigger] ids[j]
}

/// The first position from `p` in `order` whose id is not below `x`.
pub open spec fn id_slot(order: Seq<int>, ids: Seq<u64>, x: u64, p: int) -> int
    decreases order.len() - p,
{
    if p < 0 || p >= order.len() || ids[order[p]] >= x {
        p
    } else {
        id_slot(order, ids, x, p + 1)
    }
}

/// The positions `0..n` of fields in ascending id order, each placed before
/// the first already placed position whose id is not smaller.
pub open spec fn id_order(ids: Seq<u64>, n: int) -> Seq<int>
    decreases n,
{
    if n <= 0 {
        Seq::empty()
    } else {
        let prev = id_order(ids, n - 1);
        prev.insert(id_slot(prev, ids, ids[n - 1], 0), n - 1)
    }
}

/// The canonical bytes of a value: nothing for null and booleans (the tag
/// says all); integers as eight little-endian bytes after a range check
/// against their declared width (`BadSection` otherwise); floats as their
/// bit patterns, decimals, dates and timestamps little-endian; a UUID's
/// sixteen bytes; text and bytes behind their LEB128 length; lists, structs
/// and maps as their canonical forms.
pub open spec fn spec_encode(v: CanonicalValue) -> Result<Seq<u8>, ErrorCode>
    decreases v, 0int,
{
    match v {
        CanonicalValue::Null => Ok(Seq::empty()),
        CanonicalValue::Bool(_) => Ok(Seq::empty()),
        CanonicalValue::Int { width, value } => match signed_range(width) {
            Some((lo, hi)) => if lo <= value <= hi {
                Ok(u64_le_bytes((value as i64) as u64))
            } else {
                Err(ErrorCode::BadSection)
            },
            None => Err(ErrorCode::BadSection),
        },
        CanonicalValue::Uint { width, value } => match unsigned_max(width) {
            Some(hi) => if value <= hi {
                Ok(u64_le_bytes(value as u64))
            } else {
                Err(ErrorCode::BadSection)
            },
            None => Err(ErrorCode::BadSection),
        },
        CanonicalValue::Float32Bits(b) => Ok(u32_le_bytes(b)),
        CanonicalValue::Float64Bits(b) => Ok(u64_le_bytes(b)),
        CanonicalValue::Decimal64(x) => Ok(u64_le_bytes(x as u64)),
        CanonicalValue::Decimal128(x) => Ok(decimal_le(x)),
        CanonicalValue::DateDays(x) => Ok(u32_le_bytes(x as u32)),
        CanonicalValue::TimestampMicros(x) => Ok(u64_le_bytes(x as u64)),
        CanonicalValue::TimestampNanos(x) => Ok(u64_le_bytes(x as u64)),
        CanonicalValue::Uuid(a) => Ok(a@),
        CanonicalValue::Utf8(s) => Ok(prefixed(encode_utf8(s@))),
        CanonicalValue::Bytes(b) => Ok(prefixed(b@)),
        CanonicalValue::Json(s) => Ok(prefixed(encode_utf8(s@))),
        CanonicalValue::List(es) => {
            proof {
                assert(decreases_to!(es => es@));
            }
            spec_list(es@)
        },
        CanonicalValue::Struct(fs) => {
            proof {
                assert(decreases_to!(fs => fs@));
            }
            spec_struct(fs@)
        },
        CanonicalValue::MapEntries(es) => {
            proof {
                assert(decreases_to!(es => es@));
            }
            spec_map(es@)
        },
    }
}

/// The tagged form of a value: its LEB128 tag, then its canonical bytes.
pub open spec fn spec_tagged(v: CanonicalValue) -> Result<Seq<u8>, ErrorCode> {
    match spec_encode(v) {
        Ok(b) => Ok(tag_bytes(v) + b),
        Err(e) => Err(e),
    }
}

/// The tagged forms of the first `k` elements, one after another, or the
/// first error.
pub open spec fn spec_list_items(es: Seq<CanonicalValue>, k: int) -> Result<Seq<u8>, ErrorCode>
    decreases es, k,
{
    if k <= 0 || k > es.len() {
        Ok(Seq::empty())
    } else {
        match spec_list_items(es, k - 1) {
            Err(e) => Err(e),
            Ok(prev) => {
                proof {
                    assert(decreases_to!(es => es[k - 1]));
                }
                match spec_encode(es[k - 1]) {
                    Err(e) => Err(e),
                    Ok(b) => Ok(prev + tag_bytes(es[k - 1]) + b),
                }
            },
        }
    }
}

/// The canonical form of a list: its LEB128 element count, then each
/// element's tagged form.
pub open spec fn spec_list(es: Seq<CanonicalValue>) -> Result<Seq<u8>, ErrorCode>
    decreases es, es.len() + 1,
{
    match spec_list_items(es, es.len() as int) {
        Ok(body) => Ok(spec_leb_encode(es.len()) + body),
        Err(e) => Err(e),
    }
}

/// The fields at the first `k` positions of `order`, each as its LEB128 id
/// then its value's tagged form, or the first error.
pub open spec fn spec_struct_items(fs: Seq<CanonicalField>, order: Seq<int>, k: int) -> Result<
    Seq<u8>,
    ErrorCode,
>
    decreases fs, k,
{
    if k <= 0 || k > order.len() {
        Ok(Seq::empty())
    } else {
        match spec_struct_items(fs, order, k - 1) {
            Err(e) => Err(e),
            Ok(prev) => {
                let j = order[k - 1];
                if 0 <= j < fs.len() {
                    proof {
                        assert(decreases_to!(fs => fs[j]));
                        assert(decreases_to!(fs[j] => fs[j].value));
                    }
                    match spec_encode(fs[j].value) {
                        Err(e) => Err(e),
                        Ok(b) => Ok(
                            prev + spec_leb_encode(fs[j].field_id as nat) + tag_bytes(fs[j].value)
                                + b,
                        ),
                    }
                } else {
                    Err(ErrorCode::BadSchema)
                }
            },
        }
    }
}

/// The canonical form of a struct: two fields with the same id are
/// `BadSchema`; otherwise the LEB128 field count, then the fields in
/// ascending id order, each as its LEB128 id and its value's tagged form.
pub open spec fn spec_struct(fs: Seq<CanonicalField>) -> Result<Seq<u8>, ErrorCode>
    decreases fs, fs.len() + 1,
{
    if !ids_distinct(field_ids(fs)) {
        Err(ErrorCode::BadSchema)
    } else {
        let order = id_order(field_ids(fs), fs.len() as int);
        match spec_struct_items(fs, order, fs.len() as int) {
            Ok(body) => Ok(spec_leb_encode(fs.len()) + body),
            Err(e) => Err(e),
        }
    }
}

/// The tagged key and value of the first `k` map entries, in order: a key
/// that is a list, struct or map is `BadSchema`; otherwise the first error
/// encoding a key, then its value.
pub open spec fn spec_map_pairs(es: Seq<(CanonicalValue, CanonicalValue)>, k: int) -> Result<
    Seq<(Seq<u8>, Seq<u8>)>,
    ErrorCode,
>
    decreases es, k,
{
    if k <= 0 || k > es.len() {
        Ok(Seq::empty())
    } else {
        match spec_map_pairs(es, k - 1) {
            Err(e) => Err(e),
            Ok(prev) => {
                let e = es[k - 1];
                proof {
                    assert(decreases_to!(es => es[k - 1]));
                    assert(decreases_to!(es[k - 1] => es[k - 1].0));
                    assert(decreases_to!(es[k - 1] => es[k - 1].1));
                }
                if !spec_is_scalar_key(e.0) {
                    Err(ErrorCode::BadSchema)
                } else {
                    match spec_encode(e.0) {
                        Err(x) => Err(x),
                        Ok(kb) => match spec_encode(e.1) {
                            Err(x) => Err(x),
                            Ok(vb) => Ok(prev.push((tag_bytes(e.0) + kb, tag_bytes(e.1) + vb))),
                        },
                    }
                }
            },
        }
    }
}

/// The canonical entries of a map: the tagged key and value of each entry,
/// in ascending key order; two keys whose tagged forms are equal are
/// `BadSchema`.
pub open spec fn spec_map_entries(es: Seq<(CanonicalValue, CanonicalValue)>) -> Result<
    Seq<(Seq<u8>, Seq<u8>)>,
    ErrorCode,
>
    decreases es, es.len() + 1,
{
    match spec_map_pairs(es, es.len() as int) {
        Err(e) => Err(e),
        Ok(pairs) => if !keys_distinct(pairs) {
            Err(ErrorCode::BadSchema)
        } else {
            Ok(spec_canonical_order(pairs))
        },
    }
}

/// The canonical form of a map: its LEB128 entry count, then its canonical
/// entries, each key followed by its value.
pub open spec fn spec_map(es: Seq<(CanonicalValue, CanonicalValue)>) -> Result<Seq<u8>, ErrorCode>
    decreases es, es.len() + 2,
{
    match spec_map_entries(es) {
        Err(e) => Err(e),
        Ok(sorted) => Ok(spec_leb_encode(es.len()) + spec_entries_bytes(sorted)),
    }
}


impl CanonicalValue {
    /// The tag describing this value's logical kind (see [`spec_value_tag`]).
    pub fn value_tag(&self) -> (res: ValueTag)
        ensures
            res == spec_value_tag(*self),
    {
        match self {
            CanonicalValue::Null => ValueTag::Null,
            CanonicalValue::Bool(b) => if *b {
                ValueTag::BoolTrue
            } else {
                ValueTag::BoolFalse
            },
            CanonicalValue::Int { .. } => ValueTag::Int64,
            CanonicalValue::Uint { .. } => ValueTag::UInt64,
            CanonicalValue::Float32Bits(_) => ValueTag::Float32Bits,
            CanonicalValue::Float64Bits(_) => ValueTag::Float64Bits,
            CanonicalValue::Decimal64(_) => ValueTag::Decimal64,
            CanonicalValue::Decimal128(_) => ValueTag::Decimal128,
            CanonicalValue::DateDays(_) => ValueTag::DateDays,
            CanonicalValue::TimestampMicros(_) => ValueTag::TimestampMicros,
            CanonicalValue::TimestampNanos(_) => ValueTag::TimestampNanos,
            CanonicalValue::Uuid(_) => ValueTag::Uuid,
            CanonicalValue::Utf8(_) => ValueTag::Utf8,
            CanonicalValue::Bytes(_) => ValueTag::Binary,
            CanonicalValue::Json(_) => ValueTag::Json,
            CanonicalValue::List(_) => ValueTag::List,
            CanonicalValue::Struct(_) => ValueTag::Struct,
            CanonicalValue::MapEntries(_) => ValueTag::MapEntries,
        }
    }

    /// Whether this value may be a map key (see [`spec_is_scalar_key`]).
    pub fn is_scalar_key(&self) -> (res: bool)
        ensures
            res == spec_is_scalar_key(*self),
    {
        match self {
            CanonicalValue::List(_) | CanonicalValue::Struct(_) | CanonicalValue::MapEntries(
                _,
            ) => false,
            _ => true,
        }
    }

    /// The canonical bytes of this value (see [`spec_encode`]).
    pub fn encode(&self) -> (res: Result<Vec<u8>, CoveError>)
        ensures
            match spec_encode(*self) {
                Ok(b) => (res matches Ok(r) && r@ == b),
                Err(c) => fails_with(res, c),
            },
        decreases *self, 0int,
    {
        match self {
            CanonicalValue::Null => Ok(Vec::new()),
            CanonicalValue::Bool(_) => Ok(Vec::new()),
            CanonicalValue::Int { width, value } => encode_i64_width(*width, *value),
            CanonicalValue::Uint { width, value } => encode_u64_width(*width, *value),
            CanonicalValue::Float32Bits(b) => {
                let mut out: Vec<u8> = Vec::new();
                push_u32_le(&mut out, *b);
                Ok(out)
            },
            CanonicalValue::Float64Bits(b) => {
                let mut out: Vec<u8> = Vec::new();
                push_u64_le(&mut out, *b);
                Ok(out)
            },
            CanonicalValue::Decimal64(x) => {
                let mut out: Vec<u8> = Vec::new();
                push_u64_le(&mut out, *x as u64);
                Ok(out)
            },
            CanonicalValue::Decimal128(x) => Ok(decimal_bytes(*x)),
            CanonicalValue::DateDays(x) => {
                let mut out: Vec<u8> = Vec::new();
                push_u32_le(&mut out, *x as u32);
                Ok(out)
            },
            CanonicalValue::TimestampMicros(x) => {
                let mut out: Vec<u8> = Vec::new();
                push_u64_le(&mut out, *x as u64);
                Ok(out)
            },
            CanonicalValue::TimestampNanos(x) => {
                let mut out: Vec<u8> = Vec::new();
                push_u64_le(&mut out, *x as u64);
                Ok(out)
            },
            CanonicalValue::Uuid(a) => Ok(slice_to_vec(a.as_slice())),
            CanonicalValue::Utf8(s) => Ok(length_prefixed(s.as_str().as_bytes())),
            CanonicalValue::Bytes(b) => Ok(length_prefixed(b.as_slice())),
            CanonicalValue::Json(s) => Ok(length_prefixed(s.as_str().as_bytes())),
            CanonicalValue::List(es) => {
                proof {
                    assert(decreases_to!(*self => *es));
                    assert(decreases_to!(*es => es@));
                }
                canonicalize_list(es.as_slice())
            },
            CanonicalValue::Struct(fs) => {
                proof {
                    assert(decreases_to!(*self => *fs));
                    assert(decreases_to!(*fs => fs@));
                }
                canonicalize_struct(fs.as_slice())
            },
            CanonicalValue::MapEntries(es) => {
                proof {
                    assert(decreases_to!(*self => *es));
                    assert(decreases_to!(*es => es@));
                }
                canonicalize_map(es.as_slice())
            },
        }
    }

    /// The tagged form of this value (see [`spec_tagged`]).
    pub fn encode_tagged(&self) -> (res: Result<Vec<u8>, CoveError>)
        ensures
            match spec_tagged(*self) {
                Ok(b) => (res matches Ok(r) && r@ == b),
                Err(c) => fails_with(res, c),
            },
        decreases *self, 1int,
    {
        let body = match self.encode() {
            Ok(b) => b,
            Err(e) => return Err(e),
        };
        let mut out = encode_u64_leb128(self.value_tag().code() as u64);
        append_bytes(&mut out, body.as_slice());
        Ok(out)
    }
}

/// The canonical form of a list (see [`spec_list`]).
pub fn canonicalize_list(elements: &[CanonicalValue]) -> (res: Result<Vec<u8>, CoveError>)
    ensures
        match spec_list(elements@) {
            Ok(b) => (res matches Ok(r) && r@ == b),
            Err(c) => fails_with(res, c),
        },
    decreases elements@, elements@.len() + 1,
{
    let mut out = encode_u64_leb128(elements.len() as u64);
    let ghost head = out@;
    let mut k: usize = 0;
    while k < elements.len()
        invariant
            k <= elements@.len(),
            head == spec_leb_encode(elements@.len()),
            spec_list_items(elements@, k as int) matches Ok(body) && out@ == head + body,
        decreases elements@.len() - k,
    {
        proof {
            assert(decreases_to!(elements@ => elements@[k as int]));
        }
        let t = match elements[k].encode_tagged() {
            Ok(t) => t,
            Err(e) => {
                proof {
                    lemma_list_error_sticks(elements@, k + 1, elements@.len() as int);
                }
                return Err(e);
            },
        };
        let ghost before = out@;
        append_bytes(&mut out, t.as_slice());
        proof {
            assert(out@ =~= before + t@);
        }
        k = k + 1;
    }
    Ok(out)
}

proof fn lemma_list_error_sticks(es: Seq<CanonicalValue>, j: int, m: int)
    requires
        0 <= j <= m <= es.len(),
        spec_list_items(es, j) is Err,
    ensures
        spec_list_items(es, m) == spec_list_items(es, j),
    decreases m - j,
{
    if m > j {
        lemma_list_error_sticks(es, j, m - 1);
    }
}

proof fn lemma_struct_error_sticks(fs: Seq<CanonicalField>, order: Seq<int>, j: int, m: int)
    requires
        0 <= j <= m <= order.len(),
        spec_struct_items(fs, order, j) is Err,
    ensures
        spec_struct_items(fs, order, m) == spec_struct_items(fs, order, j),
    decreases m - j,
{
    if m > j {
        lemma_struct_error_sticks(fs, order, j, m - 1);
    }
}

proof fn lemma_pairs_error_sticks(es: Seq<(CanonicalValue, CanonicalValue)>, j: int, m: int)
    requires
        0 <= j <= m <= es.len(),
        spec_map_pairs(es, j) is Err,
    ensures
        spec_map_pairs(es, m) == spec_map_pairs(es, j),
    decreases m - j,
{
    if m > j {
        lemma_pairs_error_sticks(es, j, m - 1);
    }
}

/// Whether no two fields share an id.
fn field_ids_distinct(fields: &[CanonicalField]) -> (res: bool)
    ensures
        res == ids_distinct(field_ids(fields@)),
{
    let ghost ids = field_ids(fields@);
    let mut b: usize = 0;
    while b < fields.len()
        invariant
            ids == field_ids(fields@),
            b <= fields@.len(),
            forall|i: int, j: int| 0 <= i < j < b ==> #[trigger] ids[i] != #[trigger] ids[j],
        decreases fields@.len() - b,
    {
        let mut a: usize = 0;
        while a < b
            invariant
                ids == field_ids(fields@),
                b < fields@.len(),
                a <= b,
                forall|i: int, j: int| 0 <= i < j < b ==> #[trigger] ids[i] != #[trigger] ids[j],
                forall|i: int| 0 <= i < a ==> #[trigger] ids[i] != ids[b as int],
            decreases b - a,
        {
            if fields[a].field_id == fields[b].field_id {
                assert(ids[a as int] == ids[b as int]);
                return false;
            }
            a = a + 1;
        }
        b = b + 1;
    }
    true
}

proof fn lemma_id_order_len(ids: Seq<u64>, n: int)
    requires
        n >= 0,
    ensures
        id_order(ids, n).len() == n,
    decreases n,
{
    if n > 0 {
        lemma_id_order_len(ids, n - 1);
        lemma_id_slot_range(id_order(ids, n - 1), ids, ids[n - 1], 0);
    }
}

proof fn lemma_id_slot_range(order: Seq<int>, ids: Seq<u64>, x: u64, p: int)
    requires
        0 <= p <= order.len(),
    ensures
        p <= id_slot(order, ids, x, p) <= order.len(),
    decreases order.len() - p,
{
    if p < order.len() && ids[order[p]] < x {
        lemma_id_slot_range(order, ids, x, p + 1);
    }
}

proof fn lemma_id_slot_bounds(order: Seq<int>, ids: Seq<u64>, x: u64, p: int)
    requires
        0 <= p <= order.len(),
        forall|k: int| 0 <= k < order.len() ==> 0 <= #[trigger] order[k] < ids.len(),
    ensures
        forall|k: int| p <= k < id_slot(order, ids, x, p) ==> ids[#[trigger] order[k]] < x,
        id_slot(order, ids, x, p) < order.len() ==> ids[order[id_slot(order, ids, x, p)]] >= x,
    decreases order.len() - p,
{
    if p < order.len() && ids[order[p]] < x {
        lemma_id_slot_bounds(order, ids, x, p + 1);
    }
}

/// With distinct ids, the field order lists each of the positions `0..n`
/// once, in strictly ascending id order: a struct's fields are written
/// sorted by id.
pub proof fn lemma_id_order_sorted(ids: Seq<u64>, n: int)
    requires
        0 <= n <= ids.len(),
        ids_distinct(ids),
    ensures
        id_order(ids, n).len() == n,
        forall|k: int| 0 <= k < n ==> 0 <= #[trigger] id_order(ids, n)[k] < n,
        forall|a: int, b: int|
            0 <= a < b < n ==> ids[#[trigger] id_order(ids, n)[a]] < ids[#[trigger] id_order(ids, n)[b]],
    decreases n,
{
    lemma_id_order_len(ids, n);
    if n > 0 {
        let prev = id_order(ids, n - 1);
        lemma_id_order_sorted(ids, n - 1);
        let x = ids[n - 1];
        lemma_id_slot_range(prev, ids, x, 0);
        lemma_id_slot_bounds(prev, ids, x, 0);
        let q = id_slot(prev, ids, x, 0);
        let now = prev.insert(q, n - 1);
        assert(now == id_order(ids, n));
        if q < prev.len() {
            assert(prev[q] != n - 1);
            assert(ids[prev[q]] != x);
        }
        assert forall|k: int| 0 <= k < n implies 0 <= #[trigger] now[k] < n by {
            if k < q {
                assert(now[k] == prev[k]);
            } else if k > q {
                assert(now[k] == prev[k - 1]);
            }
        }
        assert forall|a: int, b: int| 0 <= a < b < n implies ids[#[trigger] now[a]] < ids[#[trigger] now[b]] by {
            if b < q {
                assert(now[a] == prev[a] && now[b] == prev[b]);
            } else if b == q {
                assert(now[a] == prev[a] && now[b] == n - 1);
            } else if a < q {
                assert(now[a] == prev[a] && now[b] == prev[b - 1]);
                if q < prev.len() {
                    assert(ids[prev[q]] > x);
                    if b - 1 > q {
                        assert(ids[prev[q]] < ids[prev[b - 1]]);
                    }
                }
            } else if a == q {
                assert(now[a] == n - 1 && now[b] == prev[b - 1]);
                assert(ids[prev[q]] > x);
                if b - 1 > q {
                    assert(ids[prev[q]] < ids[prev[b - 1]]);
                }
            } else {
                assert(now[a] == prev[a - 1] && now[b] == prev[b - 1]);
            }
        }
    }
}

/// The positions of the fields in ascending id order (see [`id_order`]).
fn field_id_order(fields: &[CanonicalField]) -> (res: Vec<usize>)
    ensures
        res@.map_values(|x: usize| x as int) == id_order(field_ids(fields@), fields@.len() as int),
        forall|k: int| 0 <= k < res@.len() ==> #[trigger] res@[k] < fields@.len(),
{
    let ghost ids = field_ids(fields@);
    let mut out: Vec<usize> = Vec::new();
    let mut j: usize = 0;
    proof {
        assert(out@.map_values(|x: usize| x as int) =~= id_order(ids, 0));
    }
    while j < fields.len()
        invariant
            ids == field_ids(fields@),
            j <= fields@.len(),
            out@.map_values(|x: usize| x as int) == id_order(ids, j as int),
            forall|k: int| 0 <= k < out@.len() ==> #[trigger] out@[k] < j,
        decreases fields@.len() - j,
    {
        let ghost prev = out@.map_values(|x: usize| x as int);
        let x = fields[j].field_id;
        let mut q: usize = 0;
        while q < out.len() && fields[out[q]].field_id < x
            invariant
                ids == field_ids(fields@),
                j < fields@.len(),
                x == ids[j as int],
                prev == out@.map_values(|y: usize| y as int),
                q <= out@.len(),
                forall|k: int| 0 <= k < out@.len() ==> #[trigger] out@[k] < j,
                id_slot(prev, ids, x, 0) == id_slot(prev, ids, x, q as int),
            decreases out@.len() - q,
        {
            assert(prev[q as int] == out@[q as int] as int);
            q = q + 1;
        }
        proof {
            if q < out@.len() {
                assert(prev[q as int] == out@[q as int] as int);
            }
            assert(id_slot(prev, ids, x, q as int) == q);
        }
        let ghost before = out@;
        out.insert(q, j);
        proof {
            assert(out@.map_values(|y: usize| y as int) =~= prev.insert(q as int, j as int));
            assert forall|k: int| 0 <= k < out@.len() implies #[trigger] out@[k] < j + 1 by {
                if k < q {
                    assert(out@[k] == before[k]);
                } else if k > q {
                    assert(out@[k] == before[k - 1]);
                }
            }
        }
        j = j + 1;
    }
    out
}

/// The canonical form of a struct (see [`spec_struct`]).
pub fn canonicalize_struct(fields: &[CanonicalField]) -> (res: Result<Vec<u8>, CoveError>)
    ensures
        match spec_struct(fields@) {
            Ok(b) => (res matches Ok(r) && r@ == b),
            Err(c) => fails_with(res, c),
        },
    decreases fields@, fields@.len() + 1,
{
    if !field_ids_distinct(fields) {
        return Err(CoveError::BadSchema(text("duplicate field_id in canonical struct")));
    }
    let order = field_id_order(fields);
    let ghost ord = order@.map_values(|x: usize| x as int);
    proof {
        lemma_id_order_len(field_ids(fields@), fields@.len() as int);
    }
    let mut out = encode_u64_leb128(fields.len() as u64);
    let ghost head = out@;
    let mut k: usize = 0;
    while k < order.len()
        invariant
            ord == order@.map_values(|x: usize| x as int),
            ord == id_order(field_ids(fields@), fields@.len() as int),
            ord.len() == fields@.len(),
            ids_distinct(field_ids(fields@)),
            forall|p: int| 0 <= p < order@.len() ==> #[trigger] order@[p] < fields@.len(),
            k <= order@.len(),
            head == spec_leb_encode(fields@.len()),
            spec_struct_items(fields@, ord, k as int) matches Ok(body) && out@ == head + body,
        decreases order@.len() - k,
    {
        let j = order[k];
        assert(ord[k as int] == j as int);
        proof {
            assert(decreases_to!(fields@ => fields@[j as int]));
            assert(decreases_to!(fields@[j as int] => fields@[j as int].value));
        }
        let t = match fields[j].value.encode_tagged() {
            Ok(t) => t,
            Err(e) => {
                proof {
                    lemma_struct_error_sticks(fields@, ord, k + 1, fields@.len() as int);
                }
                return Err(e);
            },
        };
        let ghost before = out@;
        let id = encode_u64_leb128(fields[j].field_id);
        append_bytes(&mut out, id.as_slice());
        append_bytes(&mut out, t.as_slice());
        proof {
            assert(out@ =~= before + id@ + t@);
        }
        k = k + 1;
    }
    Ok(out)
}

/// The canonical entries of a map (see [`spec_map_entries`]): each key and
/// value in tagged form, sorted by ascending key bytes.
pub fn canonicalize_map_entries(entries: &[(CanonicalValue, CanonicalValue)]) -> (res: Result<
    Vec<(Vec<u8>, Vec<u8>)>,
    CoveError,
>)
    ensures
        match spec_map_entries(entries@) {
            Ok(sorted) => (res matches Ok(out) && entries_view(out@) == sorted),
            Err(c) => fails_with(res, c),
        },
    decreases entries@, entries@.len() + 1,
{
    let mut pairs: Vec<(Vec<u8>, Vec<u8>)> = Vec::new();
    let mut i: usize = 0;
    proof {
        assert(entries_view(pairs@) =~= Seq::<(Seq<u8>, Seq<u8>)>::empty());
    }
    while i < entries.len()
        invariant
            i <= entries@.len(),
            spec_map_pairs(entries@, i as int) == Ok::<Seq<(Seq<u8>, Seq<u8>)>, ErrorCode>(
                entries_view(pairs@),
            ),
        decreases entries@.len() - i,
    {
        proof {
            assert(decreases_to!(entries@ => entries@[i as int]));
            assert(decreases_to!(entries@[i as int] => entries@[i as int].0));
            assert(decreases_to!(entries@[i as int] => entries@[i as int].1));
        }
        if !entries[i].0.is_scalar_key() {
            proof {
                lemma_pairs_error_sticks(entries@, i + 1, entries@.len() as int);
            }
            return Err(CoveError::BadSchema(text("canonical map key must be scalar")));
        }
        let kt = match entries[i].0.encode_tagged() {
            Ok(t) => t,
            Err(e) => {
                proof {
                    lemma_pairs_error_sticks(entries@, i + 1, entries@.len() as int);
                }
                return Err(e);
            },
        };
        let vt = match entries[i].1.encode_tagged() {
            Ok(t) => t,
            Err(e) => {
                proof {
                    lemma_pairs_error_sticks(entries@, i + 1, entries@.len() as int);
                }
                return Err(e);
            },
        };
        let ghost before = pairs@;
        pairs.push((kt, vt));
        proof {
            assert(entries_view(pairs@) =~= entries_view(before).push((kt@, vt@)));
        }
        i = i + 1;
    }
    let sorted = match canonical_map_order(pairs.as_slice()) {
        Ok(v) => v,
        Err(e) => return Err(e),
    };
    proof {
        broadcast use vstd::seq_lib::group_to_multiset_ensures;

        let es = entries_view(pairs@);
        let o = entries_view(sorted@);
        let c = spec_canonical_order(es);
        assert(keys_ascending(c) && c.to_multiset() == es.to_multiset());
        lemma_canonical_order_unique(c, o);
    }
    Ok(sorted)
}

/// The canonical form of a map (see [`spec_map`]).
pub fn canonicalize_map(entries: &[(CanonicalValue, CanonicalValue)]) -> (res: Result<
    Vec<u8>,
    CoveError,
>)
    ensures
        match spec_map(entries@) {
            Ok(b) => (res matches Ok(r) && r@ == b),
            Err(c) => fails_with(res, c),
        },
    decreases entries@, entries@.len() + 2,
{
    let sorted = match canonicalize_map_entries(entries) {
        Ok(v) => v,
        Err(e) => return Err(e),
    };
    let mut out = encode_u64_leb128(entries.len() as u64);
    let ghost head = out@;
    let mut k: usize = 0;
    while k < sorted.len()
        invariant
            k <= sorted@.len(),
            head == spec_leb_encode(entries@.len()),
            out@ == head + spec_entries_bytes(entries_view(sorted@).take(k as int)),
        decreases sorted@.len() - k,
    {
        append_bytes(&mut out, sorted[k].0.as_slice());
        append_bytes(&mut out, sorted[k].1.as_slice());
        proof {
            let t = entries_view(sorted@).take(k + 1);
            assert(t.drop_last() =~= entries_view(sorted@).take(k as int));
            assert(t.last() == entry_view(sorted@[k as int]));
        }
        k = k + 1;
    }
    proof {
        assert(entries_view(sorted@).take(sorted@.len() as int) =~= entries_view(sorted@));
        assert(head =~= spec_leb_encode(entries@.len()));
    }
    Ok(out)
}

proof fn lemma_u64_bytes_injective(x: u64, y: u64)
    requires
        u64_le_bytes(x) == u64_le_bytes(y),
    ensures
        x == y,
{
    let b = u64_le_bytes(x);
    assert(b.subrange(0, 8) =~= b);
    lemma_u64_roundtrip(x, b, 0);
    lemma_u64_roundtrip(y, b, 0);
}

proof fn lemma_u32_bytes_injective(x: u32, y: u32)
    requires
        u32_le_bytes(x) == u32_le_bytes(y),
    ensures
        x == y,
{
    let b = u32_le_bytes(x);
    assert(b.subrange(0, 4) =~= b);
    lemma_u32_roundtrip(x, b, 0);
    lemma_u32_roundtrip(y, b, 0);
}

proof fn lemma_i64_bits_injective(x: i64, y: i64)
    requires
        u64_le_bytes(x as u64) == u64_le_bytes(y as u64),
    ensures
        x == y,
{
    lemma_u64_bytes_injective(x as u64, y as u64);
    assert(x as u64 == y as u64 ==> x == y) by (bit_vector);
}

proof fn lemma_decimal_le_injective(x: i128, y: i128)
    requires
        decimal_le(x) == decimal_le(y),
    ensures
        x == y,
{
    let a = x as u128;
    let b = y as u128;
    assert(decimal_le(x)[0] == decimal_le(y)[0]);
    assert(decimal_le(x)[0] == (a >> 0u128) as u8 && decimal_le(y)[0] == (b >> 0u128) as u8);
    assert(decimal_le(x)[1] == decimal_le(y)[1]);
    assert(decimal_le(x)[1] == (a >> 8u128) as u8 && decimal_le(y)[1] == (b >> 8u128) as u8);
    assert(decimal_le(x)[2] == decimal_le(y)[2]);
    assert(decimal_le(x)[2] == (a >> 16u128) as u8 && decimal_le(y)[2] == (b >> 16u128) as u8);
    assert(decimal_le(x)[3] == decimal_le(y)[3]);
    assert(decimal_le(x)[3] == (a >> 24u128) as u8 && decimal_le(y)[3] == (b >> 24u128) as u8);
    assert(decimal_le(x)[4] == decimal_le(y)[4]);
    assert(decimal_le(x)[4] == (a >> 32u128) as u8 && decimal_le(y)[4] == (b >> 32u128) as u8);
    assert(decimal_le(x)[5] == decimal_le(y)[5]);
    assert(decimal_le(x)[5] == (a >> 40u128) as u8 && decimal_le(y)[5] == (b >> 40u128) as u8);
    assert(decimal_le(x)[6] == decimal_le(y)[6]);
    assert(decimal_le(x)[6] == (a >> 48u128) as u8 && decimal_le(y)[6] == (b >> 48u128) as u8);
    assert(decimal_le(x)[7] == decimal_le(y)[7]);
    assert(decimal_le(x)[7] == (a >> 56u128) as u8 && decimal_le(y)[7] == (b >> 56u128) as u8);
    assert(decimal_le(x)[8] == decimal_le(y)[8]);
    assert(decimal_le(x)[8] == (a >> 64u128) as u8 && decimal_le(y)[8] == (b >> 64u128) as u8);
    assert(decimal_le(x)[9] == decimal_le(y)[9]);
    assert(decimal_le(x)[9] == (a >> 72u128) as u8 && decimal_le(y)[9] == (b >> 72u128) as u8);
    assert(decimal_le(x)[10] == decimal_le(y)[10]);
    assert(decimal_le(x)[10] == (a >> 80u128) as u8 && decimal_le(y)[10] == (b >> 80u128) as u8);
    assert(decimal_le(x)[11] == decimal_le(y)[11]);
    assert(decimal_le(x)[11] == (a >> 88u128) as u8 && decimal_le(y)[11] == (b >> 88u128) as u8);
    assert(decimal_le(x)[12] == decimal_le(y)[12]);
    assert(decimal_le(x)[12] == (a >> 96u128) as u8 && decimal_le(y)[12] == (b >> 96u128) as u8);
    assert(decimal_le(x)[13] == decimal_le(y)[13]);
    assert(decimal_le(x)[13] == (a >> 104u128) as u8 && decimal_le(y)[13] == (b >> 104u128) as u8);
    assert(decimal_le(x)[14] == decimal_le(y)[14]);
    assert(decimal_le(x)[14] == (a >> 112u128) as u8 && decimal_le(y)[14] == (b >> 112u128) as u8);
    assert(decimal_le(x)[15] == decimal_le(y)[15]);
    assert(decimal_le(x)[15] == (a >> 120u128) as u8 && decimal_le(y)[15] == (b >> 120u128) as u8);
    assert(a == b) by (bit_vector)
        requires
            (a >> 0u128) as u8 == (b >> 0u128) as u8,
            (a >> 8u128) as u8 == (b >> 8u128) as u8,
            (a >> 16u128) as u8 == (b >> 16u128) as u8,
            (a >> 24u128) as u8 == (b >> 24u128) as u8,
            (a >> 32u128) as u8 == (b >> 32u128) as u8,
            (a >> 40u128) as u8 == (b >> 40u128) as u8,
            (a >> 48u128) as u8 == (b >> 48u128) as u8,
            (a >> 56u128) as u8 == (b >> 56u128) as u8,
            (a >> 64u128) as u8 == (b >> 64u128) as u8,
            (a >> 72u128) as u8 == (b >> 72u128) as u8,
            (a >> 80u128) as u8 == (b >> 80u128) as u8,
            (a >> 88u128) as u8 == (b >> 88u128) as u8,
            (a >> 96u128) as u8 == (b >> 96u128) as u8,
            (a >> 104u128) as u8 == (b >> 104u128) as u8,
            (a >> 112u128) as u8 == (b >> 112u128) as u8,
            (a >> 120u128) as u8 == (b >> 120u128) as u8,
    ;
    assert(x as u128 == y as u128 ==> x == y) by (bit_vector);
}

proof fn lemma_prefixed_injective(a: Seq<u8>, b: Seq<u8>)
    requires
        a.len() <= u64::MAX,
        b.len() <= u64::MAX,
        prefixed(a) == prefixed(b),
    ensures
        a == b,
{
    lemma_leb_roundtrip(a.len() as u64, a);
    lemma_leb_roundtrip(b.len() as u64, b);
    let n = spec_leb_encode(a.len()).len();
    assert(prefixed(a).subrange(n as int, prefixed(a).len() as int) =~= a);
    assert(prefixed(b).subrange(n as int, prefixed(b).len() as int) =~= b);
}

/// Whether the text or bytes a value carries are short enough for their
/// length to be written, as any value held in memory is.
pub open spec fn payload_fits(v: CanonicalValue) -> bool {
    match v {
        CanonicalValue::Utf8(s) => encode_utf8(s@).len() <= u64::MAX,
        CanonicalValue::Json(s) => encode_utf8(s@).len() <= u64::MAX,
        CanonicalValue::Bytes(b) => b@.len() <= u64::MAX,
        _ => true,
    }
}

/// Whether two scalar values hold the same logical value: integers by
/// value whatever their declared width, text and bytes by content, the
/// others by what they carry.
pub open spec fn same_scalar(v: CanonicalValue, w: CanonicalValue) -> bool {
    match (v, w) {
        (CanonicalValue::Null, CanonicalValue::Null) => true,
        (CanonicalValue::Bool(a), CanonicalValue::Bool(b)) => a == b,
        (CanonicalValue::Int { value: a, .. }, CanonicalValue::Int { value: b, .. }) => a == b,
        (CanonicalValue::Uint { value: a, .. }, CanonicalValue::Uint { value: b, .. }) => a == b,
        (CanonicalValue::Float32Bits(a), CanonicalValue::Float32Bits(b)) => a == b,
        (CanonicalValue::Float64Bits(a), CanonicalValue::Float64Bits(b)) => a == b,
        (CanonicalValue::Decimal64(a), CanonicalValue::Decimal64(b)) => a == b,
        (CanonicalValue::Decimal128(a), CanonicalValue::Decimal128(b)) => a == b,
        (CanonicalValue::DateDays(a), CanonicalValue::DateDays(b)) => a == b,
        (CanonicalValue::TimestampMicros(a), CanonicalValue::TimestampMicros(b)) => a == b,
        (CanonicalValue::TimestampNanos(a), CanonicalValue::TimestampNanos(b)) => a == b,
        (CanonicalValue::Uuid(a), CanonicalValue::Uuid(b)) => a@ == b@,
        (CanonicalValue::Utf8(a), CanonicalValue::Utf8(b)) => a@ == b@,
        (CanonicalValue::Bytes(a), CanonicalValue::Bytes(b)) => a@ == b@,
        (CanonicalValue::Json(a), CanonicalValue::Json(b)) => a@ == b@,
        _ => false,
    }
}

/// Canonical bytes are a scalar's identity: two scalar values with the same
/// tag and the same canonical bytes hold the same logical value, so no two
/// distinct values collide.
pub proof fn lemma_scalar_encoding_injective(v: CanonicalValue, w: CanonicalValue)
    requires
        spec_is_scalar_key(v),
        spec_value_tag(v) == spec_value_tag(w),
        spec_encode(v) is Ok,
        spec_encode(v) == spec_encode(w),
        payload_fits(v),
        payload_fits(w),
    ensures
        same_scalar(v, w),
{
    match (v, w) {
        (CanonicalValue::Int { value: a, .. }, CanonicalValue::Int { value: b, .. }) => {
            lemma_i64_bits_injective(a as i64, b as i64);
        },
        (CanonicalValue::Uint { value: a, .. }, CanonicalValue::Uint { value: b, .. }) => {
            lemma_u64_bytes_injective(a as u64, b as u64);
        },
        (CanonicalValue::Float32Bits(a), CanonicalValue::Float32Bits(b)) => {
            lemma_u32_bytes_injective(a, b);
        },
        (CanonicalValue::Float64Bits(a), CanonicalValue::Float64Bits(b)) => {
            lemma_u64_bytes_injective(a, b);
        },
        (CanonicalValue::Decimal64(a), CanonicalValue::Decimal64(b)) => {
            lemma_i64_bits_injective(a, b);
        },
        (CanonicalValue::Decimal128(a), CanonicalValue::Decimal128(b)) => {
            lemma_decimal_le_injective(a, b);
        },
        (CanonicalValue::DateDays(a), CanonicalValue::DateDays(b)) => {
            lemma_u32_bytes_injective(a as u32, b as u32);
            assert(a as u32 == b as u32 ==> a == b) by (bit_vector);
        },
        (CanonicalValue::TimestampMicros(a), CanonicalValue::TimestampMicros(b)) => {
            lemma_i64_bits_injective(a, b);
        },
        (CanonicalValue::TimestampNanos(a), CanonicalValue::TimestampNanos(b)) => {
            lemma_i64_bits_injective(a, b);
        },
        (CanonicalValue::Utf8(a), CanonicalValue::Utf8(b)) => {
            lemma_prefixed_injective(encode_utf8(a@), encode_utf8(b@));
            lemma_utf8_roundtrip(a@);
            lemma_utf8_roundtrip(b@);
        },
        (CanonicalValue::Json(a), CanonicalValue::Json(b)) => {
            lemma_prefixed_injective(encode_utf8(a@), encode_utf8(b@));
            lemma_utf8_roundtrip(a@);
            lemma_utf8_roundtrip(b@);
        },
        (CanonicalValue::Bytes(a), CanonicalValue::Bytes(b)) => {
            lemma_prefixed_injective(a@, b@);
        },
        _ => {},
    }
}

/// The number of canonical bytes of a fixed-width scalar: none for null and
/// booleans, four for singles and dates, eight for integers, doubles,
/// 64-bit decimals and timestamps, sixteen for 128-bit decimals and UUIDs.
pub open spec fn fixed_scalar_len(v: CanonicalValue) -> Option<nat> {
    match v {
        CanonicalValue::Null | CanonicalValue::Bool(_) => Some(0),
        CanonicalValue::Float32Bits(_) | CanonicalValue::DateDays(_) => Some(4),
        CanonicalValue::Int { .. } | CanonicalValue::Uint { .. } | CanonicalValue::Float64Bits(_)
        | CanonicalValue::Decimal64(_) | CanonicalValue::TimestampMicros(_)
        | CanonicalValue::TimestampNanos(_) => Some(8),
        CanonicalValue::Decimal128(_) | CanonicalValue::Uuid(_) => Some(16),
        _ => None,
    }
}

/// Fixed-width scalars encode to their full width, and a value that fits
/// its declared width always encodes.
pub proof fn lemma_fixed_scalar_width(v: CanonicalValue)
    requires
        fixed_scalar_len(v) is Some,
    ensures
        spec_encode(v) matches Ok(b) ==> b.len() == fixed_scalar_len(v)->Some_0,
        !(v is Int || v is Uint) ==> spec_encode(v) is Ok,
{
}

} // verus!
