//! Page-local row selections for export: every row, an explicit list of
//! rows, or a bitset over the page (bit `i % 64` of word `i / 64` selects
//! row `i`).
use vstd::prelude::*;

use crate::error::{fails_with, CoveError, ErrorCode};

verus! {

/// Whether bit `b` of `w` is set.
pub open spec fn word_bit(w: u64, b: u64) -> bool {
    (w >> b) & 1u64 == 1u64
}

/// Whether a bitset selects row `i`; rows past the last word are not
/// selected.
pub open spec fn bitset_has(words: Seq<u64>, i: int) -> bool {
    0 <= i && i / 64 < words.len() && word_bit(words[i / 64], (i % 64) as u64)
}

/// The rows below `n` that a bitset selects, in ascending order.
pub open spec fn bitset_rows(words: Seq<u64>, n: nat) -> Seq<int>
    decreases n,
{
    if n == 0 {
        Seq::empty()
    } else if bitset_has(words, n - 1) {
        bitset_rows(words, (n - 1) as nat).push(n - 1)
    } else {
        bitset_rows(words, (n - 1) as nat)
    }
}

/// Every row of an `n`-row page, in order.
pub open spec fn every_row(n: nat) -> Seq<int> {
    Seq::new(n, |i: int| i)
}

/// Whether every listed row lies on a `row_count`-row page.
pub open spec fn rows_on_page(rows: Seq<u32>, row_count: u64) -> bool {
    forall|k: int| 0 <= k < rows.len() ==> #[trigger] rows[k] < row_count
}

/// Whether every row fits in a `u32`.
pub open spec fn all_fit_u32(rows: Seq<int>) -> bool {
    forall|k: int| 0 <= k < rows.len() ==> #[trigger] rows[k] <= u32::MAX
}

/// Whether `v` lists exactly `rows`.
pub open spec fn same_rows(v: Seq<u32>, rows: Seq<int>) -> bool {
    v.len() == rows.len() && forall|k: int| 0 <= k < rows.len() ==> #[trigger] v[k] as int == rows[k]
}

/// A row list as integers.
pub open spec fn listed_rows(rows: Seq<u32>) -> Seq<int> {
    Seq::new(rows.len(), |k: int| rows[k] as int)
}

/// Words needed for `n` one-bit rows.
pub open spec fn words_for(n: int) -> int {
    (n + 63) / 64
}

/// Whether bit `b` of `w` is set.
fn test_word_bit(w: u64, b: u64) -> (res: bool)
    requires
        b < 64,
    ensures
        res == word_bit(w, b),
{
    (w >> b) & 1 == 1
}

/// Clears the bits of the last word of a `len`-row bitset that lie past its
/// last row.
pub fn mask_selection_tail(word: u64, len: usize) -> (res: u64)
    ensures
        forall|b: u64|
            b < 64 ==> #[trigger] word_bit(res, b) == (word_bit(word, b) && (len % 64 == 0 || b
                < len % 64)),
{
    let tail = (len % 64) as u64;
    if tail == 0 {
        return word;
    }
    assert(1u64 << tail >= 1) by (bit_vector)
        requires
            0 < tail < 64,
    ;
    let mask: u64 = (1u64 << tail) - 1;
    let res = word & mask;
    assert forall|b: u64| b < 64 implies #[trigger] word_bit(res, b) == (word_bit(word, b) && b
        < tail) by {
        assert(((word & (((1u64 << tail) - 1) as u64)) >> b) & 1u64 == 1u64 <==> ((word >> b)
            & 1u64 == 1u64 && b < tail)) by (bit_vector)
            requires
                0 < tail < 64,
                b < 64,
        ;
    }
    res
}

/// Whether `words` selects `row`; rows past the last word are not selected.
pub fn bitset_row_selected(words: &[u64], row: usize) -> (res: bool)
    ensures
        res == bitset_has(words@, row as int),
{
    let idx = row / 64;
    if idx < words.len() {
        test_word_bit(words[idx], (row % 64) as u64)
    } else {
        false
    }
}

proof fn lemma_bitset_rows_props(words: Seq<u64>, n: nat)
    ensures
        bitset_rows(words, n).len() <= n,
        forall|k: int|
            0 <= k < bitset_rows(words, n).len() ==> 0 <= #[trigger] bitset_rows(words, n)[k] < n
                && bitset_has(words, bitset_rows(words, n)[k]),
        forall|k: int, j: int|
            0 <= k < j < bitset_rows(words, n).len() ==> #[trigger] bitset_rows(words, n)[k]
                < #[trigger] bitset_rows(words, n)[j],
    decreases n,
{
    if n > 0 {
        lemma_bitset_rows_props(words, (n - 1) as nat);
    }
}

/// The rows below `len` that `words` selects, in ascending order, and their
/// number.
fn bitset_collect(words: &[u64], len: usize) -> (res: Vec<usize>)
    ensures
        res@.len() == bitset_rows(words@, len as nat).len(),
        forall|k: int|
            0 <= k < res@.len() ==> #[trigger] res@[k] as int == bitset_rows(words@, len as nat)[k],
{
    let mut out: Vec<usize> = Vec::new();
    let mut i: usize = 0;
    while i < len
        invariant
            i <= len,
            out@.len() == bitset_rows(words@, i as nat).len(),
            forall|k: int|
                0 <= k < out@.len() ==> #[trigger] out@[k] as int == bitset_rows(words@, i as nat)[k],
        decreases len - i,
    {
        if bitset_row_selected(words, i) {
            out.push(i);
        }
        i = i + 1;
    }
    out
}

/// The number of rows below `len` that `words` selects.
pub fn count_bitset_rows(words: &[u64], len: usize) -> (res: Result<usize, CoveError>)
    ensures
        res == Ok::<usize, CoveError>(bitset_rows(words@, len as nat).len() as usize),
{
    proof {
        lemma_bitset_rows_props(words@, len as nat);
    }
    let mut count: usize = 0;
    let mut i: usize = 0;
    while i < len
        invariant
            i <= len,
            count == bitset_rows(words@, i as nat).len(),
        decreases len - i,
    {
        proof {
            lemma_bitset_rows_props(words@, i as nat);
        }
        if bitset_row_selected(words, i) {
            count = count + 1;
        }
        i = i + 1;
    }
    Ok(count)
}

/// The highest row below `len` that `words` selects, if any.
pub fn last_selected_bitset_row(words: &[u64], len: usize) -> (res: Option<usize>)
    ensures
        match res {
            Some(r) => r < len && bitset_has(words@, r as int) && forall|j: int|
                r < j < len ==> !#[trigger] bitset_has(words@, j),
            None => forall|j: int| 0 <= j < len ==> !#[trigger] bitset_has(words@, j),
        },
{
    let mut i: usize = len;
    while i > 0
        invariant
            i <= len,
            forall|j: int| i <= j < len ==> !#[trigger] bitset_has(words@, j),
        decreases i,
    {
        if bitset_row_selected(words, i - 1) {
            return Some(i - 1);
        }
        i = i - 1;
    }
    None
}

/// Whether `rows` lists every row of a `row_count`-row page in order.
pub fn selected_rows_are_all_rows(rows: &[u32], row_count: u64) -> (res: bool)
    ensures
        res == (rows@.len() == row_count && forall|k: int|
            0 <= k < rows@.len() ==> #[trigger] rows@[k] == k),
{
    if rows.len() as u64 != row_count {
        return false;
    }
    let mut i: usize = 0;
    while i < rows.len()
        invariant
            i <= rows@.len(),
            forall|k: int| 0 <= k < i ==> #[trigger] rows@[k] == k,
        decreases rows@.len() - i,
    {
        if rows[i] as usize != i {
            return false;
        }
        i = i + 1;
    }
    true
}

/// Page-local row selection for export. Rows are page ordinals; a bitset
/// covers exactly the page's rows.
#[derive(Debug, Clone, Copy)]
pub enum ArrowRowSelection<'a> {
    All,
    Rows(&'a [u32]),
    Bitset { words: &'a [u64], len: usize },
}

/// Checking a selection against a page of `row_count` rows.
pub open spec fn spec_validate_selection(s: ArrowRowSelection, row_count: u64) -> Result<
    (),
    ErrorCode,
> {
    match s {
        ArrowRowSelection::All => if row_count > usize::MAX {
            Err(ErrorCode::ArithOverflow)
        } else {
            Ok(())
        },
        ArrowRowSelection::Rows(rows) => if rows_on_page(rows@, row_count) {
            Ok(())
        } else {
            Err(ErrorCode::OffsetRange)
        },
        ArrowRowSelection::Bitset { words, len } => if len != row_count {
            Err(ErrorCode::OffsetRange)
        } else if words@.len() < words_for(len as int) {
            Err(ErrorCode::BufferTooShort)
        } else {
            Ok(())
        },
    }
}

/// The rows a selection visits, in visiting order, or why it cannot be
/// walked over a page of `row_count` rows.
pub open spec fn spec_selected_rows(s: ArrowRowSelection, row_count: u64) -> Result<
    Seq<int>,
    ErrorCode,
> {
    match s {
        ArrowRowSelection::All => if row_count > usize::MAX {
            Err(ErrorCode::ArithOverflow)
        } else {
            Ok(every_row(row_count as nat))
        },
        ArrowRowSelection::Rows(rows) => if rows_on_page(rows@, row_count) {
            Ok(listed_rows(rows@))
        } else {
            Err(ErrorCode::OffsetRange)
        },
        ArrowRowSelection::Bitset { words, len } => match spec_validate_selection(s, row_count) {
            Err(e) => Err(e),
            Ok(()) => Ok(bitset_rows(words@, len as nat)),
        },
    }
}

impl<'a> ArrowRowSelection<'a> {
    /// Checks the selection against a page of `row_count` rows: every listed
    /// row must lie on the page, and a bitset must cover exactly the page.
    pub fn validate_for_row_count(self, row_count: u64) -> (res: Result<(), CoveError>)
        ensures
            match spec_validate_selection(self, row_count) {
                Ok(()) => res is Ok,
                Err(c) => fails_with(res, c),
            },
    {
        match self {
            ArrowRowSelection::All => {
                if row_count > usize::MAX as u64 {
                    return Err(CoveError::ArithOverflow);
                }
                Ok(())
            },
            ArrowRowSelection::Rows(rows) => {
                let mut i: usize = 0;
                while i < rows.len()
                    invariant
                        i <= rows@.len(),
                        self == ArrowRowSelection::Rows(rows),
                        forall|k: int| 0 <= k < i ==> #[trigger] rows@[k] < row_count,
                    decreases rows@.len() - i,
                {
                    if rows[i] as u64 >= row_count {
                        assert(!rows_on_page(rows@, row_count));
                        return Err(CoveError::OffsetRange);
                    }
                    i = i + 1;
                }
                Ok(())
            },
            ArrowRowSelection::Bitset { words, len } => {
                if len as u64 != row_count {
                    return Err(CoveError::OffsetRange);
                }
                let word_len = len / 64 + if len % 64 == 0 {
                    0
                } else {
                    1
                };
                if words.len() < word_len {
                    return Err(CoveError::BufferTooShort);
                }
                Ok(())
            },
        }
    }

    /// The number of rows the selection visits; a row list is counted
    /// without being checked against the page.
    pub fn selected_len(self, row_count: u64) -> (res: Result<usize, CoveError>)
        ensures
            match self {
                ArrowRowSelection::Rows(rows) => res == Ok::<usize, CoveError>(rows@.len() as usize),
                _ => match spec_selected_rows(self, row_count) {
                    Ok(rows) => res == Ok::<usize, CoveError>(rows.len() as usize),
                    Err(c) => fails_with(res, c),
                },
            },
    {
        match self {
            ArrowRowSelection::All => {
                if row_count > usize::MAX as u64 {
                    return Err(CoveError::ArithOverflow);
                }
                Ok(row_count as usize)
            },
            ArrowRowSelection::Rows(rows) => Ok(rows.len()),
            ArrowRowSelection::Bitset { words, len } => {
                match self.validate_for_row_count(row_count) {
                    Ok(()) => {},
                    Err(e) => return Err(e),
                }
                count_bitset_rows(words, len)
            },
        }
    }

    /// Whether the selection visits every row of the page in order.
    pub fn is_all_rows(self, row_count: u64) -> (res: Result<bool, CoveError>)
        ensures
            match self {
                ArrowRowSelection::All => res == Ok::<bool, CoveError>(true),
                ArrowRowSelection::Rows(rows) => res == Ok::<bool, CoveError>(
                    rows@.len() == row_count && forall|k: int|
                        0 <= k < rows@.len() ==> #[trigger] rows@[k] == k,
                ),
                ArrowRowSelection::Bitset { words, len } => match spec_validate_selection(
                    self,
                    row_count,
                ) {
                    Ok(()) => res == Ok::<bool, CoveError>(
                        bitset_rows(words@, len as nat).len() == len,
                    ),
                    Err(c) => fails_with(res, c),
                },
            },
    {
        match self {
            ArrowRowSelection::All => Ok(true),
            ArrowRowSelection::Rows(rows) => Ok(selected_rows_are_all_rows(rows, row_count)),
            ArrowRowSelection::Bitset { words, len } => {
                match self.validate_for_row_count(row_count) {
                    Ok(()) => {},
                    Err(e) => return Err(e),
                }
                proof {
                    lemma_bitset_rows_props(words@, len as nat);
                }
                match count_bitset_rows(words, len) {
                    Ok(n) => Ok(n == len),
                    Err(e) => Err(e),
                }
            },
        }
    }

    /// The rows the selection visits, in visiting order, as page ordinals;
    /// `ArithOverflow` for a row that does not fit in `u32`.
    pub fn to_rows(self, row_count: u64) -> (res: Result<Vec<u32>, CoveError>)
        ensures
            match spec_selected_rows(self, row_count) {
                Ok(rows) => if all_fit_u32(rows) {
                    res matches Ok(v) && same_rows(v@, rows)
                } else {
                    fails_with(res, ErrorCode::ArithOverflow)
                },
                Err(c) => fails_with(res, c),
            },
    {
        match self {
            ArrowRowSelection::All => {
                if row_count > usize::MAX as u64 {
                    return Err(CoveError::ArithOverflow);
                }
                let n = row_count as usize;
                let mut out: Vec<u32> = Vec::new();
                let mut i: usize = 0;
                while i < n
                    invariant
                        i <= n,
                        n == row_count,
                        self == ArrowRowSelection::All,
                        out@.len() == i,
                        forall|k: int| 0 <= k < i ==> #[trigger] out@[k] as int == k,
                    decreases n - i,
                {
                    if i > u32::MAX as usize {
                        assert(every_row(row_count as nat)[i as int] > u32::MAX);
                        assert(!all_fit_u32(every_row(row_count as nat)));
                        return Err(CoveError::ArithOverflow);
                    }
                    out.push(i as u32);
                    i = i + 1;
                }
                assert forall|k: int| 0 <= k < n implies #[trigger] every_row(row_count as nat)[k]
                    <= u32::MAX && out@[k] as int == every_row(row_count as nat)[k] by {
                    assert(every_row(row_count as nat)[k] == k);
                    assert(out@[k] as int == k);
                }
                assert(all_fit_u32(every_row(row_count as nat)) && same_rows(
                    out@,
                    every_row(row_count as nat),
                ));
                Ok(out)
            },
            ArrowRowSelection::Rows(rows) => {
                match self.validate_for_row_count(row_count) {
                    Ok(()) => {},
                    Err(e) => return Err(e),
                }
                let mut out: Vec<u32> = Vec::new();
                let mut i: usize = 0;
                while i < rows.len()
                    invariant
                        i <= rows@.len(),
                        self == ArrowRowSelection::Rows(rows),
                        spec_validate_selection(self, row_count) is Ok,
                        out@.len() == i,
                        forall|k: int| 0 <= k < i ==> #[trigger] out@[k] == rows@[k],
                    decreases rows@.len() - i,
                {
                    out.push(rows[i]);
                    i = i + 1;
                }
                assert forall|k: int| 0 <= k < rows@.len() implies #[trigger] listed_rows(rows@)[k]
                    <= u32::MAX && out@[k] as int == listed_rows(rows@)[k] by {}
                assert(all_fit_u32(listed_rows(rows@)) && same_rows(out@, listed_rows(rows@)));
                Ok(out)
            },
            ArrowRowSelection::Bitset { words, len } => {
                match self.validate_for_row_count(row_count) {
                    Ok(()) => {},
                    Err(e) => return Err(e),
                }
                let picked = bitset_collect(words, len);
                let ghost rows = bitset_rows(words@, len as nat);
                let mut out: Vec<u32> = Vec::new();
                let mut i: usize = 0;
                while i < picked.len()
                    invariant
                        i <= picked@.len(),
                        self == (ArrowRowSelection::Bitset { words, len }),
                        spec_validate_selection(self, row_count) is Ok,
                        picked@.len() == rows.len(),
                        rows == bitset_rows(words@, len as nat),
                        forall|k: int| 0 <= k < picked@.len() ==> #[trigger] picked@[k] as int == rows[k],
                        out@.len() == i,
                        forall|k: int| 0 <= k < i ==> #[trigger] out@[k] as int == rows[k],
                    decreases picked@.len() - i,
                {
                    if picked[i] > u32::MAX as usize {
                        assert(rows[i as int] > u32::MAX);
                        assert(!all_fit_u32(rows));
                        return Err(CoveError::ArithOverflow);
                    }
                    out.push(picked[i] as u32);
                    i = i + 1;
                }
                assert forall|k: int| 0 <= k < rows.len() implies #[trigger] rows[k] <= u32::MAX
                    && out@[k] as int == rows[k] by {
                    assert(out@[k] as int == rows[k]);
                }
                assert(all_fit_u32(rows) && same_rows(out@, rows));
                Ok(out)
            },
        }
    }
}

impl<'a> ArrowRowSelection<'a> {
    /// The selected rows of a `row_count`-row page, in visiting order.
    pub fn selected_rows(self, row_count: u64) -> (res: Result<Vec<usize>, CoveError>)
        ensures
            match spec_selected_rows(self, row_count) {
                Ok(rows) => (res matches Ok(v) && v@.len() == rows.len() && forall|k: int|
                    0 <= k < rows.len() ==> #[trigger] v@[k] as int == rows[k]),
                Err(c) => fails_with(res, c),
            },
    {
        match self {
            ArrowRowSelection::All => {
                if row_count > usize::MAX as u64 {
                    return Err(CoveError::ArithOverflow);
                }
                let n = row_count as usize;
                let mut out: Vec<usize> = Vec::new();
                let mut i: usize = 0;
                while i < n
                    invariant
                        i <= n,
                        n == row_count,
                        out@.len() == i,
                        forall|k: int| 0 <= k < i ==> #[trigger] out@[k] as int == k,
                    decreases n - i,
                {
                    out.push(i);
                    i = i + 1;
                }
                Ok(out)
            },
            ArrowRowSelection::Rows(rows) => {
                match self.validate_for_row_count(row_count) {
                    Ok(()) => {},
                    Err(e) => return Err(e),
                }
                let mut out: Vec<usize> = Vec::new();
                let mut i: usize = 0;
                while i < rows.len()
                    invariant
                        i <= rows@.len(),
                        out@.len() == i,
                        forall|k: int| 0 <= k < i ==> #[trigger] out@[k] as int == rows@[k] as int,
                    decreases rows@.len() - i,
                {
                    out.push(rows[i] as usize);
                    i = i + 1;
                }
                Ok(out)
            },
            ArrowRowSelection::Bitset { words, len } => {
                match self.validate_for_row_count(row_count) {
                    Ok(()) => {},
                    Err(e) => return Err(e),
                }
                Ok(bitset_collect(words, len))
            },
        }
    }
}

/// A bitset selection visits exactly the rows it marks, in ascending order,
/// and as many rows as [`ArrowRowSelection::selected_len`] counts.
pub proof fn lemma_bitset_selection_visits_marked_rows(words: Seq<u64>, len: nat)
    ensures
        forall|k: int|
            0 <= k < bitset_rows(words, len).len() ==> bitset_has(
                words,
                #[trigger] bitset_rows(words, len)[k],
            ) && bitset_rows(words, len)[k] < len,
        forall|k: int, j: int|
            0 <= k < j < bitset_rows(words, len).len() ==> #[trigger] bitset_rows(words, len)[k]
                < #[trigger] bitset_rows(words, len)[j],
        forall|i: int| 0 <= i < len && bitset_has(words, i) ==> bitset_rows(words, len).contains(i),
    decreases len,
{
    lemma_bitset_rows_props(words, len);
    if len > 0 {
        lemma_bitset_selection_visits_marked_rows(words, (len - 1) as nat);
        let prev = bitset_rows(words, (len - 1) as nat);
        assert forall|i: int| 0 <= i < len && bitset_has(words, i) implies bitset_rows(
            words,
            len,
        ).contains(i) by {
            if i < len - 1 {
                let k = choose|k: int| 0 <= k < prev.len() && prev[k] == i;
                assert(bitset_rows(words, len)[k] == i);
            } else {
                assert(bitset_rows(words, len)[prev.len() as int] == i);
            }
        }
    }
}

/// Every row a selection visits lies on the page.
pub proof fn lemma_selected_rows_on_page(s: ArrowRowSelection, row_count: u64)
    ensures
        spec_selected_rows(s, row_count) matches Ok(rows) ==> forall|k: int|
            0 <= k < rows.len() ==> 0 <= #[trigger] rows[k] < row_count,
{
    match s {
        ArrowRowSelection::Bitset { words, len } => {
            lemma_bitset_selection_visits_marked_rows(words@, len as nat);
        },
        ArrowRowSelection::Rows(rows) => {
            if spec_selected_rows(s, row_count) is Ok {
                assert forall|k: int| 0 <= k < rows@.len() implies 0 <= #[trigger] listed_rows(
                    rows@,
                )[k] < row_count by {
                    assert(rows@[k] < row_count);
                }
            }
        },
        ArrowRowSelection::All => {},
    }
}

/// The rows a selection visits, in visiting order, before a listed row is
/// checked against the page: a bitset must still fit the page.
pub open spec fn spec_visit_rows(s: ArrowRowSelection, row_count: u64) -> Result<Seq<int>, ErrorCode> {
    match s {
        ArrowRowSelection::Rows(rows) => Ok(listed_rows(rows@)),
        _ => spec_selected_rows(s, row_count),
    }
}

impl<'a> ArrowRowSelection<'a> {
    /// The rows the selection visits, in visiting order; listed rows are
    /// returned as listed, without checking them against the page.
    pub fn visit_list(self, row_count: u64) -> (res: Result<Vec<usize>, CoveError>)
        ensures
            match spec_visit_rows(self, row_count) {
                Ok(rows) => (res matches Ok(v) && v@.len() == rows.len() && forall|k: int|
                    0 <= k < rows.len() ==> #[trigger] v@[k] as int == rows[k]),
                Err(c) => fails_with(res, c),
            },
    {
        match self {
            ArrowRowSelection::Rows(rows) => {
                let mut out: Vec<usize> = Vec::new();
                let mut i: usize = 0;
                while i < rows.len()
                    invariant
                        i <= rows@.len(),
                        out@.len() == i,
                        forall|k: int| 0 <= k < i ==> #[trigger] out@[k] as int == rows@[k] as int,
                    decreases rows@.len() - i,
                {
                    out.push(rows[i] as usize);
                    i = i + 1;
                }
                Ok(out)
            },
            _ => self.selected_rows(row_count),
        }
    }
}

} // verus!
