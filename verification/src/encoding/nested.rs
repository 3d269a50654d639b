//! Nested data layouts (List, Struct, Map).
//!
//! These structures store shape only; element values live in child arrays.
//! The validators enforce the v1 invariants: list offsets start at zero and
//! never decrease, struct fields agree on their row count, and map keys have
//! no duplicates within a single map value. Across map values the same key
//! may of course repeat.
use vstd::prelude::*;

use crate::error::{fails_with, CoveError, ErrorCode};
use crate::util::bytes_eq;

verus! {

/// List layout: `offsets` of length `row_count + 1`. Element `i` covers child
/// rows `[offsets[i], offsets[i+1])`.
#[derive(Debug, Clone, PartialEq, Eq)]
pub struct ListLayout {
    pub offsets: Vec<u32>,
}

/// Offsets that start at zero and never decrease.
pub open spec fn valid_list_offsets(o: Seq<u32>) -> bool {
    &&& o.len() > 0
    &&& o[0] == 0
    &&& forall|i: int| 0 <= i < o.len() - 1 ==> #[trigger] o[i] <= o[i + 1]
}

impl ListLayout {
    /// Checks that the offsets are non-empty, start at zero and are
    /// monotonically non-decreasing.
    pub fn validate(&self) -> (res: Result<(), CoveError>)
        ensures
            res is Ok <==> valid_list_offsets(self.offsets@),
            res is Err ==> fails_with(res, ErrorCode::PageCorrupt),
    {
        if self.offsets.len() == 0 {
            return Err(CoveError::PageCorrupt);
        }
        if self.offsets[0] != 0 {
            return Err(CoveError::PageCorrupt);
        }
        let n = self.offsets.len();
        let mut i: usize = 0;
        while i < n - 1
            invariant
                n == self.offsets@.len(),
                n > 0,
                i < n,
                forall|j: int| 0 <= j < i ==> #[trigger] self.offsets@[j] <= self.offsets@[j + 1],
            decreases self.offsets@.len() - i,
        {
            if self.offsets[i] > self.offsets[i + 1] {
                return Err(CoveError::PageCorrupt);
            }
            i = i + 1;
        }
        Ok(())
    }

    /// Number of list rows: one less than the number of offsets, or zero.
    pub fn row_count(&self) -> (res: usize)
        ensures
            res == if self.offsets@.len() == 0 {
                0
            } else {
                self.offsets@.len() - 1
            },
    {
        self.offsets.len().saturating_sub(1)
    }
}

/// In valid offsets every later offset is at least every earlier one, so each
/// list row covers a well-formed child range.
pub proof fn lemma_list_offsets_sorted(o: Seq<u32>, i: int, j: int)
    requires
        valid_list_offsets(o),
        0 <= i <= j < o.len(),
    ensures
        o[i] <= o[j],
    decreases j - i,
{
    if i < j {
        lemma_list_offsets_sorted(o, i, j - 1);
        assert(o[j - 1] <= o[j]);
    }
}

/// Struct layout: every child column reports the same `row_count`.
#[derive(Debug, Clone, PartialEq, Eq)]
pub struct StructLayout {
    pub field_row_counts: Vec<u64>,
}

impl StructLayout {
    /// Checks that there is at least one field and all fields share the
    /// first field's row count.
    pub fn validate(&self) -> (res: Result<(), CoveError>)
        ensures
            res is Ok <==> (self.field_row_counts@.len() > 0 && forall|i: int|
                0 <= i < self.field_row_counts@.len() ==> #[trigger] self.field_row_counts@[i]
                    == self.field_row_counts@[0]),
            res is Err ==> fails_with(res, ErrorCode::PageCorrupt),
    {
        if self.field_row_counts.len() == 0 {
            return Err(CoveError::PageCorrupt);
        }
        let head = self.field_row_counts[0];
        let mut i: usize = 1;
        while i < self.field_row_counts.len()
            invariant
                1 <= i <= self.field_row_counts@.len(),
                head == self.field_row_counts@[0],
                forall|j: int| 0 <= j < i ==> #[trigger] self.field_row_counts@[j] == head,
            decreases self.field_row_counts@.len() - i,
        {
            if self.field_row_counts[i] != head {
                return Err(CoveError::PageCorrupt);
            }
            i = i + 1;
        }
        Ok(())
    }
}

/// Validate that a single map value contains no duplicate keys. Keys are
/// passed as their canonical byte forms.
pub fn validate_no_duplicate_keys(keys: &[Vec<u8>]) -> (res: Result<(), CoveError>)
    ensures
        res is Ok <==> forall|i: int, j: int|
            0 <= i < j < keys@.len() ==> #[trigger] keys@[i]@ != #[trigger] keys@[j]@,
        res is Err ==> fails_with(res, ErrorCode::PageCorrupt),
{
    let mut j: usize = 0;
    while j < keys.len()
        invariant
            j <= keys@.len(),
            forall|a: int, b: int| 0 <= a < b < j ==> #[trigger] keys@[a]@ != #[trigger] keys@[b]@,
        decreases keys@.len() - j,
    {
        let mut i: usize = 0;
        while i < j
            invariant
                i <= j < keys@.len(),
                forall|a: int, b: int|
                    0 <= a < b < j ==> #[trigger] keys@[a]@ != #[trigger] keys@[b]@,
                forall|a: int| 0 <= a < i ==> #[trigger] keys@[a]@ != keys@[j as int]@,
            decreases j - i,
        {
            if bytes_eq(keys[i].as_slice(), keys[j].as_slice()) {
                return Err(CoveError::PageCorrupt);
            }
            i = i + 1;
        }
        j = j + 1;
    }
    Ok(())
}

} // verus!
