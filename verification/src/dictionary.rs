//! File dictionary values addressed by FileCode.
use vstd::prelude::*;
use vstd::slice::slice_to_vec;

use crate::error::{fails_with, CoveError, ErrorCode};

verus! {

/// A value stored in the file dictionary.
#[derive(Debug, Clone, PartialEq, Eq)]
pub enum DictionaryValue {
    /// The canonical bytes of the value.
    RawBytes(Vec<u8>),
    /// The value exists but was redacted.
    RedactedPresent,
}

/// The abstract content of a [`DictionaryValue`].
pub enum DictionaryValueView {
    RawBytes(Seq<u8>),
    RedactedPresent,
}

impl View for DictionaryValue {
    type V = DictionaryValueView;

    open spec fn view(&self) -> DictionaryValueView {
        match self {
            DictionaryValue::RawBytes(b) => DictionaryValueView::RawBytes(b@),
            DictionaryValue::RedactedPresent => DictionaryValueView::RedactedPresent,
        }
    }
}

impl DictionaryValue {
    /// A copy of this value.
    pub fn duplicate(&self) -> (res: Self)
        ensures
            res@ == self@,
    {
        match self {
            DictionaryValue::RawBytes(b) => DictionaryValue::RawBytes(slice_to_vec(b.as_slice())),
            DictionaryValue::RedactedPresent => DictionaryValue::RedactedPresent,
        }
    }
}

/// The file dictionary: the value of FileCode `c` is entry `c`.
#[derive(Debug, Clone, PartialEq, Eq)]
pub struct FileDictionary {
    pub entries: Vec<DictionaryValue>,
}

/// Resolving FileCode `code` against dictionary entries: `BadFileCode` past
/// the last entry.
pub open spec fn spec_dictionary_value(entries: Seq<DictionaryValue>, code: u32) -> Result<
    DictionaryValueView,
    ErrorCode,
> {
    if code < entries.len() {
        Ok(entries[code as int]@)
    } else {
        Err(ErrorCode::BadFileCode)
    }
}

impl FileDictionary {
    /// A dictionary holding `entries` in FileCode order.
    pub fn new(entries: Vec<DictionaryValue>) -> (res: Self)
        ensures
            res.entries@ == entries@,
    {
        FileDictionary { entries }
    }

    /// The number of addressable FileCodes (at most `u32::MAX`).
    pub fn len(&self) -> (res: u32)
        ensures
            res == (if self.entries@.len() <= u32::MAX {
                self.entries@.len()
            } else {
                u32::MAX as nat
            }),
    {
        if self.entries.len() as u64 <= u32::MAX as u64 {
            self.entries.len() as u32
        } else {
            u32::MAX
        }
    }

    /// The value of FileCode `code`.
    pub fn decode_value(&self, code: u32) -> (res: Result<DictionaryValue, CoveError>)
        ensures
            match spec_dictionary_value(self.entries@, code) {
                Ok(v) => (res matches Ok(r) && r@ == v),
                Err(c) => fails_with(res, c),
            },
    {
        if (code as u64) < self.entries.len() as u64 {
            Ok(self.entries[code as usize].duplicate())
        } else {
            Err(CoveError::BadFileCode)
        }
    }
}

} // verus!
