//! The conversion table: which note number each source note number becomes.

use vstd::prelude::*;
use std::collections::HashMap;

verus! {

/// Every key and every value of `table` is a note number, at most 127.
pub open spec fn notes_only(table: Map<u8, u8>) -> bool {
    forall|key: u8| #[trigger] table.contains_key(key) ==> key <= 127 && table[key] <= 127
}

/// Every key of `table` is mapped to itself.
pub open spec fn is_identity(table: Map<u8, u8>) -> bool {
    forall|key: u8| #[trigger] table.contains_key(key) ==> table[key] == key
}

/// What `table` turns the note `key` into: its entry where it has one, and
/// `key` itself where it has none.
pub open spec fn converted_key(table: Map<u8, u8>, key: u8) -> u8 {
    if table.contains_key(key) {
        table[key]
    } else {
        key
    }
}

/// A finite map from note number to note number, both in `0..=127`.
pub struct ConversionTable {
    entries: HashMap<u8, u8>,
}

impl View for ConversionTable {
    type V = Map<u8, u8>;

    closed spec fn view(&self) -> Map<u8, u8> {
        self.entries@
    }
}

impl ConversionTable {
    /// The invariant of the type: keys and values are note numbers.
    pub open spec fn wf(&self) -> bool {
        notes_only(self@)
    }

    /// A table without entries: it converts every note to itself.
    pub fn new() -> (table: ConversionTable)
        ensures
            table.wf(),
            table@ == Map::<u8, u8>::empty(),
    {
        ConversionTable { entries: HashMap::new() }
    }

    /// Maps `from` to `to`, in place of what `from` was mapped to before. A
    /// number above 127 on either side is refused and the table stays as it
    /// was.
    pub fn insert(&mut self, from: u8, to: u8) -> (entered: bool)
        requires
            old(self).wf(),
        ensures
            final(self).wf(),
            entered == (from <= 127 && to <= 127),
            entered ==> final(self)@ == old(self)@.insert(from, to),
            !entered ==> final(self)@ == old(self)@,
    {
        broadcast use vstd::std_specs::hash::group_hash_axioms;

        if from > 127 || to > 127 {
            return false;
        }
        self.entries.insert(from, to);
        true
    }

    /// What `key` is mapped to, if it has an entry.
    pub fn get(&self, key: u8) -> (to: Option<u8>)
        requires
            self.wf(),
        ensures
            to == (if self@.contains_key(key) {
                Some(self@[key])
            } else {
                None::<u8>
            }),
            to matches Some(note) ==> note <= 127,
    {
        broadcast use vstd::std_specs::hash::group_hash_axioms;

        match self.entries.get(&key) {
            Some(to) => Some(*to),
            None => None,
        }
    }

    /// The number of entries.
    pub fn len(&self) -> (n: usize)
        ensures
            n == self@.len(),
    {
        broadcast use vstd::std_specs::hash::group_hash_axioms;

        self.entries.len()
    }
}

} // verus!
