//! A drum map: voice names and the note number each one stands for.
//!
//! The model of a map is the sequence of its entries, each a name and a
//! number, in the order in which the names first came. No name occurs twice:
//! entering a name again replaces its number and leaves its place.

use vstd::prelude::*;

verus! {

/// Some entry carries `name`.
pub open spec fn has_name(entries: Seq<(Seq<char>, u8)>, name: Seq<char>) -> bool {
    exists|i: int| 0 <= i < entries.len() && (#[trigger] entries[i]).0 == name
}

/// The index of an entry that carries `name`; the only one where no name
/// occurs twice.
pub open spec fn name_index(entries: Seq<(Seq<char>, u8)>, name: Seq<char>) -> int {
    choose|i: int| 0 <= i < entries.len() && (#[trigger] entries[i]).0 == name
}

/// The note number that `name` stands for.
pub open spec fn note_of(entries: Seq<(Seq<char>, u8)>, name: Seq<char>) -> Option<u8> {
    if has_name(entries, name) {
        Some(entries[name_index(entries, name)].1)
    } else {
        None
    }
}

/// The entries after `name` was entered with `number`: a known name keeps its
/// place and takes the new number, a new name goes to the end.
pub open spec fn with_entry(entries: Seq<(Seq<char>, u8)>, name: Seq<char>, number: u8) -> Seq<
    (Seq<char>, u8),
> {
    if has_name(entries, name) {
        entries.update(name_index(entries, name), (name, number))
    } else {
        entries.push((name, number))
    }
}

/// No name occurs twice.
pub open spec fn names_distinct(entries: Seq<(Seq<char>, u8)>) -> bool {
    forall|i: int, j: int|
        0 <= i < j < entries.len() ==> (#[trigger] entries[i]).0 != (#[trigger] entries[j]).0
}

/// Every note number is at most 127.
pub open spec fn notes_in_range(entries: Seq<(Seq<char>, u8)>) -> bool {
    forall|i: int| 0 <= i < entries.len() ==> (#[trigger] entries[i]).1 <= 127
}

/// What holds of the entries of every drum map.
pub open spec fn well_formed(entries: Seq<(Seq<char>, u8)>) -> bool {
    names_distinct(entries) && notes_in_range(entries)
}

/// Where no name occurs twice, the entry at `at` is the one that its name is
/// found at.
proof fn lemma_name_index(entries: Seq<(Seq<char>, u8)>, at: int)
    requires
        names_distinct(entries),
        0 <= at < entries.len(),
    ensures
        has_name(entries, entries[at].0),
        name_index(entries, entries[at].0) == at,
        note_of(entries, entries[at].0) == Some(entries[at].1),
{
    let name = entries[at].0;
    let found = name_index(entries, name);
    assert(0 <= found < entries.len() && entries[found].0 == name);
    if found < at {
        assert(entries[found].0 != entries[at].0);
    } else if at < found {
        assert(entries[at].0 != entries[found].0);
    }
}

/// Entering a name keeps a drum map well formed.
proof fn lemma_with_entry_well_formed(
    entries: Seq<(Seq<char>, u8)>,
    name: Seq<char>,
    number: u8,
)
    requires
        well_formed(entries),
        number <= 127,
    ensures
        well_formed(with_entry(entries, name, number)),
{
    let after = with_entry(entries, name, number);
    if has_name(entries, name) {
        let at = name_index(entries, name);
        assert forall|i: int, j: int| 0 <= i < j < after.len() implies (#[trigger] after[i]).0 != (
        #[trigger] after[j]).0 by {
            assert(after[i].0 == entries[i].0);
            assert(after[j].0 == entries[j].0);
        }
        assert forall|i: int| 0 <= i < after.len() implies (#[trigger] after[i]).1 <= 127 by {
            if i != at {
                assert(after[i] == entries[i]);
            }
        }
    } else {
        assert forall|i: int, j: int| 0 <= i < j < after.len() implies (#[trigger] after[i]).0 != (
        #[trigger] after[j]).0 by {
            assert(after[i] == entries[i]);
            if j < entries.len() {
                assert(after[j] == entries[j]);
            }
        }
        assert forall|i: int| 0 <= i < after.len() implies (#[trigger] after[i]).1 <= 127 by {
            if i < entries.len() {
                assert(after[i] == entries[i]);
            }
        }
    }
}

/// The last number entered for a name is the one it stands for, and entering
/// one name changes no other.
pub proof fn law_last_entry_wins(
    entries: Seq<(Seq<char>, u8)>,
    name: Seq<char>,
    number: u8,
    other: Seq<char>,
)
    requires
        names_distinct(entries),
    ensures
        note_of(with_entry(entries, name, number), other) == (if other == name {
            Some(number)
        } else {
            note_of(entries, other)
        }),
{
    let after = with_entry(entries, name, number);
    if has_name(entries, name) {
        let at = name_index(entries, name);
        assert(0 <= at < entries.len() && entries[at].0 == name);
        assert forall|i: int| 0 <= i < after.len() implies (#[trigger] after[i]).0
            == entries[i].0 by {}
        assert(names_distinct(after)) by {
            assert forall|i: int, j: int| 0 <= i < j < after.len() implies (#[trigger] after[i]).0
                != (#[trigger] after[j]).0 by {
                assert(entries[i].0 != entries[j].0);
            }
        }
        if has_name(entries, other) {
            let o = name_index(entries, other);
            assert(0 <= o < entries.len() && entries[o].0 == other);
            assert(after[o].0 == other);
            lemma_name_index(after, o);
            lemma_name_index(entries, o);
            if other == name {
                lemma_name_index(entries, at);
            } else {
                assert(o != at);
            }
        } else {
            if has_name(after, other) {
                let o = name_index(after, other);
                assert(entries[o].0 == other);
            }
        }
    } else {
        let last = entries.len() as int;
        assert(after[last] == (name, number));
        assert(names_distinct(after)) by {
            assert forall|i: int, j: int| 0 <= i < j < after.len() implies (#[trigger] after[i]).0
                != (#[trigger] after[j]).0 by {
                assert(after[i] == entries[i]);
                if j < last {
                    assert(after[j] == entries[j]);
                }
            }
        }
        if other == name {
            lemma_name_index(after, last);
        } else if has_name(entries, other) {
            let o = name_index(entries, other);
            assert(0 <= o < entries.len() && entries[o].0 == other);
            assert(after[o] == entries[o]);
            lemma_name_index(after, o);
            lemma_name_index(entries, o);
        } else {
            if has_name(after, other) {
                let o = name_index(after, other);
                assert(0 <= o < after.len() && after[o].0 == other);
                assert(o < last);
                assert(after[o] == entries[o]);
            }
        }
    }
}

/// A drum map: voice names, each with its note number in `0..=127`.
pub struct NoteMap {
    entries: Vec<(String, u8)>,
}

impl View for NoteMap {
    type V = Seq<(Seq<char>, u8)>;

    closed spec fn view(&self) -> Seq<(Seq<char>, u8)> {
        Seq::new(self.entries@.len(), |i: int| (self.entries@[i].0@, self.entries@[i].1))
    }
}

impl NoteMap {
    /// The invariant of the type: no name occurs twice and every number is a
    /// note number.
    pub open spec fn wf(&self) -> bool {
        well_formed(self@)
    }

    /// A drum map without entries.
    pub fn new() -> (map: NoteMap)
        ensures
            map.wf(),
            map@ == Seq::<(Seq<char>, u8)>::empty(),
    {
        let map = NoteMap { entries: Vec::new() };
        assert(map@ =~= Seq::<(Seq<char>, u8)>::empty());
        map
    }

    /// The number of names.
    pub fn len(&self) -> (n: usize)
        ensures
            n == self@.len(),
    {
        self.entries.len()
    }

    /// The name of the entry at `at`.
    pub fn name(&self, at: usize) -> (name: &String)
        requires
            at < self@.len(),
        ensures
            name@ == self@[at as int].0,
    {
        &self.entries[at].0
    }

    /// The note number of the entry at `at`.
    pub fn number(&self, at: usize) -> (number: u8)
        requires
            at < self@.len(),
        ensures
            number == self@[at as int].1,
    {
        self.entries[at].1
    }

    /// Where `name` stands among the entries.
    fn position(&self, name: &String) -> (r: Option<usize>)
        requires
            self.wf(),
        ensures
            match r {
                Some(at) => {
                    &&& at < self@.len()
                    &&& self@[at as int].0 == name@
                    &&& has_name(self@, name@)
                    &&& name_index(self@, name@) == at
                },
                None => !has_name(self@, name@),
            },
    {
        let mut i: usize = 0;
        while i < self.entries.len()
            invariant
                self.wf(),
                i <= self@.len(),
                forall|j: int| 0 <= j < i ==> (#[trigger] self@[j]).0 != name@,
            decreases self@.len() - i,
        {
            if self.entries[i].0 == *name {
                proof {
                    assert(self@[i as int].0 == name@);
                    lemma_name_index(self@, i as int);
                }
                return Some(i);
            }
            i += 1;
        }
        None
    }

    /// Looks a name up.
    pub fn get(&self, name: &str) -> (number: Option<u8>)
        requires
            self.wf(),
        ensures
            number == note_of(self@, name@),
            number matches Some(note) ==> note <= 127,
    {
        let key = name.to_owned();
        match self.position(&key) {
            Some(at) => {
                assert(self@[at as int].1 <= 127);
                Some(self.entries[at].1)
            },
            None => None,
        }
    }

    /// Enters `name` with `number`. A number above 127 is refused and the map
    /// stays as it was.
    pub fn insert(&mut self, name: String, number: u8) -> (entered: bool)
        requires
            old(self).wf(),
        ensures
            final(self).wf(),
            entered == (number <= 127),
            entered ==> final(self)@ == with_entry(old(self)@, name@, number),
            !entered ==> final(self)@ == old(self)@,
    {
        if number > 127 {
            return false;
        }
        proof {
            lemma_with_entry_well_formed(self@, name@, number);
        }
        match self.position(&name) {
            Some(at) => {
                self.entries[at] = (name, number);
                assert(self@ =~= with_entry(old(self)@, name@, number));
            },
            None => {
                self.entries.push((name, number));
                assert(self@ =~= with_entry(old(self)@, name@, number));
            },
        }
        true
    }
}

} // verus!
