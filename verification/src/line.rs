//! The grammar of a drum map: how a text falls into lines, and what one line
//! says.
//!
//! A line speaks of a note where it begins, after white space if there is
//! any, with a run of decimal digits that has a white space character
//! directly behind it. The run is the note number and what follows the white
//! space, trimmed, is the name. Any other line says nothing: a blank line, a
//! comment, a heading, a line with text before its number. Nor does a line
//! whose name is `-`, the mark of an unused slot.

use vstd::prelude::*;
use crate::text::{
    digits_end, is_digit, is_digit_char, is_space, is_space_char, lemma_digits_end_bounds,
    note_number, read_note_number, scan_digits, scan_spaces, spaces_end, trim, trim_bounds,
};

verus! {

/// The index of the first line feed of `text`, or its length where it has
/// none.
pub open spec fn line_break(text: Seq<char>) -> nat
    decreases text.len(),
{
    if text.len() == 0 || text[0] == '\n' {
        0
    } else {
        1 + line_break(text.drop_first())
    }
}

/// `line` without one carriage return at its end.
pub open spec fn without_cr(line: Seq<char>) -> Seq<char> {
    if line.len() > 0 && line.last() == '\r' {
        line.drop_last()
    } else {
        line
    }
}

/// The lines of `text`. A line ends at a line feed, and a carriage return
/// directly before that line feed is no part of it. What follows the last
/// line feed is a line of its own unless it is empty, and keeps a carriage
/// return at its end.
pub open spec fn lines(text: Seq<char>) -> Seq<Seq<char>>
    decreases text.len(),
{
    if text.len() == 0 {
        Seq::empty()
    } else {
        let k = line_break(text) as int;
        if k < text.len() {
            seq![without_cr(text.take(k))] + lines(text.skip(k + 1))
        } else {
            seq![text]
        }
    }
}

/// A note number starts at `at`: a digit stands there, and the run of digits
/// from there on is directly followed by white space.
pub open spec fn starts_field(line: Seq<char>, at: int) -> bool {
    &&& 0 <= at < line.len()
    &&& is_digit(line[at])
    &&& digits_end(line, at) < line.len()
    &&& is_space(line[digits_end(line, at)])
}

/// Where the note number of `line` starts: at its first character that is no
/// white space, if a note number starts there.
pub open spec fn field_start(line: Seq<char>) -> Option<int> {
    let at = spaces_end(line, 0);
    if starts_field(line, at) {
        Some(at)
    } else {
        None
    }
}

/// What one line of a drum map says.
pub enum LineReading {
    /// Nothing: the line does not begin with a note number, or names the
    /// unused slot.
    Skip,
    /// A note number that is none: it is above 127, or written with digits
    /// beyond ASCII.
    Bad,
    /// A voice and its note number.
    Entry { name: Seq<char>, number: u8 },
}

/// Reads one line. The name is looked at before the number, so a line that
/// names the unused slot is skipped whatever its number.
pub open spec fn read_line(line: Seq<char>) -> LineReading {
    match field_start(line) {
        None => LineReading::Skip,
        Some(start) => {
            let end = digits_end(line, start);
            let name = trim(line.skip(end + 1));
            if name =~= seq!['-'] {
                LineReading::Skip
            } else {
                match note_number(line.subrange(start, end)) {
                    None => LineReading::Bad,
                    Some(number) => LineReading::Entry { name, number },
                }
            }
        },
    }
}

/// What the scanner found on a line; the name is given by its bounds.
pub(crate) enum LineEntry {
    Skip,
    Bad,
    Entry { from: usize, to: usize, number: u8 },
}

/// Finds the note number of `line`: its start and its end.
pub(crate) fn find_field(line: &[char]) -> (r: Option<(usize, usize)>)
    ensures
        match r {
            Some((start, end)) => {
                &&& field_start(line@) == Some(start as int)
                &&& end == digits_end(line@, start as int)
                &&& start < end < line@.len()
            },
            None => field_start(line@) is None,
        },
{
    let n = line.len();
    let start = scan_spaces(line, 0);
    if start < n && is_digit_char(line[start]) {
        let end = scan_digits(line, start);
        proof {
            lemma_digits_end_bounds(line@, start as int + 1);
        }
        if end < n && is_space_char(line[end]) {
            return Some((start, end));
        }
    }
    None
}

/// Reads one line.
pub(crate) fn scan_line(line: &[char]) -> (r: LineEntry)
    ensures
        match r {
            LineEntry::Skip => read_line(line@) is Skip,
            LineEntry::Bad => read_line(line@) is Bad,
            LineEntry::Entry { from, to, number } => {
                &&& from <= to <= line@.len()
                &&& read_line(line@) == LineReading::Entry {
                    name: line@.subrange(from as int, to as int),
                    number,
                }
            },
        },
{
    match find_field(line) {
        None => LineEntry::Skip,
        Some((start, end)) => {
            let n = line.len();
            assert(end < n);
            let (from, to) = trim_bounds(line, end + 1);
            let ghost name = line@.subrange(from as int, to as int);
            if to - from == 1 && line[from] == '-' {
                assert(name =~= seq!['-']);
                return LineEntry::Skip;
            }
            assert(!(name =~= seq!['-'])) by {
                if name =~= seq!['-'] {
                    assert(name.len() == 1);
                    assert(name[0] == '-');
                }
            }
            match read_note_number(line, start, end) {
                None => LineEntry::Bad,
                Some(number) => LineEntry::Entry { from, to, number },
            }
        },
    }
}

/// The first line feed of a text is where a scan from its start first meets
/// one.
pub(crate) proof fn lemma_line_break_at(text: Seq<char>, at: int)
    requires
        0 <= at <= text.len(),
        forall|i: int| 0 <= i < at ==> text[i] != '\n',
        at == text.len() || text[at] == '\n',
    ensures
        line_break(text) == at,
    decreases at,
{
    if at > 0 {
        let rest = text.drop_first();
        assert forall|i: int| 0 <= i < at - 1 implies rest[i] != '\n' by {
            assert(rest[i] == text[i + 1]);
        }
        lemma_line_break_at(rest, at - 1);
    }
}

} // verus!
