//! Loading drum maps and joining two of them into a conversion table.

use vstd::prelude::*;
use vstd::slice::slice_subrange;
use crate::error::RemapError;
use crate::line::{
    lemma_line_break_at, line_break, lines, read_line, scan_line, without_cr, LineEntry,
    LineReading,
};
use crate::note_map::{has_name, note_of, with_entry, NoteMap};
use crate::table::ConversionTable;

verus! {

/// The entries that `lines` leave behind, read first to last: each line that
/// speaks of a note enters its name with its number.
pub open spec fn entries_of(lines: Seq<Seq<char>>) -> Seq<(Seq<char>, u8)>
    decreases lines.len(),
{
    if lines.len() == 0 {
        Seq::empty()
    } else {
        let before = entries_of(lines.drop_last());
        match read_line(lines.last()) {
            LineReading::Entry { name, number } => with_entry(before, name, number),
            _ => before,
        }
    }
}

/// Line `at` (counted from 0) is the first one whose note number is none.
pub open spec fn first_bad_line(lines: Seq<Seq<char>>, at: int) -> bool {
    &&& 0 <= at < lines.len()
    &&& read_line(lines[at]) is Bad
    &&& forall|i: int| 0 <= i < at ==> !(read_line(#[trigger] lines[i]) is Bad)
}

/// No line has a note number that is none.
pub open spec fn no_bad_line(lines: Seq<Seq<char>>) -> bool {
    forall|i: int| 0 <= i < lines.len() ==> !(read_line(#[trigger] lines[i]) is Bad)
}

/// The characters of `text`, one by one.
fn chars_of(text: &str) -> (chars: Vec<char>)
    ensures
        chars@ == text@,
{
    broadcast use vstd::string::group_string_axioms;

    let mut chars: Vec<char> = Vec::new();
    for c in it: text.chars()
        invariant
            it.seq() == text@,
            chars@ == it.seq().take(it.index()),
    {
        proof {
            assert(it.seq().take(it.index() + 1) == it.seq().take(it.index()).push(c));
        }
        chars.push(c);
    }
    proof {
        assert(text@.take(text@.len() as int) == text@);
    }
    chars
}

/// Loads a drum map from the text of a map file.
///
/// The text is read line by line. The first line that begins with a note
/// number above 127, or with one written in digits beyond ASCII, fails the
/// whole load and is named in the error, counted from 1.
/// Otherwise the map holds what the lines entered, a later line for a name
/// replacing an earlier one.
pub fn load_file_to_map(text: &str) -> (r: Result<NoteMap, RemapError>)
    ensures
        match r {
            Ok(map) => {
                &&& no_bad_line(lines(text@))
                &&& map.wf()
                &&& map@ == entries_of(lines(text@))
            },
            Err(e) => e matches RemapError::MapParse { line } && first_bad_line(
                lines(text@),
                line - 1,
            ),
        },
{
    let chars = chars_of(text);
    let n = chars.len();
    let mut map = NoteMap::new();
    let mut pos: usize = 0;
    let mut count: usize = 0;
    let ghost mut done: Seq<Seq<char>> = Seq::empty();
    proof {
        assert(text@.skip(0) == text@);
        assert(done + lines(text@) == lines(text@));
    }
    while pos < n
        invariant
            chars@ == text@,
            n == chars@.len(),
            pos <= n,
            lines(text@) == done + lines(text@.skip(pos as int)),
            count == done.len(),
            count <= pos,
            map.wf(),
            map@ == entries_of(done),
            no_bad_line(done),
        decreases n - pos,
    {
        let mut end: usize = pos;
        while end < n && chars[end] != '\n'
            invariant
                n == chars@.len(),
                pos <= end <= n,
                forall|i: int| pos <= i < end ==> chars@[i] != '\n',
            decreases n - end,
        {
            end += 1;
        }
        let ended = end < n;
        let stop = if ended && end > pos && chars[end - 1] == '\r' {
            end - 1
        } else {
            end
        };
        let next = if ended {
            end + 1
        } else {
            n
        };
        let line = slice_subrange(chars.as_slice(), pos, stop);
        proof {
            let rest = text@.skip(pos as int);
            assert forall|i: int| 0 <= i < end - pos implies rest[i] != '\n' by {
                assert(rest[i] == chars@[pos + i]);
            }
            lemma_line_break_at(rest, end - pos);
            assert(rest.take(end - pos) == text@.subrange(pos as int, end as int));
            if ended {
                assert(rest.skip(end - pos + 1) == text@.skip(next as int));
                assert(line@ == without_cr(text@.subrange(pos as int, end as int)));
            } else {
                assert(rest == text@.subrange(pos as int, end as int));
                assert(line@ == rest);
                assert(lines(text@.skip(next as int)) == Seq::<Seq<char>>::empty());
            }
            assert(lines(rest) == seq![line@] + lines(text@.skip(next as int)));
            assert(lines(text@) == done.push(line@) + lines(text@.skip(next as int)));
            assert(done.push(line@).drop_last() == done);
            assert(lines(text@)[done.len() as int] == line@);
            assert forall|i: int| 0 <= i < done.len() implies lines(text@)[i] == done[i] by {}
        }
        match scan_line(line) {
            LineEntry::Skip => {},
            LineEntry::Bad => {
                return Err(RemapError::MapParse { line: count + 1 });
            },
            LineEntry::Entry { from, to, number } => {
                let name = text.substring_char(pos + from, pos + to).to_owned();
                proof {
                    assert(text@.subrange(pos + from, pos + to) == line@.subrange(
                        from as int,
                        to as int,
                    ));
                }
                map.insert(name, number);
            },
        }
        proof {
            done = done.push(line@);
        }
        count += 1;
        pos = next;
    }
    proof {
        assert(text@.skip(n as int) == Seq::<char>::empty());
        assert(done + Seq::<Seq<char>>::empty() == done);
    }
    Ok(map)
}

/// What the entry of `name` with `number` in the source map is converted to:
/// the number that the destination map gives the same name, or `number`
/// itself where the destination does not know the name.
pub open spec fn join_target(destination: Seq<(Seq<char>, u8)>, name: Seq<char>, number: u8) -> u8 {
    match note_of(destination, name) {
        Some(to) => to,
        None => number,
    }
}

/// The conversion table that joins `source` to `destination` on their names.
/// Each source entry, first to last, maps its number to its target; where two
/// source names carry one number, the later entry decides.
pub open spec fn join(source: Seq<(Seq<char>, u8)>, destination: Seq<(Seq<char>, u8)>) -> Map<
    u8,
    u8,
>
    decreases source.len(),
{
    if source.len() == 0 {
        Map::empty()
    } else {
        let (name, number) = source.last();
        join(source.drop_last(), destination).insert(
            number,
            join_target(destination, name, number),
        )
    }
}

/// Some entry carries `number`.
pub open spec fn carries_number(entries: Seq<(Seq<char>, u8)>, number: u8) -> bool {
    exists|i: int| 0 <= i < entries.len() && (#[trigger] entries[i]).1 == number
}

/// The index of the last entry that carries `number`, or -1 where none does.
pub open spec fn last_with_number(entries: Seq<(Seq<char>, u8)>, number: u8) -> int
    decreases entries.len(),
{
    if entries.len() == 0 {
        -1
    } else if entries.last().1 == number {
        entries.len() - 1
    } else {
        last_with_number(entries.drop_last(), number)
    }
}

/// The name that decides what `number` is converted to: that of the last
/// source entry that carries it.
pub open spec fn deciding_name(source: Seq<(Seq<char>, u8)>, number: u8) -> Seq<char>
    recommends
        carries_number(source, number),
{
    source[last_with_number(source, number)].0
}

/// `last_with_number` finds an entry that carries the number exactly where
/// there is one, and no later entry carries it.
proof fn lemma_last_with_number(entries: Seq<(Seq<char>, u8)>, number: u8)
    ensures
        carries_number(entries, number) <==> last_with_number(entries, number) >= 0,
        -1 <= last_with_number(entries, number) < entries.len(),
        last_with_number(entries, number) >= 0 ==> entries[last_with_number(entries, number)].1
            == number,
        forall|i: int|
            last_with_number(entries, number) < i < entries.len() ==> (#[trigger] entries[i]).1
                != number,
    decreases entries.len(),
{
    if entries.len() > 0 {
        let front = entries.drop_last();
        lemma_last_with_number(front, number);
        if entries.last().1 == number {
            assert(entries[entries.len() - 1].1 == number);
        } else {
            assert forall|i: int| 0 <= i < front.len() implies front[i] == entries[i] by {}
            if carries_number(entries, number) {
                let i = choose|i: int| 0 <= i < entries.len() && (#[trigger] entries[i]).1 == number;
                assert(front[i].1 == number);
            }
            if carries_number(front, number) {
                let i = choose|i: int| 0 <= i < front.len() && (#[trigger] front[i]).1 == number;
                assert(entries[i].1 == number);
            }
            assert forall|i: int|
                last_with_number(entries, number) < i < entries.len() implies (
            #[trigger] entries[i]).1 != number by {
                if i < front.len() {
                    assert(front[i].1 != number);
                }
            }
        }
    }
}

/// The keys of a joined table are the note numbers that the source carries,
/// and each is converted as the last source entry that carries it says.
pub proof fn law_join_decided(
    source: Seq<(Seq<char>, u8)>,
    destination: Seq<(Seq<char>, u8)>,
    number: u8,
)
    ensures
        join(source, destination).contains_key(number) <==> carries_number(source, number),
        carries_number(source, number) ==> join(source, destination)[number] == join_target(
            destination,
            deciding_name(source, number),
            number,
        ),
    decreases source.len(),
{
    lemma_last_with_number(source, number);
    if source.len() > 0 {
        let front = source.drop_last();
        law_join_decided(front, destination, number);
        lemma_last_with_number(front, number);
        if source.last().1 != number && last_with_number(front, number) >= 0 {
            assert(front[last_with_number(front, number)] == source[last_with_number(
                front,
                number,
            )]);
        }
    }
}

/// No entry carries `number` under another name than `name`.
pub open spec fn sole_carrier(entries: Seq<(Seq<char>, u8)>, name: Seq<char>, number: u8) -> bool {
    forall|i: int|
        0 <= i < entries.len() && (#[trigger] entries[i]).1 == number ==> entries[i].0 == name
}

/// Where one name alone carries a number in the source map, that name
/// decides for the number.
pub proof fn law_sole_name_decides(source: Seq<(Seq<char>, u8)>, name: Seq<char>, number: u8)
    requires
        note_of(source, name) == Some(number),
        sole_carrier(source, name, number),
    ensures
        deciding_name(source, number) == name,
{
    let at = crate::note_map::name_index(source, name);
    assert(0 <= at < source.len() && source[at].0 == name);
    lemma_last_with_number(source, number);
}

/// A name that both maps know: its source number is converted to its
/// destination number, where no other source name carries that number.
pub proof fn law_join_shared_name(source: NoteMap, destination: NoteMap, name: Seq<char>)
    requires
        source.wf(),
        destination.wf(),
        has_name(source@, name),
        has_name(destination@, name),
        sole_carrier(source@, name, note_of(source@, name)->0),
    ensures
        join(source@, destination@).contains_key(note_of(source@, name)->0),
        join(source@, destination@)[note_of(source@, name)->0] == note_of(destination@, name)->0,
{
    let number = note_of(source@, name)->0;
    law_sole_name_decides(source@, name, number);
    law_join_decided(source@, destination@, number);
}

/// A name that only the source map knows: its number is converted to itself,
/// where no other source name carries that number.
pub proof fn law_join_source_only_name(source: NoteMap, destination: NoteMap, name: Seq<char>)
    requires
        source.wf(),
        destination.wf(),
        has_name(source@, name),
        !has_name(destination@, name),
        sole_carrier(source@, name, note_of(source@, name)->0),
    ensures
        join(source@, destination@).contains_key(note_of(source@, name)->0),
        join(source@, destination@)[note_of(source@, name)->0] == note_of(source@, name)->0,
{
    let number = note_of(source@, name)->0;
    law_sole_name_decides(source@, name, number);
    law_join_decided(source@, destination@, number);
}

/// A name that only the destination map knows adds no key: its number is a
/// key of the table only where a source name carries the same number.
pub proof fn law_join_destination_only_name(
    source: NoteMap,
    destination: NoteMap,
    name: Seq<char>,
)
    requires
        source.wf(),
        destination.wf(),
        !has_name(source@, name),
        has_name(destination@, name),
        !carries_number(source@, note_of(destination@, name)->0),
    ensures
        !join(source@, destination@).contains_key(note_of(destination@, name)->0),
{
    law_join_decided(source@, destination@, note_of(destination@, name)->0);
}

/// Joins two drum maps into the table that converts the notes of `source`
/// into those of `destination`.
pub fn join_maps(source: &NoteMap, destination: &NoteMap) -> (table: ConversionTable)
    requires
        source.wf(),
        destination.wf(),
    ensures
        table.wf(),
        table@ == join(source@, destination@),
{
    let mut table = ConversionTable::new();
    let n = source.len();
    let mut i: usize = 0;
    proof {
        assert(source@.take(0) == Seq::<(Seq<char>, u8)>::empty());
    }
    while i < n
        invariant
            source.wf(),
            destination.wf(),
            n == source@.len(),
            i <= n,
            table.wf(),
            table@ == join(source@.take(i as int), destination@),
        decreases n - i,
    {
        let name = source.name(i);
        let number = source.number(i);
        assert(source@[i as int].1 <= 127);
        let to = match destination.get(name.as_str()) {
            Some(to) => to,
            None => number,
        };
        proof {
            let upto = source@.take(i as int + 1);
            assert(upto.drop_last() == source@.take(i as int));
            assert(upto.last() == source@[i as int]);
        }
        table.insert(number, to);
        i += 1;
    }
    proof {
        assert(source@.take(n as int) == source@);
    }
    table
}

/// Builds the conversion table from the texts of two map files: the map that
/// the track was written for and the map that it shall be played with.
///
/// Fails where either text fails to load; the text of the first map is
/// looked at first.
pub fn make_conversion_map(input: &str, output: &str) -> (r: Result<ConversionTable, RemapError>)
    ensures
        match r {
            Ok(table) => {
                &&& no_bad_line(lines(input@))
                &&& no_bad_line(lines(output@))
                &&& table.wf()
                &&& table@ == join(entries_of(lines(input@)), entries_of(lines(output@)))
            },
            Err(e) => e matches RemapError::MapParse { line } && {
                ||| first_bad_line(lines(input@), line - 1)
                ||| (no_bad_line(lines(input@)) && first_bad_line(lines(output@), line - 1))
            },
        },
{
    let source = match load_file_to_map(input) {
        Ok(map) => map,
        Err(e) => {
            return Err(e);
        },
    };
    let destination = match load_file_to_map(output) {
        Ok(map) => map,
        Err(e) => {
            return Err(e);
        },
    };
    Ok(join_maps(&source, &destination))
}

} // verus!
