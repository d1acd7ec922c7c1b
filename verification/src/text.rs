//! Character classes and the small scanners that drum-map lines are read with.
//!
//! Everything here works on a line as a sequence of `char`s. The specification
//! functions say what a scanner finds; the executable functions find it on a
//! slice and are proved to agree.

use vstd::prelude::*;

verus! {

/// An ASCII decimal digit.
pub open spec fn is_ascii_digit(c: char) -> bool {
    '0' <= c && c <= '9'
}

/// What the `regex` crate makes of `pattern` and the text that holds `c`
/// alone: whether the pattern matches the text, or `None` where the pattern
/// does not compile.
pub uninterp spec fn pattern_match(pattern: Seq<char>, c: char) -> Option<bool>;

/// The pattern of the class of decimal digits.
pub open spec fn digit_class() -> Seq<char> {
    "\\d"@
}

/// A decimal digit: an ASCII digit, or a character beyond ASCII that the
/// class `\d` of the `regex` crate holds, which is every decimal digit of
/// Unicode.
pub open spec fn is_digit(c: char) -> bool {
    if (c as u32) < 0x80 {
        is_ascii_digit(c)
    } else {
        pattern_match(digit_class(), c) == Some(true)
    }
}

/// A character with the Unicode property `White_Space`.
pub open spec fn is_space(c: char) -> bool {
    let u = c as u32;
    ||| (0x09 <= u && u <= 0x0D)
    ||| u == 0x20
    ||| u == 0x85
    ||| u == 0xA0
    ||| u == 0x1680
    ||| (0x2000 <= u && u <= 0x200A)
    ||| u == 0x2028
    ||| u == 0x2029
    ||| u == 0x202F
    ||| u == 0x205F
    ||| u == 0x3000
}

/// The value of an ASCII decimal digit.
pub open spec fn digit_value(c: char) -> nat
    recommends
        is_ascii_digit(c),
{
    (c as u32 - '0' as u32) as nat
}

/// The number that a run of ASCII digits writes, read most significant digit
/// first. Leading zeros count for nothing and the empty run is 0.
pub open spec fn decimal(digits: Seq<char>) -> nat
    decreases digits.len(),
{
    if digits.len() == 0 {
        0
    } else {
        decimal(digits.drop_last()) * 10 + digit_value(digits.last())
    }
}

/// Every character of `digits` is an ASCII digit.
pub open spec fn all_ascii_digits(digits: Seq<char>) -> bool {
    forall|i: int| 0 <= i < digits.len() ==> is_ascii_digit(#[trigger] digits[i])
}

/// The note number that a run of digits writes. There is none where the run
/// holds a digit beyond ASCII, which no number is read from, and none where
/// the run writes more than 127, however long it is.
pub open spec fn note_number(digits: Seq<char>) -> Option<u8> {
    if all_ascii_digits(digits) && decimal(digits) <= 127 {
        Some(decimal(digits) as u8)
    } else {
        None
    }
}

/// The first index at or after `from` that holds no white space: the end of
/// the run of white space that starts at `from`.
pub open spec fn spaces_end(line: Seq<char>, from: int) -> int
    decreases line.len() - from,
{
    if 0 <= from < line.len() && is_space(line[from]) {
        spaces_end(line, from + 1)
    } else {
        from
    }
}

/// The first index at or after `from` that holds no digit: the end of the run
/// of digits that starts at `from`.
pub open spec fn digits_end(line: Seq<char>, from: int) -> int
    decreases line.len() - from,
{
    if 0 <= from < line.len() && is_digit(line[from]) {
        digits_end(line, from + 1)
    } else {
        from
    }
}

/// `s` without the white space at its start.
pub open spec fn trim_start(s: Seq<char>) -> Seq<char>
    decreases s.len(),
{
    if s.len() > 0 && is_space(s[0]) {
        trim_start(s.drop_first())
    } else {
        s
    }
}

/// `s` without the white space at its end.
pub open spec fn trim_end(s: Seq<char>) -> Seq<char>
    decreases s.len(),
{
    if s.len() > 0 && is_space(s.last()) {
        trim_end(s.drop_last())
    } else {
        s
    }
}

/// `s` without the white space at either end.
pub open spec fn trim(s: Seq<char>) -> Seq<char> {
    trim_end(trim_start(s))
}

/// `regex::Regex::new` on `pattern` and, where the pattern compiles,
/// `Regex::is_match` on the text that holds `c` alone. The answer depends on
/// the pattern and the character only.
#[verifier::external_body]
fn match_char(pattern: &str, c: char) -> (r: Option<bool>)
    ensures
        r == pattern_match(pattern@, c),
{
    regex::Regex::new(pattern).ok().map(|re| re.is_match(c.encode_utf8(&mut [0; 4])))
}

/// Tells whether `c` is a decimal digit.
pub(crate) fn is_digit_char(c: char) -> (r: bool)
    ensures
        r == is_digit(c),
{
    if (c as u32) < 0x80 {
        '0' <= c && c <= '9'
    } else {
        match match_char("\\d", c) {
            Some(found) => found,
            None => false,
        }
    }
}

/// Tells whether `c` is white space.
pub(crate) fn is_space_char(c: char) -> (r: bool)
    ensures
        r == is_space(c),
{
    let u: u32 = c as u32;
    (0x09 <= u && u <= 0x0D) || u == 0x20 || u == 0x85 || u == 0xA0 || u == 0x1680 || (0x2000 <= u
        && u <= 0x200A) || u == 0x2028 || u == 0x2029 || u == 0x202F || u == 0x205F || u == 0x3000
}

/// A run of digits ends inside the line and holds digits only.
pub(crate) proof fn lemma_digits_end_bounds(line: Seq<char>, from: int)
    requires
        0 <= from <= line.len(),
    ensures
        from <= digits_end(line, from) <= line.len(),
        forall|i: int| from <= i < digits_end(line, from) ==> is_digit(#[trigger] line[i]),
        digits_end(line, from) < line.len() ==> !is_digit(line[digits_end(line, from)]),
    decreases line.len() - from,
{
    if from < line.len() && is_digit(line[from]) {
        lemma_digits_end_bounds(line, from + 1);
    }
}

/// Finds the end of the run of white space that starts at `from`.
pub(crate) fn scan_spaces(line: &[char], from: usize) -> (end: usize)
    requires
        from <= line@.len(),
    ensures
        end == spaces_end(line@, from as int),
        from <= end <= line@.len(),
{
    let mut i: usize = from;
    while i < line.len() && is_space_char(line[i])
        invariant
            from <= i <= line@.len(),
            spaces_end(line@, from as int) == spaces_end(line@, i as int),
        decreases line@.len() - i,
    {
        i += 1;
    }
    i
}

/// Finds the end of the run of digits that starts at `from`.
pub(crate) fn scan_digits(line: &[char], from: usize) -> (end: usize)
    requires
        from <= line@.len(),
    ensures
        end == digits_end(line@, from as int),
        from <= end <= line@.len(),
{
    let mut i: usize = from;
    while i < line.len() && is_digit_char(line[i])
        invariant
            from <= i <= line@.len(),
            digits_end(line@, from as int) == digits_end(line@, i as int),
        decreases line@.len() - i,
    {
        i += 1;
    }
    i
}

/// One more digit at the end of a run multiplies its value by ten and adds
/// the digit.
proof fn lemma_decimal_step(line: Seq<char>, from: int, to: int)
    requires
        0 <= from <= to < line.len(),
    ensures
        decimal(line.subrange(from, to + 1)) == decimal(line.subrange(from, to)) * 10
            + digit_value(line[to]),
{
    let longer = line.subrange(from, to + 1);
    assert(longer.drop_last() == line.subrange(from, to));
    assert(longer.last() == line[to]);
}

/// A run of digits writes at least what any of its prefixes writes.
proof fn lemma_decimal_grows(line: Seq<char>, from: int, mid: int, to: int)
    requires
        0 <= from <= mid <= to <= line.len(),
    ensures
        decimal(line.subrange(from, mid)) <= decimal(line.subrange(from, to)),
    decreases to - mid,
{
    if mid < to {
        lemma_decimal_grows(line, from, mid, to - 1);
        lemma_decimal_step(line, from, to - 1);
    }
}

/// Reads the characters of `line` from `from` up to `to` as a note number.
pub(crate) fn read_note_number(line: &[char], from: usize, to: usize) -> (r: Option<u8>)
    requires
        from <= to <= line@.len(),
    ensures
        r == note_number(line@.subrange(from as int, to as int)),
{
    let ghost digits = line@.subrange(from as int, to as int);
    let mut value: u32 = 0;
    let mut i: usize = from;
    while i < to
        invariant
            from <= i <= to <= line@.len(),
            digits == line@.subrange(from as int, to as int),
            forall|k: int| from <= k < i ==> is_ascii_digit(#[trigger] line@[k]),
            value == decimal(line@.subrange(from as int, i as int)),
            value <= 127,
        decreases to - i,
    {
        let c = line[i];
        if !('0' <= c && c <= '9') {
            assert(!is_ascii_digit(digits[i - from]));
            return None;
        }
        let d: u32 = c as u32 - '0' as u32;
        proof {
            lemma_decimal_step(line@, from as int, i as int);
        }
        value = value * 10 + d;
        if value > 127 {
            proof {
                lemma_decimal_grows(line@, from as int, i as int + 1, to as int);
            }
            return None;
        }
        i += 1;
    }
    assert(all_ascii_digits(digits)) by {
        assert forall|k: int| 0 <= k < digits.len() implies is_ascii_digit(#[trigger] digits[k]) by {
            assert(is_ascii_digit(line@[from + k]));
        }
    }
    Some(value as u8)
}

/// Finds the bounds of `line` from `from` on without the white space at
/// either end.
pub(crate) fn trim_bounds(line: &[char], from: usize) -> (r: (usize, usize))
    requires
        from <= line@.len(),
    ensures
        from <= r.0 <= r.1 <= line@.len(),
        line@.subrange(r.0 as int, r.1 as int) == trim(line@.skip(from as int)),
{
    let n = line.len();
    let mut a: usize = from;
    while a < n && is_space_char(line[a])
        invariant
            n == line@.len(),
            from <= a <= n,
            trim_start(line@.skip(from as int)) == trim_start(line@.skip(a as int)),
        decreases n - a,
    {
        proof {
            assert(line@.skip(a as int).drop_first() == line@.skip(a as int + 1));
        }
        a += 1;
    }
    assert(trim_start(line@.skip(a as int)) == line@.skip(a as int));
    assert(line@.skip(a as int) == line@.subrange(a as int, n as int));
    let mut b: usize = n;
    while b > a && is_space_char(line[b - 1])
        invariant
            n == line@.len(),
            a <= b <= n,
            trim_end(line@.subrange(a as int, n as int)) == trim_end(
                line@.subrange(a as int, b as int),
            ),
        decreases b - a,
    {
        proof {
            assert(line@.subrange(a as int, b as int).drop_last() == line@.subrange(
                a as int,
                b as int - 1,
            ));
        }
        b -= 1;
    }
    assert(trim_end(line@.subrange(a as int, b as int)) == line@.subrange(a as int, b as int));
    (a, b)
}

} // verus!
