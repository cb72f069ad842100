//! Offsets, lines and columns of plain text, and simple counts.
//!
//! An offset counts characters from the start of the text. A position is a
//! line and a column, both counted from zero: the line of an offset is the
//! number of line feeds before it, its column the number of characters since
//! the last of them. Every offset from zero to the length of the text has a
//! position, and no two offsets share one.

use vstd::prelude::*;
use crate::chars::{
    char_is_whitespace, is_whitespace, run_end, scan_while, to_chars, CharClass,
    lemma_run_end_bounds,
};

verus! {

/// The line of an offset: the number of line feeds before it.
pub open spec fn line_at(s: Seq<char>, offset: int) -> int
    decreases offset,
{
    if offset <= 0 {
        0
    } else if s[offset - 1] == '\n' {
        line_at(s, offset - 1) + 1
    } else {
        line_at(s, offset - 1)
    }
}

/// The column of an offset: the number of characters between it and the last
/// line feed before it.
pub open spec fn column_at(s: Seq<char>, offset: int) -> int
    decreases offset,
{
    if offset <= 0 {
        0
    } else if s[offset - 1] == '\n' {
        0
    } else {
        column_at(s, offset - 1) + 1
    }
}

/// The number of lines of a text: one more than it has line feeds.
pub open spec fn line_count(s: Seq<char>) -> int {
    line_at(s, s.len() as int) + 1
}

/// Whether `offset` is the place of line `line`, column `column` in `s`.
pub open spec fn is_offset_of(s: Seq<char>, offset: int, line: int, column: int) -> bool {
    0 <= offset <= s.len() && line_at(s, offset) == line && column_at(s, offset) == column
}

/// The offset of a position, where the text has that position.
pub open spec fn offset_of(s: Seq<char>, line: int, column: int) -> Option<int> {
    if exists|offset: int| is_offset_of(s, offset, line, column) {
        Some(choose|offset: int| is_offset_of(s, offset, line, column))
    } else {
        None
    }
}

/// The span `(start, end)` of a line, without its line feed, where the text
/// has that line.
pub open spec fn range_of_line(s: Seq<char>, line: int) -> Option<(int, int)> {
    match offset_of(s, line, 0) {
        Some(start) => Some((start, run_end(s, start, CharClass::Not('\n')))),
        None => None,
    }
}

/// The number of words that begin in the first `upto` characters: a word
/// begins at a character that is not whitespace and stands at the start of
/// the text or behind whitespace.
pub open spec fn word_count(s: Seq<char>, upto: int) -> int
    decreases upto,
{
    if upto <= 0 {
        0
    } else if !char_is_whitespace(s[upto - 1]) && (upto == 1 || char_is_whitespace(s[upto - 2])) {
        word_count(s, upto - 1) + 1
    } else {
        word_count(s, upto - 1)
    }
}

/// The number of characters among the first `upto` that are not whitespace.
pub open spec fn visible_count(s: Seq<char>, upto: int) -> int
    decreases upto,
{
    if upto <= 0 {
        0
    } else if !char_is_whitespace(s[upto - 1]) {
        visible_count(s, upto - 1) + 1
    } else {
        visible_count(s, upto - 1)
    }
}

/// Lines and columns are never negative and never exceed the offset.
pub proof fn lemma_position_bounds(s: Seq<char>, offset: int)
    requires
        0 <= offset,
    ensures
        0 <= line_at(s, offset) <= offset,
        0 <= column_at(s, offset) <= offset,
    decreases offset,
{
    if offset > 0 {
        lemma_position_bounds(s, offset - 1);
    }
}

/// Positions grow with offsets: a later offset lies on a later line, or on
/// the same line at a later column.
pub proof fn lemma_position_grows(s: Seq<char>, a: int, b: int)
    requires
        0 <= a < b,
    ensures
        line_at(s, a) < line_at(s, b) || (line_at(s, a) == line_at(s, b) && column_at(s, a)
            < column_at(s, b)),
        line_at(s, a) <= line_at(s, b),
    decreases b - a,
{
    if a + 1 < b {
        lemma_position_grows(s, a, b - 1);
    }
}

/// The position of an offset depends on the text before it alone.
pub proof fn lemma_position_of_prefix(a: Seq<char>, b: Seq<char>, offset: int)
    requires
        0 <= offset <= a.len(),
        offset <= b.len(),
        forall|i: int| 0 <= i < offset ==> a[i] == b[i],
    ensures
        line_at(a, offset) == line_at(b, offset),
        column_at(a, offset) == column_at(b, offset),
    decreases offset,
{
    if offset > 0 {
        lemma_position_of_prefix(a, b, offset - 1);
    }
}

/// No two offsets share a position.
pub proof fn lemma_offset_is_unique(s: Seq<char>, a: int, b: int, line: int, column: int)
    requires
        is_offset_of(s, a, line, column),
        is_offset_of(s, b, line, column),
    ensures
        a == b,
{
    if a < b {
        lemma_position_grows(s, a, b);
    } else if b < a {
        lemma_position_grows(s, b, a);
    }
}

/// Position to offset and back: the offset of a position that the text has
/// lies at that position.
pub proof fn lemma_position_round_trip(s: Seq<char>, line: int, column: int)
    requires
        offset_of(s, line, column).is_some(),
    ensures
        0 <= offset_of(s, line, column).unwrap() <= s.len(),
        line_at(s, offset_of(s, line, column).unwrap()) == line,
        column_at(s, offset_of(s, line, column).unwrap()) == column,
{
}

/// Offset to position and back: the position of an offset within the text
/// has that very offset.
pub proof fn lemma_offset_round_trip(s: Seq<char>, offset: int)
    requires
        0 <= offset <= s.len(),
    ensures
        offset_of(s, line_at(s, offset), column_at(s, offset)) == Some(offset),
{
    let line = line_at(s, offset);
    let column = column_at(s, offset);
    assert(is_offset_of(s, offset, line, column));
    let found = choose|o: int| is_offset_of(s, o, line, column);
    lemma_offset_is_unique(s, found, offset, line, column);
}

/// The number of characters of a line, without its line feed, where the
/// text has that line.
pub open spec fn line_length(s: Seq<char>, line: int) -> int {
    match range_of_line(s, line) {
        Some(range) => range.1 - range.0,
        None => 0,
    }
}

/// A text has every line from zero up to its line count, and no other.
pub proof fn lemma_line_exists(s: Seq<char>, line: int)
    ensures
        offset_of(s, line, 0).is_some() <==> 0 <= line < line_count(s),
{
    if 0 <= line < line_count(s) {
        lemma_line_starts_before(s, line, s.len() as int);
    }
    if offset_of(s, line, 0).is_some() {
        let at = offset_of(s, line, 0).unwrap();
        lemma_position_bounds(s, at);
        if at < s.len() {
            lemma_position_grows(s, at, s.len() as int);
        }
    }
}

proof fn lemma_line_starts_before(s: Seq<char>, line: int, upto: int)
    requires
        0 <= upto <= s.len(),
        0 <= line <= line_at(s, upto),
    ensures
        exists|o: int| is_offset_of(s, o, line, 0),
    decreases upto,
{
    if line == 0 {
        assert(is_offset_of(s, 0, line, 0));
    } else if s[upto - 1] == '\n' && line_at(s, upto) == line {
        assert(is_offset_of(s, upto, line, 0));
    } else {
        lemma_line_starts_before(s, line, upto - 1);
    }
}

/// A text has a position exactly where the line exists and the column does
/// not exceed the length of that line.
pub proof fn lemma_position_exists(s: Seq<char>, line: int, column: int)
    ensures
        offset_of(s, line, column).is_some() <==> (0 <= line < line_count(s) && 0 <= column
            <= line_length(s, line)),
{
    lemma_line_exists(s, line);
    if offset_of(s, line, column).is_some() {
        let at = offset_of(s, line, column).unwrap();
        lemma_position_bounds(s, at);
        lemma_line_start(s, at);
        let start = at - column;
        assert(is_offset_of(s, start, line, 0));
        lemma_offset_round_trip(s, start);
        lemma_run_end_bounds(s, start, CharClass::Not('\n'));
        let end = run_end(s, start, CharClass::Not('\n'));
        if end < at {
            assert(s[end] == '\n');
            assert(start <= end < at);
        }
    }
    if 0 <= line < line_count(s) && 0 <= column {
        let start = offset_of(s, line, 0).unwrap();
        let end = run_end(s, start, CharClass::Not('\n'));
        lemma_run_end_bounds(s, start, CharClass::Not('\n'));
        if column <= end - start {
            lemma_same_line(s, start, start + column);
            assert(is_offset_of(s, start + column, line, column));
        }
    }
}

/// An offset at column `c` stands `c` characters behind the start of its
/// line, and no line feed lies between.
proof fn lemma_line_start(s: Seq<char>, at: int)
    requires
        0 <= at <= s.len(),
    ensures
        0 <= at - column_at(s, at),
        line_at(s, at - column_at(s, at)) == line_at(s, at),
        column_at(s, at - column_at(s, at)) == 0,
        forall|i: int| at - column_at(s, at) <= i < at ==> s[i] != '\n',
    decreases at,
{
    if at > 0 && s[at - 1] != '\n' {
        lemma_line_start(s, at - 1);
    }
}

/// Offsets with no line feed between them lie on one line, as many columns
/// apart as characters.
proof fn lemma_same_line(s: Seq<char>, from: int, to: int)
    requires
        0 <= from <= to <= s.len(),
        forall|i: int| from <= i < to ==> s[i] != '\n',
    ensures
        line_at(s, to) == line_at(s, from),
        column_at(s, to) == column_at(s, from) + (to - from),
    decreases to - from,
{
    if from < to {
        lemma_same_line(s, from, to - 1);
    }
}

/// The line and column of `offset`, or of the end of the text for an offset
/// beyond it.
pub fn locate(s: &Vec<char>, offset: usize) -> (position: (usize, usize))
    ensures
        offset <= s@.len() ==> position.0 == line_at(s@, offset as int) && position.1 == column_at(
            s@,
            offset as int,
        ),
        offset > s@.len() ==> position.0 == line_at(s@, s@.len() as int) && position.1
            == column_at(s@, s@.len() as int),
{
    let n = s.len();
    let stop = if offset < n {
        offset
    } else {
        n
    };
    let mut line: usize = 0;
    let mut column: usize = 0;
    let mut i: usize = 0;
    while i < stop
        invariant
            i <= stop <= n,
            n == s@.len(),
            line == line_at(s@, i as int),
            column == column_at(s@, i as int),
            line <= i,
            column <= i,
        decreases stop - i,
    {
        if s[i] == '\n' {
            line += 1;
            column = 0;
        } else {
            column += 1;
        }
        i += 1;
    }
    (line, column)
}

/// The offset of line `line`, column `column`, where the text has that position.
pub fn find_offset(s: &Vec<char>, line: usize, column: usize) -> (r: Option<usize>)
    ensures
        match r {
            Some(offset) => offset_of(s@, line as int, column as int) == Some(offset as int)
                && offset <= s@.len(),
            None => offset_of(s@, line as int, column as int).is_none(),
        },
{
    let n = s.len();
    let mut at_line: usize = 0;
    let mut at_column: usize = 0;
    let mut i: usize = 0;
    loop
        invariant
            i <= n,
            n == s@.len(),
            at_line == line_at(s@, i as int),
            at_column == column_at(s@, i as int),
            at_line <= i,
            at_column <= i,
            forall|o: int| 0 <= o < i ==> !is_offset_of(s@, o, line as int, column as int),
        decreases n - i,
    {
        if at_line == line && at_column == column {
            proof {
                assert(is_offset_of(s@, i as int, line as int, column as int));
                let found = choose|o: int| is_offset_of(s@, o, line as int, column as int);
                lemma_offset_is_unique(s@, found, i as int, line as int, column as int);
            }
            return Some(i);
        }
        if i == n {
            return None;
        }
        if s[i] == '\n' {
            at_line += 1;
            at_column = 0;
        } else {
            at_column += 1;
        }
        i += 1;
    }
}

/// The number of lines of `text`: one for empty text, and one more than the
/// number of line feeds otherwise.
pub fn count_lines(text: &str) -> (n: usize)
    requires
        text@.len() < usize::MAX,
    ensures
        n == line_count(text@),
{
    let chars = to_chars(text);
    let end = locate(&chars, chars.len());
    proof {
        lemma_position_bounds(chars@, chars@.len() as int);
    }
    end.0 + 1
}

/// Counts of `text`: its words, its characters, its characters that are not
/// whitespace, and its lines.
pub fn text_stats(text: &str) -> (counts: (usize, usize, usize, usize))
    requires
        text@.len() < usize::MAX,
    ensures
        counts.0 == word_count(text@, text@.len() as int),
        counts.1 == text@.len(),
        counts.2 == visible_count(text@, text@.len() as int),
        counts.3 == line_count(text@),
{
    let chars = to_chars(text);
    let n = chars.len();
    let mut words: usize = 0;
    let mut visible: usize = 0;
    let mut in_word = false;
    let mut i: usize = 0;
    while i < n
        invariant
            i <= n,
            n == chars@.len(),
            words == word_count(chars@, i as int),
            visible == visible_count(chars@, i as int),
            words <= i,
            visible <= i,
            in_word == (i > 0 && !char_is_whitespace(chars@[i - 1])),
        decreases n - i,
    {
        if is_whitespace(chars[i]) {
            in_word = false;
        } else {
            visible += 1;
            if !in_word {
                in_word = true;
                words += 1;
            }
        }
        i += 1;
    }
    let end = locate(&chars, n);
    proof {
        lemma_position_bounds(chars@, n as int);
    }
    (words, n, visible, end.0 + 1)
}

/// The line and column of a character offset. An offset beyond the end of
/// the text gives the position of the end.
pub fn offset_to_position(text: &str, offset: usize) -> (position: (usize, usize))
    ensures
        offset <= text@.len() ==> position.0 == line_at(text@, offset as int) && position.1
            == column_at(text@, offset as int),
        offset > text@.len() ==> position.0 == line_at(text@, text@.len() as int) && position.1
            == column_at(text@, text@.len() as int),
{
    let chars = to_chars(text);
    locate(&chars, offset)
}

/// The character offset of a line and column, or `None` where the text has
/// no such position: the line does not exist, or the column lies beyond its end.
pub fn position_to_offset(text: &str, line: usize, col: usize) -> (r: Option<usize>)
    ensures
        match r {
            Some(offset) => offset_of(text@, line as int, col as int) == Some(offset as int)
                && offset <= text@.len(),
            None => offset_of(text@, line as int, col as int).is_none(),
        },
{
    let chars = to_chars(text);
    find_offset(&chars, line, col)
}

/// The offsets `(start, end)` of a line, `end` exclusive and before the line
/// feed, or `None` where the text has no such line.
pub fn line_range(text: &str, line: usize) -> (r: Option<(usize, usize)>)
    ensures
        match range_of_line(text@, line as int) {
            Some(range) => r == Some((range.0 as usize, range.1 as usize)) && range.0 <= range.1
                <= text@.len(),
            None => r.is_none(),
        },
{
    let chars = to_chars(text);
    match find_offset(&chars, line, 0) {
        Some(start) => {
            let end = scan_while(&chars, start, CharClass::Not('\n'));
            Some((start, end))
        },
        None => None,
    }
}

/// The number of bytes that the UTF-8 encoding of `c` takes.
pub open spec fn utf8_width(c: char) -> int {
    if (c as u32) < 0x80 {
        1
    } else if (c as u32) < 0x800 {
        2
    } else if (c as u32) < 0x10000 {
        3
    } else {
        4
    }
}

/// The number of characters of `text` that begin before byte `offset` of its
/// UTF-8 encoding. At a character boundary this is the index of the character
/// that begins there.
pub open spec fn chars_before(text: Seq<char>, offset: int) -> int
    decreases text.len(),
{
    if text.len() == 0 || offset <= 0 {
        0
    } else {
        1 + chars_before(text.drop_first(), offset - utf8_width(text[0]))
    }
}

fn width_of(c: char) -> (w: usize)
    ensures
        w == utf8_width(c),
{
    let v = c as u32;
    if v < 0x80 {
        1
    } else if v < 0x800 {
        2
    } else if v < 0x10000 {
        3
    } else {
        4
    }
}

/// No more characters begin before an offset than the text has.
pub proof fn lemma_chars_before_bounds(text: Seq<char>, offset: int)
    ensures
        0 <= chars_before(text, offset) <= text.len(),
    decreases text.len(),
{
    if text.len() == 0 || offset <= 0 {
    } else {
        lemma_chars_before_bounds(text.drop_first(), offset - utf8_width(text[0]));
    }
}

/// A later offset has no fewer characters before it.
pub proof fn lemma_chars_before_grows(text: Seq<char>, a: int, b: int)
    requires
        a <= b,
    ensures
        chars_before(text, a) <= chars_before(text, b),
    decreases text.len(),
{
    if text.len() == 0 || a <= 0 {
        lemma_chars_before_bounds(text, b);
    } else {
        lemma_chars_before_grows(
            text.drop_first(),
            a - utf8_width(text[0]),
            b - utf8_width(text[0]),
        );
    }
}

/// The number of characters of `text` that begin before byte `offset`.
pub fn char_index(text: &Vec<char>, offset: usize) -> (index: usize)
    ensures
        index == chars_before(text@, offset as int),
        index <= text@.len(),
{
    let n = text.len();
    let mut i: usize = 0;
    let mut left: usize = offset;
    assert(text@.skip(0) =~= text@);
    while i < n && left > 0
        invariant
            i <= n,
            n == text@.len(),
            chars_before(text@, offset as int) == i + chars_before(text@.skip(i as int), left as int),
        decreases n - i,
    {
        let w = width_of(text[i]);
        proof {
            let tail = text@.skip(i as int);
            assert(tail[0] == text@[i as int]);
            assert(tail.drop_first() =~= text@.skip(i + 1));
            if left < w {
                lemma_chars_before_bounds(text@.skip(i + 1), left - w);
                assert(chars_before(text@.skip(i + 1), left - w) == 0);
                assert(chars_before(text@.skip(i + 1), 0) == 0);
            }
        }
        left = if left >= w {
            left - w
        } else {
            0
        };
        i += 1;
    }
    proof {
        lemma_chars_before_bounds(text@.skip(i as int), left as int);
        if i >= n {
            assert(text@.skip(i as int).len() == 0);
        }
    }
    i
}

/// The line and column of the character at byte `offset` of the UTF-8
/// encoding of `text`. An offset inside a character counts as the start of
/// the next one, an offset beyond the end as the end.
pub fn offset_to_line_col(text: &str, offset: usize) -> (position: (usize, usize))
    ensures
        position.0 == line_at(text@, chars_before(text@, offset as int)),
        position.1 == column_at(text@, chars_before(text@, offset as int)),
{
    let chars = to_chars(text);
    let index = char_index(&chars, offset);
    locate(&chars, index)
}

} // verus!
