//! Selection ranges and the word under a position.

use vstd::prelude::*;
use crate::chars::{run_end, run_start, scan_back_while, scan_while, to_chars, CharClass};
use crate::cursor::CursorPosition;
use crate::lines::{lines_of, split_into_lines};

verus! {

/// A range of the document between two positions, given in either order.
/// The range is half-open: it holds its earlier end and stops before its
/// later end.
#[derive(Debug, Clone, Copy, Default, PartialEq, Eq, Structural)]
pub struct Selection {
    pub start: CursorPosition,
    pub end: CursorPosition,
}

impl Selection {
    /// The earlier end.
    pub open spec fn low(self) -> CursorPosition {
        self.start.min_of(self.end)
    }

    /// The later end.
    pub open spec fn high(self) -> CursorPosition {
        self.start.max_of(self.end)
    }

    /// Whether `position` lies in the range.
    pub open spec fn holds(self, position: CursorPosition) -> bool {
        self.low().at_or_before(position) && position.before(self.high())
    }

    /// Whether the two ranges share a position.
    pub open spec fn meets(self, other: Self) -> bool {
        other.low().before(self.high()) && self.low().before(other.high())
    }

    /// Whether the two ranges share a position or touch end to end.
    pub open spec fn touches(self, other: Self) -> bool {
        other.low().at_or_before(self.high()) && self.low().at_or_before(other.high())
    }

    /// The selection between the two positions.
    pub fn new(start: CursorPosition, end: CursorPosition) -> (s: Self)
        ensures
            s.start == start,
            s.end == end,
    {
        Self { start, end }
    }

    /// The empty selection at `position`.
    pub fn empty(position: CursorPosition) -> (s: Self)
        ensures
            s.start == position,
            s.end == position,
    {
        Self { start: position, end: position }
    }

    /// Whether nothing is selected.
    pub fn is_empty(&self) -> (b: bool)
        ensures
            b == (self.start == self.end),
    {
        self.start == self.end
    }

    /// Whether `position` lies in the range: at or after its earlier end and
    /// before its later end.
    pub fn contains(&self, position: CursorPosition) -> (b: bool)
        ensures
            b == self.holds(position),
    {
        let (low, high) = self.normalized();
        !position.is_before(&low) && position.is_before(&high)
    }

    /// The two ends, the earlier one first.
    pub fn normalized(&self) -> (ends: (CursorPosition, CursorPosition))
        ensures
            ends.0 == self.low(),
            ends.1 == self.high(),
            ends.0.at_or_before(ends.1),
    {
        if self.start.is_before(&self.end) {
            (self.start, self.end)
        } else {
            (self.end, self.start)
        }
    }

    /// Whether the two ranges share a position. Ranges that only touch do not overlap.
    pub fn overlaps(&self, other: &Self) -> (b: bool)
        ensures
            b == self.meets(*other),
    {
        let (self_low, self_high) = self.normalized();
        let (other_low, other_high) = other.normalized();
        other_low.is_before(&self_high) && self_low.is_before(&other_high)
    }

    /// The range that spans both, where they overlap or touch; `None` where a
    /// gap lies between them.
    pub fn merge(&self, other: &Self) -> (r: Option<Self>)
        ensures
            r == if self.touches(*other) {
                Some(
                    Selection {
                        start: self.low().min_of(other.low()),
                        end: self.high().max_of(other.high()),
                    },
                )
            } else {
                None
            },
    {
        let (self_low, self_high) = self.normalized();
        let (other_low, other_high) = other.normalized();
        if !self_high.is_before(&other_low) && !other_high.is_before(&self_low) {
            Some(
                Self {
                    start: CursorPosition::min(&self_low, &other_low),
                    end: CursorPosition::max(&self_high, &other_high),
                },
            )
        } else {
            None
        }
    }
}

/// What a selection gesture selects.
#[derive(Debug, Clone, Copy, Default, PartialEq, Eq)]
pub enum SelectionMode {
    /// Character by character.
    #[default]
    Character,
    /// Whole words.
    Word,
    /// Whole lines.
    Line,
    /// A block of columns.
    Block,
}

/// The way a selection grows under keyboard navigation.
#[derive(Debug, Clone, Copy, PartialEq, Eq)]
pub enum SelectionDirection {
    /// To the right and down.
    Forward,
    /// To the left and up.
    Backward,
}

/// The word around column `column` of line `line`: the longest run of word
/// characters that reaches the column from either side, as columns
/// `(start, end)` of that line. `None` where the line does not exist, the
/// column lies beyond its end, or no word character stands beside the column.
pub open spec fn word_span(lines: Seq<Seq<char>>, line: int, column: int) -> Option<(int, int)> {
    if 0 <= line < lines.len() && 0 <= column <= lines[line].len() {
        let start = run_start(lines[line], column, CharClass::Word);
        let end = run_end(lines[line], column, CharClass::Word);
        if start == end {
            None
        } else {
            Some((start, end))
        }
    } else {
        None
    }
}

/// The columns of the word around a position of `text`.
pub fn word_at_position(text: &str, line: usize, column: usize) -> (r: Option<(usize, usize)>)
    ensures
        match word_span(lines_of(text@), line as int, column as int) {
            Some(span) => r == Some((span.0 as usize, span.1 as usize)) && span.0 <= column
                <= span.1,
            None => r.is_none(),
        },
{
    let chars = to_chars(text);
    let lines = split_into_lines(&chars);
    if line >= lines.len() {
        return None;
    }
    let line_text = &lines[line];
    if column > line_text.len() {
        return None;
    }
    let start = scan_back_while(line_text, column, CharClass::Word);
    let end = scan_while(line_text, column, CharClass::Word);
    if start == end {
        None
    } else {
        Some((start, end))
    }
}

} // verus!
