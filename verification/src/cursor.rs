//! Document coordinates, cursors and the multi-cursor set.

use vstd::prelude::*;
use vstd::std_specs::cmp::PartialOrdSpecImpl;
use std::cmp::Ordering;

verus! {

/// A place in the document: a line and a column, both counted from zero.
/// The column counts characters within the line. Positions are ordered by
/// line first, then by column.
#[derive(Debug, Clone, Copy, Default, PartialEq, Eq, Structural, Ord)]
pub struct CursorPosition {
    pub line: usize,
    pub column: usize,
}

impl CursorPosition {
    /// Whether `self` comes strictly before `other`.
    pub open spec fn before(self, other: Self) -> bool {
        self.line < other.line || (self.line == other.line && self.column < other.column)
    }

    /// Whether `self` comes before `other` or is the same place.
    pub open spec fn at_or_before(self, other: Self) -> bool {
        self.line < other.line || (self.line == other.line && self.column <= other.column)
    }

    /// The earlier of two positions.
    pub open spec fn min_of(self, other: Self) -> Self {
        if self.before(other) {
            self
        } else {
            other
        }
    }

    /// The later of two positions.
    pub open spec fn max_of(self, other: Self) -> Self {
        if self.before(other) {
            other
        } else {
            self
        }
    }

    /// The position at the given line and column.
    pub fn new(line: usize, column: usize) -> (p: Self)
        ensures
            p.line == line,
            p.column == column,
    {
        Self { line, column }
    }

    /// The start of the document.
    pub fn zero() -> (p: Self)
        ensures
            p.line == 0,
            p.column == 0,
    {
        Self { line: 0, column: 0 }
    }

    /// Whether `self` comes strictly before `other`.
    pub fn is_before(&self, other: &Self) -> (b: bool)
        ensures
            b == self.before(*other),
    {
        self.line < other.line || (self.line == other.line && self.column < other.column)
    }

    /// The earlier of two positions.
    pub fn min(&self, other: &Self) -> (p: Self)
        ensures
            p == self.min_of(*other),
    {
        if self.is_before(other) {
            *self
        } else {
            *other
        }
    }

    /// The later of two positions.
    pub fn max(&self, other: &Self) -> (p: Self)
        ensures
            p == self.max_of(*other),
    {
        if self.is_before(other) {
            *other
        } else {
            *self
        }
    }
}

impl PartialOrd for CursorPosition {
    fn partial_cmp(&self, other: &Self) -> (r: Option<Ordering>) {
        if self.line < other.line {
            Some(Ordering::Less)
        } else if self.line > other.line {
            Some(Ordering::Greater)
        } else if self.column < other.column {
            Some(Ordering::Less)
        } else if self.column > other.column {
            Some(Ordering::Greater)
        } else {
            Some(Ordering::Equal)
        }
    }
}

impl PartialOrdSpecImpl for CursorPosition {
    open spec fn obeys_partial_cmp_spec() -> bool {
        true
    }

    open spec fn partial_cmp_spec(&self, other: &Self) -> Option<Ordering> {
        if self.line < other.line {
            Some(Ordering::Less)
        } else if self.line > other.line {
            Some(Ordering::Greater)
        } else if self.column < other.column {
            Some(Ordering::Less)
        } else if self.column > other.column {
            Some(Ordering::Greater)
        } else {
            Some(Ordering::Equal)
        }
    }
}

/// A cursor: the movable end `head` and the fixed end `anchor` of a
/// selection. With both at the same place the cursor is a caret.
#[derive(Debug, Clone, Copy, Default, PartialEq, Eq, Structural)]
pub struct Cursor {
    pub head: CursorPosition,
    pub anchor: CursorPosition,
    /// The column that vertical movement aims for on lines long enough.
    pub preferred_column: Option<usize>,
}

impl Cursor {
    /// The earlier end of the selection.
    pub open spec fn start(self) -> CursorPosition {
        self.head.min_of(self.anchor)
    }

    /// The later end of the selection.
    pub open spec fn end(self) -> CursorPosition {
        self.head.max_of(self.anchor)
    }

    /// Whether the selection of `other` lies within the selection of `self`.
    pub open spec fn covers(self, other: Cursor) -> bool {
        self.start().at_or_before(other.start()) && other.end().at_or_before(self.end())
    }

    /// A caret at `position`.
    pub fn new(position: CursorPosition) -> (c: Self)
        ensures
            c == (Cursor { head: position, anchor: position, preferred_column: None }),
    {
        Self { head: position, anchor: position, preferred_column: None }
    }

    /// A caret at the start of the document.
    pub fn zero() -> (c: Self)
        ensures
            c == (Cursor {
                head: CursorPosition { line: 0, column: 0 },
                anchor: CursorPosition { line: 0, column: 0 },
                preferred_column: None,
            }),
    {
        Self::new(CursorPosition::zero())
    }

    /// A cursor that selects from `anchor` to `head`.
    pub fn with_selection(head: CursorPosition, anchor: CursorPosition) -> (c: Self)
        ensures
            c == (Cursor { head, anchor, preferred_column: None }),
    {
        Self { head, anchor, preferred_column: None }
    }

    /// Whether anything is selected.
    pub fn has_selection(&self) -> (b: bool)
        ensures
            b == (self.head != self.anchor),
    {
        self.head != self.anchor
    }

    /// The earlier end of the selection.
    pub fn selection_start(&self) -> (p: CursorPosition)
        ensures
            p == self.start(),
    {
        CursorPosition::min(&self.head, &self.anchor)
    }

    /// The later end of the selection.
    pub fn selection_end(&self) -> (p: CursorPosition)
        ensures
            p == self.end(),
    {
        CursorPosition::max(&self.head, &self.anchor)
    }

    /// Gives up the selection: the anchor moves to the head.
    pub fn collapse(&mut self)
        ensures
            *final(self) == (Cursor { anchor: old(self).head, ..*old(self) }),
    {
        self.anchor = self.head;
    }

    /// Moves the head to `position`. The anchor follows unless the selection
    /// is being extended.
    pub fn move_to(&mut self, position: CursorPosition, extend_selection: bool)
        ensures
            *final(self) == (Cursor {
                head: position,
                anchor: if extend_selection {
                    old(self).anchor
                } else {
                    position
                },
                ..*old(self)
            }),
    {
        self.head = position;
        if !extend_selection {
            self.anchor = position;
        }
    }

    /// Remembers the column that vertical movement aims for.
    pub fn set_preferred_column(&mut self, column: usize)
        ensures
            *final(self) == (Cursor { preferred_column: Some(column), ..*old(self) }),
    {
        self.preferred_column = Some(column);
    }

    /// Forgets the preferred column, as a horizontal move does.
    pub fn clear_preferred_column(&mut self)
        ensures
            *final(self) == (Cursor { preferred_column: None, ..*old(self) }),
    {
        self.preferred_column = None;
    }
}

/// Where `c` goes into a sequence sorted by selection start: behind every
/// cursor that starts at or before it.
pub open spec fn insert_by_start(s: Seq<Cursor>, c: Cursor) -> Seq<Cursor>
    decreases s.len(),
{
    if s.len() == 0 {
        seq![c]
    } else if s.last().start().at_or_before(c.start()) {
        s.push(c)
    } else {
        insert_by_start(s.drop_last(), c).push(s.last())
    }
}

/// The cursors sorted by selection start. Cursors that start at the same
/// place keep their order.
pub open spec fn sorted_by_start(s: Seq<Cursor>) -> Seq<Cursor>
    decreases s.len(),
{
    if s.len() == 0 {
        s
    } else {
        insert_by_start(sorted_by_start(s.drop_last()), s.last())
    }
}

/// The cursor that stands for `last` and `c` together, where `c` starts
/// within or directly behind `last`. A `c` that ends within `last` changes
/// nothing. Otherwise the range runs from the start of `last` to the end of
/// `c` and points the way `c` points.
pub open spec fn absorb(last: Cursor, c: Cursor) -> Cursor {
    if c.end().at_or_before(last.end()) {
        last
    } else if c.anchor.before(c.head) {
        Cursor { head: c.head, anchor: last.start(), preferred_column: last.preferred_column }
    } else {
        Cursor { head: last.start(), anchor: c.end(), preferred_column: last.preferred_column }
    }
}

/// One pass over cursors sorted by start: a cursor that starts at or before
/// the end of the one before it is absorbed into that one; any other cursor
/// stays on its own.
pub open spec fn sweep(sorted: Seq<Cursor>) -> Seq<Cursor>
    decreases sorted.len(),
{
    if sorted.len() == 0 {
        sorted
    } else {
        let before = sweep(sorted.drop_last());
        let c = sorted.last();
        if before.len() > 0 && c.start().at_or_before(before.last().end()) {
            before.drop_last().push(absorb(before.last(), c))
        } else {
            before.push(c)
        }
    }
}

/// The cursors with every group of touching or overlapping selections
/// joined into one.
pub open spec fn merged(s: Seq<Cursor>) -> Seq<Cursor> {
    sweep(sorted_by_start(s))
}

/// Whether the cursors are sorted by start.
pub open spec fn is_sorted_by_start(s: Seq<Cursor>) -> bool {
    forall|i: int, j: int| 0 <= i < j < s.len() ==> (#[trigger] s[i]).start().at_or_before((#[trigger] s[j]).start())
}

/// Whether the cursors stand in order and apart: each one ends strictly
/// before the next one starts.
pub open spec fn is_separated(s: Seq<Cursor>) -> bool {
    forall|i: int, j: int| 0 <= i < j < s.len() ==> (#[trigger] s[i]).end().before((#[trigger] s[j]).start())
}

proof fn lemma_insert_by_start(s: Seq<Cursor>, c: Cursor)
    requires
        is_sorted_by_start(s),
    ensures
        is_sorted_by_start(insert_by_start(s, c)),
        insert_by_start(s, c).len() == s.len() + 1,
        insert_by_start(s, c).to_multiset() == s.to_multiset().insert(c),
        forall|i: int|
            0 <= i < s.len() + 1 ==> #[trigger] insert_by_start(s, c)[i] == c || exists|j: int|
                0 <= j < s.len() && insert_by_start(s, c)[i] == s[j],
    decreases s.len(),
{
    broadcast use vstd::seq_lib::group_to_multiset_ensures;

    let out = insert_by_start(s, c);
    if s.len() == 0 {
        assert(is_sorted_by_start(out));
    } else if s.last().start().at_or_before(c.start()) {
        assert forall|i: int, j: int| 0 <= i < j < out.len() implies (#[trigger] out[i]).start().at_or_before(
            (#[trigger] out[j]).start(),
        ) by {
            if j == s.len() {
                assert(out[i] == s[i]);
                if i < s.len() - 1 {
                    assert(s[i].start().at_or_before(s[s.len() - 1].start()));
                }
            } else {
                assert(out[i] == s[i] && out[j] == s[j]);
            }
        }
        assert forall|i: int| 0 <= i < s.len() + 1 implies #[trigger] out[i] == c || exists|j: int|
            0 <= j < s.len() && out[i] == s[j] by {
            if i < s.len() {
                assert(out[i] == s[i]);
            }
        }
    } else {
        let front = s.drop_last();
        assert(is_sorted_by_start(front)) by {
            assert forall|i: int, j: int| 0 <= i < j < front.len() implies (
            #[trigger] front[i]).start().at_or_before((#[trigger] front[j]).start()) by {
                assert(front[i] == s[i] && front[j] == s[j]);
            }
        }
        lemma_insert_by_start(front, c);
        let inner = insert_by_start(front, c);
        assert(s =~= front.push(s.last()));
        assert(s.to_multiset() == front.to_multiset().insert(s.last()));
        assert(out.to_multiset() =~= s.to_multiset().insert(c));
        assert forall|i: int| 0 <= i < s.len() + 1 implies #[trigger] out[i] == c || exists|j: int|
            0 <= j < s.len() && out[i] == s[j] by {
            if i < s.len() {
                assert(out[i] == inner[i]);
                if inner[i] != c {
                    let j = choose|j: int| 0 <= j < front.len() && inner[i] == front[j];
                    assert(front[j] == s[j]);
                }
            } else {
                assert(out[i] == s[s.len() - 1]);
            }
        }
        assert forall|i: int, j: int| 0 <= i < j < out.len() implies (#[trigger] out[i]).start().at_or_before(
            (#[trigger] out[j]).start(),
        ) by {
            if j == s.len() {
                assert(out[i] == inner[i]);
                if inner[i] != c {
                    let k = choose|k: int| 0 <= k < front.len() && inner[i] == front[k];
                    assert(front[k] == s[k]);
                    if k < s.len() - 1 {
                        assert(s[k].start().at_or_before(s[s.len() - 1].start()));
                    }
                }
            } else {
                assert(out[i] == inner[i] && out[j] == inner[j]);
            }
        }
    }
}

/// Sorting by start yields a sorted sequence that holds the same cursors.
pub proof fn lemma_sorted_by_start(s: Seq<Cursor>)
    ensures
        is_sorted_by_start(sorted_by_start(s)),
        sorted_by_start(s).len() == s.len(),
        sorted_by_start(s).to_multiset() == s.to_multiset(),
    decreases s.len(),
{
    broadcast use vstd::seq_lib::group_to_multiset_ensures;

    if s.len() > 0 {
        lemma_sorted_by_start(s.drop_last());
        lemma_insert_by_start(sorted_by_start(s.drop_last()), s.last());
        assert(s =~= s.drop_last().push(s.last()));
    } else {
        assert(is_sorted_by_start(s));
    }
}

/// The cursors of `s` that start at `p`, in their order.
pub open spec fn starting_at(s: Seq<Cursor>, p: CursorPosition) -> Seq<Cursor>
    decreases s.len(),
{
    if s.len() == 0 {
        s
    } else if s.last().start() == p {
        starting_at(s.drop_last(), p).push(s.last())
    } else {
        starting_at(s.drop_last(), p)
    }
}

proof fn lemma_insert_keeps_order(s: Seq<Cursor>, c: Cursor, p: CursorPosition)
    ensures
        starting_at(insert_by_start(s, c), p) == if c.start() == p {
            starting_at(s, p).push(c)
        } else {
            starting_at(s, p)
        },
    decreases s.len(),
{
    if s.len() == 0 {
        assert(seq![c].drop_last() =~= s);
    } else if s.last().start().at_or_before(c.start()) {
        assert(s.push(c).drop_last() =~= s);
    } else {
        let inner = insert_by_start(s.drop_last(), c);
        lemma_insert_keeps_order(s.drop_last(), c, p);
        assert(inner.push(s.last()).drop_last() =~= inner);
    }
}

/// The sort is stable: the cursors that start at one place come out in the
/// order in which they went in.
pub proof fn lemma_sort_is_stable(s: Seq<Cursor>, p: CursorPosition)
    ensures
        starting_at(sorted_by_start(s), p) == starting_at(s, p),
    decreases s.len(),
{
    if s.len() > 0 {
        lemma_sort_is_stable(s.drop_last(), p);
        lemma_insert_keeps_order(sorted_by_start(s.drop_last()), s.last(), p);
    }
}

proof fn lemma_absorb(last: Cursor, c: Cursor)
    requires
        last.start().at_or_before(c.start()),
        c.start().at_or_before(last.end()),
    ensures
        absorb(last, c).start() == last.start(),
        absorb(last, c).end() == last.end().max_of(c.end()),
        last.end().at_or_before(absorb(last, c).end()),
        c.end().at_or_before(absorb(last, c).end()),
{
}

proof fn lemma_sweep(sorted: Seq<Cursor>)
    requires
        is_sorted_by_start(sorted),
    ensures
        is_separated(sweep(sorted)),
        sweep(sorted).len() <= sorted.len(),
        sorted.len() > 0 ==> sweep(sorted).len() > 0 && sweep(sorted).last().start().at_or_before(
            sorted.last().start(),
        ) && sorted.last().end().at_or_before(sweep(sorted).last().end()),
        sorted.len() > 0 ==> sweep(sorted)[0].start() == sorted[0].start(),
    decreases sorted.len(),
{
    if sorted.len() > 0 {
        let front = sorted.drop_last();
        let c = sorted.last();
        assert(is_sorted_by_start(front)) by {
            assert forall|i: int, j: int| 0 <= i < j < front.len() implies (
            #[trigger] front[i]).start().at_or_before((#[trigger] front[j]).start()) by {
                assert(front[i] == sorted[i] && front[j] == sorted[j]);
            }
        }
        lemma_sweep(front);
        let before = sweep(front);
        let out = sweep(sorted);
        if front.len() > 0 {
            assert(front.last() == sorted[sorted.len() - 2]);
            assert(sorted[sorted.len() - 2].start().at_or_before(sorted[sorted.len() - 1].start()));
            assert(front[0] == sorted[0]);
        }
        if before.len() > 0 && c.start().at_or_before(before.last().end()) {
            let last = before.last();
            lemma_absorb(last, c);
            assert forall|i: int, j: int| 0 <= i < j < out.len() implies (#[trigger] out[i]).end().before(
                (#[trigger] out[j]).start(),
            ) by {
                assert(out[i] == before[i]);
                if j < out.len() - 1 {
                    assert(out[j] == before[j]);
                } else {
                    assert(before[i].end().before(before[before.len() - 1].start()));
                }
            }
        } else {
            assert forall|i: int, j: int| 0 <= i < j < out.len() implies (#[trigger] out[i]).end().before(
                (#[trigger] out[j]).start(),
            ) by {
                assert(out[i] == before[i]);
                if j < out.len() - 1 {
                    assert(out[j] == before[j]);
                } else {
                    assert(out[j] == c);
                    if i < before.len() - 1 {
                        assert(before[i].end().before(before[before.len() - 1].start()));
                    }
                }
            }
        }
    } else {
        assert(is_separated(sweep(sorted)));
    }
}

/// Merging always yields cursors that stand in order and apart, and it
/// leaves at least one cursor of a set that had one.
pub proof fn lemma_merged_is_separated(s: Seq<Cursor>)
    ensures
        is_separated(merged(s)),
        is_sorted_by_start(merged(s)),
        merged(s).len() <= s.len(),
        s.len() > 0 ==> merged(s).len() > 0,
{
    lemma_sorted_by_start(s);
    lemma_sweep(sorted_by_start(s));
    let out = merged(s);
    assert forall|i: int, j: int| 0 <= i < j < out.len() implies (#[trigger] out[i]).start().at_or_before(
        (#[trigger] out[j]).start(),
    ) by {
        assert(out[i].end().before(out[j].start()));
    }
}

proof fn lemma_insert_by_start_at(s: Seq<Cursor>, c: Cursor, k: int)
    requires
        0 <= k <= s.len(),
        forall|i: int| 0 <= i < k ==> (#[trigger] s[i]).start().at_or_before(c.start()),
        forall|i: int| k <= i < s.len() ==> !(#[trigger] s[i]).start().at_or_before(c.start()),
    ensures
        insert_by_start(s, c) == s.insert(k, c),
    decreases s.len() - k,
{
    if s.len() == 0 {
        assert(insert_by_start(s, c) =~= s.insert(k, c));
    } else if k == s.len() {
        assert(s[s.len() - 1].start().at_or_before(c.start()));
        assert(insert_by_start(s, c) =~= s.insert(k, c));
    } else {
        assert(!s[s.len() - 1].start().at_or_before(c.start()));
        let front = s.drop_last();
        assert forall|i: int| 0 <= i < k implies (#[trigger] front[i]).start().at_or_before(c.start()) by {
            assert(front[i] == s[i]);
        }
        assert forall|i: int| k <= i < front.len() implies !(#[trigger] front[i]).start().at_or_before(
            c.start(),
        ) by {
            assert(front[i] == s[i]);
        }
        lemma_insert_by_start_at(front, c, k);
        assert(front.insert(k, c).push(s.last()) =~= s.insert(k, c));
    }
}

proof fn lemma_sorted_is_fixed(s: Seq<Cursor>)
    requires
        is_sorted_by_start(s),
    ensures
        sorted_by_start(s) == s,
    decreases s.len(),
{
    if s.len() > 0 {
        let front = s.drop_last();
        assert forall|i: int, j: int| 0 <= i < j < front.len() implies (
        #[trigger] front[i]).start().at_or_before((#[trigger] front[j]).start()) by {
            assert(front[i] == s[i] && front[j] == s[j]);
        }
        lemma_sorted_is_fixed(front);
        assert forall|i: int| 0 <= i < front.len() implies (#[trigger] front[i]).start().at_or_before(
            s.last().start(),
        ) by {
            assert(front[i] == s[i]);
            assert(s[i].start().at_or_before(s[s.len() - 1].start()));
        }
        lemma_insert_by_start_at(front, s.last(), front.len() as int);
        assert(front.insert(front.len() as int, s.last()) =~= s);
    }
}

proof fn lemma_sweep_separated_is_fixed(s: Seq<Cursor>)
    requires
        is_separated(s),
    ensures
        sweep(s) == s,
    decreases s.len(),
{
    if s.len() > 0 {
        let front = s.drop_last();
        assert forall|i: int, j: int| 0 <= i < j < front.len() implies (#[trigger] front[i]).end().before(
            (#[trigger] front[j]).start(),
        ) by {
            assert(front[i] == s[i] && front[j] == s[j]);
        }
        lemma_sweep_separated_is_fixed(front);
        if front.len() > 0 {
            assert(front.last() == s[s.len() - 2]);
            assert(s[s.len() - 2].end().before(s[s.len() - 1].start()));
        }
        assert(front.push(s.last()) =~= s);
    }
}

proof fn lemma_sweep_with_covered(s: Seq<Cursor>, c: Cursor, k: int, upto: int)
    requires
        is_separated(s),
        0 <= k < upto <= s.len(),
        s[k].covers(c),
    ensures
        sweep(s.insert(k + 1, c).take(upto + 1)) == s.take(upto),
    decreases upto - k,
{
    let with_c = s.insert(k + 1, c);
    let part = with_c.take(upto + 1);
    if upto == k + 1 {
        let front = s.take(k + 1);
        assert forall|i: int, j: int| 0 <= i < j < front.len() implies (#[trigger] front[i]).end().before(
            (#[trigger] front[j]).start(),
        ) by {
            assert(front[i] == s[i] && front[j] == s[j]);
        }
        lemma_sweep_separated_is_fixed(front);
        assert(part.drop_last() =~= front);
        assert(part.last() == c);
        assert(front.last() == s[k]);
        assert(absorb(s[k], c) == s[k]);
        assert(front.drop_last().push(s[k]) =~= front);
    } else {
        lemma_sweep_with_covered(s, c, k, upto - 1);
        assert(part.drop_last() =~= with_c.take(upto));
        assert(part.last() == s[upto - 1]);
        let before = s.take(upto - 1);
        assert(before.last() == s[upto - 2]);
        assert(s[upto - 2].end().before(s[upto - 1].start()));
        assert(before.push(s[upto - 1]) =~= s.take(upto));
    }
}

/// Adding a cursor whose selection lies within that of a cursor of the set
/// changes nothing, where the set stands in order and apart.
pub proof fn lemma_covered_cursor_is_absorbed(s: Seq<Cursor>, c: Cursor, k: int)
    requires
        is_separated(s),
        0 <= k < s.len(),
        s[k].covers(c),
    ensures
        merged(s.push(c)) == s,
{
    assert forall|i: int, j: int| 0 <= i < j < s.len() implies (#[trigger] s[i]).start().at_or_before(
        (#[trigger] s[j]).start(),
    ) by {
        assert(s[i].end().before(s[j].start()));
    }
    lemma_sorted_is_fixed(s);
    assert(s.push(c).drop_last() =~= s);
    assert forall|i: int| 0 <= i < k + 1 implies (#[trigger] s[i]).start().at_or_before(c.start()) by {
        if i < k {
            assert(s[i].end().before(s[k].start()));
        }
    }
    assert forall|i: int| k + 1 <= i < s.len() implies !(#[trigger] s[i]).start().at_or_before(c.start()) by {
        assert(s[k].end().before(s[i].start()));
    }
    lemma_insert_by_start_at(s, c, k + 1);
    assert(sorted_by_start(s.push(c)) == s.insert(k + 1, c));
    lemma_sweep_with_covered(s, c, k, s.len() as int);
    assert(s.insert(k + 1, c).take(s.len() as int + 1) =~= s.insert(k + 1, c));
    assert(s.take(s.len() as int) =~= s);
}

/// Whether `p` lies within the selection of some cursor of `s`, its ends included.
pub open spec fn reaches(s: Seq<Cursor>, p: CursorPosition) -> bool {
    exists|i: int| 0 <= i < s.len() && (#[trigger] s[i]).start().at_or_before(p) && p.at_or_before(s[i].end())
}

proof fn lemma_insert_reaches(s: Seq<Cursor>, c: Cursor, p: CursorPosition)
    ensures
        reaches(insert_by_start(s, c), p) == (reaches(s, p) || (c.start().at_or_before(p)
            && p.at_or_before(c.end()))),
    decreases s.len(),
{
    let out = insert_by_start(s, c);
    let hit = |x: Cursor| x.start().at_or_before(p) && p.at_or_before(x.end());
    if s.len() == 0 {
        if reaches(out, p) {
            let i = choose|i: int| 0 <= i < out.len() && hit(#[trigger] out[i]);
            assert(out[i] == c);
        }
        if hit(c) {
            assert(hit(out[0]));
        }
    } else if s.last().start().at_or_before(c.start()) {
        if reaches(out, p) {
            let i = choose|i: int| 0 <= i < out.len() && hit(#[trigger] out[i]);
            if i < s.len() {
                assert(hit(s[i]));
            }
        }
        if reaches(s, p) {
            let i = choose|i: int| 0 <= i < s.len() && hit(#[trigger] s[i]);
            assert(hit(out[i]));
        }
        if hit(c) {
            assert(hit(out[s.len() as int]));
        }
    } else {
        let front = s.drop_last();
        let inner = insert_by_start(front, c);
        lemma_insert_reaches(front, c, p);
        if reaches(out, p) {
            let i = choose|i: int| 0 <= i < out.len() && hit(#[trigger] out[i]);
            if i < inner.len() {
                assert(hit(inner[i]));
                if reaches(front, p) {
                    let j = choose|j: int| 0 <= j < front.len() && hit(#[trigger] front[j]);
                    assert(hit(s[j]));
                }
            } else {
                assert(hit(s[s.len() - 1]));
            }
        }
        if reaches(s, p) {
            let i = choose|i: int| 0 <= i < s.len() && hit(#[trigger] s[i]);
            if i < front.len() {
                assert(hit(front[i]));
                let j = choose|j: int| 0 <= j < inner.len() && hit(#[trigger] inner[j]);
                assert(hit(out[j]));
            } else {
                assert(hit(out[out.len() - 1]));
            }
        }
        if hit(c) {
            let j = choose|j: int| 0 <= j < inner.len() && hit(#[trigger] inner[j]);
            assert(hit(out[j]));
        }
    }
}

proof fn lemma_sorted_reaches(s: Seq<Cursor>, p: CursorPosition)
    ensures
        reaches(sorted_by_start(s), p) == reaches(s, p),
    decreases s.len(),
{
    let hit = |x: Cursor| x.start().at_or_before(p) && p.at_or_before(x.end());
    if s.len() > 0 {
        let front = s.drop_last();
        lemma_sorted_reaches(front, p);
        lemma_insert_reaches(sorted_by_start(front), s.last(), p);
        if reaches(s, p) {
            let i = choose|i: int| 0 <= i < s.len() && hit(#[trigger] s[i]);
            if i < front.len() {
                assert(hit(front[i]));
            }
        }
        if reaches(front, p) {
            let i = choose|i: int| 0 <= i < front.len() && hit(#[trigger] front[i]);
            assert(hit(s[i]));
        }
        if hit(s.last()) {
            assert(hit(s[s.len() - 1]));
        }
    }
}

proof fn lemma_sweep_reaches(sorted: Seq<Cursor>, p: CursorPosition)
    requires
        is_sorted_by_start(sorted),
    ensures
        reaches(sweep(sorted), p) == reaches(sorted, p),
    decreases sorted.len(),
{
    let hit = |x: Cursor| x.start().at_or_before(p) && p.at_or_before(x.end());
    if sorted.len() > 0 {
        let front = sorted.drop_last();
        let c = sorted.last();
        assert(is_sorted_by_start(front)) by {
            assert forall|i: int, j: int| 0 <= i < j < front.len() implies (
            #[trigger] front[i]).start().at_or_before((#[trigger] front[j]).start()) by {
                assert(front[i] == sorted[i] && front[j] == sorted[j]);
            }
        }
        lemma_sweep_reaches(front, p);
        lemma_sweep(front);
        let before = sweep(front);
        let out = sweep(sorted);
        if front.len() > 0 {
            assert(front.last() == sorted[sorted.len() - 2]);
            assert(sorted[sorted.len() - 2].start().at_or_before(sorted[sorted.len() - 1].start()));
        }
        let joins = before.len() > 0 && c.start().at_or_before(before.last().end());
        if joins {
            lemma_absorb(before.last(), c);
        }
        if reaches(out, p) {
            let i = choose|i: int| 0 <= i < out.len() && hit(#[trigger] out[i]);
            if i < out.len() - 1 {
                assert(hit(before[i]));
                let j = choose|j: int| 0 <= j < front.len() && hit(#[trigger] front[j]);
                assert(hit(sorted[j]));
            } else if joins {
                if hit(before[before.len() - 1]) {
                    let j = choose|j: int| 0 <= j < front.len() && hit(#[trigger] front[j]);
                    assert(hit(sorted[j]));
                } else {
                    assert(hit(sorted[sorted.len() - 1]));
                }
            } else {
                assert(hit(sorted[sorted.len() - 1]));
            }
        }
        if reaches(sorted, p) {
            let i = choose|i: int| 0 <= i < sorted.len() && hit(#[trigger] sorted[i]);
            if i < front.len() {
                assert(hit(front[i]));
                let j = choose|j: int| 0 <= j < before.len() && hit(#[trigger] before[j]);
                if joins && j == before.len() - 1 {
                    assert(hit(out[out.len() - 1]));
                } else {
                    assert(hit(out[j]));
                }
            } else {
                assert(hit(out[out.len() - 1]));
            }
        }
    }
}

/// Merging loses nothing and adds nothing: a position lies within a merged
/// selection exactly where it lies within one of the selections merged.
pub proof fn lemma_merged_reaches_the_same(s: Seq<Cursor>, p: CursorPosition)
    ensures
        reaches(merged(s), p) == reaches(s, p),
{
    lemma_sorted_by_start(s);
    lemma_sorted_reaches(s, p);
    lemma_sweep_reaches(sorted_by_start(s), p);
}

/// Merging cursors that already stand in order and apart changes nothing;
/// so merging twice is the same as merging once.
pub proof fn lemma_merged_is_fixed(s: Seq<Cursor>)
    ensures
        is_separated(s) ==> merged(s) == s,
        merged(merged(s)) == merged(s),
{
    if is_separated(s) {
        lemma_separated_is_fixed(s);
    }
    lemma_merged_is_separated(s);
    lemma_separated_is_fixed(merged(s));
}

proof fn lemma_separated_is_fixed(s: Seq<Cursor>)
    requires
        is_separated(s),
    ensures
        merged(s) == s,
{
    assert forall|i: int, j: int| 0 <= i < j < s.len() implies (#[trigger] s[i]).start().at_or_before(
        (#[trigger] s[j]).start(),
    ) by {
        assert(s[i].end().before(s[j].start()));
    }
    lemma_sorted_is_fixed(s);
    lemma_sweep_separated_is_fixed(s);
}

fn insert_sorted(out: &mut Vec<Cursor>, c: Cursor)
    ensures
        final(out)@ == insert_by_start(old(out)@, c),
{
    let ghost before = out@;
    let target = c.selection_start();
    let mut j = out.len();
    proof {
        assert(before.take(j as int) =~= before);
        assert(insert_by_start(before, c) + before.skip(j as int) =~= insert_by_start(before, c));
    }
    while j > 0 && target.is_before(&out[j - 1].selection_start())
        invariant
            j <= out@.len(),
            out@ == before,
            target == c.start(),
            insert_by_start(before, c) == insert_by_start(before.take(j as int), c) + before.skip(
                j as int,
            ),
        decreases j,
    {
        proof {
            let part = before.take(j as int);
            assert(part.last() == before[j - 1]);
            assert(part.drop_last() =~= before.take(j - 1));
            assert(insert_by_start(before.take(j - 1), c).push(before[j - 1]) + before.skip(
                j as int,
            ) =~= insert_by_start(before.take(j - 1), c) + before.skip(j - 1));
        }
        j -= 1;
    }
    proof {
        let part = before.take(j as int);
        if j > 0 {
            assert(part.last() == before[j - 1]);
        }
        assert(insert_by_start(part, c) == part.push(c));
        assert(part.push(c) + before.skip(j as int) =~= before.insert(j as int, c));
    }
    out.insert(j, c);
}

fn sort_by_start(v: &Vec<Cursor>) -> (out: Vec<Cursor>)
    ensures
        out@ == sorted_by_start(v@),
{
    let n = v.len();
    let mut out: Vec<Cursor> = Vec::new();
    let mut i: usize = 0;
    while i < n
        invariant
            i <= n,
            n == v@.len(),
            out@ == sorted_by_start(v@.take(i as int)),
        decreases n - i,
    {
        proof {
            let part = v@.take(i + 1);
            assert(part.drop_last() =~= v@.take(i as int));
            assert(part.last() == v@[i as int]);
        }
        insert_sorted(&mut out, v[i]);
        i += 1;
    }
    assert(v@.take(n as int) =~= v@);
    out
}

fn absorb_cursor(last: &Cursor, c: &Cursor) -> (r: Cursor)
    ensures
        r == absorb(*last, *c),
{
    let last_end = last.selection_end();
    let c_end = c.selection_end();
    if !last_end.is_before(&c_end) {
        *last
    } else if c.anchor.is_before(&c.head) {
        Cursor {
            head: c.head,
            anchor: last.selection_start(),
            preferred_column: last.preferred_column,
        }
    } else {
        Cursor { head: last.selection_start(), anchor: c_end, preferred_column: last.preferred_column }
    }
}

fn sweep_sorted(sorted: &Vec<Cursor>) -> (out: Vec<Cursor>)
    ensures
        out@ == sweep(sorted@),
{
    let n = sorted.len();
    let mut out: Vec<Cursor> = Vec::new();
    let mut i: usize = 0;
    while i < n
        invariant
            i <= n,
            n == sorted@.len(),
            out@ == sweep(sorted@.take(i as int)),
        decreases n - i,
    {
        proof {
            let part = sorted@.take(i + 1);
            assert(part.drop_last() =~= sorted@.take(i as int));
            assert(part.last() == sorted@[i as int]);
        }
        let c = sorted[i];
        let m = out.len();
        if m > 0 && !out[m - 1].selection_end().is_before(&c.selection_start()) {
            let joined = absorb_cursor(&out[m - 1], &c);
            let ghost before = out@;
            out.set(m - 1, joined);
            assert(out@ =~= before.drop_last().push(joined));
        } else {
            out.push(c);
        }
        i += 1;
    }
    assert(sorted@.take(n as int) =~= sorted@);
    out
}

/// One or more cursors. The first is the primary cursor.
#[derive(Debug)]
pub struct CursorSet {
    cursors: Vec<Cursor>,
}

impl View for CursorSet {
    type V = Seq<Cursor>;

    closed spec fn view(&self) -> Seq<Cursor> {
        self.cursors@
    }
}

impl Clone for CursorSet {
    fn clone(&self) -> (r: Self)
        ensures
            r@ == self@,
    {
        proof {
            use_type_invariant(self);
        }
        let cursors = self.cursors.clone();
        assert(cursors@ =~= self.cursors@);
        Self { cursors }
    }
}

impl Default for CursorSet {
    fn default() -> (s: Self)
        ensures
            s@ == seq![
                Cursor {
                    head: CursorPosition { line: 0, column: 0 },
                    anchor: CursorPosition { line: 0, column: 0 },
                    preferred_column: None,
                },
            ],
    {
        CursorSet::new(Cursor::zero())
    }
}

impl CursorSet {
    #[verifier::type_invariant]
    spec fn never_empty(self) -> bool {
        self.cursors@.len() > 0
    }

    /// A set of the one cursor.
    pub fn new(cursor: Cursor) -> (s: Self)
        ensures
            s@ == seq![cursor],
    {
        let mut cursors = Vec::new();
        cursors.push(cursor);
        Self { cursors }
    }

    /// A set of the given cursors, in their order, or `None` where there
    /// are none: a set never runs empty.
    pub fn from_cursors(cursors: Vec<Cursor>) -> (s: Option<Self>)
        ensures
            match s {
                Some(set) => cursors@.len() > 0 && set@ == cursors@,
                None => cursors@.len() == 0,
            },
    {
        if cursors.len() == 0 {
            None
        } else {
            Some(Self { cursors })
        }
    }

    /// The primary cursor.
    pub fn primary(&self) -> (c: &Cursor)
        ensures
            self@.len() > 0,
            *c == self@[0],
    {
        proof {
            use_type_invariant(self);
        }
        &self.cursors[0]
    }

    /// The primary cursor, to be changed in place.
    pub fn primary_mut(&mut self) -> (c: &mut Cursor)
        ensures
            old(self)@.len() > 0,
            *c == old(self)@[0],
            final(self)@ == old(self)@.update(0, *final(c)),
    {
        proof {
            use_type_invariant(&*self);
        }
        &mut self.cursors[0]
    }

    /// All cursors, the primary one first.
    pub fn all(&self) -> (cursors: &[Cursor])
        ensures
            cursors@ == self@,
            cursors@.len() > 0,
    {
        proof {
            use_type_invariant(self);
        }
        self.cursors.as_slice()
    }

    /// Whether there is more than one cursor.
    pub fn is_multi(&self) -> (b: bool)
        ensures
            b == (self@.len() > 1),
    {
        self.cursors.len() > 1
    }

    /// Adds a cursor and merges the set: the cursors are sorted by the start
    /// of their selections, and selections that touch or overlap are joined.
    /// Afterwards the cursors stand in order and apart.
    pub fn add(&mut self, cursor: Cursor)
        ensures
            final(self)@ == merged(old(self)@.push(cursor)),
            is_separated(final(self)@),
            is_sorted_by_start(final(self)@),
    {
        proof {
            use_type_invariant(&*self);
        }
        let mut all = self.cursors.clone();
        assert(all@ =~= self.cursors@);
        all.push(cursor);
        let sorted = sort_by_start(&all);
        let merged = sweep_sorted(&sorted);
        proof {
            lemma_merged_is_separated(all@);
        }
        self.cursors = merged;
    }

    /// Sorts the cursors by the start of their selections and joins those
    /// that touch or overlap.
    pub fn merge_overlapping(&mut self)
        ensures
            final(self)@ == merged(old(self)@),
            is_separated(final(self)@),
            is_sorted_by_start(final(self)@),
    {
        proof {
            use_type_invariant(&*self);
        }
        let sorted = sort_by_start(&self.cursors);
        let merged = sweep_sorted(&sorted);
        proof {
            lemma_merged_is_separated(self.cursors@);
        }
        self.cursors = merged;
    }

    /// Drops every cursor but the primary one.
    pub fn collapse_to_primary(&mut self)
        ensures
            old(self)@.len() > 0,
            final(self)@ == seq![old(self)@[0]],
    {
        proof {
            use_type_invariant(&*self);
        }
        let primary = self.cursors[0];
        let mut cursors = Vec::new();
        cursors.push(primary);
        self.cursors = cursors;
    }
}

} // verus!
