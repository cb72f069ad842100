//! Fold regions: collapsible line ranges, the state that holds them, and the
//! detection of headings and fenced code blocks in markdown-like text.

use vstd::prelude::*;
use crate::chars::{
    occurs_at, run_end, run_start, scan_back_while, scan_while, slice_string, starts_with_at,
    to_chars, CharClass,
};
use crate::lines::{copy_spans, line_spans, lines_of, split_lines};

verus! {

/// What a fold region encloses.
#[derive(Debug, Clone, Copy, PartialEq, Eq, Hash, Structural)]
pub enum FoldKind {
    /// The section under a heading of the given level, 1 to 6.
    Heading(u8),
    /// A fenced code block.
    CodeBlock,
    /// A list.
    List,
    /// A block quote.
    Blockquote,
    /// A block set off by indentation.
    Indentation,
    /// A region marked by hand.
    Custom,
}

/// A range of lines that can be collapsed. The start line stays visible as
/// the header of the fold; the lines after it, up to and including the end
/// line, are hidden while the region is folded.
#[derive(Debug, Clone)]
pub struct FoldRegion {
    pub id: u64,
    pub start_line: usize,
    pub end_line: usize,
    pub kind: FoldKind,
    pub preview: Option<String>,
    pub is_folded: bool,
}

/// The mathematical value of a `FoldRegion`.
pub struct FoldRegionView {
    pub id: u64,
    pub start_line: usize,
    pub end_line: usize,
    pub kind: FoldKind,
    pub preview: Option<Seq<char>>,
    pub is_folded: bool,
}

impl FoldRegionView {
    /// Whether folding this region hides `line`: every line after the start
    /// line, up to and including the end line.
    pub open spec fn contains_line(self, line: usize) -> bool {
        self.start_line < line <= self.end_line
    }

    /// The same region with its folded flag set to `folded`.
    pub open spec fn with_folded(self, folded: bool) -> Self {
        FoldRegionView { is_folded: folded, ..self }
    }
}

impl View for FoldRegion {
    type V = FoldRegionView;

    open spec fn view(&self) -> FoldRegionView {
        FoldRegionView {
            id: self.id,
            start_line: self.start_line,
            end_line: self.end_line,
            kind: self.kind,
            preview: match self.preview {
                Some(text) => Some(text@),
                None => None,
            },
            is_folded: self.is_folded,
        }
    }
}

impl FoldRegion {
    /// An unfolded region without preview text.
    pub fn new(id: u64, start_line: usize, end_line: usize, kind: FoldKind) -> (r: Self)
        ensures
            r@ == (FoldRegionView {
                id,
                start_line,
                end_line,
                kind,
                preview: None,
                is_folded: false,
            }),
    {
        Self { id, start_line, end_line, kind, preview: None, is_folded: false }
    }

    /// An unfolded region that shows `preview` while it is collapsed.
    pub fn with_preview(
        id: u64,
        start_line: usize,
        end_line: usize,
        kind: FoldKind,
        preview: String,
    ) -> (r: Self)
        ensures
            r@ == (FoldRegionView {
                id,
                start_line,
                end_line,
                kind,
                preview: Some(preview@),
                is_folded: false,
            }),
    {
        Self { id, start_line, end_line, kind, preview: Some(preview), is_folded: false }
    }

    /// The number of lines of the region, start and end line included. An end
    /// line before the start line counts as a region of one line.
    pub fn line_count(&self) -> (n: usize)
        requires
            self.end_line - self.start_line < usize::MAX,
        ensures
            n == if self.end_line >= self.start_line {
                self.end_line - self.start_line + 1
            } else {
                1
            },
    {
        if self.end_line >= self.start_line {
            self.end_line - self.start_line + 1
        } else {
            1
        }
    }

    /// Whether folding this region hides `line`.
    pub fn contains_line(&self, line: usize) -> (b: bool)
        ensures
            b == self@.contains_line(line),
            b == (self.start_line < line && line <= self.end_line),
    {
        line > self.start_line && line <= self.end_line
    }

    /// Folds an unfolded region and unfolds a folded one.
    pub fn toggle(&mut self)
        ensures
            final(self)@ == old(self)@.with_folded(!old(self).is_folded),
    {
        self.is_folded = !self.is_folded;
    }
}

/// The mathematical value of a `FoldState`: its regions in the order in
/// which they were added, the next id to hand out, and the dirty flag.
pub struct FoldStateView {
    pub regions: Seq<FoldRegionView>,
    pub next_id: u64,
    pub is_dirty: bool,
}

/// What a region is looked up by.
pub enum RegionQuery {
    /// The region's id.
    Id(u64),
    /// The line on which the region starts.
    StartLine(usize),
}

impl RegionQuery {
    /// Whether `region` answers the query.
    pub open spec fn accepts(self, region: FoldRegionView) -> bool {
        match self {
            RegionQuery::Id(id) => region.id == id,
            RegionQuery::StartLine(line) => region.start_line == line,
        }
    }
}

impl FoldStateView {
    /// The ids are handed out in ascending order: each region's id is larger
    /// than the ids before it and smaller than the next id to hand out. Such
    /// a state maps each id to at most one region.
    pub open spec fn ids_ascend(self) -> bool {
        &&& forall|i: int, j: int|
            0 <= i < j < self.regions.len() ==> (#[trigger] self.regions[i]).id < (
            #[trigger] self.regions[j]).id
        &&& forall|i: int|
            0 <= i < self.regions.len() ==> (#[trigger] self.regions[i]).id < self.next_id
    }

    /// The index of the first region at or after `from` that answers `query`.
    pub open spec fn find(self, query: RegionQuery, from: int) -> Option<int>
        decreases self.regions.len() - from,
    {
        if from < 0 || from >= self.regions.len() {
            None
        } else if query.accepts(self.regions[from]) {
            Some(from)
        } else {
            self.find(query, from + 1)
        }
    }

    /// Whether `line` is hidden: some folded region contains it.
    pub open spec fn hides(self, line: usize) -> bool {
        exists|i: int|
            0 <= i < self.regions.len() && (#[trigger] self.regions[i]).is_folded
                && self.regions[i].contains_line(line)
    }

    /// The regions after every region that `kind` selects had its folded flag
    /// set to `folded`. `None` selects all regions.
    pub open spec fn with_all_folded(self, kind: Option<FoldKind>, folded: bool) -> Seq<
        FoldRegionView,
    > {
        Seq::new(
            self.regions.len(),
            |i: int|
                if kind.is_none() || kind == Some(self.regions[i].kind) {
                    self.regions[i].with_folded(folded)
                } else {
                    self.regions[i]
                },
        )
    }
}

/// `find` answers with the first accepted region at or after `from`, and with
/// `None` only when no region from there on is accepted.
pub proof fn lemma_find(state: FoldStateView, query: RegionQuery, from: int)
    requires
        0 <= from,
    ensures
        match state.find(query, from) {
            Some(i) => from <= i < state.regions.len() && query.accepts(state.regions[i])
                && forall|j: int| from <= j < i ==> !query.accepts(#[trigger] state.regions[j]),
            None => forall|j: int|
                from <= j < state.regions.len() ==> !query.accepts(#[trigger] state.regions[j]),
        },
    decreases state.regions.len() - from,
{
    if from < state.regions.len() && !query.accepts(state.regions[from]) {
        lemma_find(state, query, from + 1);
    }
}

/// Where the indicator `entry` goes into indicators sorted by line: behind
/// every indicator of the same or an earlier line.
pub open spec fn insert_indicator(sorted: Seq<(usize, bool)>, entry: (usize, bool)) -> Seq<
    (usize, bool),
>
    decreases sorted.len(),
{
    if sorted.len() == 0 {
        seq![entry]
    } else if sorted.last().0 <= entry.0 {
        sorted.push(entry)
    } else {
        insert_indicator(sorted.drop_last(), entry).push(sorted.last())
    }
}

/// The fold indicators of the first `upto` regions: the start line and the
/// folded flag of each, sorted by line. Regions that start on one line keep
/// their order.
pub open spec fn indicators(regions: Seq<FoldRegionView>, upto: int) -> Seq<(usize, bool)>
    decreases upto,
{
    if upto <= 0 {
        Seq::empty()
    } else {
        insert_indicator(
            indicators(regions, upto - 1),
            (regions[upto - 1].start_line, regions[upto - 1].is_folded),
        )
    }
}

/// Whether the indicators are sorted by line.
pub open spec fn indicators_sorted(s: Seq<(usize, bool)>) -> bool {
    forall|i: int, j: int| 0 <= i < j < s.len() ==> (#[trigger] s[i]).0 <= (#[trigger] s[j]).0
}

proof fn lemma_insert_indicator(sorted: Seq<(usize, bool)>, entry: (usize, bool))
    requires
        indicators_sorted(sorted),
    ensures
        indicators_sorted(insert_indicator(sorted, entry)),
        insert_indicator(sorted, entry).len() == sorted.len() + 1,
        forall|i: int|
            0 <= i < sorted.len() + 1 ==> (#[trigger] insert_indicator(sorted, entry)[i]).0
                == entry.0 || exists|j: int|
                0 <= j < sorted.len() && insert_indicator(sorted, entry)[i].0 == sorted[j].0,
    decreases sorted.len(),
{
    let out = insert_indicator(sorted, entry);
    if sorted.len() == 0 {
    } else if sorted.last().0 <= entry.0 {
        assert forall|i: int, j: int| 0 <= i < j < out.len() implies (#[trigger] out[i]).0 <= (
        #[trigger] out[j]).0 by {
            if j == sorted.len() {
                assert(out[i] == sorted[i]);
                if i < sorted.len() - 1 {
                    assert(sorted[i].0 <= sorted[sorted.len() - 1].0);
                }
            } else {
                assert(out[i] == sorted[i] && out[j] == sorted[j]);
            }
        }
        assert forall|i: int| 0 <= i < sorted.len() + 1 implies (#[trigger] out[i]).0 == entry.0
            || exists|j: int| 0 <= j < sorted.len() && out[i].0 == sorted[j].0 by {
            if i < sorted.len() {
                assert(out[i] == sorted[i]);
            }
        }
    } else {
        let front = sorted.drop_last();
        assert forall|i: int, j: int| 0 <= i < j < front.len() implies (#[trigger] front[i]).0 <= (
        #[trigger] front[j]).0 by {
            assert(front[i] == sorted[i] && front[j] == sorted[j]);
        }
        lemma_insert_indicator(front, entry);
        let inner = insert_indicator(front, entry);
        assert forall|i: int| 0 <= i < sorted.len() + 1 implies (#[trigger] out[i]).0 == entry.0
            || exists|j: int| 0 <= j < sorted.len() && out[i].0 == sorted[j].0 by {
            if i < sorted.len() {
                assert(out[i] == inner[i]);
                if inner[i].0 != entry.0 {
                    let j = choose|j: int| 0 <= j < front.len() && inner[i].0 == front[j].0;
                    assert(front[j] == sorted[j]);
                }
            } else {
                assert(out[i] == sorted[sorted.len() - 1]);
            }
        }
        assert forall|i: int, j: int| 0 <= i < j < out.len() implies (#[trigger] out[i]).0 <= (
        #[trigger] out[j]).0 by {
            if j == sorted.len() {
                assert(out[i] == inner[i]);
                if inner[i].0 != entry.0 {
                    let k = choose|k: int| 0 <= k < front.len() && inner[i].0 == front[k].0;
                    assert(front[k] == sorted[k]);
                    if k < sorted.len() - 1 {
                        assert(sorted[k].0 <= sorted[sorted.len() - 1].0);
                    }
                }
            } else {
                assert(out[i] == inner[i] && out[j] == inner[j]);
            }
        }
    }
}

/// The indicators come out sorted by line, one for each region.
pub proof fn lemma_indicators_sorted(regions: Seq<FoldRegionView>, upto: int)
    requires
        0 <= upto <= regions.len(),
    ensures
        indicators_sorted(indicators(regions, upto)),
        indicators(regions, upto).len() == upto,
    decreases upto,
{
    if upto > 0 {
        lemma_indicators_sorted(regions, upto - 1);
        lemma_insert_indicator(
            indicators(regions, upto - 1),
            (regions[upto - 1].start_line, regions[upto - 1].is_folded),
        );
    }
}

fn insert_by_line(out: &mut Vec<(usize, bool)>, entry: (usize, bool))
    ensures
        final(out)@ == insert_indicator(old(out)@, entry),
{
    let ghost before = out@;
    let mut j = out.len();
    proof {
        assert(before.take(j as int) =~= before);
        assert(insert_indicator(before, entry) + before.skip(j as int) =~= insert_indicator(
            before,
            entry,
        ));
    }
    while j > 0 && out[j - 1].0 > entry.0
        invariant
            j <= out@.len(),
            out@ == before,
            insert_indicator(before, entry) == insert_indicator(before.take(j as int), entry)
                + before.skip(j as int),
        decreases j,
    {
        proof {
            let part = before.take(j as int);
            assert(part.last() == before[j - 1]);
            assert(part.drop_last() =~= before.take(j - 1));
            assert(insert_indicator(before.take(j - 1), entry).push(before[j - 1]) + before.skip(
                j as int,
            ) =~= insert_indicator(before.take(j - 1), entry) + before.skip(j - 1));
        }
        j -= 1;
    }
    proof {
        let part = before.take(j as int);
        if j > 0 {
            assert(part.last() == before[j - 1]);
        }
        assert(insert_indicator(part, entry) == part.push(entry));
        assert(part.push(entry) + before.skip(j as int) =~= before.insert(j as int, entry));
    }
    out.insert(j, entry);
}

/// The fold regions of a document, each under its id.
#[derive(Debug, Clone)]
pub struct FoldState {
    regions: Vec<FoldRegion>,
    next_id: u64,
    is_dirty: bool,
}

impl View for FoldState {
    type V = FoldStateView;

    closed spec fn view(&self) -> FoldStateView {
        FoldStateView {
            regions: Seq::new(self.regions@.len(), |i: int| self.regions@[i]@),
            next_id: self.next_id,
            is_dirty: self.is_dirty,
        }
    }
}

impl Default for FoldState {
    fn default() -> (s: Self)
        ensures
            s@.regions.len() == 0,
            s@.next_id == 0,
            !s@.is_dirty,
    {
        Self { regions: Vec::new(), next_id: 0, is_dirty: false }
    }
}

impl FoldState {
    /// A state without regions whose first id will be zero.
    pub fn new() -> (s: Self)
        ensures
            s@.regions.len() == 0,
            s@.next_id == 0,
            !s@.is_dirty,
            s@.ids_ascend(),
    {
        Self { regions: Vec::new(), next_id: 0, is_dirty: false }
    }

    fn locate(&self, query: &RegionQuery) -> (r: Option<usize>)
        ensures
            match r {
                Some(i) => self@.find(*query, 0) == Some(i as int) && i < self.regions@.len(),
                None => self@.find(*query, 0).is_none(),
            },
    {
        let n = self.regions.len();
        let mut i: usize = 0;
        while i < n
            invariant
                i <= n,
                n == self.regions@.len(),
                self@.find(*query, 0) == self@.find(*query, i as int),
            decreases n - i,
        {
            let hit = match query {
                RegionQuery::Id(id) => self.regions[i].id == *id,
                RegionQuery::StartLine(line) => self.regions[i].start_line == *line,
            };
            if hit {
                return Some(i);
            }
            i += 1;
        }
        None
    }

    /// Adds an unfolded region under the next id and returns that id.
    pub fn add_region(&mut self, start_line: usize, end_line: usize, kind: FoldKind) -> (id: u64)
        requires
            old(self)@.next_id < u64::MAX,
        ensures
            id == old(self)@.next_id,
            final(self)@.next_id == id + 1,
            final(self)@.is_dirty == old(self)@.is_dirty,
            final(self)@.regions == old(self)@.regions.push(
                FoldRegionView {
                    id,
                    start_line,
                    end_line,
                    kind,
                    preview: None,
                    is_folded: false,
                },
            ),
            old(self)@.ids_ascend() ==> final(self)@.ids_ascend(),
    {
        let id = self.next_id;
        self.next_id += 1;
        let region = FoldRegion::new(id, start_line, end_line, kind);
        self.regions.push(region);
        assert(self@.regions =~= old(self)@.regions.push(region@));
        id
    }

    /// Adds an unfolded region with preview text under the next id and
    /// returns that id.
    pub fn add_region_with_preview(
        &mut self,
        start_line: usize,
        end_line: usize,
        kind: FoldKind,
        preview: String,
    ) -> (id: u64)
        requires
            old(self)@.next_id < u64::MAX,
        ensures
            id == old(self)@.next_id,
            final(self)@.next_id == id + 1,
            final(self)@.is_dirty == old(self)@.is_dirty,
            final(self)@.regions == old(self)@.regions.push(
                FoldRegionView {
                    id,
                    start_line,
                    end_line,
                    kind,
                    preview: Some(preview@),
                    is_folded: false,
                },
            ),
            old(self)@.ids_ascend() ==> final(self)@.ids_ascend(),
    {
        let id = self.next_id;
        self.next_id += 1;
        let region = FoldRegion::with_preview(id, start_line, end_line, kind, preview);
        self.regions.push(region);
        assert(self@.regions =~= old(self)@.regions.push(region@));
        id
    }

    /// The region with the given id: the first one, should several carry it.
    pub fn get_region(&self, id: u64) -> (r: Option<&FoldRegion>)
        ensures
            match self@.find(RegionQuery::Id(id), 0) {
                Some(i) => r.is_some() && r.unwrap()@ == self@.regions[i],
                None => r.is_none(),
            },
    {
        match self.locate(&RegionQuery::Id(id)) {
            Some(i) => Some(&self.regions[i]),
            None => None,
        }
    }

    /// Mutable access to the region with the given id. What the caller
    /// writes through the reference replaces that region.
    pub fn get_region_mut(&mut self, id: u64) -> (r: Option<&mut FoldRegion>)
        ensures
            final(self)@.next_id == old(self)@.next_id,
            final(self)@.is_dirty == old(self)@.is_dirty,
            match old(self)@.find(RegionQuery::Id(id), 0) {
                Some(i) => r.is_some() && (*r.unwrap())@ == old(self)@.regions[i]
                    && final(self)@.regions == old(self)@.regions.update(
                    i,
                    (*final(r.unwrap()))@,
                ),
                None => r.is_none() && final(self)@.regions == old(self)@.regions,
            },
    {
        match self.locate(&RegionQuery::Id(id)) {
            Some(i) => Some(&mut self.regions[i]),
            None => None,
        }
    }

    /// The region that starts on `line`: the one added first, should several
    /// start there.
    pub fn region_at_line(&self, line: usize) -> (r: Option<&FoldRegion>)
        ensures
            match self@.find(RegionQuery::StartLine(line), 0) {
                Some(i) => r.is_some() && r.unwrap()@ == self@.regions[i],
                None => r.is_none(),
            },
    {
        match self.locate(&RegionQuery::StartLine(line)) {
            Some(i) => Some(&self.regions[i]),
            None => None,
        }
    }

    /// Toggles the region that starts on `line` and reports whether there was one.
    pub fn toggle_at_line(&mut self, line: usize) -> (toggled: bool)
        ensures
            final(self)@.next_id == old(self)@.next_id,
            final(self)@.is_dirty == old(self)@.is_dirty,
            match old(self)@.find(RegionQuery::StartLine(line), 0) {
                Some(i) => toggled && final(self)@.regions == old(self)@.regions.update(
                    i,
                    old(self)@.regions[i].with_folded(!old(self)@.regions[i].is_folded),
                ),
                None => !toggled && final(self)@.regions == old(self)@.regions,
            },
    {
        match self.locate(&RegionQuery::StartLine(line)) {
            Some(i) => {
                let folded = self.regions[i].is_folded;
                self.regions[i].is_folded = !folded;
                assert(self@.regions =~= old(self)@.regions.update(
                    i as int,
                    old(self)@.regions[i as int].with_folded(!old(self)@.regions[i as int].is_folded),
                ));
                true
            },
            None => false,
        }
    }

    /// Whether `line` is hidden by a folded region.
    pub fn is_line_hidden(&self, line: usize) -> (hidden: bool)
        ensures
            hidden == self@.hides(line),
    {
        let n = self.regions.len();
        let mut i: usize = 0;
        while i < n
            invariant
                i <= n,
                n == self.regions@.len(),
                forall|j: int|
                    0 <= j < i ==> !((#[trigger] self@.regions[j]).is_folded
                        && self@.regions[j].contains_line(line)),
            decreases n - i,
        {
            if self.regions[i].is_folded && self.regions[i].contains_line(line) {
                assert(self@.regions[i as int].is_folded && self@.regions[i as int].contains_line(
                    line,
                ));
                return true;
            }
            i += 1;
        }
        false
    }

    /// The fold indicators for the gutter: the start line of every region
    /// and whether it is folded, sorted by line.
    pub fn fold_indicators(&self) -> (out: Vec<(usize, bool)>)
        ensures
            out@ == indicators(self@.regions, self@.regions.len() as int),
            indicators_sorted(out@),
            out@.len() == self@.regions.len(),
    {
        let n = self.regions.len();
        let mut out: Vec<(usize, bool)> = Vec::new();
        let mut i: usize = 0;
        while i < n
            invariant
                i <= n,
                n == self.regions@.len(),
                out@ == indicators(self@.regions, i as int),
            decreases n - i,
        {
            insert_by_line(&mut out, (self.regions[i].start_line, self.regions[i].is_folded));
            i += 1;
        }
        proof {
            lemma_indicators_sorted(self@.regions, n as int);
        }
        out
    }

    fn set_folded(&mut self, kind: Option<FoldKind>, folded: bool)
        ensures
            final(self)@.next_id == old(self)@.next_id,
            final(self)@.is_dirty == old(self)@.is_dirty,
            final(self)@.regions == old(self)@.with_all_folded(kind, folded),
    {
        let n = self.regions.len();
        let mut i: usize = 0;
        while i < n
            invariant
                i <= n,
                n == self.regions@.len(),
                self@.regions.len() == old(self)@.regions.len(),
                self@.next_id == old(self)@.next_id,
                self@.is_dirty == old(self)@.is_dirty,
                forall|j: int|
                    0 <= j < i ==> (#[trigger] self@.regions[j]) == old(self)@.with_all_folded(
                        kind,
                        folded,
                    )[j],
                forall|j: int| i <= j < n ==> (#[trigger] self@.regions[j]) == old(self)@.regions[j],
            decreases n - i,
        {
            let selected = match kind {
                Some(k) => self.regions[i].kind == k,
                None => true,
            };
            let ghost before = self@.regions;
            if selected {
                self.regions[i].is_folded = folded;
                assert(self@.regions =~= before.update(i as int, before[i as int].with_folded(folded)));
            }
            assert forall|j: int| 0 <= j < i + 1 implies (#[trigger] self@.regions[j]) == old(
                self,
            )@.with_all_folded(kind, folded)[j] by {
                if j < i {
                    assert(self@.regions[j] == before[j]);
                }
            }
            assert forall|j: int| i + 1 <= j < n implies (#[trigger] self@.regions[j]) == old(
                self,
            )@.regions[j] by {
                assert(self@.regions[j] == before[j]);
            }
            i += 1;
        }
        assert(self@.regions =~= old(self)@.with_all_folded(kind, folded));
    }

    /// Folds every region.
    pub fn fold_all(&mut self)
        ensures
            final(self)@.next_id == old(self)@.next_id,
            final(self)@.is_dirty == old(self)@.is_dirty,
            final(self)@.regions == old(self)@.with_all_folded(None, true),
    {
        self.set_folded(None, true);
    }

    /// Unfolds every region.
    pub fn unfold_all(&mut self)
        ensures
            final(self)@.next_id == old(self)@.next_id,
            final(self)@.is_dirty == old(self)@.is_dirty,
            final(self)@.regions == old(self)@.with_all_folded(None, false),
    {
        self.set_folded(None, false);
    }

    /// Folds every region of the given kind.
    pub fn fold_kind(&mut self, kind: FoldKind)
        ensures
            final(self)@.next_id == old(self)@.next_id,
            final(self)@.is_dirty == old(self)@.is_dirty,
            final(self)@.regions == old(self)@.with_all_folded(Some(kind), true),
    {
        self.set_folded(Some(kind), true);
    }

    /// Unfolds every region of the given kind.
    pub fn unfold_kind(&mut self, kind: FoldKind)
        ensures
            final(self)@.next_id == old(self)@.next_id,
            final(self)@.is_dirty == old(self)@.is_dirty,
            final(self)@.regions == old(self)@.with_all_folded(Some(kind), false),
    {
        self.set_folded(Some(kind), false);
    }

    /// Removes every region. The id generator keeps its place.
    pub fn clear(&mut self)
        ensures
            final(self)@.regions.len() == 0,
            final(self)@.next_id == old(self)@.next_id,
            final(self)@.is_dirty == old(self)@.is_dirty,
    {
        self.regions.clear();
    }

    /// Hands out the next id.
    pub fn next_id(&mut self) -> (id: u64)
        requires
            old(self)@.next_id < u64::MAX,
        ensures
            id == old(self)@.next_id,
            final(self)@.next_id == id + 1,
            final(self)@.regions == old(self)@.regions,
            final(self)@.is_dirty == old(self)@.is_dirty,
    {
        let id = self.next_id;
        self.next_id += 1;
        assert(self@.regions =~= old(self)@.regions);
        id
    }

    /// Records that the regions match the content.
    pub fn mark_clean(&mut self)
        ensures
            !final(self)@.is_dirty,
            final(self)@.regions == old(self)@.regions,
            final(self)@.next_id == old(self)@.next_id,
    {
        self.is_dirty = false;
        assert(self@.regions =~= old(self)@.regions);
    }

    /// Records that the content changed and detection must run again.
    pub fn mark_dirty(&mut self)
        ensures
            final(self)@.is_dirty,
            final(self)@.regions == old(self)@.regions,
            final(self)@.next_id == old(self)@.next_id,
    {
        self.is_dirty = true;
        assert(self@.regions =~= old(self)@.regions);
    }

    /// Whether detection must run again.
    pub fn is_dirty(&self) -> (dirty: bool)
        ensures
            dirty == self@.is_dirty,
    {
        self.is_dirty
    }

    /// The number of regions.
    pub fn region_count(&self) -> (n: usize)
        ensures
            n == self@.regions.len(),
    {
        self.regions.len()
    }

    /// All regions, in the order in which they were added.
    pub fn iter(&self) -> (regions: &[FoldRegion])
        ensures
            regions@.len() == self@.regions.len(),
            forall|i: int| 0 <= i < regions@.len() ==> (#[trigger] regions@[i])@ == self@.regions[i],
    {
        self.regions.as_slice()
    }
}

/// The heading level of a line: after leading whitespace, one to six `#`
/// characters followed by a space or by the end of the line.
pub open spec fn heading_level_of(line: Seq<char>) -> Option<u8> {
    let first = run_end(line, 0, CharClass::Whitespace);
    let after = run_end(line, first, CharClass::Is('#'));
    if 1 <= after - first <= 6 && (after >= line.len() || line[after] == ' ') {
        Some((after - first) as u8)
    } else {
        None
    }
}

/// Where the text of a heading line stands in the line: after the leading
/// whitespace, the hashes and the whitespace behind them, up to the trailing
/// whitespace, and cut off after 50 characters.
pub open spec fn heading_text_bounds(line: Seq<char>) -> (int, int) {
    let first = run_end(line, 0, CharClass::Whitespace);
    let after = run_end(line, first, CharClass::Is('#'));
    let from = run_end(line, after, CharClass::Whitespace);
    let back = run_start(line, line.len() as int, CharClass::Whitespace);
    let to = if back < from {
        from
    } else {
        back
    };
    (
        from,
        if to - from > 50 {
            from + 50
        } else {
            to
        },
    )
}

/// The text of a heading line, as shown in place of a folded section.
pub open spec fn heading_text(line: Seq<char>) -> Seq<char> {
    line.subrange(heading_text_bounds(line).0, heading_text_bounds(line).1)
}

/// Whether a line holds nothing but whitespace.
pub open spec fn is_blank(line: Seq<char>) -> bool {
    run_end(line, 0, CharClass::Whitespace) >= line.len()
}

/// Whether a line opens or closes a fenced code block: after leading
/// whitespace it starts with three backticks or three tildes.
pub open spec fn is_fence(line: Seq<char>) -> bool {
    let first = run_end(line, 0, CharClass::Whitespace);
    occurs_at(line, seq!['`', '`', '`'], first) || occurs_at(line, seq!['~', '~', '~'], first)
}

/// Whether a line is a heading that ends a section of the given level: a
/// heading of the same or a higher rank.
pub open spec fn closes_section(line: Seq<char>, level: u8) -> bool {
    match heading_level_of(line) {
        Some(l) => l <= level,
        None => false,
    }
}

/// The first line at or after `from` that ends a section of the given level,
/// or the number of lines when the section runs to the end of the document.
pub open spec fn section_limit(lines: Seq<Seq<char>>, from: int, level: u8) -> int
    decreases lines.len() - from,
{
    if from >= lines.len() {
        lines.len() as int
    } else if from >= 0 && closes_section(lines[from], level) {
        from
    } else {
        section_limit(lines, from + 1, level)
    }
}

/// The last line in `start + 1 ..= end` that is not blank, or `start` when
/// all of them are blank.
pub open spec fn last_content_line(lines: Seq<Seq<char>>, start: int, end: int) -> int
    decreases end - start,
{
    if start < end && (end >= lines.len() || is_blank(lines[end])) {
        last_content_line(lines, start, end - 1)
    } else {
        end
    }
}

/// A fold as detection finds it: its lines, its kind and its preview text.
pub struct FoldSpan {
    pub start_line: int,
    pub end_line: int,
    pub kind: FoldKind,
    pub preview: Option<Seq<char>>,
}

impl FoldSpan {
    /// The unfolded region that holds this fold under the id `id`.
    pub open spec fn region(self, id: int) -> FoldRegionView {
        FoldRegionView {
            id: id as u64,
            start_line: self.start_line as usize,
            end_line: self.end_line as usize,
            kind: self.kind,
            preview: self.preview,
            is_folded: false,
        }
    }
}

/// The fold of the heading on line `i`, if that line is a heading with
/// something to fold. The section runs up to the line before the next heading
/// of the same or a higher rank, or to the end of the document; blank lines at
/// its end do not belong to the fold; a fold needs at least one line after
/// the heading.
pub open spec fn heading_fold(lines: Seq<Seq<char>>, i: int) -> Option<FoldSpan> {
    match heading_level_of(lines[i]) {
        None => None,
        Some(level) => {
            let end = last_content_line(lines, i, section_limit(lines, i + 1, level) - 1);
            if end > i {
                Some(
                    FoldSpan {
                        start_line: i,
                        end_line: end,
                        kind: FoldKind::Heading(level),
                        preview: Some(heading_text(lines[i])),
                    },
                )
            } else {
                None
            }
        },
    }
}

/// The heading folds that start in the first `upto` lines, in line order.
pub open spec fn heading_folds(lines: Seq<Seq<char>>, upto: int) -> Seq<FoldSpan>
    decreases upto,
{
    if upto <= 0 {
        Seq::empty()
    } else {
        match heading_fold(lines, upto - 1) {
            Some(fold) => heading_folds(lines, upto - 1).push(fold),
            None => heading_folds(lines, upto - 1),
        }
    }
}

/// The code-block folds that close within the first `upto` lines, in line
/// order, and the line of a fence that is still open after them. Fences open
/// and close a block in turn; a block spans both of its fence lines.
pub open spec fn code_folds(lines: Seq<Seq<char>>, upto: int) -> (Seq<FoldSpan>, Option<int>)
    decreases upto,
{
    if upto <= 0 {
        (Seq::empty(), None)
    } else {
        let (closed, open) = code_folds(lines, upto - 1);
        if is_fence(lines[upto - 1]) {
            match open {
                Some(start) => (
                    closed.push(
                        FoldSpan {
                            start_line: start,
                            end_line: upto - 1,
                            kind: FoldKind::CodeBlock,
                            preview: None,
                        },
                    ),
                    None,
                ),
                None => (closed, Some(upto - 1)),
            }
        } else {
            (closed, open)
        }
    }
}

/// All folds of a document: the heading folds, then the code-block folds.
pub open spec fn detected_folds(content: Seq<char>) -> Seq<FoldSpan> {
    let lines = lines_of(content);
    heading_folds(lines, lines.len() as int) + code_folds(lines, lines.len() as int).0
}

/// Whether `state` is what detection makes of `content`: the detected folds
/// in order, unfolded, under the ids 0, 1, 2 and so on, and marked clean.
pub open spec fn is_detection_of(state: FoldStateView, content: Seq<char>) -> bool {
    &&& state.regions.len() == detected_folds(content).len()
    &&& forall|k: int|
        0 <= k < state.regions.len() ==> #[trigger] state.regions[k] == detected_folds(
            content,
        )[k].region(k)
    &&& state.next_id == state.regions.len()
    &&& !state.is_dirty
}

/// Detection is a function of the content: two detections on the same content
/// give the same regions, with the same spans, kinds and previews.
pub proof fn lemma_detection_is_repeatable(a: FoldStateView, b: FoldStateView, content: Seq<char>)
    requires
        is_detection_of(a, content),
        is_detection_of(b, content),
    ensures
        a.regions == b.regions,
        a == b,
{
    assert(a.regions =~= b.regions);
}

/// Every detected fold ends after the line on which it starts, within the document.
pub proof fn lemma_detected_folds_are_regions(content: Seq<char>)
    ensures
        forall|k: int|
            0 <= k < detected_folds(content).len() ==> 0 <= (#[trigger] detected_folds(
                content,
            )[k]).start_line < detected_folds(content)[k].end_line < lines_of(content).len(),
{
    let lines = lines_of(content);
    let n = lines.len() as int;
    lemma_heading_folds_bounds(lines, n);
    lemma_code_folds_bounds(lines, n);
}

proof fn lemma_last_content_line(lines: Seq<Seq<char>>, start: int, end: int)
    requires
        start <= end,
    ensures
        start <= last_content_line(lines, start, end) <= end,
    decreases end - start,
{
    if start < end && (end >= lines.len() || is_blank(lines[end])) {
        lemma_last_content_line(lines, start, end - 1);
    }
}

proof fn lemma_section_limit(lines: Seq<Seq<char>>, from: int, level: u8)
    requires
        0 <= from <= lines.len(),
    ensures
        from <= section_limit(lines, from, level) <= lines.len(),
    decreases lines.len() - from,
{
    if from < lines.len() && !closes_section(lines[from], level) {
        lemma_section_limit(lines, from + 1, level);
    }
}

proof fn lemma_heading_folds_bounds(lines: Seq<Seq<char>>, upto: int)
    requires
        0 <= upto <= lines.len(),
    ensures
        heading_folds(lines, upto).len() <= upto,
        forall|k: int|
            0 <= k < heading_folds(lines, upto).len() ==> 0 <= (#[trigger] heading_folds(
                lines,
                upto,
            )[k]).start_line < heading_folds(lines, upto)[k].end_line < lines.len(),
    decreases upto,
{
    if upto > 0 {
        lemma_heading_folds_bounds(lines, upto - 1);
        match heading_level_of(lines[upto - 1]) {
            Some(level) => {
                lemma_section_limit(lines, upto, level);
                lemma_last_content_line(lines, upto - 1, section_limit(lines, upto, level) - 1);
            },
            None => {},
        }
    }
}

proof fn lemma_code_folds_bounds(lines: Seq<Seq<char>>, upto: int)
    requires
        0 <= upto <= lines.len(),
    ensures
        code_folds(lines, upto).0.len() <= upto,
        code_folds(lines, upto).1 matches Some(start) ==> 0 <= start < upto,
        forall|k: int|
            0 <= k < code_folds(lines, upto).0.len() ==> 0 <= (#[trigger] code_folds(
                lines,
                upto,
            ).0[k]).start_line < code_folds(lines, upto).0[k].end_line < upto,
    decreases upto,
{
    if upto > 0 {
        lemma_code_folds_bounds(lines, upto - 1);
    }
}

/// The views of a vector of lines.
pub open spec fn line_views(lines: Seq<Vec<char>>) -> Seq<Seq<char>> {
    Seq::new(lines.len(), |k: int| lines[k]@)
}

/// The heading level of a line, if it is a heading.
pub fn heading_level(line: &Vec<char>) -> (level: Option<u8>)
    ensures
        level == heading_level_of(line@),
{
    let first = scan_while(line, 0, CharClass::Whitespace);
    let after = scan_while(line, first, CharClass::Is('#'));
    let hashes = after - first;
    if hashes >= 1 && hashes <= 6 && (after == line.len() || line[after] == ' ') {
        Some(hashes as u8)
    } else {
        None
    }
}

/// The heading level of a line, 1 to 6, or `None` when the line is no heading.
pub fn detect_heading_level(line: &str) -> (level: Option<u8>)
    ensures
        level == heading_level_of(line@),
{
    let chars = to_chars(line);
    heading_level(&chars)
}

fn heading_text_range(line: &Vec<char>) -> (r: (usize, usize))
    ensures
        r.0 == heading_text_bounds(line@).0,
        r.1 == heading_text_bounds(line@).1,
        r.0 <= r.1 <= line@.len(),
{
    let first = scan_while(line, 0, CharClass::Whitespace);
    let after = scan_while(line, first, CharClass::Is('#'));
    let from = scan_while(line, after, CharClass::Whitespace);
    let back = scan_back_while(line, line.len(), CharClass::Whitespace);
    let to = if back < from {
        from
    } else {
        back
    };
    let to = if to - from > 50 {
        from + 50
    } else {
        to
    };
    (from, to)
}

fn is_blank_line(line: &Vec<char>) -> (b: bool)
    ensures
        b == is_blank(line@),
{
    scan_while(line, 0, CharClass::Whitespace) >= line.len()
}

/// Whether a line opens or closes a fenced code block.
pub fn is_fence_line(line: &Vec<char>) -> (b: bool)
    ensures
        b == is_fence(line@),
{
    proof {
        reveal_strlit("```");
        reveal_strlit("~~~");
        assert("```"@ =~= seq!['`', '`', '`']);
        assert("~~~"@ =~= seq!['~', '~', '~']);
    }
    let first = scan_while(line, 0, CharClass::Whitespace);
    starts_with_at(line, first, "```") || starts_with_at(line, first, "~~~")
}

fn find_section_limit(
    levels: &Vec<Option<u8>>,
    Ghost(lines): Ghost<Seq<Seq<char>>>,
    from: usize,
    level: u8,
) -> (limit: usize)
    requires
        from <= levels@.len(),
        levels@.len() == lines.len(),
        forall|k: int| 0 <= k < lines.len() ==> #[trigger] levels@[k] == heading_level_of(lines[k]),
    ensures
        limit == section_limit(lines, from as int, level),
        from <= limit <= lines.len(),
{
    let n = levels.len();
    let mut j = from;
    while j < n
        invariant
            from <= j <= n,
            n == levels@.len(),
            levels@.len() == lines.len(),
            forall|k: int|
                0 <= k < lines.len() ==> #[trigger] levels@[k] == heading_level_of(lines[k]),
            section_limit(lines, from as int, level) == section_limit(lines, j as int, level),
        decreases n - j,
    {
        let closes = match levels[j] {
            Some(l) => l <= level,
            None => false,
        };
        if closes {
            return j;
        }
        j += 1;
    }
    j
}

fn find_last_content_line(lines: &Vec<Vec<char>>, start: usize, end: usize) -> (last: usize)
    requires
        start <= end < lines@.len(),
    ensures
        last == last_content_line(line_views(lines@), start as int, end as int),
        start <= last <= end,
{
    let mut e = end;
    while e > start && is_blank_line(&lines[e])
        invariant
            start <= e <= end < lines@.len(),
            last_content_line(line_views(lines@), start as int, end as int) == last_content_line(
                line_views(lines@),
                start as int,
                e as int,
            ),
        decreases e,
    {
        e -= 1;
    }
    e
}

/// Finds the fold regions of markdown-like text: one for every heading that
/// has content under it, then one for every fenced code block.
pub fn detect_markdown_folds(content: &str) -> (state: FoldState)
    ensures
        is_detection_of(state@, content@),
        state@.ids_ascend(),
{
    let chars = to_chars(content);
    let spans = split_lines(&chars);
    let lines = copy_spans(&chars, &spans);
    let n = lines.len();
    let ghost views = lines_of(content@);
    proof {
        assert(line_views(lines@) =~= views);
    }

    let mut levels: Vec<Option<u8>> = Vec::new();
    let mut i: usize = 0;
    while i < n
        invariant
            i <= n,
            n == lines@.len(),
            levels@.len() == i,
            line_views(lines@) == views,
            forall|k: int| 0 <= k < i ==> #[trigger] levels@[k] == heading_level_of(views[k]),
        decreases n - i,
    {
        let level = heading_level(&lines[i]);
        levels.push(level);
        i += 1;
    }

    let mut regions: Vec<FoldRegion> = Vec::new();
    let mut i: usize = 0;
    while i < n
        invariant
            i <= n,
            n == lines@.len(),
            n == spans@.len(),
            levels@.len() == n,
            chars@ == content@,
            line_views(lines@) == views,
            views == lines_of(content@),
            forall|k: int|
                0 <= k < n ==> (#[trigger] spans@[k]).0 == line_spans(content@)[k].0 && spans@[k].1
                    == line_spans(content@)[k].1,
            forall|k: int|
                0 <= k < n ==> (#[trigger] spans@[k]).0 <= spans@[k].1 <= content@.len(),
            forall|k: int| 0 <= k < n ==> #[trigger] levels@[k] == heading_level_of(views[k]),
            regions@.len() == heading_folds(views, i as int).len(),
            forall|k: int|
                0 <= k < regions@.len() ==> (#[trigger] regions@[k])@ == heading_folds(
                    views,
                    i as int,
                )[k].region(k),
        decreases n - i,
    {
        let ghost before = heading_folds(views, i as int);
        match levels[i] {
            Some(level) => {
                let limit = find_section_limit(&levels, Ghost(views), i + 1, level);
                let end = find_last_content_line(&lines, i, limit - 1);
                if end > i {
                    let (from, to) = heading_text_range(&lines[i]);
                    let start = spans[i].0;
                    proof {
                        assert(views[i as int] == content@.subrange(
                            spans@[i as int].0 as int,
                            spans@[i as int].1 as int,
                        ));
                        assert(content@.subrange(start + from, start + to) =~= views[i as int].subrange(
                            from as int,
                            to as int,
                        ));
                    }
                    let preview = slice_string(content, start + from, start + to);
                    let id = regions.len() as u64;
                    let region = FoldRegion::with_preview(
                        id,
                        i,
                        end,
                        FoldKind::Heading(level),
                        preview,
                    );
                    regions.push(region);
                    proof {
                        let fold = heading_fold(views, i as int).unwrap();
                        assert(heading_folds(views, i + 1) == before.push(fold));
                        assert(region@ == fold.region(before.len() as int));
                    }
                } else {
                    assert(heading_folds(views, i + 1) == before);
                }
            },
            None => {
                assert(heading_folds(views, i + 1) == before);
            },
        }
        i += 1;
    }

    let ghost headings = heading_folds(views, n as int);
    let mut open: Option<usize> = None;
    let mut i: usize = 0;
    while i < n
        invariant
            i <= n,
            n == lines@.len(),
            line_views(lines@) == views,
            headings == heading_folds(views, n as int),
            regions@.len() == headings.len() + code_folds(views, i as int).0.len(),
            forall|k: int|
                0 <= k < headings.len() ==> (#[trigger] regions@[k])@ == headings[k].region(k),
            forall|k: int|
                0 <= k < code_folds(views, i as int).0.len() ==> (#[trigger] regions@[headings.len()
                    + k])@ == code_folds(views, i as int).0[k].region(headings.len() + k),
            match open {
                Some(start) => code_folds(views, i as int).1 == Some(start as int) && start < i,
                None => code_folds(views, i as int).1.is_none(),
            },
        decreases n - i,
    {
        let ghost before = code_folds(views, i as int);
        if is_fence_line(&lines[i]) {
            match open {
                Some(start) => {
                    let id = regions.len() as u64;
                    let region = FoldRegion::new(id, start, i, FoldKind::CodeBlock);
                    regions.push(region);
                    open = None;
                    proof {
                        let after = code_folds(views, i + 1);
                        assert(after.0 == before.0.push(
                            FoldSpan {
                                start_line: start as int,
                                end_line: i as int,
                                kind: FoldKind::CodeBlock,
                                preview: None,
                            },
                        ));
                        assert forall|k: int| 0 <= k < after.0.len() implies (
                        #[trigger] regions@[headings.len() + k])@ == after.0[k].region(
                            headings.len() + k,
                        ) by {
                            if k < before.0.len() {
                                assert(after.0[k] == before.0[k]);
                            }
                        }
                    }
                },
                None => {
                    open = Some(i);
                    assert(code_folds(views, i + 1).0 == before.0);
                },
            }
        } else {
            assert(code_folds(views, i + 1) == before);
        }
        i += 1;
    }

    let next_id = regions.len() as u64;
    let state = FoldState { regions, next_id, is_dirty: false };
    proof {
        let folds = detected_folds(content@);
        let closed = code_folds(views, n as int).0;
        assert(folds == headings + closed);
        assert forall|k: int| 0 <= k < state@.regions.len() implies #[trigger] state@.regions[k]
            == folds[k].region(k) by {
            if k < headings.len() {
                assert(state@.regions[k] == regions@[k]@);
            } else {
                assert(state@.regions[k] == regions@[headings.len() + (k - headings.len())]@);
                assert(folds[k] == closed[k - headings.len()]);
            }
        }
    }
    state
}

} // verus!
