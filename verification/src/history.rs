//! Undo and redo: two stacks of snapshots, with edits that follow each other
//! quickly coalesced into one undo step.

use vstd::prelude::*;
use vstd::string::StringExecFns;
use crate::clock::now_millis;
use crate::cursor::{Cursor, CursorSet};

verus! {

/// A snapshot of the document: its content and cursors, and the time at
/// which it was taken, in milliseconds. A snapshot without a time is a
/// checkpoint: the edit after it is never coalesced into it.
#[derive(Debug, Clone)]
pub struct HistoryEntry {
    pub content: String,
    pub cursors: CursorSet,
    pub timestamp: Option<u64>,
}

/// The mathematical value of a `HistoryEntry`.
pub struct HistoryEntryView {
    pub content: Seq<char>,
    pub cursors: Seq<Cursor>,
    pub timestamp: Option<u64>,
}

impl View for HistoryEntry {
    type V = HistoryEntryView;

    open spec fn view(&self) -> HistoryEntryView {
        HistoryEntryView {
            content: self.content@,
            cursors: self.cursors@,
            timestamp: self.timestamp,
        }
    }
}

impl HistoryEntry {
    /// A snapshot taken now, by the wall clock.
    pub fn new(content: String, cursors: CursorSet) -> (e: Self)
        ensures
            e@.content == content@,
            e@.cursors == cursors@,
            e@.timestamp.is_some(),
    {
        Self { content, cursors, timestamp: Some(now_millis()) }
    }

    /// A snapshot taken at the given time, or a checkpoint.
    pub fn at(content: String, cursors: CursorSet, timestamp: Option<u64>) -> (e: Self)
        ensures
            e@ == (HistoryEntryView { content: content@, cursors: cursors@, timestamp }),
    {
        Self { content, cursors, timestamp }
    }
}

/// The limits of a history.
#[derive(Debug, Clone, Copy, PartialEq, Eq, Structural)]
pub struct HistoryConfig {
    /// The largest number of undo steps to keep.
    pub max_entries: usize,
    /// An edit that follows the last recorded one by less than this many
    /// milliseconds is not recorded.
    pub coalesce_window_ms: u64,
}

impl Default for HistoryConfig {
    fn default() -> (c: Self)
        ensures
            c == (HistoryConfig { max_entries: 1000, coalesce_window_ms: 500 }),
    {
        Self { max_entries: 1000, coalesce_window_ms: 500 }
    }
}

/// The milliseconds from `earlier` to `later`: zero where the clock went back.
pub open spec fn elapsed_ms(earlier: u64, later: u64) -> int {
    if later >= earlier {
        later - earlier
    } else {
        0
    }
}

/// The mathematical value of a `History`. The most recent snapshot of each
/// stack is its last.
pub struct HistoryView {
    pub undo_stack: Seq<HistoryEntryView>,
    pub redo_stack: Seq<HistoryEntryView>,
    pub config: HistoryConfig,
    pub is_undoing: bool,
}

impl HistoryView {
    /// Whether a snapshot taken at `now` falls into the coalesce window of
    /// the last recorded one.
    pub open spec fn coalesces(self, now: u64) -> bool {
        self.undo_stack.len() > 0 && match self.undo_stack.last().timestamp {
            Some(last) => elapsed_ms(last, now) < self.config.coalesce_window_ms,
            None => false,
        }
    }

    /// The history after `entry` was recorded: the entry is on top of the
    /// undo stack, the oldest undo step is dropped where the stack outgrew
    /// its limit, and nothing is left to redo.
    pub open spec fn recorded(self, entry: HistoryEntryView) -> HistoryView {
        let stack = self.undo_stack.push(entry);
        HistoryView {
            undo_stack: if stack.len() > self.config.max_entries {
                stack.drop_first()
            } else {
                stack
            },
            redo_stack: Seq::empty(),
            ..self
        }
    }

    /// The history after a push at time `now`. Nothing changes while an undo
    /// or redo is being applied, nor where the push falls into the coalesce
    /// window; otherwise the snapshot is recorded.
    pub open spec fn pushed(self, content: Seq<char>, cursors: Seq<Cursor>, now: u64) -> HistoryView {
        if self.is_undoing || self.coalesces(now) {
            self
        } else {
            self.recorded(HistoryEntryView { content, cursors, timestamp: Some(now) })
        }
    }

    /// The history after a checkpoint was pushed.
    pub open spec fn checkpointed(self, content: Seq<char>, cursors: Seq<Cursor>) -> HistoryView {
        if self.is_undoing {
            self
        } else {
            self.recorded(HistoryEntryView { content, cursors, timestamp: None })
        }
    }

    /// The history after an undo at time `now` that replaces the given live
    /// state: the top of the undo stack is taken off and the live state goes
    /// onto the redo stack. Nothing changes where there is nothing to undo.
    pub open spec fn undone(self, content: Seq<char>, cursors: Seq<Cursor>, now: u64) -> HistoryView {
        if self.undo_stack.len() == 0 {
            self
        } else {
            HistoryView {
                undo_stack: self.undo_stack.drop_last(),
                redo_stack: self.redo_stack.push(
                    HistoryEntryView { content, cursors, timestamp: Some(now) },
                ),
                ..self
            }
        }
    }

    /// The history after a redo at time `now` that replaces the given live
    /// state: the mirror image of `undone`.
    pub open spec fn redone(self, content: Seq<char>, cursors: Seq<Cursor>, now: u64) -> HistoryView {
        if self.redo_stack.len() == 0 {
            self
        } else {
            HistoryView {
                undo_stack: self.undo_stack.push(
                    HistoryEntryView { content, cursors, timestamp: Some(now) },
                ),
                redo_stack: self.redo_stack.drop_last(),
                ..self
            }
        }
    }
}

/// The views of a stack of entries.
pub open spec fn entry_views(stack: Seq<HistoryEntry>) -> Seq<HistoryEntryView> {
    Seq::new(stack.len(), |i: int| stack[i]@)
}

/// The undo and redo stacks of a document.
#[derive(Debug, Clone)]
pub struct History {
    undo_stack: Vec<HistoryEntry>,
    redo_stack: Vec<HistoryEntry>,
    config: HistoryConfig,
    is_undoing: bool,
}

impl View for History {
    type V = HistoryView;

    closed spec fn view(&self) -> HistoryView {
        HistoryView {
            undo_stack: entry_views(self.undo_stack@),
            redo_stack: entry_views(self.redo_stack@),
            config: self.config,
            is_undoing: self.is_undoing,
        }
    }
}

impl Default for History {
    fn default() -> (h: Self)
        ensures
            h@ == (HistoryView {
                undo_stack: Seq::empty(),
                redo_stack: Seq::empty(),
                config: HistoryConfig { max_entries: 1000, coalesce_window_ms: 500 },
                is_undoing: false,
            }),
    {
        History::new()
    }
}

impl History {
    /// An empty history with the default limits: 1000 undo steps and a
    /// coalesce window of 500 milliseconds.
    pub fn new() -> (h: Self)
        ensures
            h@ == (HistoryView {
                undo_stack: Seq::empty(),
                redo_stack: Seq::empty(),
                config: HistoryConfig { max_entries: 1000, coalesce_window_ms: 500 },
                is_undoing: false,
            }),
    {
        History::with_config(HistoryConfig::default())
    }

    /// An empty history with the given limits.
    pub fn with_config(config: HistoryConfig) -> (h: Self)
        ensures
            h@ == (HistoryView {
                undo_stack: Seq::empty(),
                redo_stack: Seq::empty(),
                config,
                is_undoing: false,
            }),
    {
        let h = Self {
            undo_stack: Vec::new(),
            redo_stack: Vec::new(),
            config,
            is_undoing: false,
        };
        assert(h@.undo_stack =~= Seq::empty());
        assert(h@.redo_stack =~= Seq::empty());
        h
    }

    fn record(&mut self, entry: HistoryEntry)
        ensures
            final(self)@ == old(self)@.recorded(entry@),
    {
        self.undo_stack.push(entry);
        self.redo_stack = Vec::new();
        let ghost stack = entry_views(self.undo_stack@);
        assert(stack =~= old(self)@.undo_stack.push(entry@));
        if self.undo_stack.len() > self.config.max_entries {
            let _ = self.undo_stack.remove(0);
            assert(entry_views(self.undo_stack@) =~= stack.drop_first());
        }
        assert(entry_views(self.redo_stack@) =~= Seq::empty());
    }

    /// Records the state before an edit, as of now by the wall clock. What
    /// becomes of the history is what `push_at` makes of it at some time.
    pub fn push(&mut self, content: String, cursors: CursorSet)
        ensures
            exists|now: u64| final(self)@ == old(self)@.pushed(content@, cursors@, now),
    {
        let now = now_millis();
        self.push_at(content, cursors, now);
    }

    /// Records the state before an edit made at time `now`, in milliseconds.
    pub fn push_at(&mut self, content: String, cursors: CursorSet, now: u64)
        ensures
            final(self)@ == old(self)@.pushed(content@, cursors@, now),
    {
        if self.is_undoing {
            return ;
        }
        let n = self.undo_stack.len();
        if n > 0 {
            match self.undo_stack[n - 1].timestamp {
                Some(last) => {
                    let elapsed = if now >= last {
                        now - last
                    } else {
                        0
                    };
                    if elapsed < self.config.coalesce_window_ms {
                        assert(self@.undo_stack.last() == self.undo_stack@[n - 1]@);
                        return ;
                    }
                },
                None => {},
            }
            assert(self@.undo_stack.last() == self.undo_stack@[n - 1]@);
        }
        self.record(HistoryEntry::at(content, cursors, Some(now)));
    }

    /// Records a checkpoint: a snapshot into which the next edit is never
    /// coalesced.
    pub fn push_checkpoint(&mut self, content: String, cursors: CursorSet)
        ensures
            final(self)@ == old(self)@.checkpointed(content@, cursors@),
    {
        if self.is_undoing {
            return ;
        }
        self.record(HistoryEntry::at(content, cursors, None));
    }

    /// Takes back the last recorded edit, as of now by the wall clock. See `undo_at`.
    pub fn undo(&mut self, current_content: &str, current_cursors: &CursorSet) -> (entry: Option<
        HistoryEntry,
    >)
        ensures
            exists|now: u64|
                final(self)@ == old(self)@.undone(current_content@, current_cursors@, now),
            match entry {
                Some(e) => old(self)@.undo_stack.len() > 0 && e@ == old(self)@.undo_stack.last(),
                None => old(self)@.undo_stack.len() == 0,
            },
    {
        let now = now_millis();
        self.undo_at(current_content, current_cursors, now)
    }

    /// Takes back the last recorded edit at time `now`: returns the snapshot
    /// on top of the undo stack and keeps the live state for a redo. Returns
    /// `None`, and changes nothing, where there is nothing to undo.
    pub fn undo_at(&mut self, current_content: &str, current_cursors: &CursorSet, now: u64) -> (entry:
        Option<HistoryEntry>)
        ensures
            final(self)@ == old(self)@.undone(current_content@, current_cursors@, now),
            match entry {
                Some(e) => old(self)@.undo_stack.len() > 0 && e@ == old(self)@.undo_stack.last(),
                None => old(self)@.undo_stack.len() == 0,
            },
    {
        match self.undo_stack.pop() {
            Some(entry) => {
                let kept = HistoryEntry::at(
                    String::from_str(current_content),
                    current_cursors.clone(),
                    Some(now),
                );
                self.redo_stack.push(kept);
                assert(entry_views(self.undo_stack@) =~= old(self)@.undo_stack.drop_last());
                assert(entry_views(self.redo_stack@) =~= old(self)@.redo_stack.push(kept@));
                assert(entry@ == old(self)@.undo_stack.last());
                Some(entry)
            },
            None => {
                assert(entry_views(self.undo_stack@) =~= old(self)@.undo_stack);
                None
            },
        }
    }

    /// Applies again the last edit taken back, as of now by the wall clock. See `redo_at`.
    pub fn redo(&mut self, current_content: &str, current_cursors: &CursorSet) -> (entry: Option<
        HistoryEntry,
    >)
        ensures
            exists|now: u64|
                final(self)@ == old(self)@.redone(current_content@, current_cursors@, now),
            match entry {
                Some(e) => old(self)@.redo_stack.len() > 0 && e@ == old(self)@.redo_stack.last(),
                None => old(self)@.redo_stack.len() == 0,
            },
    {
        let now = now_millis();
        self.redo_at(current_content, current_cursors, now)
    }

    /// Applies again the last edit taken back at time `now`: returns the
    /// snapshot on top of the redo stack and keeps the live state for an
    /// undo. Returns `None`, and changes nothing, where there is nothing to
    /// redo.
    pub fn redo_at(&mut self, current_content: &str, current_cursors: &CursorSet, now: u64) -> (entry:
        Option<HistoryEntry>)
        ensures
            final(self)@ == old(self)@.redone(current_content@, current_cursors@, now),
            match entry {
                Some(e) => old(self)@.redo_stack.len() > 0 && e@ == old(self)@.redo_stack.last(),
                None => old(self)@.redo_stack.len() == 0,
            },
    {
        match self.redo_stack.pop() {
            Some(entry) => {
                let kept = HistoryEntry::at(
                    String::from_str(current_content),
                    current_cursors.clone(),
                    Some(now),
                );
                self.undo_stack.push(kept);
                assert(entry_views(self.redo_stack@) =~= old(self)@.redo_stack.drop_last());
                assert(entry_views(self.undo_stack@) =~= old(self)@.undo_stack.push(kept@));
                assert(entry@ == old(self)@.redo_stack.last());
                Some(entry)
            },
            None => {
                assert(entry_views(self.redo_stack@) =~= old(self)@.redo_stack);
                None
            },
        }
    }

    /// Whether there is anything to undo.
    pub fn can_undo(&self) -> (b: bool)
        ensures
            b == (self@.undo_stack.len() > 0),
    {
        self.undo_stack.len() > 0
    }

    /// Whether there is anything to redo.
    pub fn can_redo(&self) -> (b: bool)
        ensures
            b == (self@.redo_stack.len() > 0),
    {
        self.redo_stack.len() > 0
    }

    /// Forgets every snapshot.
    pub fn clear(&mut self)
        ensures
            final(self)@ == (HistoryView {
                undo_stack: Seq::empty(),
                redo_stack: Seq::empty(),
                ..old(self)@
            }),
    {
        self.undo_stack = Vec::new();
        self.redo_stack = Vec::new();
        assert(entry_views(self.undo_stack@) =~= Seq::empty());
        assert(entry_views(self.redo_stack@) =~= Seq::empty());
    }

    /// The number of undo steps.
    pub fn undo_count(&self) -> (n: usize)
        ensures
            n == self@.undo_stack.len(),
    {
        self.undo_stack.len()
    }

    /// The number of redo steps.
    pub fn redo_count(&self) -> (n: usize)
        ensures
            n == self@.redo_stack.len(),
    {
        self.redo_stack.len()
    }

    /// Marks the start of an undo or redo being applied: until `end_undo`,
    /// pushes are ignored.
    pub fn begin_undo(&mut self)
        ensures
            final(self)@ == (HistoryView { is_undoing: true, ..old(self)@ }),
    {
        self.is_undoing = true;
    }

    /// Marks the end of an undo or redo being applied.
    pub fn end_undo(&mut self)
        ensures
            final(self)@ == (HistoryView { is_undoing: false, ..old(self)@ }),
    {
        self.is_undoing = false;
    }
}

/// Two pushes within the coalesce window make one undo step: where the first
/// push was recorded, a second one that follows it by less than the window
/// changes nothing.
pub proof fn lemma_pushes_coalesce(
    h: HistoryView,
    first: HistoryEntryView,
    content: Seq<char>,
    cursors: Seq<Cursor>,
    now: u64,
)
    requires
        !h.is_undoing,
        h.config.max_entries >= 1,
        first.timestamp matches Some(then) && elapsed_ms(then, now) < h.config.coalesce_window_ms,
    ensures
        h.recorded(first).pushed(content, cursors, now) == h.recorded(first),
{
    let after = h.recorded(first);
    let stack = h.undo_stack.push(first);
    assert(stack.last() == first);
    if stack.len() > h.config.max_entries {
        assert(stack.drop_first().last() == first);
    }
}

/// Two pushes at least the coalesce window apart make two undo steps: the
/// second snapshot is recorded on top of the first, and nothing is left to
/// redo.
pub proof fn lemma_pushes_apart(
    h: HistoryView,
    first: HistoryEntryView,
    content: Seq<char>,
    cursors: Seq<Cursor>,
    now: u64,
)
    requires
        !h.is_undoing,
        h.config.max_entries >= 2,
        first.timestamp matches Some(then) ==> elapsed_ms(then, now) >= h.config.coalesce_window_ms,
    ensures
        ({
            let after = h.recorded(first).pushed(content, cursors, now);
            &&& after.redo_stack.len() == 0
            &&& after.undo_stack.len() >= 2
            &&& after.undo_stack.last() == (HistoryEntryView {
                content,
                cursors,
                timestamp: Some(now),
            })
            &&& after.undo_stack[after.undo_stack.len() - 2] == first
        }),
{
    let mid = h.recorded(first);
    let stack = h.undo_stack.push(first);
    assert(stack.last() == first);
    if stack.len() > h.config.max_entries {
        assert(stack.drop_first().last() == first);
    }
    assert(mid.undo_stack.last() == first);
    assert(!mid.coalesces(now));
    let entry = HistoryEntryView { content, cursors, timestamp: Some(now) };
    let grown = mid.undo_stack.push(entry);
    assert(grown[grown.len() - 2] == first);
    if grown.len() > h.config.max_entries {
        assert(grown.drop_first()[grown.drop_first().len() - 2] == first);
    }
}

/// Undo then redo brings back the state that was live before the undo, and
/// leaves the undo stack with the snapshots it had.
pub proof fn lemma_undo_then_redo(
    h: HistoryView,
    content: Seq<char>,
    cursors: Seq<Cursor>,
    undo_time: u64,
    redo_time: u64,
)
    requires
        h.undo_stack.len() > 0,
    ensures
        ({
            let restored = h.undo_stack.last();
            let undone = h.undone(content, cursors, undo_time);
            let redone = undone.redone(restored.content, restored.cursors, redo_time);
            &&& undone.redo_stack.len() > 0
            &&& undone.redo_stack.last().content == content
            &&& undone.redo_stack.last().cursors == cursors
            &&& redone.redo_stack == h.redo_stack
            &&& redone.undo_stack.len() == h.undo_stack.len()
            &&& redone.undo_stack.drop_last() == h.undo_stack.drop_last()
            &&& redone.undo_stack.last().content == restored.content
            &&& redone.undo_stack.last().cursors == restored.cursors
        }),
{
    let restored = h.undo_stack.last();
    let undone = h.undone(content, cursors, undo_time);
    let redone = undone.redone(restored.content, restored.cursors, redo_time);
    assert(undone.redo_stack.drop_last() =~= h.redo_stack);
    assert(redone.undo_stack.drop_last() =~= h.undo_stack.drop_last());
}

} // verus!
