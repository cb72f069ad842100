//! The document: content, cursors, history and version, and the edits that
//! keep them consistent.
//!
//! Every edit that changes the document records the state before it in the
//! history and adds one to the version. Offsets and columns count characters.
//! Each operation that consults the clock has a twin, named with `_at`, that
//! takes the time in milliseconds as an argument.

use vstd::prelude::*;
use vstd::string::StringExecFns;
use crate::chars::to_chars;
use crate::clock::now_millis;
use crate::cursor::{Cursor, CursorPosition, CursorSet};
use crate::history::{History, HistoryConfig, HistoryView};
use crate::lines::{line_spans, lines_of, split_lines};
use crate::text::{
    column_at, find_offset, line_at, line_count, locate, offset_of, lemma_position_bounds,
    lemma_position_grows, lemma_position_of_prefix,
};

verus! {

/// The settings of an editor that do not depend on how it is drawn.
#[derive(Debug, Clone, Copy, PartialEq, Eq, Structural)]
pub struct EditorConfig {
    /// The width of a tab stop, in spaces.
    pub tab_size: usize,
    /// Whether the tab key inserts spaces.
    pub insert_spaces: bool,
    /// Whether long lines wrap.
    pub word_wrap: bool,
    /// Whether line numbers are shown.
    pub show_line_numbers: bool,
    /// Whether the line of the cursor is highlighted.
    pub highlight_current_line: bool,
    /// Whether whitespace is made visible.
    pub show_whitespace: bool,
    /// Whether matching brackets are marked.
    pub match_brackets: bool,
    /// Whether a new line takes over the indentation of the one before.
    pub auto_indent: bool,
    /// Whether an opening bracket brings its closing one.
    pub auto_close_brackets: bool,
    /// The longest line wanted, or zero for no limit.
    pub max_line_width: usize,
    /// Whether the content may not be edited.
    pub read_only: bool,
}

impl Default for EditorConfig {
    fn default() -> (c: Self)
        ensures
            c == (EditorConfig {
                tab_size: 4,
                insert_spaces: true,
                word_wrap: true,
                show_line_numbers: true,
                highlight_current_line: true,
                show_whitespace: false,
                match_brackets: true,
                auto_indent: true,
                auto_close_brackets: true,
                max_line_width: 0,
                read_only: false,
            }),
    {
        EditorConfig {
            tab_size: 4,
            insert_spaces: true,
            word_wrap: true,
            show_line_numbers: true,
            highlight_current_line: true,
            show_whitespace: false,
            match_brackets: true,
            auto_indent: true,
            auto_close_brackets: true,
            max_line_width: 0,
            read_only: false,
        }
    }
}

/// The position of an offset of `s`.
pub open spec fn position_at(s: Seq<char>, offset: int) -> CursorPosition {
    CursorPosition { line: line_at(s, offset) as usize, column: column_at(s, offset) as usize }
}

/// The offset of a position of `s`, where `s` has that position.
pub open spec fn offset_at(s: Seq<char>, position: CursorPosition) -> Option<int> {
    offset_of(s, position.line as int, position.column as int)
}

/// `s` with the characters `from..to` replaced by `text`.
pub open spec fn spliced(s: Seq<char>, from: int, to: int, text: Seq<char>) -> Seq<char> {
    s.subrange(0, from) + text + s.subrange(to, s.len() as int)
}

/// The cursors with the primary cursor turned into a caret at `position`.
/// Its preferred column stays.
pub open spec fn with_caret(cursors: Seq<Cursor>, position: CursorPosition) -> Seq<Cursor> {
    cursors.update(0, Cursor { head: position, anchor: position, ..cursors[0] })
}

/// The mathematical value of an `EditorState`.
pub struct EditorStateView {
    pub content: Seq<char>,
    pub cursors: Seq<Cursor>,
    pub history: HistoryView,
    pub config: EditorConfig,
    pub version: u64,
    pub is_modified: bool,
    pub scroll_line: usize,
    pub language: Option<Seq<char>>,
}

impl EditorStateView {
    /// The primary cursor.
    pub open spec fn primary(self) -> Cursor {
        self.cursors[0]
    }

    /// The document after an edit at time `now` that leaves it with the given
    /// content and cursors: the state before the edit is pushed onto the
    /// history, the version grows by one, and the document counts as modified.
    pub open spec fn edited(self, content: Seq<char>, cursors: Seq<Cursor>, now: u64) -> Self {
        EditorStateView {
            content,
            cursors,
            history: self.history.pushed(self.content, self.cursors, now),
            version: (self.version + 1) as u64,
            is_modified: true,
            ..self
        }
    }

    /// The document after `text` replaced the characters `from..to`: the
    /// primary cursor is a caret directly behind the new text.
    pub open spec fn replaced(self, from: int, to: int, text: Seq<char>, now: u64) -> Self {
        let content = spliced(self.content, from, to, text);
        self.edited(
            content,
            with_caret(self.cursors, position_at(content, from + text.len())),
            now,
        )
    }

    /// The document after its content was set to `content`. Setting the
    /// content it already has changes nothing.
    pub open spec fn after_set_content(self, content: Seq<char>, now: u64) -> Self {
        if content == self.content {
            self
        } else {
            self.edited(content, self.cursors, now)
        }
    }

    /// The document after `text` was typed.
    ///
    /// Nothing happens to a read-only document, nor where the head of the
    /// primary cursor is no position of the content. A selection is replaced
    /// by the text; without one the text goes in at the caret. Where one end
    /// of the selection is no position of the content, the edit is recorded
    /// but changes neither content nor cursors.
    pub open spec fn after_insert(self, text: Seq<char>, now: u64) -> Self {
        if self.config.read_only {
            self
        } else {
            match offset_at(self.content, self.primary().head) {
                None => self,
                Some(at) => if self.primary().head != self.primary().anchor {
                    match (
                        offset_at(self.content, self.primary().start()),
                        offset_at(self.content, self.primary().end()),
                    ) {
                        (Some(from), Some(to)) => self.replaced(from, to, text, now),
                        _ => self.edited(self.content, self.cursors, now),
                    }
                } else {
                    self.replaced(at, at, text, now)
                },
            }
        }
    }

    /// The document after its selection was deleted: the primary cursor is a
    /// caret where the selection began. Nothing happens without a selection,
    /// nor where one of its ends is no position of the content.
    pub open spec fn after_delete_selection(self, now: u64) -> Self {
        if self.primary().head == self.primary().anchor {
            self
        } else {
            match (
                offset_at(self.content, self.primary().start()),
                offset_at(self.content, self.primary().end()),
            ) {
                (Some(from), Some(to)) => self.edited(
                    spliced(self.content, from, to, Seq::empty()),
                    with_caret(self.cursors, self.primary().start()),
                    now,
                ),
                _ => self,
            }
        }
    }

    /// The document after a backspace: a selection is deleted; without one
    /// the character before the caret goes and the caret moves back by one.
    /// Nothing happens to a read-only document, at the start of the
    /// document, nor where the caret is no position of the content.
    pub open spec fn after_delete_backward(self, now: u64) -> Self {
        if self.config.read_only {
            self
        } else if self.primary().head != self.primary().anchor {
            self.after_delete_selection(now)
        } else {
            match offset_at(self.content, self.primary().head) {
                Some(at) => if at == 0 {
                    self
                } else {
                    let content = spliced(self.content, at - 1, at, Seq::empty());
                    self.edited(
                        content,
                        with_caret(self.cursors, position_at(content, at - 1)),
                        now,
                    )
                },
                None => self,
            }
        }
    }

    /// The document after a forward delete: a selection is deleted; without
    /// one the character behind the caret goes and the caret stays. Nothing
    /// happens to a read-only document, at the end of the document, nor
    /// where the caret is no position of the content.
    pub open spec fn after_delete_forward(self, now: u64) -> Self {
        if self.config.read_only {
            self
        } else if self.primary().head != self.primary().anchor {
            self.after_delete_selection(now)
        } else {
            match offset_at(self.content, self.primary().head) {
                Some(at) => if at >= self.content.len() {
                    self
                } else {
                    self.edited(spliced(self.content, at, at + 1, Seq::empty()), self.cursors, now)
                },
                None => self,
            }
        }
    }

    /// The document after an undo at time `now`: content and cursors come
    /// from the top of the undo stack, the state they replace is kept for a
    /// redo, and the version grows by one. Nothing changes where there is
    /// nothing to undo.
    pub open spec fn after_undo(self, now: u64) -> Self {
        if self.history.undo_stack.len() == 0 {
            self
        } else {
            EditorStateView {
                content: self.history.undo_stack.last().content,
                cursors: self.history.undo_stack.last().cursors,
                history: self.history.undone(self.content, self.cursors, now),
                version: (self.version + 1) as u64,
                ..self
            }
        }
    }

    /// The document after a redo at time `now`: the mirror image of `after_undo`.
    pub open spec fn after_redo(self, now: u64) -> Self {
        if self.history.redo_stack.len() == 0 {
            self
        } else {
            EditorStateView {
                content: self.history.redo_stack.last().content,
                cursors: self.history.redo_stack.last().cursors,
                history: self.history.redone(self.content, self.cursors, now),
                version: (self.version + 1) as u64,
                ..self
            }
        }
    }
}

/// An editing session: the content, the cursors, the history and the
/// version counter of one document.
#[derive(Debug, Clone)]
pub struct EditorState {
    pub content: String,
    pub cursors: CursorSet,
    pub history: History,
    pub config: EditorConfig,
    /// Grows by one with every edit, undo, redo and replacement of the content.
    pub version: u64,
    /// Whether the content was edited since it was last marked as saved.
    pub is_modified: bool,
    /// The first line shown.
    pub scroll_line: usize,
    pub language: Option<String>,
}

impl View for EditorState {
    type V = EditorStateView;

    open spec fn view(&self) -> EditorStateView {
        EditorStateView {
            content: self.content@,
            cursors: self.cursors@,
            history: self.history@,
            config: self.config,
            version: self.version,
            is_modified: self.is_modified,
            scroll_line: self.scroll_line,
            language: match self.language {
                Some(name) => Some(name@),
                None => None,
            },
        }
    }
}

/// The document that a session starts with.
pub open spec fn initial_view(content: Seq<char>, config: EditorConfig) -> EditorStateView {
    EditorStateView {
        content,
        cursors: seq![
            Cursor {
                head: CursorPosition { line: 0, column: 0 },
                anchor: CursorPosition { line: 0, column: 0 },
                preferred_column: None,
            },
        ],
        history: HistoryView {
            undo_stack: Seq::empty(),
            redo_stack: Seq::empty(),
            config: HistoryConfig { max_entries: 1000, coalesce_window_ms: 500 },
            is_undoing: false,
        },
        config,
        version: 0,
        is_modified: false,
        scroll_line: 0,
        language: None,
    }
}

/// The default settings.
pub open spec fn default_config() -> EditorConfig {
    EditorConfig {
        tab_size: 4,
        insert_spaces: true,
        word_wrap: true,
        show_line_numbers: true,
        highlight_current_line: true,
        show_whitespace: false,
        match_brackets: true,
        auto_indent: true,
        auto_close_brackets: true,
        max_line_width: 0,
        read_only: false,
    }
}

impl Default for EditorState {
    fn default() -> (s: Self)
        ensures
            s@ == initial_view(Seq::empty(), default_config()),
    {
        let s = EditorState {
            content: String::new(),
            cursors: CursorSet::new(Cursor::zero()),
            history: History::new(),
            config: EditorConfig::default(),
            version: 0,
            is_modified: false,
            scroll_line: 0,
            language: None,
        };
        s
    }
}

impl EditorState {
    /// A session on `content` with the default settings: one caret at the
    /// start, an empty history, version zero, not modified.
    pub fn new(content: &str) -> (s: Self)
        ensures
            s@ == initial_view(content@, default_config()),
    {
        EditorState::with_config(content, EditorConfig::default())
    }

    /// A session on `content` with the given settings.
    pub fn with_config(content: &str, config: EditorConfig) -> (s: Self)
        ensures
            s@ == initial_view(content@, config),
    {
        EditorState {
            content: String::from_str(content),
            cursors: CursorSet::new(Cursor::zero()),
            history: History::new(),
            config,
            version: 0,
            is_modified: false,
            scroll_line: 0,
            language: None,
        }
    }

    /// The content.
    pub fn content(&self) -> (text: &str)
        ensures
            text@ == self@.content,
    {
        self.content.as_str()
    }

    /// Sets the content, as of now by the wall clock. See `set_content_at`.
    pub fn set_content(&mut self, content: &str)
        requires
            old(self).version < u64::MAX,
        ensures
            exists|now: u64| final(self)@ == old(self)@.after_set_content(content@, now),
    {
        let now = now_millis();
        self.set_content_at(content, now);
    }

    /// Sets the content at time `now`. New content is an edit: it goes
    /// through the history and can be undone.
    pub fn set_content_at(&mut self, content: &str, now: u64)
        requires
            old(self).version < u64::MAX,
        ensures
            final(self)@ == old(self)@.after_set_content(content@, now),
    {
        let new_content = String::from_str(content);
        if new_content != self.content {
            self.history.push_at(self.content.clone(), self.cursors.clone(), now);
            self.content = new_content;
            self.version += 1;
            self.is_modified = true;
        }
    }

    /// Replaces the content without going through the history: for content
    /// that changed outside of the session. The version grows by one.
    pub fn replace_content(&mut self, content: &str)
        requires
            old(self).version < u64::MAX,
        ensures
            final(self)@ == (EditorStateView {
                content: content@,
                version: (old(self).version + 1) as u64,
                ..old(self)@
            }),
    {
        self.content = String::from_str(content);
        self.version += 1;
    }

    /// The position of the head of the primary cursor.
    pub fn cursor_position(&self) -> (position: CursorPosition)
        ensures
            self@.cursors.len() > 0,
            position == self@.primary().head,
    {
        self.cursors.primary().head
    }

    /// Turns the primary cursor into a caret at `position`.
    pub fn set_cursor(&mut self, position: CursorPosition)
        ensures
            old(self)@.cursors.len() > 0,
            final(self)@ == (EditorStateView {
                cursors: with_caret(old(self)@.cursors, position),
                ..old(self)@
            }),
    {
        let cursor = self.cursors.primary_mut();
        cursor.move_to(position, false);
    }

    /// Sets both ends of the primary cursor.
    pub fn set_cursor_with_selection(&mut self, head: CursorPosition, anchor: CursorPosition)
        ensures
            old(self)@.cursors.len() > 0,
            final(self)@ == (EditorStateView {
                cursors: old(self)@.cursors.update(
                    0,
                    Cursor { head, anchor, ..old(self)@.cursors[0] },
                ),
                ..old(self)@
            }),
    {
        let cursor = self.cursors.primary_mut();
        cursor.head = head;
        cursor.anchor = anchor;
    }

    /// The number of lines: one more than the content has line feeds.
    pub fn line_count(&self) -> (n: usize)
        requires
            self@.content.len() < usize::MAX,
        ensures
            n == line_count(self@.content),
    {
        crate::text::count_lines(self.content.as_str())
    }

    /// The line with the given index, without its terminator. Lines are
    /// split as in `lines_of`: a line feed at the very end opens no further line.
    pub fn get_line(&self, index: usize) -> (line: Option<&str>)
        ensures
            match line {
                Some(text) => index < lines_of(self@.content).len() && text@ == lines_of(
                    self@.content,
                )[index as int],
                None => index >= lines_of(self@.content).len(),
            },
    {
        let chars = to_chars(self.content.as_str());
        let spans = split_lines(&chars);
        if index < spans.len() {
            let (from, to) = spans[index];
            assert(line_spans(self@.content)[index as int] == (from as int, to as int));
            Some(self.content.as_str().substring_char(from, to))
        } else {
            None
        }
    }

    fn replace_range(&mut self, from: usize, to: usize, text: &str)
        requires
            from <= to <= old(self)@.content.len(),
        ensures
            final(self)@ == (EditorStateView {
                content: spliced(old(self)@.content, from as int, to as int, text@),
                cursors: with_caret(
                    old(self)@.cursors,
                    position_at(
                        spliced(old(self)@.content, from as int, to as int, text@),
                        from + text@.len(),
                    ),
                ),
                ..old(self)@
            }),
    {
        let len = self.content.as_str().unicode_len();
        let mut content = String::from_str(self.content.as_str().substring_char(0, from));
        content.append(text);
        let head = to_chars(content.as_str());
        let place = locate(&head, head.len());
        content.append(self.content.as_str().substring_char(to, len));
        proof {
            lemma_position_bounds(head@, head@.len() as int);
            lemma_position_of_prefix(head@, content@, head@.len() as int);
        }
        self.content = content;
        self.set_cursor(CursorPosition::new(place.0, place.1));
    }

    /// Types `text`, as of now by the wall clock. See `insert_at`.
    pub fn insert(&mut self, text: &str)
        requires
            old(self).version < u64::MAX,
        ensures
            exists|now: u64| final(self)@ == old(self)@.after_insert(text@, now),
    {
        let now = now_millis();
        self.insert_at(text, now);
    }

    /// Types `text` at time `now`: the text replaces the selection of the
    /// primary cursor, or goes in at its caret, and the cursor becomes a
    /// caret directly behind it.
    pub fn insert_at(&mut self, text: &str, now: u64)
        requires
            old(self).version < u64::MAX,
        ensures
            final(self)@ == old(self)@.after_insert(text@, now),
    {
        if self.config.read_only {
            return ;
        }
        let chars = to_chars(self.content.as_str());
        let primary = *self.cursors.primary();
        let at = match find_offset(&chars, primary.head.line, primary.head.column) {
            Some(at) => at,
            None => {
                return ;
            },
        };
        self.history.push_at(self.content.clone(), self.cursors.clone(), now);
        if primary.has_selection() {
            let start = primary.selection_start();
            let end = primary.selection_end();
            let from = find_offset(&chars, start.line, start.column);
            let to = find_offset(&chars, end.line, end.column);
            match (from, to) {
                (Some(from), Some(to)) => {
                    proof {
                        if to < from {
                            lemma_position_grows(chars@, to as int, from as int);
                        }
                    }
                    self.replace_range(from, to, text);
                },
                _ => {},
            }
        } else {
            self.replace_range(at, at, text);
        }
        self.version += 1;
        self.is_modified = true;
    }

    /// Deletes the selection of the primary cursor at time `now` and leaves
    /// a caret where it began.
    pub fn delete_selection_at(&mut self, now: u64)
        requires
            old(self).version < u64::MAX,
        ensures
            final(self)@ == old(self)@.after_delete_selection(now),
    {
        let primary = *self.cursors.primary();
        if !primary.has_selection() {
            return ;
        }
        let start = primary.selection_start();
        let end = primary.selection_end();
        let chars = to_chars(self.content.as_str());
        let from = find_offset(&chars, start.line, start.column);
        let to = find_offset(&chars, end.line, end.column);
        match (from, to) {
            (Some(from), Some(to)) => {
                proof {
                    if to < from {
                        lemma_position_grows(chars@, to as int, from as int);
                    }
                }
                self.history.push_at(self.content.clone(), self.cursors.clone(), now);
                self.remove_range(from, to);
                self.set_cursor(start);
                self.version += 1;
                self.is_modified = true;
            },
            _ => {},
        }
    }

    fn remove_range(&mut self, from: usize, to: usize)
        requires
            from <= to <= old(self)@.content.len(),
        ensures
            final(self)@ == (EditorStateView {
                content: spliced(old(self)@.content, from as int, to as int, Seq::empty()),
                ..old(self)@
            }),
    {
        let len = self.content.as_str().unicode_len();
        let mut content = String::from_str(self.content.as_str().substring_char(0, from));
        content.append(self.content.as_str().substring_char(to, len));
        assert(content@ =~= spliced(old(self)@.content, from as int, to as int, Seq::empty()));
        self.content = content;
    }

    /// Deletes backward, as of now by the wall clock. See `delete_backward_at`.
    pub fn delete_backward(&mut self)
        requires
            old(self).version < u64::MAX,
        ensures
            exists|now: u64| final(self)@ == old(self)@.after_delete_backward(now),
    {
        let now = now_millis();
        self.delete_backward_at(now);
    }

    /// Deletes the selection, or the one character before the caret, at time `now`.
    pub fn delete_backward_at(&mut self, now: u64)
        requires
            old(self).version < u64::MAX,
        ensures
            final(self)@ == old(self)@.after_delete_backward(now),
    {
        if self.config.read_only {
            return ;
        }
        let primary = *self.cursors.primary();
        if primary.has_selection() {
            self.delete_selection_at(now);
            return ;
        }
        let chars = to_chars(self.content.as_str());
        match find_offset(&chars, primary.head.line, primary.head.column) {
            Some(at) => {
                if at == 0 {
                    return ;
                }
                self.history.push_at(self.content.clone(), self.cursors.clone(), now);
                self.remove_range(at - 1, at);
                let rest = to_chars(self.content.as_str());
                let place = locate(&rest, at - 1);
                proof {
                    lemma_position_bounds(rest@, at - 1);
                }
                self.set_cursor(CursorPosition::new(place.0, place.1));
                self.version += 1;
                self.is_modified = true;
            },
            None => {},
        }
    }

    /// Deletes forward, as of now by the wall clock. See `delete_forward_at`.
    pub fn delete_forward(&mut self)
        requires
            old(self).version < u64::MAX,
        ensures
            exists|now: u64| final(self)@ == old(self)@.after_delete_forward(now),
    {
        let now = now_millis();
        self.delete_forward_at(now);
    }

    /// Deletes the selection, or the one character behind the caret, at time `now`.
    pub fn delete_forward_at(&mut self, now: u64)
        requires
            old(self).version < u64::MAX,
        ensures
            final(self)@ == old(self)@.after_delete_forward(now),
    {
        if self.config.read_only {
            return ;
        }
        let primary = *self.cursors.primary();
        if primary.has_selection() {
            self.delete_selection_at(now);
            return ;
        }
        let chars = to_chars(self.content.as_str());
        match find_offset(&chars, primary.head.line, primary.head.column) {
            Some(at) => {
                if at >= chars.len() {
                    return ;
                }
                self.history.push_at(self.content.clone(), self.cursors.clone(), now);
                self.remove_range(at, at + 1);
                self.version += 1;
                self.is_modified = true;
            },
            None => {},
        }
    }

    /// Undoes the last edit, as of now by the wall clock. See `undo_at`.
    pub fn undo(&mut self) -> (done: bool)
        requires
            old(self).version < u64::MAX,
        ensures
            done == (old(self)@.history.undo_stack.len() > 0),
            exists|now: u64| final(self)@ == old(self)@.after_undo(now),
    {
        let now = now_millis();
        self.undo_at(now)
    }

    /// Undoes the last edit at time `now` and reports whether there was one.
    pub fn undo_at(&mut self, now: u64) -> (done: bool)
        requires
            old(self).version < u64::MAX,
        ensures
            done == (old(self)@.history.undo_stack.len() > 0),
            final(self)@ == old(self)@.after_undo(now),
    {
        match self.history.undo_at(self.content.as_str(), &self.cursors, now) {
            Some(entry) => {
                self.content = entry.content;
                self.cursors = entry.cursors;
                self.version += 1;
                true
            },
            None => false,
        }
    }

    /// Redoes the last undone edit, as of now by the wall clock. See `redo_at`.
    pub fn redo(&mut self) -> (done: bool)
        requires
            old(self).version < u64::MAX,
        ensures
            done == (old(self)@.history.redo_stack.len() > 0),
            exists|now: u64| final(self)@ == old(self)@.after_redo(now),
    {
        let now = now_millis();
        self.redo_at(now)
    }

    /// Redoes the last undone edit at time `now` and reports whether there was one.
    pub fn redo_at(&mut self, now: u64) -> (done: bool)
        requires
            old(self).version < u64::MAX,
        ensures
            done == (old(self)@.history.redo_stack.len() > 0),
            final(self)@ == old(self)@.after_redo(now),
    {
        match self.history.redo_at(self.content.as_str(), &self.cursors, now) {
            Some(entry) => {
                self.content = entry.content;
                self.cursors = entry.cursors;
                self.version += 1;
                true
            },
            None => false,
        }
    }

    /// Whether there is anything to undo.
    pub fn can_undo(&self) -> (b: bool)
        ensures
            b == (self@.history.undo_stack.len() > 0),
    {
        self.history.can_undo()
    }

    /// Whether there is anything to redo.
    pub fn can_redo(&self) -> (b: bool)
        ensures
            b == (self@.history.redo_stack.len() > 0),
    {
        self.history.can_redo()
    }

    /// Records that the content was saved.
    pub fn mark_saved(&mut self)
        ensures
            final(self)@ == (EditorStateView { is_modified: false, ..old(self)@ }),
    {
        self.is_modified = false;
    }

    /// The character offset of a position, or `None` where the content has
    /// no such position: the line does not exist, or the column lies beyond
    /// its end.
    pub fn position_to_offset(&self, position: CursorPosition) -> (r: Option<usize>)
        ensures
            match r {
                Some(offset) => offset_at(self@.content, position) == Some(offset as int)
                    && offset <= self@.content.len(),
                None => offset_at(self@.content, position).is_none(),
            },
    {
        let chars = to_chars(self.content.as_str());
        find_offset(&chars, position.line, position.column)
    }

    /// The position of a character offset, or `None` for an offset beyond
    /// the end of the content.
    pub fn offset_to_position(&self, offset: usize) -> (r: Option<CursorPosition>)
        ensures
            r == if offset <= self@.content.len() {
                Some(position_at(self@.content, offset as int))
            } else {
                None
            },
    {
        let chars = to_chars(self.content.as_str());
        if offset > chars.len() {
            return None;
        }
        let place = locate(&chars, offset);
        Some(CursorPosition::new(place.0, place.1))
    }
}

/// Position to offset and back: the offset of a position that the content
/// has lies at that very position.
pub proof fn lemma_position_offset_position(s: Seq<char>, position: CursorPosition)
    requires
        offset_at(s, position).is_some(),
    ensures
        0 <= offset_at(s, position).unwrap() <= s.len(),
        position_at(s, offset_at(s, position).unwrap()) == position,
{
}

/// Offset to position and back: the position of an offset within the
/// content has that very offset.
pub proof fn lemma_offset_position_offset(s: Seq<char>, offset: int)
    requires
        0 <= offset <= s.len() <= usize::MAX,
    ensures
        offset_at(s, position_at(s, offset)) == Some(offset),
{
    lemma_position_bounds(s, offset);
    crate::text::lemma_offset_round_trip(s, offset);
}

/// Undo then redo restores content and cursors to what they were before the
/// undo, and leaves the redo stack as it was.
pub proof fn lemma_undo_redo_restores(state: EditorStateView, undo_time: u64, redo_time: u64)
    requires
        state.history.undo_stack.len() > 0,
    ensures
        state.after_undo(undo_time).after_redo(redo_time).content == state.content,
        state.after_undo(undo_time).after_redo(redo_time).cursors == state.cursors,
        state.after_undo(undo_time).after_redo(redo_time).history.redo_stack
            == state.history.redo_stack,
        state.after_undo(undo_time).after_redo(redo_time).history.undo_stack.len()
            == state.history.undo_stack.len(),
{
    let undone = state.after_undo(undo_time);
    assert(undone.history.redo_stack.last().content == state.content);
    assert(undone.history.redo_stack.drop_last() =~= state.history.redo_stack);
}

/// An edit at time `now` that is recorded, not coalesced, leaves nothing to redo.
pub proof fn lemma_recorded_edit_clears_redo(
    state: EditorStateView,
    content: Seq<char>,
    cursors: Seq<Cursor>,
    now: u64,
)
    requires
        !state.history.is_undoing,
        !state.history.coalesces(now),
    ensures
        state.edited(content, cursors, now).history.redo_stack.len() == 0,
{
}

/// Undo takes back an edit: where the edit was recorded and the history
/// keeps at least one step, an undo right after it brings back the content
/// and the cursors of before the edit.
pub proof fn lemma_undo_takes_back_an_edit(
    state: EditorStateView,
    content: Seq<char>,
    cursors: Seq<Cursor>,
    edit_time: u64,
    undo_time: u64,
)
    requires
        !state.history.is_undoing,
        !state.history.coalesces(edit_time),
        state.history.config.max_entries >= 1,
    ensures
        state.edited(content, cursors, edit_time).after_undo(undo_time).content == state.content,
        state.edited(content, cursors, edit_time).after_undo(undo_time).cursors == state.cursors,
{
    let stack = state.history.undo_stack.push(
        crate::history::HistoryEntryView {
            content: state.content,
            cursors: state.cursors,
            timestamp: Some(edit_time),
        },
    );
    if stack.len() > state.history.config.max_entries {
        assert(stack.drop_first().last() == stack.last());
    }
}

} // verus!
