//! The model half of a text editor, independent of any rendering surface.
//!
//! - [`cursor`] and [`selection`]: positions, cursors, selections and the
//!   multi-cursor set that keeps its cursors apart.
//! - [`history`]: undo and redo stacks with time-based coalescing.
//! - [`state`]: the document, which owns content, cursors and history and
//!   keeps them consistent under every edit.
//! - [`find_replace`]: literal and regex search, navigation and replacement.
//! - [`folding`]: fold regions and their detection in markdown-like text.
//! - [`statistics`], [`syntax`], [`line_numbers`], [`view`], [`dom`]: reports
//!   and helpers for what is shown around the text.
//! - [`text`], [`lines`], [`chars`], [`clock`]: the groundwork.
//!
//! Offsets and columns count characters throughout, never bytes.

pub mod chars;
pub mod clock;
pub mod cursor;
pub mod dom;
pub mod find_replace;
pub mod folding;
pub mod history;
pub mod line_numbers;
pub mod lines;
pub mod selection;
pub mod state;
pub mod statistics;
pub mod syntax;
pub mod text;
pub mod view;
