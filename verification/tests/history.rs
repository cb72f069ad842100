use editor_core::clock::{millis_within_u64, now_millis};
use editor_core::cursor::{Cursor, CursorPosition, CursorSet};
use editor_core::history::{History, HistoryConfig, HistoryEntry};

fn test_cursors() -> CursorSet {
    CursorSet::new(Cursor::new(CursorPosition::zero()))
}

#[test]
fn history_test_undo_redo() {
    let mut history = History::new();

    history.push_at("state1".to_string(), test_cursors(), 1_000);
    history.push_at("state2".to_string(), test_cursors(), 1_600);

    let entry = history.undo("state3", &test_cursors());
    assert!(entry.is_some());
    assert_eq!(entry.unwrap().content, "state2");

    let entry = history.redo("state2", &test_cursors());
    assert!(entry.is_some());
    assert_eq!(entry.unwrap().content, "state3");
}

#[test]
fn test_redo_cleared_on_new_edit() {
    let mut history = History::new();

    history.push_at("state1".to_string(), test_cursors(), 1_000);
    history.push_at("state2".to_string(), test_cursors(), 1_600);

    history.undo_at("state3", &test_cursors(), 1_700);
    assert!(history.can_redo());

    history.push_at("state4".to_string(), test_cursors(), 2_300);
    assert!(!history.can_redo());
}

#[test]
fn pushes_within_the_window_make_one_step() {
    let mut history = History::new();
    history.push_at("a".to_string(), test_cursors(), 10_000);
    history.push_at("ab".to_string(), test_cursors(), 10_100);
    history.push_at("abc".to_string(), test_cursors(), 10_499);
    assert_eq!(history.undo_count(), 1);
    let entry = history.undo_at("abcd", &test_cursors(), 10_500).unwrap();
    assert_eq!(entry.content, "a");
    assert_eq!(entry.timestamp, Some(10_000));
    assert!(!history.can_undo());
}

#[test]
fn pushes_a_window_apart_make_two_steps() {
    let mut history = History::new();
    history.push_at("a".to_string(), test_cursors(), 10_000);
    history.push_at("ab".to_string(), test_cursors(), 10_500);
    assert_eq!(history.undo_count(), 2);
    assert_eq!(history.undo_at("abc", &test_cursors(), 11_000).unwrap().content, "ab");
    assert_eq!(history.undo_at("ab", &test_cursors(), 11_000).unwrap().content, "a");
    assert!(history.undo_at("a", &test_cursors(), 11_000).is_none());
    assert_eq!(history.redo_count(), 2);
}

#[test]
fn a_clock_that_went_back_counts_as_no_time() {
    let mut history = History::new();
    history.push_at("a".to_string(), test_cursors(), 10_000);
    history.push_at("ab".to_string(), test_cursors(), 9_000);
    assert_eq!(history.undo_count(), 1);
}

#[test]
fn checkpoints_never_coalesce() {
    let mut history = History::new();
    history.push_at("a".to_string(), test_cursors(), 10_000);
    history.push_checkpoint("ab".to_string(), test_cursors());
    assert_eq!(history.undo_count(), 2);
    history.push_at("abc".to_string(), test_cursors(), 10_001);
    assert_eq!(history.undo_count(), 3);
    let top = history.undo_at("abcd", &test_cursors(), 10_002).unwrap();
    assert_eq!(top.content, "abc");
    let checkpoint = history.undo_at("abc", &test_cursors(), 10_002).unwrap();
    assert_eq!(checkpoint.content, "ab");
    assert_eq!(checkpoint.timestamp, None);
}

#[test]
fn pushes_are_ignored_while_undoing() {
    let mut history = History::new();
    history.begin_undo();
    history.push_at("a".to_string(), test_cursors(), 10_000);
    history.push_checkpoint("b".to_string(), test_cursors());
    history.push("c".to_string(), test_cursors());
    assert_eq!(history.undo_count(), 0);
    history.end_undo();
    history.push_at("a".to_string(), test_cursors(), 10_000);
    assert_eq!(history.undo_count(), 1);
}

#[test]
fn the_oldest_step_goes_when_the_stack_is_full() {
    let mut history = History::with_config(HistoryConfig { max_entries: 2, coalesce_window_ms: 0 });
    history.push_at("1".to_string(), test_cursors(), 0);
    history.push_at("2".to_string(), test_cursors(), 0);
    history.push_at("3".to_string(), test_cursors(), 0);
    assert_eq!(history.undo_count(), 2);
    assert_eq!(history.undo_at("4", &test_cursors(), 0).unwrap().content, "3");
    assert_eq!(history.undo_at("3", &test_cursors(), 0).unwrap().content, "2");
    assert!(!history.can_undo());
    history.clear();
    assert_eq!(history.redo_count(), 0);
    assert!(!history.can_redo());
}

#[test]
fn undo_then_redo_hands_back_the_live_state() {
    let mut history = History::new();
    let mut cursors = test_cursors();
    cursors.add(Cursor::new(CursorPosition::new(3, 1)));
    history.push_at("before".to_string(), test_cursors(), 5);
    let undone = history.undo_at("live", &cursors, 6).unwrap();
    assert_eq!(undone.content, "before");
    let redone = history.redo_at(&undone.content, &undone.cursors, 7).unwrap();
    assert_eq!(redone.content, "live");
    assert_eq!(redone.cursors.all(), cursors.all());
    assert_eq!(redone.timestamp, Some(6));
    assert_eq!(history.undo_count(), 1);
    assert_eq!(history.redo_count(), 0);
}

#[test]
fn entries_taken_now_carry_a_time() {
    let entry = HistoryEntry::new("x".to_string(), test_cursors());
    assert!(entry.timestamp.is_some());
    assert!(entry.timestamp.unwrap() > 1_600_000_000_000);
    let fixed = HistoryEntry::at("x".to_string(), test_cursors(), None);
    assert_eq!(fixed.timestamp, None);
    assert_eq!(HistoryConfig::default().max_entries, 1000);
    assert_eq!(HistoryConfig::default().coalesce_window_ms, 500);
    let mut history = History::default();
    history.push("a".to_string(), test_cursors());
    assert_eq!(history.undo_count(), 1);
    let mut wide = History::with_config(HistoryConfig {
        max_entries: 10,
        coalesce_window_ms: u64::MAX,
    });
    wide.push("a".to_string(), test_cursors());
    wide.push("b".to_string(), test_cursors());
    assert_eq!(wide.undo_count(), 1);
    let mut none = History::with_config(HistoryConfig { max_entries: 10, coalesce_window_ms: 0 });
    none.push("a".to_string(), test_cursors());
    none.push("b".to_string(), test_cursors());
    assert_eq!(none.undo_count(), 2);
    assert_eq!(none.undo("c", &test_cursors()).unwrap().content, "b");
    assert_eq!(none.redo("b", &test_cursors()).unwrap().content, "c");
}

#[test]
fn times_are_kept_within_the_range_of_the_clock() {
    assert_eq!(millis_within_u64(None), 0);
    assert_eq!(millis_within_u64(Some(0)), 0);
    assert_eq!(millis_within_u64(Some(1_234)), 1_234);
    assert_eq!(millis_within_u64(Some(u64::MAX as u128)), u64::MAX);
    assert_eq!(millis_within_u64(Some(u64::MAX as u128 + 1)), u64::MAX);
    assert_eq!(millis_within_u64(Some(u128::MAX)), u64::MAX);
    let first = now_millis();
    assert!(first > 1_600_000_000_000);
    assert!(first < u64::MAX);
}
