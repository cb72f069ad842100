use editor_core::cursor::{Cursor, CursorPosition};
use editor_core::state::{EditorConfig, EditorState};

#[test]
fn test_editor_state_new() {
    let state = EditorState::new("Hello, World!");
    assert_eq!(state.content(), "Hello, World!");
    assert_eq!(state.line_count(), 1);
    assert!(!state.is_modified);
}

#[test]
fn test_insert() {
    let mut state = EditorState::new("");
    state.insert("Hello");
    assert_eq!(state.content(), "Hello");
    assert!(state.is_modified);
}

#[test]
fn state_test_undo_redo() {
    let mut state = EditorState::new("initial");
    state.set_content("modified");

    assert!(state.undo());
    assert_eq!(state.content(), "initial");

    assert!(state.redo());
    assert_eq!(state.content(), "modified");
}

#[test]
fn test_position_offset_conversion() {
    let state = EditorState::new("hello\nworld\nfoo");

    assert_eq!(state.position_to_offset(CursorPosition::new(0, 0)), Some(0));
    assert_eq!(state.position_to_offset(CursorPosition::new(1, 0)), Some(6));
    assert_eq!(
        state.position_to_offset(CursorPosition::new(2, 0)),
        Some(12)
    );

    assert_eq!(state.offset_to_position(0), Some(CursorPosition::new(0, 0)));
    assert_eq!(state.offset_to_position(6), Some(CursorPosition::new(1, 0)));
}

#[test]
fn positions_and_offsets_round_trip() {
    let state = EditorState::new("hé\n\nwörld\n");
    let length = state.content().chars().count();
    assert_eq!(length, 10);
    for offset in 0..=length {
        let position = state.offset_to_position(offset).unwrap();
        assert_eq!(state.position_to_offset(position), Some(offset));
    }
    assert_eq!(state.offset_to_position(length + 1), None);
    assert_eq!(state.offset_to_position(3), Some(CursorPosition::new(1, 0)));
    assert_eq!(state.offset_to_position(10), Some(CursorPosition::new(3, 0)));
    assert_eq!(state.position_to_offset(CursorPosition::new(0, 2)), Some(2));
    assert_eq!(state.position_to_offset(CursorPosition::new(0, 3)), None);
    assert_eq!(state.position_to_offset(CursorPosition::new(3, 1)), None);
    assert_eq!(state.position_to_offset(CursorPosition::new(4, 0)), None);
    assert_eq!(state.line_count(), 4);
    let empty = EditorState::default();
    assert_eq!(empty.position_to_offset(CursorPosition::zero()), Some(0));
    assert_eq!(empty.offset_to_position(0), Some(CursorPosition::zero()));
    assert_eq!(empty.line_count(), 1);
}

#[test]
fn insert_replaces_the_selection() {
    let mut state = EditorState::new("hello world");
    state.set_cursor_with_selection(CursorPosition::new(0, 5), CursorPosition::new(0, 0));
    state.insert_at("bye", 100);
    assert_eq!(state.content(), "bye world");
    assert_eq!(*state.cursors.primary(), Cursor::new(CursorPosition::new(0, 3)));
    assert_eq!(state.version, 1);
    assert!(state.can_undo());
    assert!(state.undo_at(200));
    assert_eq!(state.content(), "hello world");
    assert_eq!(
        *state.cursors.primary(),
        Cursor::with_selection(CursorPosition::new(0, 5), CursorPosition::new(0, 0))
    );
    assert_eq!(state.version, 2);
}

#[test]
fn insert_moves_the_caret_behind_the_text() {
    let mut state = EditorState::new("ab");
    state.set_cursor(CursorPosition::new(0, 1));
    state.insert_at("x\nyé", 0);
    assert_eq!(state.content(), "ax\nyéb");
    assert_eq!(state.cursor_position(), CursorPosition::new(1, 2));
    assert!(state.is_modified);
    state.mark_saved();
    assert!(!state.is_modified);
}

#[test]
fn insert_does_nothing_where_it_cannot() {
    let config = EditorConfig { read_only: true, ..EditorConfig::default() };
    let mut locked = EditorState::with_config("text", config);
    locked.insert("more");
    locked.delete_backward();
    locked.delete_forward();
    assert_eq!(locked.content(), "text");
    assert_eq!(locked.version, 0);
    assert!(!locked.is_modified);
    assert!(!locked.can_undo());

    let mut state = EditorState::new("text");
    state.set_cursor(CursorPosition::new(3, 0));
    state.insert("more");
    assert_eq!(state.content(), "text");
    assert_eq!(state.version, 0);
}

#[test]
fn delete_backward_takes_one_character() {
    let mut state = EditorState::new("aé\nb");
    state.set_cursor(CursorPosition::new(1, 0));
    state.delete_backward_at(0);
    assert_eq!(state.content(), "aéb");
    assert_eq!(state.cursor_position(), CursorPosition::new(0, 2));
    state.delete_backward_at(1_000);
    assert_eq!(state.content(), "ab");
    assert_eq!(state.cursor_position(), CursorPosition::new(0, 1));
    state.delete_backward_at(2_000);
    assert_eq!(state.content(), "b");
    state.delete_backward_at(3_000);
    assert_eq!(state.content(), "b");
    assert_eq!(state.version, 3);
}

#[test]
fn delete_forward_leaves_the_caret() {
    let mut state = EditorState::new("éa");
    state.delete_forward_at(0);
    assert_eq!(state.content(), "a");
    assert_eq!(state.cursor_position(), CursorPosition::zero());
    state.delete_forward_at(1_000);
    assert_eq!(state.content(), "");
    state.delete_forward_at(2_000);
    assert_eq!(state.content(), "");
    assert_eq!(state.version, 2);
}

#[test]
fn delete_takes_the_selection_first() {
    let mut state = EditorState::new("one\ntwo\nthree");
    state.set_cursor_with_selection(CursorPosition::new(0, 1), CursorPosition::new(2, 2));
    state.delete_backward_at(0);
    assert_eq!(state.content(), "oree");
    assert_eq!(*state.cursors.primary(), Cursor::new(CursorPosition::new(0, 1)));

    let mut state = EditorState::new("one\ntwo\nthree");
    state.set_cursor_with_selection(CursorPosition::new(1, 3), CursorPosition::new(1, 0));
    state.delete_forward_at(0);
    assert_eq!(state.content(), "one\n\nthree");
    assert_eq!(*state.cursors.primary(), Cursor::new(CursorPosition::new(1, 0)));

    let mut state = EditorState::new("one");
    state.set_cursor_with_selection(CursorPosition::new(0, 1), CursorPosition::new(0, 3));
    state.delete_selection_at(0);
    assert_eq!(state.content(), "o");
    assert_eq!(state.version, 1);
}

#[test]
fn undo_then_redo_restores_content_and_cursors() {
    let mut state = EditorState::new("first");
    state.set_cursor(CursorPosition::new(0, 5));
    state.insert_at(" second", 0);
    state.insert_at(" third", 1_000);
    let content = state.content().to_string();
    let cursors = state.cursors.all().to_vec();
    assert!(state.undo_at(2_000));
    assert_eq!(state.content(), "first second");
    assert!(state.can_redo());
    assert!(state.redo_at(3_000));
    assert_eq!(state.content(), content);
    assert_eq!(state.cursors.all(), &cursors[..]);
    assert!(!state.can_redo());
    assert!(!state.redo_at(4_000));
    assert!(state.undo_at(5_000));
    assert!(state.undo_at(5_000));
    assert_eq!(state.content(), "first");
    assert!(!state.undo_at(5_000));
    assert_eq!(state.version, 6);
}

#[test]
fn a_new_edit_clears_redo() {
    let mut state = EditorState::new("a");
    state.set_content_at("b", 0);
    assert!(state.undo_at(10));
    assert!(state.can_redo());
    state.set_content_at("c", 10_000);
    assert!(!state.can_redo());
    assert_eq!(state.content(), "c");
}

#[test]
fn fast_edits_undo_in_one_step() {
    let mut state = EditorState::new("");
    state.insert_at("a", 1_000);
    state.insert_at("b", 1_100);
    state.insert_at("c", 1_200);
    assert_eq!(state.content(), "abc");
    assert_eq!(state.version, 3);
    assert!(state.undo_at(5_000));
    assert_eq!(state.content(), "");
    assert!(!state.can_undo());
}

#[test]
fn set_content_and_replace_content() {
    let mut state = EditorState::new("same");
    state.set_content("same");
    assert_eq!(state.version, 0);
    assert!(!state.is_modified);
    state.replace_content("other");
    assert_eq!(state.content(), "other");
    assert_eq!(state.version, 1);
    assert!(!state.is_modified);
    assert!(!state.can_undo());
    state.set_content("third");
    assert_eq!(state.version, 2);
    assert!(state.is_modified);
    assert!(state.can_undo());
}

#[test]
fn lines_of_the_content() {
    let state = EditorState::new("one\r\ntwo\n\nfour\n");
    assert_eq!(state.get_line(0), Some("one"));
    assert_eq!(state.get_line(1), Some("two"));
    assert_eq!(state.get_line(2), Some(""));
    assert_eq!(state.get_line(3), Some("four"));
    assert_eq!(state.get_line(4), None);
    assert_eq!(state.line_count(), 5);
    assert_eq!(EditorState::new("").get_line(0), None);
    assert_eq!(EditorState::new("tail\r").get_line(0), Some("tail\r"));
}
