use editor_core::chars::is_word_char;
use editor_core::cursor::CursorPosition;
use editor_core::selection::{word_at_position, Selection, SelectionMode};

#[test]
fn test_selection_normalized() {
    let sel = Selection::new(CursorPosition::new(1, 5), CursorPosition::new(0, 3));

    let (start, end) = sel.normalized();
    assert_eq!(start, CursorPosition::new(0, 3));
    assert_eq!(end, CursorPosition::new(1, 5));
}

#[test]
fn test_selection_overlaps() {
    let a = Selection::new(CursorPosition::new(0, 0), CursorPosition::new(0, 5));
    let b = Selection::new(CursorPosition::new(0, 3), CursorPosition::new(0, 10));
    let c = Selection::new(CursorPosition::new(0, 6), CursorPosition::new(0, 10));

    assert!(a.overlaps(&b));
    assert!(!a.overlaps(&c));
}

#[test]
fn test_word_at_position() {
    let text = "hello world foo_bar";

    assert_eq!(word_at_position(text, 0, 2), Some((0, 5)));
    assert_eq!(word_at_position(text, 0, 8), Some((6, 11)));
    assert_eq!(word_at_position(text, 0, 15), Some((12, 19)));
}

#[test]
fn word_at_position_edges() {
    assert_eq!(word_at_position("a  b", 0, 2), None);
    assert_eq!(word_at_position("a  b", 0, 1), Some((0, 1)));
    assert_eq!(word_at_position("a  b", 0, 5), None);
    assert_eq!(word_at_position("a  b", 1, 0), None);
    assert_eq!(word_at_position("", 0, 0), None);
    assert_eq!(word_at_position("one\ntwo words", 1, 0), Some((0, 3)));
    assert_eq!(word_at_position("one\ntwo words", 1, 9), Some((4, 9)));
    // Columns count characters, not bytes.
    assert_eq!(word_at_position("é über", 0, 3), Some((2, 6)));
    assert!(is_word_char('_'));
    assert!(is_word_char('ü'));
    assert!(is_word_char('7'));
    assert!(!is_word_char('-'));
    assert!(!is_word_char(' '));
}

#[test]
fn selection_contains_is_half_open() {
    let sel = Selection::new(CursorPosition::new(2, 0), CursorPosition::new(0, 3));
    assert!(sel.contains(CursorPosition::new(0, 3)));
    assert!(sel.contains(CursorPosition::new(1, 99)));
    assert!(!sel.contains(CursorPosition::new(2, 0)));
    assert!(!sel.contains(CursorPosition::new(0, 2)));
    assert!(!Selection::empty(CursorPosition::new(1, 1)).contains(CursorPosition::new(1, 1)));
    assert!(Selection::empty(CursorPosition::new(1, 1)).is_empty());
    assert!(!sel.is_empty());
    assert_eq!(SelectionMode::default(), SelectionMode::Character);
}

#[test]
fn selection_merge_joins_touching_ranges() {
    let a = Selection::new(CursorPosition::new(0, 0), CursorPosition::new(0, 5));
    let b = Selection::new(CursorPosition::new(0, 9), CursorPosition::new(0, 5));
    let c = Selection::new(CursorPosition::new(0, 6), CursorPosition::new(0, 10));
    assert!(!a.overlaps(&b));
    assert_eq!(
        a.merge(&b),
        Some(Selection::new(CursorPosition::new(0, 0), CursorPosition::new(0, 9)))
    );
    assert_eq!(a.merge(&c), None);
    assert_eq!(
        c.merge(&b),
        Some(Selection::new(CursorPosition::new(0, 5), CursorPosition::new(0, 10)))
    );
}
