use editor_core::text::{
    count_lines, line_range, offset_to_line_col, offset_to_position, position_to_offset,
    text_stats,
};

#[test]
fn text_test_count_lines() {
    assert_eq!(count_lines(""), 1);
    assert_eq!(count_lines("hello"), 1);
    assert_eq!(count_lines("hello\n"), 2);
    assert_eq!(count_lines("hello\nworld"), 2);
    assert_eq!(count_lines("a\nb\nc"), 3);
    assert_eq!(count_lines("\n\n\n"), 4);
}

#[test]
fn text_test_text_stats() {
    let (words, chars, chars_no_spaces, lines) = text_stats("Hello, World!");
    assert_eq!(words, 2);
    assert_eq!(chars, 13);
    assert_eq!(chars_no_spaces, 12);
    assert_eq!(lines, 1);
}

#[test]
fn test_offset_to_position() {
    let text = "hello\nworld";
    assert_eq!(offset_to_position(text, 0), (0, 0));
    assert_eq!(offset_to_position(text, 5), (0, 5));
    assert_eq!(offset_to_position(text, 6), (1, 0));
    assert_eq!(offset_to_position(text, 11), (1, 5));
}

#[test]
fn test_position_to_offset() {
    let text = "hello\nworld";
    assert_eq!(position_to_offset(text, 0, 0), Some(0));
    assert_eq!(position_to_offset(text, 0, 5), Some(5));
    assert_eq!(position_to_offset(text, 1, 0), Some(6));
    assert_eq!(position_to_offset(text, 1, 5), Some(11));
    assert_eq!(position_to_offset(text, 2, 0), None);
}

#[test]
fn test_line_range() {
    let text = "hello\nworld\nfoo";
    assert_eq!(line_range(text, 0), Some((0, 5)));
    assert_eq!(line_range(text, 1), Some((6, 11)));
    assert_eq!(line_range(text, 2), Some((12, 15)));
    assert_eq!(line_range(text, 3), None);
}

#[test]
fn text_helpers_at_the_edges() {
    assert_eq!(text_stats(""), (0, 0, 0, 1));
    assert_eq!(text_stats("  two\twords \n"), (2, 13, 8, 2));
    assert_eq!(offset_to_position("ab\ncd", 99), (1, 2));
    assert_eq!(offset_to_position("", 0), (0, 0));
    assert_eq!(position_to_offset("ab\ncd", 0, 3), None);
    assert_eq!(position_to_offset("ab\n", 1, 0), Some(3));
    assert_eq!(position_to_offset("", 0, 0), Some(0));
    assert_eq!(line_range("", 0), Some((0, 0)));
    assert_eq!(line_range("a\n", 1), Some((2, 2)));
    assert_eq!(line_range("é\nü", 1), Some((2, 3)));
}

#[test]
fn byte_offsets_turn_into_lines_and_columns() {
    let text = "hé\nwörld";
    assert_eq!(offset_to_line_col(text, 0), (0, 0));
    assert_eq!(offset_to_line_col(text, 1), (0, 1));
    assert_eq!(offset_to_line_col(text, 3), (0, 2));
    assert_eq!(offset_to_line_col(text, 4), (1, 0));
    assert_eq!(offset_to_line_col(text, 5), (1, 1));
    assert_eq!(offset_to_line_col(text, 7), (1, 2));
    assert_eq!(offset_to_line_col(text, 2), (0, 2));
    assert_eq!(offset_to_line_col(text, 100), (1, 5));
}
