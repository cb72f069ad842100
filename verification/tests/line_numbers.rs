use editor_core::dom::on_browser;
use editor_core::line_numbers::count_lines;

#[test]
fn line_numbers_test_count_lines() {
    assert_eq!(count_lines(""), 1);
    assert_eq!(count_lines("hello"), 1);
    assert_eq!(count_lines("hello\nworld"), 2);
    assert_eq!(count_lines("a\nb\nc\n"), 4);
}

#[test]
fn work_for_the_browser_runs_only_there() {
    assert_eq!(on_browser(true, || 7), Some(7));
    assert_eq!(on_browser(false, || 7), None);
}
