use editor_core::chars::{
    chars_eq, copy_trimmed, decimal_string, find_from, matches_at, scan_back_while, scan_while,
    slice_string, starts_with_at, to_chars, trim_range, CharClass,
};
use editor_core::lines::{split_into_lines, split_lines};

fn chars(s: &str) -> Vec<char> {
    s.chars().collect()
}

#[test]
fn strings_are_read_as_characters() {
    assert_eq!(to_chars("héé"), vec!['h', 'é', 'é']);
    assert_eq!(to_chars(""), Vec::<char>::new());
    assert_eq!(slice_string("héllo", 1, 3), "él");
    assert_eq!(slice_string("héllo", 5, 5), "");
    assert!(chars_eq(&chars("ab"), &chars("ab")));
    assert!(!chars_eq(&chars("ab"), &chars("ac")));
    assert!(!chars_eq(&chars("ab"), &chars("abc")));
}

#[test]
fn scans_stop_at_the_end_of_a_run() {
    let s = chars("  \t##  x9_ ");
    assert_eq!(scan_while(&s, 0, CharClass::Whitespace), 3);
    assert_eq!(scan_while(&s, 3, CharClass::Is('#')), 5);
    assert_eq!(scan_while(&s, 3, CharClass::Not(' ')), 5);
    assert_eq!(scan_while(&s, 7, CharClass::Word), 10);
    assert_eq!(scan_while(&s, 8, CharClass::AsciiDigit), 9);
    assert_eq!(scan_while(&s, 11, CharClass::Whitespace), 11);
    assert_eq!(scan_back_while(&s, 11, CharClass::Whitespace), 10);
    assert_eq!(scan_back_while(&s, 10, CharClass::Word), 7);
    assert_eq!(scan_back_while(&s, 0, CharClass::Word), 0);
    assert!(CharClass::Whitespace.contains('\u{a0}'));
    assert!(!CharClass::AsciiDigit.contains('٣'));
    assert!(CharClass::Word.contains('٣'));
    assert_eq!(trim_range(&chars("  a b \n")), (2, 5));
    assert_eq!(trim_range(&chars(" \t ")), (3, 3));
    assert_eq!(copy_trimmed(&chars("  a b \n")), chars("a b"));
    assert_eq!(copy_trimmed(&chars("")), chars(""));
}

#[test]
fn substrings_are_found_from_the_left() {
    let hay = chars("abcabcab");
    assert_eq!(find_from(&hay, &chars("bc"), 0), Some(1));
    assert_eq!(find_from(&hay, &chars("bc"), 2), Some(4));
    assert_eq!(find_from(&hay, &chars("bc"), 5), None);
    assert_eq!(find_from(&hay, &chars("ab"), 6), Some(6));
    assert_eq!(find_from(&hay, &chars("ab"), 7), None);
    assert_eq!(find_from(&hay, &chars(""), 8), Some(8));
    assert_eq!(find_from(&hay, &chars(""), 9), None);
    assert_eq!(find_from(&hay, &chars("abcabcabc"), 0), None);
    assert!(matches_at(&hay, &chars("cab"), 2));
    assert!(!matches_at(&hay, &chars("cab"), 6));
    assert!(starts_with_at(&hay, 3, "abc"));
    assert!(!starts_with_at(&hay, 4, "abc"));
}

#[test]
fn numbers_are_written_in_decimal() {
    assert_eq!(decimal_string(0), "0");
    assert_eq!(decimal_string(7), "7");
    assert_eq!(decimal_string(10), "10");
    assert_eq!(decimal_string(1234567890), "1234567890");
    assert_eq!(decimal_string(u64::MAX), "18446744073709551615");
}

#[test]
fn lines_end_at_line_feeds() {
    assert_eq!(split_lines(&chars("")), vec![]);
    assert_eq!(split_lines(&chars("a")), vec![(0, 1)]);
    assert_eq!(split_lines(&chars("a\n")), vec![(0, 1)]);
    assert_eq!(split_lines(&chars("\n")), vec![(0, 0)]);
    assert_eq!(split_lines(&chars("a\r\nb\n\nc")), vec![(0, 1), (3, 4), (5, 5), (6, 7)]);
    assert_eq!(split_lines(&chars("\r\n\r")), vec![(0, 0), (2, 3)]);
    let text = "one\r\ntwo\n\nfour\r";
    let lines: Vec<String> =
        split_into_lines(&chars(text)).iter().map(|l| l.iter().collect()).collect();
    let expected: Vec<String> = text.lines().map(String::from).collect();
    assert_eq!(lines, expected);
    for text in ["", "\n", "\r", "a\r\r\n", "\n\n", "x\ny", "x\r\ny\r\n", "\r\n"] {
        let lines: Vec<String> =
            split_into_lines(&chars(text)).iter().map(|l| l.iter().collect()).collect();
        let expected: Vec<String> = text.lines().map(String::from).collect();
        assert_eq!(lines, expected);
    }
}
