use editor_core::find_replace::{FindOptions, FindResult, FindState};

#[test]
fn test_find_literal() {
    let mut state = FindState::new();
    state.query = "hello".to_string();
    state.search("hello world hello");

    assert_eq!(state.match_count(), 2);
    assert_eq!(state.matches[0], FindResult::new(0, 5));
    assert_eq!(state.matches[1], FindResult::new(12, 17));
}

#[test]
fn test_find_case_insensitive() {
    let mut state = FindState::new();
    state.query = "Hello".to_string();
    state.options.case_sensitive = false;
    state.search("hello HELLO Hello");

    assert_eq!(state.match_count(), 3);
}

#[test]
fn test_find_whole_word() {
    let mut state = FindState::new();
    state.query = "test".to_string();
    state.options.whole_word = true;
    state.search("test testing tested test");

    assert_eq!(state.match_count(), 2);
}

#[test]
fn test_replace_all() {
    let mut state = FindState::new();
    state.query = "old".to_string();
    state.replacement = "new".to_string();
    state.search("old and old");

    let result = state.replace_all("old and old");
    assert_eq!(result, "new and new");
}

#[test]
fn replace_all_with_a_shorter_text() {
    let mut state = FindState::new();
    state.query = "old".to_string();
    state.replacement = "hi".to_string();
    state.search("old and old");
    assert_eq!(state.replace_all("old and old"), "hi and hi");
    state.replacement = String::new();
    assert_eq!(state.replace_all("old and old"), " and ");
    state.query = "missing".to_string();
    state.search("old and old");
    assert_eq!(state.replace_all("old and old"), "old and old");
}

#[test]
fn whole_word_matches_stand_alone() {
    let mut state = FindState::new();
    state.query = "test".to_string();
    state.options.whole_word = true;
    state.search("test testing tested test");
    assert_eq!(state.matches, vec![FindResult::new(0, 4), FindResult::new(20, 24)]);
    state.search("testtest");
    assert_eq!(state.match_count(), 0);
    state.search("a_test test_b (test)");
    assert_eq!(state.matches, vec![FindResult::new(15, 19)]);
    state.options.whole_word = false;
    state.search("testtest");
    assert_eq!(state.matches, vec![FindResult::new(0, 4), FindResult::new(4, 8)]);
}

#[test]
fn case_sensitive_search_tells_case_apart() {
    let mut state = FindState::new();
    state.query = "Hello".to_string();
    state.options.case_sensitive = true;
    state.search("hello HELLO Hello");
    assert_eq!(state.matches, vec![FindResult::new(12, 17)]);
    state.options.case_sensitive = false;
    state.search("hello HELLO Hello");
    assert_eq!(
        state.matches,
        vec![FindResult::new(0, 5), FindResult::new(6, 11), FindResult::new(12, 17)]
    );
}

#[test]
fn matches_do_not_overlap() {
    let mut state = FindState::new();
    state.query = "aa".to_string();
    state.search("aaaaa");
    assert_eq!(state.matches, vec![FindResult::new(0, 2), FindResult::new(2, 4)]);
    assert_eq!(state.replace_all("aaaaa"), "a");
}

#[test]
fn an_empty_query_finds_nothing() {
    let mut state = FindState::new();
    state.query = "x".to_string();
    state.search("xx");
    state.next();
    assert_eq!(state.current_index, 1);
    state.query = String::new();
    state.search("xx");
    assert_eq!(state.match_count(), 0);
    assert_eq!(state.current_index, 0);
    assert!(!state.has_matches());
    assert_eq!(state.next(), None);
    assert_eq!(state.prev(), None);
    assert_eq!(state.current_match(), None);
    assert_eq!(state.replace_current("xx"), None);
}

#[test]
fn offsets_count_characters() {
    let mut state = FindState::new();
    state.query = "wörld".to_string();
    state.options.case_sensitive = true;
    state.search("héllo wörld, wörld");
    assert_eq!(state.matches, vec![FindResult::new(6, 11), FindResult::new(13, 18)]);
    state.replacement = "you".to_string();
    assert_eq!(state.replace_all("héllo wörld, wörld"), "héllo you, you");
}

#[test]
fn regex_search_finds_patterns() {
    let mut state = FindState::new();
    state.query = "h.llo".to_string();
    state.options.use_regex = true;
    state.options.case_sensitive = true;
    state.search("hello hallo Hello");
    assert_eq!(state.matches, vec![FindResult::new(0, 5), FindResult::new(6, 11)]);
    state.options.case_sensitive = false;
    state.search("hello hallo Hello");
    assert_eq!(state.match_count(), 3);
    state.query = "test".to_string();
    state.options.whole_word = true;
    state.search("test testing tested TEST");
    assert_eq!(state.matches, vec![FindResult::new(0, 4), FindResult::new(20, 24)]);
}

#[test]
fn regex_offsets_count_characters() {
    let mut state = FindState::new();
    state.query = "w.rld".to_string();
    state.options.use_regex = true;
    state.search("héllo wörld");
    assert_eq!(state.matches, vec![FindResult::new(6, 11)]);
    state.replacement = "there".to_string();
    assert_eq!(state.replace_all("héllo wörld"), "héllo there");
}

#[test]
fn a_broken_pattern_finds_nothing() {
    let mut state = FindState::new();
    state.query = "(unclosed".to_string();
    state.options.use_regex = true;
    state.search("(unclosed (unclosed");
    assert_eq!(state.match_count(), 0);
    state.options.use_regex = false;
    state.search("(unclosed (unclosed");
    assert_eq!(state.match_count(), 2);
}

#[test]
fn navigation_goes_round() {
    let mut state = FindState::new();
    state.query = "a".to_string();
    state.search("a a a");
    assert_eq!(state.current_match(), Some(FindResult::new(0, 1)));
    assert_eq!(state.next(), Some(FindResult::new(2, 3)));
    assert_eq!(state.next(), Some(FindResult::new(4, 5)));
    assert_eq!(state.next(), Some(FindResult::new(0, 1)));
    assert_eq!(state.prev(), Some(FindResult::new(4, 5)));
    assert_eq!(state.prev(), Some(FindResult::new(2, 3)));
    state.current_index = usize::MAX;
    assert_eq!(state.next(), Some(FindResult::new(2, 3)));
    assert_eq!(state.current_index, 1);
}

#[test]
fn replace_current_splices_one_match() {
    let mut state = FindState::new();
    state.query = "cat".to_string();
    state.replacement = "dog".to_string();
    state.search("cat cat cat");
    state.next();
    assert_eq!(state.replace_current("cat cat cat"), Some("cat dog cat".to_string()));
    assert_eq!(state.match_count(), 3);
}

#[test]
fn panel_flags_leave_the_matches_alone() {
    let mut state = FindState::default();
    state.query = "a".to_string();
    state.search("aa");
    state.show_replace();
    assert!(state.is_visible && state.is_replace_mode);
    state.show();
    assert!(state.is_visible && !state.is_replace_mode);
    state.hide_panel();
    assert!(!state.is_visible);
    assert_eq!(state.match_count(), 2);
    state.clear();
    assert_eq!(state.query, "");
    assert_eq!(state.match_count(), 0);
    assert_eq!(state.current_index, 0);
    assert_eq!(FindOptions::default().case_sensitive, false);
    assert_eq!(FindResult::new(3, 7).len(), 4);
    assert!(FindResult::new(3, 3).is_empty());
    assert!(!FindResult::new(3, 7).is_empty());
}
