use editor_core::view::{editor_class_list, indent_at, minimap_class_list};

#[test]
fn class_lists_name_the_state() {
    assert_eq!(editor_class_list(false, false, false, false, None), "leptos-editor");
    assert_eq!(
        editor_class_list(true, true, true, true, Some("mine")),
        "leptos-editor focused read-only word-wrap with-line-numbers mine"
    );
    assert_eq!(
        editor_class_list(false, false, true, true, None),
        "leptos-editor word-wrap with-line-numbers"
    );
    assert_eq!(editor_class_list(true, false, false, false, Some("a b")), "leptos-editor focused a b");
    assert_eq!(minimap_class_list(None), "leptos-minimap");
    assert_eq!(minimap_class_list(Some("side")), "leptos-minimap side");
}

#[test]
fn the_tab_key_puts_spaces_in_place_of_the_selection() {
    assert_eq!(indent_at("abcdef", 2, 2, 4), ("ab    cdef".to_string(), 6));
    assert_eq!(indent_at("abcdef", 1, 4, 2), ("a  ef".to_string(), 3));
    assert_eq!(indent_at("", 0, 0, 3), ("   ".to_string(), 3));
    assert_eq!(indent_at("abc", 3, 3, 0), ("abc".to_string(), 3));
    // The offsets count bytes: "é" takes two.
    assert_eq!(indent_at("éa", 2, 3, 1), ("é ".to_string(), 3));
    assert_eq!(indent_at("ab", 9, 9, 1), ("ab ".to_string(), 10));
}
