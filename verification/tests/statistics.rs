use editor_core::statistics::{DocumentStats, TextStats};

#[test]
fn statistics_test_text_stats() {
    let stats = TextStats::from_text("Hello, World!\n\nNew paragraph.");

    assert_eq!(stats.words, 4);
    assert_eq!(stats.lines, 3);
    assert_eq!(stats.paragraphs, 2);
}

#[test]
fn test_document_stats() {
    let text = r#"# Title

Some text with a [link](url).

## Section

- Item 1
- Item 2

```rust
let x = 1;
```
"#;

    let stats = DocumentStats::from_text(text);

    assert_eq!(stats.heading_count, 2);
    assert_eq!(stats.headings_by_level[0], 1); // H1
    assert_eq!(stats.headings_by_level[1], 1); // H2
    assert_eq!(stats.link_count, 1);
    assert_eq!(stats.list_item_count, 2);
    assert_eq!(stats.code_block_count, 1);
}

#[test]
fn test_reading_time() {
    let text = "word ".repeat(500); // 500 words
    let stats = DocumentStats::from_text(&text);

    assert_eq!(stats.reading_time_minutes, 2); // 500/250 = 2 minutes
}

#[test]
fn text_stats_of_empty_and_blank_text() {
    let empty = TextStats::from_text("");
    assert_eq!(
        empty,
        TextStats { words: 0, characters: 0, characters_no_spaces: 0, lines: 1, paragraphs: 0 }
    );
    let blank = TextStats::from_text(" \n\t\n");
    assert_eq!(
        blank,
        TextStats { words: 0, characters: 4, characters_no_spaces: 0, lines: 3, paragraphs: 0 }
    );
}

#[test]
fn paragraphs_are_set_apart_by_empty_lines() {
    assert_eq!(TextStats::from_text("one\ntwo\nthree").paragraphs, 1);
    assert_eq!(TextStats::from_text("one\n\ntwo\n\n\nthree\n").paragraphs, 3);
    assert_eq!(TextStats::from_text("one\n  \ntwo").paragraphs, 1);
    assert_eq!(TextStats::from_text("\n\none").paragraphs, 1);
    assert_eq!(TextStats::from_text("é ü\nö").words, 3);
    assert_eq!(TextStats::from_text("é ü\nö").characters, 5);
    assert_eq!(TextStats::from_text("é ü\nö").characters_no_spaces, 3);
}

#[test]
fn stats_are_written_out() {
    let stats = TextStats::from_text("two words\nhere");
    assert_eq!(stats.format_compact(), "3 words | 14 chars | 2 lines");
    assert_eq!(TextStats::default().format_compact(), "0 words | 0 chars | 0 lines");
    let mut doc = DocumentStats::from_text("word");
    assert_eq!(doc.reading_time_minutes, 1);
    assert_eq!(doc.format_reading_time(), "1 min read");
    doc.reading_time_minutes = 120;
    assert_eq!(doc.format_reading_time(), "120 min read");
}

#[test]
fn reading_time_rounds_up() {
    assert_eq!(DocumentStats::from_text("").reading_time_minutes, 1);
    assert_eq!(DocumentStats::from_text(&"w ".repeat(250)).reading_time_minutes, 1);
    assert_eq!(DocumentStats::from_text(&"w ".repeat(251)).reading_time_minutes, 2);
    assert_eq!(DocumentStats::from_text(&"w ".repeat(750)).reading_time_minutes, 3);
}

#[test]
fn markdown_elements_are_counted() {
    let text = "> quote\n> more\n1. first\n22. second\n3.third\n* star\n+ plus\n-dash\n| a | b |\n|---|---|\n![img](a.png) and [link](b) and [broken](c\n  ### Deep ###\n####### seven\n~~~\n# not a heading\n[not](a) link\n~~~\n";
    let stats = DocumentStats::from_text(text);
    assert_eq!(stats.blockquote_count, 2);
    assert_eq!(stats.list_item_count, 4);
    assert_eq!(stats.table_count, 2);
    assert_eq!(stats.image_count, 1);
    assert_eq!(stats.link_count, 2);
    assert_eq!(stats.heading_count, 1);
    assert_eq!(stats.headings_by_level, [0, 0, 1, 0, 0, 0]);
    assert_eq!(stats.code_block_count, 1);
    assert_eq!(stats.text.lines, 18);
}
