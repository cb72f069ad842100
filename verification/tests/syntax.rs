use editor_core::syntax::{
    plain_line, styled_spans, HighlightedSpan, Highlighter, Language, StyledText, SyntaxConfig,
};

#[test]
fn test_language_from_extension() {
    assert_eq!(Language::from_extension("rs"), Language::Rust);
    assert_eq!(Language::from_extension("js"), Language::JavaScript);
    assert_eq!(Language::from_extension("py"), Language::Python);
    assert_eq!(Language::from_extension("unknown"), Language::PlainText);
}

#[test]
fn test_highlighted_span_style() {
    let span = HighlightedSpan {
        text: "let".to_string(),
        color: "rgb(255, 0, 0)".to_string(),
        font_weight: "bold".to_string(),
        font_style: "normal".to_string(),
    };

    let style = span.style();
    assert!(style.contains("color: rgb(255, 0, 0)"));
    assert!(style.contains("font-weight: bold"));
}

#[test]
fn extensions_are_read_in_any_case() {
    assert_eq!(Language::from_extension("RS"), Language::Rust);
    assert_eq!(Language::from_extension("Tsx"), Language::TypeScript);
    assert_eq!(Language::from_extension("YML"), Language::Yaml);
    assert_eq!(Language::from_extension("hxx"), Language::Cpp);
    assert_eq!(Language::from_extension("h"), Language::C);
    assert_eq!(Language::from_extension("fish"), Language::Shell);
    assert_eq!(Language::from_extension("markdown"), Language::Markdown);
    assert_eq!(Language::from_extension(""), Language::PlainText);
    assert_eq!(Language::Shell.syntax_name(), "Bourne Again Shell (bash)");
    assert_eq!(Language::Cpp.syntax_name(), "C++");
    assert_eq!(Language::PlainText.syntax_name(), "Plain Text");
    let config = SyntaxConfig::default();
    assert_eq!(config.language, Language::PlainText);
    assert!(config.is_dark && config.enabled);
}

#[test]
fn spans_are_styled_in_css_terms() {
    let plain = HighlightedSpan::plain("text");
    assert_eq!(plain.style(), "color: inherit; font-weight: normal; font-style: normal");
    let line = styled_spans(vec![
        StyledText { text: "fn".to_string(), red: 180, green: 7, blue: 0, bold: true, italic: false },
        StyledText { text: " x".to_string(), red: 255, green: 255, blue: 255, bold: false, italic: true },
    ]);
    assert_eq!(line.spans.len(), 2);
    assert_eq!(line.spans[0].text, "fn");
    assert_eq!(line.spans[0].color, "rgb(180, 7, 0)");
    assert_eq!(line.spans[0].font_weight, "bold");
    assert_eq!(line.spans[0].font_style, "normal");
    assert_eq!(line.spans[1].style(), "color: rgb(255, 255, 255); font-weight: normal; font-style: italic");
    let whole = plain_line("a line");
    assert_eq!(whole.spans.len(), 1);
    assert_eq!(whole.spans[0].text, "a line");
    assert_eq!(whole.spans[0].color, "inherit");
}

#[test]
fn the_highlighter_cuts_a_line_into_coloured_spans() {
    let highlighter = Highlighter::new();
    let line = "let x = \"text\";\n";
    let out = highlighter.highlight_line(line, Language::Rust, true);
    let text: String = out.spans.iter().map(|s| s.text.as_str()).collect();
    assert_eq!(text, line);
    assert!(out.spans.len() > 1);
    assert!(out.spans.iter().all(|s| s.color.starts_with("rgb(") && s.color.ends_with(')')));
    let light = highlighter.highlight_line(line, Language::Rust, false);
    let dark_colours: Vec<&str> = out.spans.iter().map(|s| s.color.as_str()).collect();
    let light_colours: Vec<&str> = light.spans.iter().map(|s| s.color.as_str()).collect();
    assert_ne!(light_colours, dark_colours);
    let plain = Highlighter::default().highlight_line("just text\n", Language::PlainText, true);
    let text: String = plain.spans.iter().map(|s| s.text.as_str()).collect();
    assert_eq!(text, "just text\n");
}

#[test]
fn the_default_themes_are_loaded() {
    let highlighter = Highlighter::new();
    assert!(highlighter.has_theme("base16-ocean.dark"));
    assert!(highlighter.has_theme("base16-ocean.light"));
    assert!(!highlighter.has_theme("no such theme"));
    assert!(!highlighter.has_theme(""));
    assert!(Highlighter::default().has_theme("base16-ocean.light"));
}
