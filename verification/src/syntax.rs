//! Syntax highlighting: languages, styled spans, and the highlighter that
//! turns a line of code into spans with the help of `syntect`.

use vstd::prelude::*;
use vstd::string::StringExecFns;
use crate::chars::{chars_eq, decimal, decimal_string, lowercase_of, to_chars, to_lowercase};

verus! {

/// The languages the highlighter knows.
#[derive(Debug, Clone, Copy, PartialEq, Eq, Structural)]
pub enum Language {
    Rust,
    JavaScript,
    TypeScript,
    Python,
    Html,
    Css,
    Json,
    Yaml,
    Toml,
    Markdown,
    Sql,
    Shell,
    Go,
    C,
    Cpp,
    Java,
    /// Text that is not highlighted.
    PlainText,
}

/// The language that a file extension in lower case stands for.
pub open spec fn language_of(ext: Seq<char>) -> Language {
    if ext == "rs"@ {
        Language::Rust
    } else if ext == "js"@ || ext == "mjs"@ || ext == "cjs"@ {
        Language::JavaScript
    } else if ext == "ts"@ || ext == "mts"@ || ext == "cts"@ || ext == "tsx"@ {
        Language::TypeScript
    } else if ext == "py"@ || ext == "pyi"@ {
        Language::Python
    } else if ext == "html"@ || ext == "htm"@ {
        Language::Html
    } else if ext == "css"@ || ext == "scss"@ || ext == "sass"@ || ext == "less"@ {
        Language::Css
    } else if ext == "json"@ {
        Language::Json
    } else if ext == "yaml"@ || ext == "yml"@ {
        Language::Yaml
    } else if ext == "toml"@ {
        Language::Toml
    } else if ext == "md"@ || ext == "markdown"@ {
        Language::Markdown
    } else if ext == "sql"@ {
        Language::Sql
    } else if ext == "sh"@ || ext == "bash"@ || ext == "zsh"@ || ext == "fish"@ {
        Language::Shell
    } else if ext == "go"@ {
        Language::Go
    } else if ext == "c"@ || ext == "h"@ {
        Language::C
    } else if ext == "cpp"@ || ext == "cxx"@ || ext == "cc"@ || ext == "hpp"@ || ext == "hxx"@ {
        Language::Cpp
    } else if ext == "java"@ {
        Language::Java
    } else {
        Language::PlainText
    }
}

fn is(ext: &Vec<char>, name: &str) -> (b: bool)
    ensures
        b == (ext@ == name@),
{
    let other = to_chars(name);
    chars_eq(ext, &other)
}

impl Language {
    /// The name under which `syntect` knows the language.
    pub open spec fn name(self) -> Seq<char> {
        match self {
            Language::Rust => "Rust"@,
            Language::JavaScript => "JavaScript"@,
            Language::TypeScript => "TypeScript"@,
            Language::Python => "Python"@,
            Language::Html => "HTML"@,
            Language::Css => "CSS"@,
            Language::Json => "JSON"@,
            Language::Yaml => "YAML"@,
            Language::Toml => "TOML"@,
            Language::Markdown => "Markdown"@,
            Language::Sql => "SQL"@,
            Language::Shell => "Bourne Again Shell (bash)"@,
            Language::Go => "Go"@,
            Language::C => "C"@,
            Language::Cpp => "C++"@,
            Language::Java => "Java"@,
            Language::PlainText => "Plain Text"@,
        }
    }

    /// The language of a file with the given extension, whatever its case.
    /// An extension that is not known stands for plain text.
    pub fn from_extension(ext: &str) -> (language: Self)
        ensures
            language == language_of(lowercase_of(ext@)),
    {
        let lower = to_lowercase(ext);
        let e = to_chars(lower.as_str());
        if is(&e, "rs") {
            Language::Rust
        } else if is(&e, "js") || is(&e, "mjs") || is(&e, "cjs") {
            Language::JavaScript
        } else if is(&e, "ts") || is(&e, "mts") || is(&e, "cts") || is(&e, "tsx") {
            Language::TypeScript
        } else if is(&e, "py") || is(&e, "pyi") {
            Language::Python
        } else if is(&e, "html") || is(&e, "htm") {
            Language::Html
        } else if is(&e, "css") || is(&e, "scss") || is(&e, "sass") || is(&e, "less") {
            Language::Css
        } else if is(&e, "json") {
            Language::Json
        } else if is(&e, "yaml") || is(&e, "yml") {
            Language::Yaml
        } else if is(&e, "toml") {
            Language::Toml
        } else if is(&e, "md") || is(&e, "markdown") {
            Language::Markdown
        } else if is(&e, "sql") {
            Language::Sql
        } else if is(&e, "sh") || is(&e, "bash") || is(&e, "zsh") || is(&e, "fish") {
            Language::Shell
        } else if is(&e, "go") {
            Language::Go
        } else if is(&e, "c") || is(&e, "h") {
            Language::C
        } else if is(&e, "cpp") || is(&e, "cxx") || is(&e, "cc") || is(&e, "hpp") || is(
            &e,
            "hxx",
        ) {
            Language::Cpp
        } else if is(&e, "java") {
            Language::Java
        } else {
            Language::PlainText
        }
    }

    /// The name under which `syntect` knows the language.
    pub fn syntax_name(&self) -> (name: &'static str)
        ensures
            name@ == self.name(),
    {
        match self {
            Language::Rust => "Rust",
            Language::JavaScript => "JavaScript",
            Language::TypeScript => "TypeScript",
            Language::Python => "Python",
            Language::Html => "HTML",
            Language::Css => "CSS",
            Language::Json => "JSON",
            Language::Yaml => "YAML",
            Language::Toml => "TOML",
            Language::Markdown => "Markdown",
            Language::Sql => "SQL",
            Language::Shell => "Bourne Again Shell (bash)",
            Language::Go => "Go",
            Language::C => "C",
            Language::Cpp => "C++",
            Language::Java => "Java",
            Language::PlainText => "Plain Text",
        }
    }
}

/// What to highlight and how.
#[derive(Debug, Clone, Copy, PartialEq, Eq, Structural)]
pub struct SyntaxConfig {
    pub language: Language,
    /// Whether the dark theme is used.
    pub is_dark: bool,
    /// Whether highlighting is on.
    pub enabled: bool,
}

impl Default for SyntaxConfig {
    fn default() -> (c: Self)
        ensures
            c == (SyntaxConfig { language: Language::PlainText, is_dark: true, enabled: true }),
    {
        SyntaxConfig { language: Language::PlainText, is_dark: true, enabled: true }
    }
}

/// A piece of text and how it is drawn, in CSS terms.
#[derive(Debug, Clone)]
pub struct HighlightedSpan {
    pub text: String,
    /// The colour of the text.
    pub color: String,
    /// `normal` or `bold`.
    pub font_weight: String,
    /// `normal` or `italic`.
    pub font_style: String,
}

/// The mathematical value of a `HighlightedSpan`.
pub struct HighlightedSpanView {
    pub text: Seq<char>,
    pub color: Seq<char>,
    pub font_weight: Seq<char>,
    pub font_style: Seq<char>,
}

impl View for HighlightedSpan {
    type V = HighlightedSpanView;

    open spec fn view(&self) -> HighlightedSpanView {
        HighlightedSpanView {
            text: self.text@,
            color: self.color@,
            font_weight: self.font_weight@,
            font_style: self.font_style@,
        }
    }
}

/// The span that shows `text` without any styling of its own.
pub open spec fn plain_span(text: Seq<char>) -> HighlightedSpanView {
    HighlightedSpanView {
        text,
        color: "inherit"@,
        font_weight: "normal"@,
        font_style: "normal"@,
    }
}

impl HighlightedSpan {
    /// A span without styling of its own: it inherits its colour and is
    /// neither bold nor italic.
    pub fn plain(text: &str) -> (span: Self)
        ensures
            span@ == plain_span(text@),
    {
        HighlightedSpan {
            text: String::from_str(text),
            color: String::from_str("inherit"),
            font_weight: String::from_str("normal"),
            font_style: String::from_str("normal"),
        }
    }

    /// The CSS declarations of the span.
    pub fn style(&self) -> (css: String)
        ensures
            css@ == "color: "@ + self@.color + "; font-weight: "@ + self@.font_weight
                + "; font-style: "@ + self@.font_style,
    {
        let mut css = String::from_str("color: ");
        css.append(self.color.as_str());
        css.append("; font-weight: ");
        css.append(self.font_weight.as_str());
        css.append("; font-style: ");
        css.append(self.font_style.as_str());
        css
    }
}

/// A line as a sequence of styled spans.
#[derive(Debug, Clone)]
pub struct HighlightedLine {
    pub spans: Vec<HighlightedSpan>,
}

impl HighlightedLine {
    /// The values of the spans.
    pub open spec fn span_views(self) -> Seq<HighlightedSpanView> {
        Seq::new(self.spans@.len(), |i: int| self.spans@[i]@)
    }
}

/// A piece of a highlighted line as the highlighter hands it out: the text,
/// its colour and whether it is bold or italic.
#[derive(Debug, Clone)]
pub struct StyledText {
    pub text: String,
    pub red: u8,
    pub green: u8,
    pub blue: u8,
    pub bold: bool,
    pub italic: bool,
}

/// The mathematical value of a `StyledText`.
pub struct StyledTextView {
    pub text: Seq<char>,
    pub red: u8,
    pub green: u8,
    pub blue: u8,
    pub bold: bool,
    pub italic: bool,
}

impl View for StyledText {
    type V = StyledTextView;

    open spec fn view(&self) -> StyledTextView {
        StyledTextView {
            text: self.text@,
            red: self.red,
            green: self.green,
            blue: self.blue,
            bold: self.bold,
            italic: self.italic,
        }
    }
}

impl StyledTextView {
    /// The span that draws this piece: its colour as `rgb(r, g, b)`.
    pub open spec fn span(self) -> HighlightedSpanView {
        HighlightedSpanView {
            text: self.text,
            color: "rgb("@ + decimal(self.red as nat) + ", "@ + decimal(self.green as nat) + ", "@
                + decimal(self.blue as nat) + ")"@,
            font_weight: if self.bold {
                "bold"@
            } else {
                "normal"@
            },
            font_style: if self.italic {
                "italic"@
            } else {
                "normal"@
            },
        }
    }
}

/// The values of some pieces of styled text.
pub open spec fn styled_views(pieces: Seq<StyledText>) -> Seq<StyledTextView> {
    Seq::new(pieces.len(), |i: int| pieces[i]@)
}

/// The spans that draw the given pieces, in order.
pub open spec fn spans_of(pieces: Seq<StyledTextView>) -> Seq<HighlightedSpanView> {
    Seq::new(pieces.len(), |i: int| pieces[i].span())
}

/// Turns the pieces of a highlighted line into spans.
pub fn styled_spans(pieces: Vec<StyledText>) -> (line: HighlightedLine)
    ensures
        line.span_views() == spans_of(styled_views(pieces@)),
{
    let n = pieces.len();
    let mut spans: Vec<HighlightedSpan> = Vec::new();
    let mut i: usize = 0;
    while i < n
        invariant
            i <= n,
            n == pieces@.len(),
            spans@.len() == i,
            forall|j: int| 0 <= j < i ==> (#[trigger] spans@[j])@ == pieces@[j]@.span(),
        decreases n - i,
    {
        let piece = &pieces[i];
        let mut color = String::from_str("rgb(");
        color.append(decimal_string(piece.red as u64).as_str());
        color.append(", ");
        color.append(decimal_string(piece.green as u64).as_str());
        color.append(", ");
        color.append(decimal_string(piece.blue as u64).as_str());
        color.append(")");
        let span = HighlightedSpan {
            text: piece.text.clone(),
            color,
            font_weight: String::from_str(
                if piece.bold {
                    "bold"
                } else {
                    "normal"
                },
            ),
            font_style: String::from_str(
                if piece.italic {
                    "italic"
                } else {
                    "normal"
                },
            ),
        };
        spans.push(span);
        i += 1;
    }
    let line = HighlightedLine { spans };
    assert(line.span_views() =~= spans_of(styled_views(pieces@)));
    line
}

/// `syntect::parsing::SyntaxSet`, a set of syntax definitions. Nothing is
/// known of a value of this type.
#[verifier::external_type_specification]
#[verifier::external_body]
pub struct ExSyntaxSet(syntect::parsing::SyntaxSet);

/// `syntect::parsing::SyntaxReference`, one syntax definition of a set.
#[verifier::external_type_specification]
#[verifier::external_body]
pub struct ExSyntaxReference(syntect::parsing::SyntaxReference);

/// `syntect::highlighting::ThemeSet`, a set of colour themes by name.
#[verifier::external_type_specification]
#[verifier::external_body]
pub struct ExThemeSet(syntect::highlighting::ThemeSet);

/// `syntect::highlighting::Theme`, one colour theme.
#[verifier::external_type_specification]
#[verifier::external_body]
pub struct ExTheme(syntect::highlighting::Theme);

/// Calls `SyntaxSet::load_defaults_newlines`. Trusted: nothing.
#[verifier::external_body]
fn load_syntaxes() -> syntect::parsing::SyntaxSet {
    syntect::parsing::SyntaxSet::load_defaults_newlines()
}

/// The names under which a theme set holds its themes: the keys of its
/// `themes` map.
pub uninterp spec fn theme_names(set: syntect::highlighting::ThemeSet) -> Set<Seq<char>>;

/// Calls `ThemeSet::load_defaults`. Trusted: the default themes include
/// `base16-ocean.dark` and `base16-ocean.light`, two of the keys that the
/// crate documents for them.
#[verifier::external_body]
fn load_themes() -> (set: syntect::highlighting::ThemeSet)
    ensures
        theme_names(set).contains(theme_name(true)),
        theme_names(set).contains(theme_name(false)),
{
    syntect::highlighting::ThemeSet::load_defaults()
}

/// Calls `SyntaxSet::find_syntax_by_name`. Trusted: nothing.
#[verifier::external_body]
fn find_syntax<'a>(set: &'a syntect::parsing::SyntaxSet, name: &str) -> Option<
    &'a syntect::parsing::SyntaxReference,
> {
    set.find_syntax_by_name(name)
}

/// Looks `name` up in the `themes` map of the set. Trusted: a theme is
/// found exactly where the set holds one under that name; which theme it is
/// is not said.
#[verifier::external_body]
fn find_theme<'a>(set: &'a syntect::highlighting::ThemeSet, name: &str) -> (theme: Option<
    &'a syntect::highlighting::Theme,
>)
    ensures
        theme.is_some() == theme_names(*set).contains(name@),
{
    set.themes.get(name)
}

/// Takes the first theme of the `themes` map of the set. Trusted: there is
/// none exactly where the set holds no theme at all.
#[verifier::external_body]
fn first_theme<'a>(set: &'a syntect::highlighting::ThemeSet) -> (theme: Option<
    &'a syntect::highlighting::Theme,
>)
    ensures
        theme.is_none() == (theme_names(*set) == Set::<Seq<char>>::empty()),
{
    set.themes.values().next()
}

/// Highlights one line with `syntect::easy::HighlightLines` and hands out
/// its pieces; `None` where the highlighter reports an error. Trusted:
/// nothing.
#[verifier::external_body]
fn highlight_pieces(
    syntaxes: &syntect::parsing::SyntaxSet,
    syntax: &syntect::parsing::SyntaxReference,
    theme: &syntect::highlighting::Theme,
    line: &str,
) -> Option<Vec<StyledText>> {
    let mut lines = syntect::easy::HighlightLines::new(syntax, theme);
    let ranges = lines.highlight_line(line, syntaxes).ok()?;
    Some(
        ranges.into_iter().map(
            |(style, text)|
                StyledText {
                    text: text.to_string(),
                    red: style.foreground.r,
                    green: style.foreground.g,
                    blue: style.foreground.b,
                    bold: style.font_style.contains(syntect::highlighting::FontStyle::BOLD),
                    italic: style.font_style.contains(syntect::highlighting::FontStyle::ITALIC),
                },
        ).collect(),
    )
}

/// A highlighter with the syntaxes and themes that `syntect` ships.
pub struct Highlighter {
    syntax_set: syntect::parsing::SyntaxSet,
    theme_set: syntect::highlighting::ThemeSet,
}

/// The name of the theme for a dark or a light editor.
pub open spec fn theme_name(is_dark: bool) -> Seq<char> {
    if is_dark {
        "base16-ocean.dark"@
    } else {
        "base16-ocean.light"@
    }
}

/// The name of the theme for a dark or a light editor.
pub fn theme_for(is_dark: bool) -> (name: &'static str)
    ensures
        name@ == theme_name(is_dark),
{
    if is_dark {
        "base16-ocean.dark"
    } else {
        "base16-ocean.light"
    }
}

impl Default for Highlighter {
    fn default() -> (h: Self)
        ensures
            h.themes().contains(theme_name(true)),
            h.themes().contains(theme_name(false)),
    {
        Highlighter::new()
    }
}

impl Highlighter {
    /// The names of the themes that the highlighter holds.
    pub closed spec fn themes(&self) -> Set<Seq<char>> {
        theme_names(self.theme_set)
    }

    /// Loads the default syntaxes and themes. The themes for a dark and for
    /// a light editor are among them.
    pub fn new() -> (h: Self)
        ensures
            h.themes().contains(theme_name(true)),
            h.themes().contains(theme_name(false)),
    {
        Highlighter { syntax_set: load_syntaxes(), theme_set: load_themes() }
    }

    /// Whether the highlighter holds a theme of the given name.
    pub fn has_theme(&self, name: &str) -> (b: bool)
        ensures
            b == self.themes().contains(name@),
    {
        find_theme(&self.theme_set, name).is_some()
    }

    /// Highlights a line of code. The line is looked at with the syntax of
    /// `language`, or as plain text where that is not known, and with the
    /// dark or light theme, or the first theme there is. Where there is no
    /// syntax or no theme at all, or the highlighter fails, the whole line
    /// comes back as one plain span; otherwise each piece that the
    /// highlighter hands out becomes a span.
    pub fn highlight_line(&self, line: &str, language: Language, is_dark: bool) -> (out:
        HighlightedLine)
        ensures
            out.span_views() == seq![plain_span(line@)] || exists|pieces: Seq<StyledTextView>|
                out.span_views() == spans_of(pieces),
            self.themes() == Set::<Seq<char>>::empty() ==> out.span_views() == seq![
                plain_span(line@),
            ],
    {
        let wanted = theme_for(is_dark);
        let syntax = match find_syntax(&self.syntax_set, language.syntax_name()) {
            Some(syntax) => Some(syntax),
            None => find_syntax(&self.syntax_set, "Plain Text"),
        };
        let theme = match find_theme(&self.theme_set, wanted) {
            Some(theme) => Some(theme),
            None => first_theme(&self.theme_set),
        };
        match (syntax, theme) {
            (Some(syntax), Some(theme)) => {
                match highlight_pieces(&self.syntax_set, syntax, theme, line) {
                    Some(pieces) => {
                        let ghost views = styled_views(pieces@);
                        let out = styled_spans(pieces);
                        assert(out.span_views() == spans_of(views));
                        out
                    },
                    None => plain_line(line),
                }
            },
            _ => plain_line(line),
        }
    }
}

/// The line as one plain span.
pub fn plain_line(line: &str) -> (out: HighlightedLine)
    ensures
        out.span_views() == seq![plain_span(line@)],
{
    let mut spans: Vec<HighlightedSpan> = Vec::new();
    spans.push(HighlightedSpan::plain(line));
    let out = HighlightedLine { spans };
    assert(out.span_views() =~= seq![plain_span(line@)]);
    out
}

} // verus!
