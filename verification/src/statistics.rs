//! Counts over a document: words, characters, lines and paragraphs, and the
//! markdown elements it holds.

use vstd::prelude::*;
use vstd::string::StringExecFns;
use crate::chars::{
    char_is_whitespace, copy_trimmed, decimal, decimal_string, find_from, first_occurrence,
    is_whitespace, matches_at, occurs_at, run_end, scan_while, starts_with_at, to_chars, trimmed,
    CharClass,
};
use crate::folding::{heading_level, heading_level_of, is_fence, is_fence_line, line_views};
use crate::lines::{copy_spans, lemma_line_spans_bounds, line_spans, lines_of, split_lines};
use crate::text::{line_count, locate, visible_count, word_count, lemma_position_bounds};

verus! {

/// Counts of plain text.
#[derive(Debug, Clone, Copy, Default, PartialEq, Eq, Structural)]
pub struct TextStats {
    pub words: usize,
    /// All characters, whitespace included.
    pub characters: usize,
    /// The characters that are not whitespace.
    pub characters_no_spaces: usize,
    pub lines: usize,
    pub paragraphs: usize,
}

/// Where a scan for paragraphs stands after some characters.
pub struct ParagraphScan {
    /// The paragraphs counted so far.
    pub count: int,
    /// Whether the scan is inside a paragraph that was counted.
    pub in_paragraph: bool,
    /// The number of line feeds directly before this point.
    pub newlines: int,
    /// Whether the current line holds a character that is not whitespace.
    pub line_has_content: bool,
}

/// The scan after one more character. A paragraph is counted at the end of
/// its first line with content; two line feeds in a row end it.
pub open spec fn paragraph_step(scan: ParagraphScan, c: char) -> ParagraphScan {
    if !char_is_whitespace(c) {
        ParagraphScan { newlines: 0, line_has_content: true, ..scan }
    } else if c == '\n' {
        let opens = scan.line_has_content && !scan.in_paragraph;
        ParagraphScan {
            count: if opens {
                scan.count + 1
            } else {
                scan.count
            },
            in_paragraph: (scan.in_paragraph || opens) && scan.newlines + 1 < 2,
            newlines: scan.newlines + 1,
            line_has_content: false,
        }
    } else {
        ParagraphScan { newlines: 0, ..scan }
    }
}

/// The scan after the first `upto` characters.
pub open spec fn paragraph_scan(s: Seq<char>, upto: int) -> ParagraphScan
    decreases upto,
{
    if upto <= 0 {
        ParagraphScan { count: 0, in_paragraph: false, newlines: 0, line_has_content: false }
    } else {
        paragraph_step(paragraph_scan(s, upto - 1), s[upto - 1])
    }
}

/// The number of paragraphs: runs of lines with content, set apart by empty
/// lines. A last line with content counts even without a line feed behind it.
pub open spec fn paragraph_count(s: Seq<char>) -> int {
    let scan = paragraph_scan(s, s.len() as int);
    if scan.line_has_content && !scan.in_paragraph {
        scan.count + 1
    } else {
        scan.count
    }
}

proof fn lemma_paragraph_scan_bounds(s: Seq<char>, upto: int)
    requires
        0 <= upto,
    ensures
        0 <= paragraph_scan(s, upto).count <= upto,
        0 <= paragraph_scan(s, upto).newlines <= upto,
        paragraph_scan(s, upto).line_has_content && !paragraph_scan(s, upto).in_paragraph
            ==> paragraph_scan(s, upto).count < upto,
    decreases upto,
{
    if upto > 0 {
        lemma_paragraph_scan_bounds(s, upto - 1);
        lemma_content_needs_room(s, upto - 1);
    }
}

proof fn lemma_content_needs_room(s: Seq<char>, upto: int)
    requires
        0 <= upto,
    ensures
        paragraph_scan(s, upto).line_has_content ==> paragraph_scan(s, upto).count < upto,
        paragraph_scan(s, upto).count <= upto,
    decreases upto,
{
    if upto > 0 {
        lemma_content_needs_room(s, upto - 1);
    }
}

impl TextStats {
    /// Counts words, characters, lines and paragraphs of `text`. Empty text
    /// has one line and nothing else.
    pub fn from_text(text: &str) -> (stats: Self)
        requires
            text@.len() < usize::MAX,
        ensures
            stats.words == word_count(text@, text@.len() as int),
            stats.characters == text@.len(),
            stats.characters_no_spaces == visible_count(text@, text@.len() as int),
            stats.lines == line_count(text@),
            stats.paragraphs == paragraph_count(text@),
    {
        let chars = to_chars(text);
        let n = chars.len();
        let mut words: usize = 0;
        let mut visible: usize = 0;
        let mut paragraphs: usize = 0;
        let mut in_word = false;
        let mut in_paragraph = false;
        let mut newlines: usize = 0;
        let mut line_has_content = false;
        let mut i: usize = 0;
        while i < n
            invariant
                i <= n,
                n == chars@.len(),
                words == word_count(chars@, i as int),
                visible == visible_count(chars@, i as int),
                words <= i,
                visible <= i,
                in_word == (i > 0 && !char_is_whitespace(chars@[i - 1])),
                paragraph_scan(chars@, i as int) == (ParagraphScan {
                    count: paragraphs as int,
                    in_paragraph,
                    newlines: newlines as int,
                    line_has_content,
                }),
            decreases n - i,
        {
            proof {
                lemma_paragraph_scan_bounds(chars@, i as int);
                lemma_paragraph_scan_bounds(chars@, i + 1);
            }
            let c = chars[i];
            if is_whitespace(c) {
                in_word = false;
                if c == '\n' {
                    newlines += 1;
                    if line_has_content && !in_paragraph {
                        in_paragraph = true;
                        paragraphs += 1;
                    }
                    if newlines >= 2 {
                        in_paragraph = false;
                    }
                    line_has_content = false;
                } else {
                    newlines = 0;
                }
            } else {
                visible += 1;
                newlines = 0;
                line_has_content = true;
                if !in_word {
                    in_word = true;
                    words += 1;
                }
            }
            i += 1;
        }
        proof {
            lemma_paragraph_scan_bounds(chars@, n as int);
            lemma_position_bounds(chars@, n as int);
        }
        if line_has_content && !in_paragraph {
            paragraphs += 1;
        }
        let end = locate(&chars, n);
        TextStats {
            words,
            characters: n,
            characters_no_spaces: visible,
            lines: end.0 + 1,
            paragraphs,
        }
    }

    /// The counts on one line, as in `12 words | 80 chars | 3 lines`.
    pub fn format_compact(&self) -> (s: String)
        ensures
            s@ == decimal(self.words as nat) + " words | "@ + decimal(self.characters as nat)
                + " chars | "@ + decimal(self.lines as nat) + " lines"@,
    {
        let mut s = decimal_string(self.words as u64);
        s.append(" words | ");
        s.append(decimal_string(self.characters as u64).as_str());
        s.append(" chars | ");
        s.append(decimal_string(self.lines as u64).as_str());
        s.append(" lines");
        s
    }
}

/// Whether a link target closes at or after `from`: the first `](` from
/// there on is followed, somewhere, by a `)`.
pub open spec fn link_closes(line: Seq<char>, from: int) -> bool {
    match first_occurrence(line, seq![']', '('], from) {
        Some(at) => run_end(line, at + 2, CharClass::Not(')')) < line.len(),
        None => false,
    }
}

/// The number of `[` among the first `upto` characters that open a link:
/// one whose target closes behind it. The `[` of an image counts too.
pub open spec fn link_count(line: Seq<char>, upto: int) -> int
    decreases upto,
{
    if upto <= 0 {
        0
    } else if line[upto - 1] == '[' && link_closes(line, upto) {
        link_count(line, upto - 1) + 1
    } else {
        link_count(line, upto - 1)
    }
}

/// The number of `![` that begin among the first `upto` characters and
/// open an image: one whose target closes behind it.
pub open spec fn image_count(line: Seq<char>, upto: int) -> int
    decreases upto,
{
    if upto <= 0 {
        0
    } else if occurs_at(line, seq!['!', '['], upto - 1) && link_closes(line, upto + 1) {
        image_count(line, upto - 1) + 1
    } else {
        image_count(line, upto - 1)
    }
}

/// Whether a line begins an item of a numbered list: ASCII digits, a full
/// stop and a space.
pub open spec fn is_ordered_item(line: Seq<char>) -> bool {
    let digits = run_end(line, 0, CharClass::AsciiDigit);
    digits > 0 && digits + 1 < line.len() && line[digits] == '.' && line[digits + 1] == ' '
}

/// Whether a line begins a list item: `- `, `* `, `+ ` or a numbered item.
pub open spec fn is_list_item(line: Seq<char>) -> bool {
    occurs_at(line, seq!['-', ' '], 0) || occurs_at(line, seq!['*', ' '], 0) || occurs_at(
        line,
        seq!['+', ' '],
        0,
    ) || is_ordered_item(line)
}

/// The counts of markdown elements over some lines.
pub struct MarkdownCounts {
    /// The headings of each level: index 0 counts level 1.
    pub headings_by_level: Seq<int>,
    pub heading_count: int,
    pub link_count: int,
    pub image_count: int,
    pub code_block_count: int,
    pub table_count: int,
    pub blockquote_count: int,
    pub list_item_count: int,
    /// Whether the lines end inside a fenced code block.
    pub in_code_block: bool,
}

/// The counts after one more line. A fence line opens or closes a code
/// block and counts for nothing else; lines inside a code block count for
/// nothing. Any other line is judged without the whitespace at its ends,
/// except that links and images are counted over the whole line.
pub open spec fn markdown_step(counts: MarkdownCounts, line: Seq<char>) -> MarkdownCounts {
    let t = trimmed(line);
    if is_fence(line) {
        MarkdownCounts {
            code_block_count: if counts.in_code_block {
                counts.code_block_count
            } else {
                counts.code_block_count + 1
            },
            in_code_block: !counts.in_code_block,
            ..counts
        }
    } else if counts.in_code_block {
        counts
    } else {
        MarkdownCounts {
            headings_by_level: match heading_level_of(t) {
                Some(level) => counts.headings_by_level.update(
                    level - 1,
                    counts.headings_by_level[level - 1] + 1,
                ),
                None => counts.headings_by_level,
            },
            heading_count: if heading_level_of(t).is_some() {
                counts.heading_count + 1
            } else {
                counts.heading_count
            },
            link_count: counts.link_count + link_count(line, line.len() as int),
            image_count: counts.image_count + image_count(line, line.len() as int),
            code_block_count: counts.code_block_count,
            table_count: if occurs_at(t, seq!['|'], 0) {
                counts.table_count + 1
            } else {
                counts.table_count
            },
            blockquote_count: if occurs_at(t, seq!['>'], 0) {
                counts.blockquote_count + 1
            } else {
                counts.blockquote_count
            },
            list_item_count: if is_list_item(t) {
                counts.list_item_count + 1
            } else {
                counts.list_item_count
            },
            in_code_block: false,
        }
    }
}

/// The counts over the first `upto` lines.
pub open spec fn markdown_counts(lines: Seq<Seq<char>>, upto: int) -> MarkdownCounts
    decreases upto,
{
    if upto <= 0 {
        MarkdownCounts {
            headings_by_level: seq![0int, 0, 0, 0, 0, 0],
            heading_count: 0,
            link_count: 0,
            image_count: 0,
            code_block_count: 0,
            table_count: 0,
            blockquote_count: 0,
            list_item_count: 0,
            in_code_block: false,
        }
    } else {
        markdown_step(markdown_counts(lines, upto - 1), lines[upto - 1])
    }
}

/// The minutes it takes to read `words` words at 250 words a minute: rounded
/// up, at least one, and no more than a `u32` holds.
pub open spec fn reading_minutes(words: int) -> int {
    let minutes = if words % 250 == 0 {
        words / 250
    } else {
        words / 250 + 1
    };
    if minutes < 1 {
        1
    } else if minutes > u32::MAX {
        u32::MAX as int
    } else {
        minutes
    }
}

/// Counts of a markdown document.
#[derive(Debug, Clone, Default, PartialEq, Eq)]
pub struct DocumentStats {
    pub text: TextStats,
    /// The headings of each level: index 0 counts level 1, index 5 level 6.
    pub headings_by_level: [usize; 6],
    pub heading_count: usize,
    pub link_count: usize,
    pub image_count: usize,
    pub code_block_count: usize,
    pub table_count: usize,
    pub blockquote_count: usize,
    pub list_item_count: usize,
    /// The estimated reading time in minutes, at least one.
    pub reading_time_minutes: u32,
}

impl DocumentStats {
    /// Whether the markdown counts of `self` are `counts`.
    pub open spec fn holds(self, counts: MarkdownCounts) -> bool {
        &&& forall|k: int| 0 <= k < 6 ==> self.headings_by_level@[k] == counts.headings_by_level[k]
        &&& self.heading_count == counts.heading_count
        &&& self.link_count == counts.link_count
        &&& self.image_count == counts.image_count
        &&& self.code_block_count == counts.code_block_count
        &&& self.table_count == counts.table_count
        &&& self.blockquote_count == counts.blockquote_count
        &&& self.list_item_count == counts.list_item_count
    }

    /// Counts the text and the markdown elements of `text`, and estimates
    /// the reading time.
    pub fn from_text(text: &str) -> (stats: Self)
        requires
            text@.len() < usize::MAX,
        ensures
            stats.text.words == word_count(text@, text@.len() as int),
            stats.text.characters == text@.len(),
            stats.text.characters_no_spaces == visible_count(text@, text@.len() as int),
            stats.text.lines == line_count(text@),
            stats.text.paragraphs == paragraph_count(text@),
            stats.reading_time_minutes == reading_minutes(stats.text.words as int),
            stats.holds(markdown_counts(lines_of(text@), lines_of(text@).len() as int)),
    {
        let text_stats = TextStats::from_text(text);
        let whole = text_stats.words / 250;
        let minutes = if text_stats.words % 250 == 0 {
            whole
        } else {
            whole + 1
        };
        let reading_time_minutes: u32 = if minutes < 1 {
            1
        } else if minutes > 0xffff_ffff {
            0xffff_ffff
        } else {
            minutes as u32
        };
        let mut stats = DocumentStats {
            text: text_stats,
            headings_by_level: [0, 0, 0, 0, 0, 0],
            heading_count: 0,
            link_count: 0,
            image_count: 0,
            code_block_count: 0,
            table_count: 0,
            blockquote_count: 0,
            list_item_count: 0,
            reading_time_minutes,
        };
        stats.parse_markdown(text);
        stats
    }

    /// Counts the markdown elements of `text` into `self`, starting from zero.
    fn parse_markdown(&mut self, text: &str)
        ensures
            final(self).text == old(self).text,
            final(self).reading_time_minutes == old(self).reading_time_minutes,
            final(self).holds(markdown_counts(lines_of(text@), lines_of(text@).len() as int)),
    {
        let chars = to_chars(text);
        let spans = split_lines(&chars);
        let lines = copy_spans(&chars, &spans);
        let n = lines.len();
        let ghost views = lines_of(text@);
        proof {
            assert(line_views(lines@) =~= views);
            lemma_line_spans_bounds(text@);
        }
        let mut by_level: [usize; 6] = [0, 0, 0, 0, 0, 0];
        let mut heading_count: usize = 0;
        let mut link_count: usize = 0;
        let mut image_count: usize = 0;
        let mut code_block_count: usize = 0;
        let mut table_count: usize = 0;
        let mut blockquote_count: usize = 0;
        let mut list_item_count: usize = 0;
        let mut in_code_block = false;
        let mut k: usize = 0;
        while k < n
            invariant
                k <= n,
                n == lines@.len(),
                n == spans@.len(),
                line_views(lines@) == views,
                views == lines_of(text@),
                spans@.len() == line_spans(text@).len(),
                forall|j: int|
                    0 <= j < n ==> (#[trigger] spans@[j]).0 == line_spans(text@)[j].0 && spans@[j].1
                        == line_spans(text@)[j].1,
                forall|j: int|
                    0 <= j < n ==> (#[trigger] lines@[j])@.len() == spans@[j].1 - spans@[j].0,
                forall|j: int, l: int|
                    0 <= j < l < line_spans(text@).len() ==> (#[trigger] line_spans(text@)[j]).1 < (
                    #[trigger] line_spans(text@)[l]).0,
                forall|j: int|
                    0 <= j < line_spans(text@).len() ==> 0 <= (#[trigger] line_spans(text@)[j]).0
                        <= line_spans(text@)[j].1 <= text@.len(),
                forall|j: int|
                    0 <= j < 6 ==> by_level@[j] == markdown_counts(views, k as int).headings_by_level[j]
                        && by_level@[j] <= k,
                markdown_counts(views, k as int).headings_by_level.len() == 6,
                heading_count == markdown_counts(views, k as int).heading_count,
                link_count == markdown_counts(views, k as int).link_count,
                image_count == markdown_counts(views, k as int).image_count,
                code_block_count == markdown_counts(views, k as int).code_block_count,
                table_count == markdown_counts(views, k as int).table_count,
                blockquote_count == markdown_counts(views, k as int).blockquote_count,
                list_item_count == markdown_counts(views, k as int).list_item_count,
                in_code_block == markdown_counts(views, k as int).in_code_block,
                heading_count <= k,
                code_block_count <= k,
                table_count <= k,
                blockquote_count <= k,
                list_item_count <= k,
                k > 0 ==> link_count <= spans@[k - 1].1 && image_count <= spans@[k - 1].1,
                k == 0 ==> link_count == 0 && image_count == 0,
            decreases n - k,
        {
            let line = &lines[k];
            let ghost before = markdown_counts(views, k as int);
            assert(views[k as int] == line@);
            if is_fence_line(line) {
                if in_code_block {
                    in_code_block = false;
                } else {
                    in_code_block = true;
                    code_block_count += 1;
                }
            } else if !in_code_block {
                let t = copy_trimmed(line);
                match heading_level(&t) {
                    Some(level) => {
                        let index = (level - 1) as usize;
                        let old_count = by_level[index];
                        by_level[index] = old_count + 1;
                        heading_count += 1;
                    },
                    None => {},
                }
                if starts_with_at(&t, 0, ">") {
                    proof {
                        reveal_strlit(">");
                        assert(">"@ =~= seq!['>']);
                    }
                    blockquote_count += 1;
                } else {
                    proof {
                        reveal_strlit(">");
                        assert(">"@ =~= seq!['>']);
                    }
                }
                if is_list_item_line(&t) {
                    list_item_count += 1;
                }
                let links = count_links(line);
                let images = count_images(line);
                proof {
                    if k > 0 {
                        assert(line_spans(text@)[k - 1].1 < line_spans(text@)[k as int].0);
                    }
                }
                link_count += links;
                image_count += images;
                proof {
                    reveal_strlit("|");
                    assert("|"@ =~= seq!['|']);
                }
                if starts_with_at(&t, 0, "|") {
                    table_count += 1;
                }
            }
            proof {
                if k > 0 {
                    assert(line_spans(text@)[k - 1].1 < line_spans(text@)[k as int].0);
                }
            }
            k += 1;
        }
        self.headings_by_level = by_level;
        self.heading_count = heading_count;
        self.link_count = link_count;
        self.image_count = image_count;
        self.code_block_count = code_block_count;
        self.table_count = table_count;
        self.blockquote_count = blockquote_count;
        self.list_item_count = list_item_count;
    }

    /// The reading time as in `1 min read` or `12 min read`.
    pub fn format_reading_time(&self) -> (s: String)
        ensures
            s@ == decimal(self.reading_time_minutes as nat) + " min read"@,
    {
        let mut s = decimal_string(self.reading_time_minutes as u64);
        s.append(" min read");
        s
    }
}

fn is_list_item_line(line: &Vec<char>) -> (b: bool)
    ensures
        b == is_list_item(line@),
{
    proof {
        reveal_strlit("- ");
        reveal_strlit("* ");
        reveal_strlit("+ ");
        assert("- "@ =~= seq!['-', ' ']);
        assert("* "@ =~= seq!['*', ' ']);
        assert("+ "@ =~= seq!['+', ' ']);
    }
    if starts_with_at(line, 0, "- ") || starts_with_at(line, 0, "* ") || starts_with_at(
        line,
        0,
        "+ ",
    ) {
        return true;
    }
    let digits = scan_while(line, 0, CharClass::AsciiDigit);
    let n = line.len();
    digits > 0 && n - digits > 1 && line[digits] == '.' && line[digits + 1] == ' '
}

fn closes_link(line: &Vec<char>, from: usize) -> (b: bool)
    ensures
        b == link_closes(line@, from as int),
{
    proof {
        reveal_strlit("](");
        assert("]("@ =~= seq![']', '(']);
    }
    let needle = to_chars("](");
    let n = line.len();
    match find_from(line, &needle, from) {
        Some(at) => {
            proof {
                crate::chars::lemma_first_occurrence(line@, needle@, from as int);
            }
            let end = scan_while(line, at + 2, CharClass::Not(')'));
            end < n
        },
        None => false,
    }
}

/// The number of links in a line.
fn count_links(line: &Vec<char>) -> (count: usize)
    ensures
        count == link_count(line@, line@.len() as int),
        count <= line@.len(),
{
    let n = line.len();
    let mut count: usize = 0;
    let mut i: usize = 0;
    while i < n
        invariant
            i <= n,
            n == line@.len(),
            count == link_count(line@, i as int),
            count <= i,
        decreases n - i,
    {
        if line[i] == '[' && closes_link(line, i + 1) {
            count += 1;
        }
        i += 1;
    }
    count
}

/// The number of images in a line.
fn count_images(line: &Vec<char>) -> (count: usize)
    ensures
        count == image_count(line@, line@.len() as int),
        count <= line@.len(),
{
    proof {
        reveal_strlit("![");
        assert("!["@ =~= seq!['!', '[']);
    }
    let mark = to_chars("![");
    let n = line.len();
    let mut count: usize = 0;
    let mut i: usize = 0;
    while i < n
        invariant
            i <= n,
            n == line@.len(),
            mark@ == seq!['!', '['],
            count == image_count(line@, i as int),
            count <= i,
        decreases n - i,
    {
        if matches_at(line, &mark, i) && closes_link(line, i + 2) {
            count += 1;
        }
        i += 1;
    }
    count
}

} // verus!
