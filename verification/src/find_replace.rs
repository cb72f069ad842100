//! Search and replace over a snapshot of the text.
//!
//! Matches are half-open ranges of character offsets into the text that was
//! searched, in ascending order and without overlap.

use vstd::prelude::*;
use vstd::string::StringExecFns;
use crate::chars::{
    find_from, is_word, is_word_char, lemma_first_occurrence, lowercase_of, occurs_at, to_chars,
    to_lowercase,
};
use crate::text::{
    char_index, chars_before, lemma_chars_before_bounds, lemma_chars_before_grows,
};

verus! {

/// How a search reads its query.
#[derive(Debug, Clone, Copy, PartialEq, Eq, Structural)]
pub struct FindOptions {
    /// Whether upper and lower case differ.
    pub case_sensitive: bool,
    /// Whether a match must be a whole word.
    pub whole_word: bool,
    /// Whether the query is a regular expression.
    pub use_regex: bool,
    /// Whether navigation wraps around at the ends of the document.
    pub wrap_around: bool,
}

impl Default for FindOptions {
    fn default() -> (o: Self)
        ensures
            o == (FindOptions {
                case_sensitive: false,
                whole_word: false,
                use_regex: false,
                wrap_around: false,
            }),
    {
        FindOptions { case_sensitive: false, whole_word: false, use_regex: false, wrap_around: false }
    }
}

/// One match: the characters `start..end` of the text.
#[derive(Debug, Clone, Copy, PartialEq, Eq, Structural)]
pub struct FindResult {
    pub start: usize,
    pub end: usize,
}

impl FindResult {
    /// The match of the characters `start..end`.
    pub fn new(start: usize, end: usize) -> (r: Self)
        ensures
            r.start == start,
            r.end == end,
    {
        Self { start, end }
    }

    /// The number of characters matched.
    pub fn len(&self) -> (n: usize)
        requires
            self.start <= self.end,
        ensures
            n == self.end - self.start,
    {
        self.end - self.start
    }

    /// Whether the match is empty.
    pub fn is_empty(&self) -> (b: bool)
        ensures
            b == (self.start == self.end),
    {
        self.start == self.end
    }
}

/// Whether the matches are ranges of a text of `len` characters, in ascending
/// order and without overlap.
pub open spec fn matches_fit(matches: Seq<FindResult>, len: nat) -> bool {
    &&& forall|k: int|
        0 <= k < matches.len() ==> (#[trigger] matches[k]).start <= matches[k].end <= len
    &&& forall|k: int, l: int|
        0 <= k < l < matches.len() ==> (#[trigger] matches[k]).end <= (#[trigger] matches[l]).start
}

/// Whether a match that starts at `start` begins at a word boundary: no word
/// character stands directly before it.
pub open spec fn opens_word(text: Seq<char>, start: int) -> bool {
    start <= 0 || start > text.len() || !is_word(text[start - 1])
}

/// Whether a match that ends at `end` stops at a word boundary: no word
/// character stands directly after it.
pub open spec fn closes_word(text: Seq<char>, end: int) -> bool {
    end < 0 || end >= text.len() || !is_word(text[end])
}

/// The matches of a literal search from position `at` on.
///
/// `needle` is looked for in `hay`; both are the query and the text as they
/// are compared, that is case-folded for a search that ignores case. A match
/// is `width` characters wide, lies inside `text`, and with `whole_word` it
/// stands between word boundaries of `text`. The scan runs from left to
/// right: after a match it goes on behind the match, after a candidate that
/// is turned down it goes on one character further.
pub open spec fn literal_matches(
    hay: Seq<char>,
    needle: Seq<char>,
    text: Seq<char>,
    width: nat,
    whole_word: bool,
    at: int,
) -> Seq<FindResult>
    decreases
            (if at <= hay.len() {
                hay.len() + 1 - at
            } else {
                0
            }),
{
    if width == 0 || at < 0 || at + needle.len() > hay.len() {
        Seq::empty()
    } else if occurs_at(hay, needle, at) && at + width <= text.len() && (!whole_word || (opens_word(
        text,
        at,
    ) && closes_word(text, at + width))) {
        seq![FindResult { start: at as usize, end: (at + width) as usize }] + literal_matches(
            hay,
            needle,
            text,
            width,
            whole_word,
            at + width,
        )
    } else {
        literal_matches(hay, needle, text, width, whole_word, at + 1)
    }
}

/// What the regular expression `pattern` matches in `haystack`, as the
/// `regex` crate finds it: `None` when the pattern does not compile, else the
/// byte offsets `(start, end)` of the successive matches.
pub uninterp spec fn regex_spans(pattern: Seq<char>, haystack: Seq<char>) -> Option<
    Seq<(usize, usize)>,
>;

/// Whether each span ends no earlier than it starts and no later than the
/// next one starts.
pub open spec fn spans_in_order(spans: Seq<(usize, usize)>) -> bool {
    &&& forall|k: int| 0 <= k < spans.len() ==> (#[trigger] spans[k]).0 <= spans[k].1
    &&& forall|k: int, l: int|
        0 <= k < l < spans.len() ==> (#[trigger] spans[k]).1 <= (#[trigger] spans[l]).0
}

/// Compiles `pattern` with `regex::Regex::new` and collects the byte spans
/// that `Regex::find_iter` yields on `haystack`.
///
/// Trusted: whether the pattern compiles, and what it matches, depends on the
/// two strings alone (`regex_spans`); every match has `start <= end`, and the
/// matches are successive and do not overlap, as the crate documents.
#[verifier::external_body]
fn regex_find_all(pattern: &str, haystack: &str) -> (r: Option<Vec<(usize, usize)>>)
    ensures
        match r {
            Some(spans) => regex_spans(pattern@, haystack@) == Some(spans@) && spans_in_order(
                spans@,
            ),
            None => regex_spans(pattern@, haystack@).is_none(),
        },
{
    match regex::Regex::new(pattern) {
        Ok(re) => Some(re.find_iter(haystack).map(|m| (m.start(), m.end())).collect()),
        Err(_) => None,
    }
}

/// The pattern that a regex search compiles: the query, marked to ignore
/// case unless the search is case-sensitive, and set between word-boundary
/// anchors for a whole-word search.
pub open spec fn regex_pattern(query: Seq<char>, options: FindOptions) -> Seq<char> {
    let cased = if options.case_sensitive {
        query
    } else {
        seq!['(', '?', 'i', ')'] + query
    };
    if options.whole_word {
        seq!['\\', 'b'] + cased + seq!['\\', 'b']
    } else {
        cased
    }
}

/// The matches that byte spans stand for, in character offsets of `text`.
pub open spec fn matches_of_spans(text: Seq<char>, spans: Seq<(usize, usize)>) -> Seq<FindResult> {
    Seq::new(
        spans.len(),
        |k: int|
            FindResult {
                start: chars_before(text, spans[k].0 as int) as usize,
                end: chars_before(text, spans[k].1 as int) as usize,
            },
    )
}

/// The matches of a regex search: none when the pattern does not compile.
pub open spec fn regex_matches(query: Seq<char>, options: FindOptions, text: Seq<char>) -> Seq<
    FindResult,
> {
    match regex_spans(regex_pattern(query, options), text) {
        Some(spans) => matches_of_spans(text, spans),
        None => Seq::empty(),
    }
}

/// The text or query as a search compares it.
pub open spec fn folded(s: Seq<char>, options: FindOptions) -> Seq<char> {
    if options.case_sensitive {
        s
    } else {
        lowercase_of(s)
    }
}

/// The matches of `query` in `text`: none for an empty query.
pub open spec fn search_results(query: Seq<char>, options: FindOptions, text: Seq<char>) -> Seq<
    FindResult,
> {
    if query.len() == 0 {
        Seq::empty()
    } else if options.use_regex {
        regex_matches(query, options, text)
    } else {
        literal_matches(
            folded(text, options),
            folded(query, options),
            text,
            query.len(),
            options.whole_word,
            0,
        )
    }
}

/// The beginning of the replaced text: `text` up to the end of match `k - 1`,
/// with the first `k` matches replaced.
pub open spec fn replaced_prefix(
    text: Seq<char>,
    matches: Seq<FindResult>,
    replacement: Seq<char>,
    k: int,
) -> Seq<char>
    decreases k,
{
    if k <= 0 {
        Seq::empty()
    } else {
        replaced_prefix(text, matches, replacement, k - 1) + text.subrange(
            end_before(matches, k - 1),
            matches[k - 1].start as int,
        ) + replacement
    }
}

/// Where the text between matches `k - 1` and `k` starts.
pub open spec fn end_before(matches: Seq<FindResult>, k: int) -> int {
    if k <= 0 {
        0
    } else {
        matches[k - 1].end as int
    }
}

/// `text` with every match replaced by `replacement`.
pub open spec fn replaced_all(text: Seq<char>, matches: Seq<FindResult>, replacement: Seq<char>) -> Seq<
    char,
> {
    replaced_prefix(text, matches, replacement, matches.len() as int) + text.subrange(
        end_before(matches, matches.len() as int),
        text.len() as int,
    )
}

/// `text` with the one match `m` replaced by `replacement`.
pub open spec fn replaced_one(text: Seq<char>, m: FindResult, replacement: Seq<char>) -> Seq<char> {
    text.subrange(0, m.start as int) + replacement + text.subrange(m.end as int, text.len() as int)
}

/// What a case-sensitive literal search reports are occurrences of the
/// query: each match spans a place at or after `at` where the query stands
/// in the text, and a whole-word match stands between word boundaries.
pub proof fn lemma_matches_are_occurrences(
    text: Seq<char>,
    query: Seq<char>,
    whole_word: bool,
    at: int,
)
    requires
        0 <= at,
        text.len() <= usize::MAX,
    ensures
        forall|k: int|
            0 <= k < literal_matches(text, query, text, query.len(), whole_word, at).len() ==> {
                let m = #[trigger] literal_matches(text, query, text, query.len(), whole_word, at)[k];
                &&& at <= m.start
                &&& m.end == m.start + query.len()
                &&& occurs_at(text, query, m.start as int)
                &&& whole_word ==> opens_word(text, m.start as int) && closes_word(
                    text,
                    m.end as int,
                )
            },
    decreases
            (if at <= text.len() {
                text.len() + 1 - at
            } else {
                0
            }),
{
    let width = query.len();
    let found = literal_matches(text, query, text, width, whole_word, at);
    if width == 0 || at + query.len() > text.len() {
    } else if occurs_at(text, query, at) && at + width <= text.len() && (!whole_word || (opens_word(
        text,
        at,
    ) && closes_word(text, at + width))) {
        lemma_matches_are_occurrences(text, query, whole_word, at + width);
        let rest = literal_matches(text, query, text, width, whole_word, at + width);
        assert forall|k: int| 0 <= k < found.len() implies {
            let m = #[trigger] found[k];
            &&& at <= m.start
            &&& m.end == m.start + query.len()
            &&& occurs_at(text, query, m.start as int)
            &&& whole_word ==> opens_word(text, m.start as int) && closes_word(text, m.end as int)
        } by {
            if k > 0 {
                assert(found[k] == rest[k - 1]);
            }
        }
    } else {
        lemma_matches_are_occurrences(text, query, whole_word, at + 1);
        let rest = literal_matches(text, query, text, width, whole_word, at + 1);
        assert(found == rest);
        assert forall|k: int| 0 <= k < found.len() implies {
            let m = #[trigger] found[k];
            &&& at <= m.start
            &&& m.end == m.start + query.len()
            &&& occurs_at(text, query, m.start as int)
            &&& whole_word ==> opens_word(text, m.start as int) && closes_word(text, m.end as int)
        } by {
            assert(found[k] == rest[k]);
        }
    }
}

proof fn lemma_skip_to_occurrence(
    hay: Seq<char>,
    needle: Seq<char>,
    text: Seq<char>,
    width: nat,
    whole_word: bool,
    at: int,
    to: int,
)
    requires
        0 <= at <= to,
        forall|j: int| at <= j < to ==> !occurs_at(hay, needle, j),
        to + needle.len() <= hay.len() || to == hay.len() + 1,
    ensures
        literal_matches(hay, needle, text, width, whole_word, at) == literal_matches(
            hay,
            needle,
            text,
            width,
            whole_word,
            to,
        ),
    decreases to - at,
{
    if at < to {
        lemma_skip_to_occurrence(hay, needle, text, width, whole_word, at + 1, to);
    }
}

proof fn lemma_no_occurrence(
    hay: Seq<char>,
    needle: Seq<char>,
    text: Seq<char>,
    width: nat,
    whole_word: bool,
    at: int,
)
    requires
        0 <= at,
        forall|j: int| at <= j ==> !occurs_at(hay, needle, j),
    ensures
        literal_matches(hay, needle, text, width, whole_word, at) == Seq::<FindResult>::empty(),
    decreases hay.len() + 1 - at,
{
    if width == 0 || at + needle.len() > hay.len() {
    } else {
        lemma_no_occurrence(hay, needle, text, width, whole_word, at + 1);
    }
}

fn scan_literal(
    hay: &Vec<char>,
    needle: &Vec<char>,
    text: &Vec<char>,
    width: usize,
    whole_word: bool,
) -> (found: Vec<FindResult>)
    requires
        width > 0,
    ensures
        found@ == literal_matches(hay@, needle@, text@, width as nat, whole_word, 0),
        matches_fit(found@, text@.len()),
{
    let h = hay.len();
    let t = text.len();
    let mut found: Vec<FindResult> = Vec::new();
    let mut at: usize = 0;
    let ghost all = literal_matches(hay@, needle@, text@, width as nat, whole_word, 0);
    while at <= h
        invariant
            width > 0,
            h == hay@.len(),
            t == text@.len(),
            all == literal_matches(hay@, needle@, text@, width as nat, whole_word, 0),
            found@ + literal_matches(hay@, needle@, text@, width as nat, whole_word, at as int)
                == all,
            matches_fit(found@, text@.len()),
            forall|k: int| 0 <= k < found@.len() ==> (#[trigger] found@[k]).end <= at,
        decreases
                (if at <= h {
                    h + 1 - at
                } else {
                    0
                }),
    {
        let ghost rest = literal_matches(hay@, needle@, text@, width as nat, whole_word, at as int);
        proof {
            lemma_first_occurrence(hay@, needle@, at as int);
        }
        match find_from(hay, needle, at) {
            None => {
                proof {
                    lemma_no_occurrence(hay@, needle@, text@, width as nat, whole_word, at as int);
                    assert(found@ + Seq::<FindResult>::empty() =~= found@);
                }
                return found;
            },
            Some(p) => {
                proof {
                    lemma_skip_to_occurrence(
                        hay@,
                        needle@,
                        text@,
                        width as nat,
                        whole_word,
                        at as int,
                        p as int,
                    );
                }
                let fits = width <= t && p <= t - width;
                let accepted = fits && (!whole_word || ((p == 0 || !is_word_char(text[p - 1])) && (p
                    + width >= t || !is_word_char(text[p + width]))));
                if accepted {
                    let m = FindResult::new(p, p + width);
                    proof {
                        let next = literal_matches(
                            hay@,
                            needle@,
                            text@,
                            width as nat,
                            whole_word,
                            p + width,
                        );
                        assert(rest == seq![m] + next);
                        assert(found@.push(m) + next =~= found@ + (seq![m] + next));
                    }
                    found.push(m);
                    at = p + width;
                } else {
                    if p >= h {
                        proof {
                            assert(literal_matches(
                                hay@,
                                needle@,
                                text@,
                                width as nat,
                                whole_word,
                                p + 1,
                            ) == Seq::<FindResult>::empty());
                            assert(found@ + Seq::<FindResult>::empty() =~= found@);
                        }
                        return found;
                    }
                    at = p + 1;
                }
            },
        }
    }
    proof {
        assert(literal_matches(hay@, needle@, text@, width as nat, whole_word, at as int)
            == Seq::<FindResult>::empty());
        assert(found@ + Seq::<FindResult>::empty() =~= found@);
    }
    found
}

fn matches_from_spans(text: &Vec<char>, spans: &Vec<(usize, usize)>) -> (found: Vec<FindResult>)
    requires
        spans_in_order(spans@),
    ensures
        found@ == matches_of_spans(text@, spans@),
        matches_fit(found@, text@.len()),
{
    let n = spans.len();
    let t = text.len();
    let mut found: Vec<FindResult> = Vec::new();
    let mut k: usize = 0;
    while k < n
        invariant
            k <= n,
            n == spans@.len(),
            t == text@.len(),
            found@.len() == k,
            forall|j: int| 0 <= j < k ==> #[trigger] found@[j] == matches_of_spans(text@, spans@)[j],
        decreases n - k,
    {
        let (from, to) = spans[k];
        let start = char_index(text, from);
        let end = char_index(text, to);
        found.push(FindResult::new(start, end));
        k += 1;
    }
    proof {
        assert(found@ =~= matches_of_spans(text@, spans@));
        assert forall|j: int| 0 <= j < found@.len() implies (#[trigger] found@[j]).start
            <= found@[j].end <= text@.len() by {
            lemma_chars_before_grows(text@, spans@[j].0 as int, spans@[j].1 as int);
            lemma_chars_before_bounds(text@, spans@[j].0 as int);
            lemma_chars_before_bounds(text@, spans@[j].1 as int);
        }
        assert forall|j: int, l: int| 0 <= j < l < found@.len() implies (#[trigger] found@[j]).end
            <= (#[trigger] found@[l]).start by {
            lemma_chars_before_grows(text@, spans@[j].1 as int, spans@[l].0 as int);
            lemma_chars_before_bounds(text@, spans@[j].1 as int);
            lemma_chars_before_bounds(text@, spans@[l].0 as int);
        }
    }
    found
}

/// The mathematical value of a `FindState`.
pub struct FindStateView {
    pub query: Seq<char>,
    pub replacement: Seq<char>,
    pub options: FindOptions,
    pub matches: Seq<FindResult>,
    pub current_index: usize,
    pub is_visible: bool,
    pub is_replace_mode: bool,
}

impl FindStateView {
    /// The match that navigation stands on, if the index names one.
    pub open spec fn current(self) -> Option<FindResult> {
        if self.current_index < self.matches.len() {
            Some(self.matches[self.current_index as int])
        } else {
            None
        }
    }
}

/// The query, its options, the matches of the last search and the place of
/// navigation among them.
#[derive(Debug, Clone)]
pub struct FindState {
    pub query: String,
    pub replacement: String,
    pub options: FindOptions,
    pub matches: Vec<FindResult>,
    pub current_index: usize,
    pub is_visible: bool,
    pub is_replace_mode: bool,
}

impl View for FindState {
    type V = FindStateView;

    open spec fn view(&self) -> FindStateView {
        FindStateView {
            query: self.query@,
            replacement: self.replacement@,
            options: self.options,
            matches: self.matches@,
            current_index: self.current_index,
            is_visible: self.is_visible,
            is_replace_mode: self.is_replace_mode,
        }
    }
}

impl Default for FindState {
    fn default() -> (s: Self)
        ensures
            s@ == (FindStateView {
                query: Seq::empty(),
                replacement: Seq::empty(),
                options: FindOptions {
                    case_sensitive: false,
                    whole_word: false,
                    use_regex: false,
                    wrap_around: false,
                },
                matches: Seq::empty(),
                current_index: 0,
                is_visible: false,
                is_replace_mode: false,
            }),
    {
        FindState::new()
    }
}

impl FindState {
    /// A hidden panel with an empty query, no matches and every option off.
    pub fn new() -> (s: Self)
        ensures
            s@ == (FindStateView {
                query: Seq::empty(),
                replacement: Seq::empty(),
                options: FindOptions {
                    case_sensitive: false,
                    whole_word: false,
                    use_regex: false,
                    wrap_around: false,
                },
                matches: Seq::empty(),
                current_index: 0,
                is_visible: false,
                is_replace_mode: false,
            }),
    {
        FindState {
            query: String::new(),
            replacement: String::new(),
            options: FindOptions::default(),
            matches: Vec::new(),
            current_index: 0,
            is_visible: false,
            is_replace_mode: false,
        }
    }

    /// Finds every match of the query in `text` and moves to the first.
    pub fn search(&mut self, text: &str)
        ensures
            final(self)@ == (FindStateView {
                matches: search_results(old(self)@.query, old(self)@.options, text@),
                current_index: 0,
                ..old(self)@
            }),
            matches_fit(final(self)@.matches, text@.len()),
    {
        self.current_index = 0;
        let query = to_chars(self.query.as_str());
        if query.len() == 0 {
            self.matches = Vec::new();
        } else if self.options.use_regex {
            self.matches = self.search_regex(text);
        } else {
            self.matches = self.search_literal(text, &query);
        }
    }

    fn search_literal(&self, text: &str, query: &Vec<char>) -> (found: Vec<FindResult>)
        requires
            query@ == self.query@,
            query@.len() > 0,
        ensures
            found@ == literal_matches(
                folded(text@, self.options),
                folded(self.query@, self.options),
                text@,
                self.query@.len(),
                self.options.whole_word,
                0,
            ),
            matches_fit(found@, text@.len()),
    {
        let chars = to_chars(text);
        if self.options.case_sensitive {
            scan_literal(&chars, query, &chars, query.len(), self.options.whole_word)
        } else {
            let hay = to_chars(to_lowercase(text).as_str());
            let needle = to_chars(to_lowercase(self.query.as_str()).as_str());
            scan_literal(&hay, &needle, &chars, query.len(), self.options.whole_word)
        }
    }

    fn search_regex(&self, text: &str) -> (found: Vec<FindResult>)
        ensures
            found@ == regex_matches(self.query@, self.options, text@),
            matches_fit(found@, text@.len()),
    {
        proof {
            reveal_strlit("(?i)");
            reveal_strlit("\\b");
            assert("(?i)"@ =~= seq!['(', '?', 'i', ')']);
            assert("\\b"@ =~= seq!['\\', 'b']);
        }
        let mut pattern = String::new();
        if self.options.whole_word {
            pattern.append("\\b");
        }
        if !self.options.case_sensitive {
            pattern.append("(?i)");
        }
        pattern.append(self.query.as_str());
        if self.options.whole_word {
            pattern.append("\\b");
        }
        assert(pattern@ =~= regex_pattern(self.query@, self.options));
        match regex_find_all(pattern.as_str(), text) {
            Some(spans) => {
                let chars = to_chars(text);
                matches_from_spans(&chars, &spans)
            },
            None => Vec::new(),
        }
    }

    /// Moves to the match after the current one, from the last on to the
    /// first, and returns it. Without matches nothing changes.
    pub fn next(&mut self) -> (m: Option<FindResult>)
        ensures
            old(self)@.matches.len() == 0 ==> m.is_none() && final(self)@ == old(self)@,
            old(self)@.matches.len() > 0 ==> final(self)@ == (FindStateView {
                current_index: ((old(self)@.current_index + 1) % (
                old(self)@.matches.len() as int)) as usize,
                ..old(self)@
            }) && m == final(self)@.current() && m.is_some(),
    {
        let n = self.matches.len();
        if n == 0 {
            return None;
        }
        self.current_index = if self.current_index == usize::MAX {
            assert((usize::MAX % n + 1) % (n as int) == (usize::MAX + 1) % (n as int)) by (nonlinear_arith)
                requires
                    n > 0,
            ;
            (usize::MAX % n + 1) % n
        } else {
            (self.current_index + 1) % n
        };
        self.current_match()
    }

    /// Moves to the match before the current one, from the first on to the
    /// last, and returns it. Without matches nothing changes.
    pub fn prev(&mut self) -> (m: Option<FindResult>)
        ensures
            old(self)@.matches.len() == 0 ==> m.is_none() && final(self)@ == old(self)@,
            old(self)@.matches.len() > 0 ==> final(self)@ == (FindStateView {
                current_index: if old(self)@.current_index == 0 {
                    (old(self)@.matches.len() - 1) as usize
                } else {
                    (old(self)@.current_index - 1) as usize
                },
                ..old(self)@
            }) && m == final(self)@.current(),
    {
        let n = self.matches.len();
        if n == 0 {
            return None;
        }
        self.current_index = if self.current_index == 0 {
            n - 1
        } else {
            self.current_index - 1
        };
        self.current_match()
    }

    /// The match that navigation stands on.
    pub fn current_match(&self) -> (m: Option<FindResult>)
        ensures
            m == self@.current(),
    {
        if self.current_index < self.matches.len() {
            Some(self.matches[self.current_index])
        } else {
            None
        }
    }

    /// The number of matches.
    pub fn match_count(&self) -> (n: usize)
        ensures
            n == self@.matches.len(),
    {
        self.matches.len()
    }

    /// Whether the last search found anything.
    pub fn has_matches(&self) -> (b: bool)
        ensures
            b == (self@.matches.len() > 0),
    {
        self.matches.len() > 0
    }

    /// The text with the current match replaced by the replacement, or `None`
    /// when navigation stands on no match. The state itself does not change.
    pub fn replace_current(&self, text: &str) -> (r: Option<String>)
        requires
            self@.current() matches Some(m) ==> m.start <= m.end <= text@.len(),
        ensures
            match self@.current() {
                Some(m) => r.is_some() && r.unwrap()@ == replaced_one(text@, m, self@.replacement),
                None => r.is_none(),
            },
    {
        match self.current_match() {
            Some(m) => {
                let len = text.unicode_len();
                let mut result = String::from_str(text.substring_char(0, m.start));
                result.append(self.replacement.as_str());
                result.append(text.substring_char(m.end, len));
                Some(result)
            },
            None => None,
        }
    }

    /// The text with every match replaced by the replacement. The matches are
    /// ranges of `text` as the search found them; they are not looked up again
    /// after a replacement. The state itself does not change.
    pub fn replace_all(&self, text: &str) -> (r: String)
        requires
            matches_fit(self@.matches, text@.len()),
        ensures
            r@ == replaced_all(text@, self@.matches, self@.replacement),
    {
        let len = text.unicode_len();
        let n = self.matches.len();
        let mut result = String::new();
        let mut last_end: usize = 0;
        let mut k: usize = 0;
        while k < n
            invariant
                k <= n,
                n == self.matches@.len(),
                len == text@.len(),
                matches_fit(self@.matches, text@.len()),
                last_end == end_before(self@.matches, k as int),
                last_end <= len,
                result@ == replaced_prefix(text@, self@.matches, self@.replacement, k as int),
            decreases n - k,
        {
            let m = self.matches[k];
            proof {
                if k > 0 {
                    assert(self@.matches[k - 1].end <= self@.matches[k as int].start);
                }
            }
            result.append(text.substring_char(last_end, m.start));
            result.append(self.replacement.as_str());
            last_end = m.end;
            k += 1;
        }
        result.append(text.substring_char(last_end, len));
        result
    }

    /// Shows the panel for searching.
    pub fn show(&mut self)
        ensures
            final(self)@ == (FindStateView {
                is_visible: true,
                is_replace_mode: false,
                ..old(self)@
            }),
    {
        self.is_visible = true;
        self.is_replace_mode = false;
    }

    /// Shows the panel for searching and replacing.
    pub fn show_replace(&mut self)
        ensures
            final(self)@ == (FindStateView { is_visible: true, is_replace_mode: true, ..old(self)@ }),
    {
        self.is_visible = true;
        self.is_replace_mode = true;
    }

    /// Hides the panel.
    pub fn hide_panel(&mut self)
        ensures
            final(self)@ == (FindStateView { is_visible: false, ..old(self)@ }),
    {
        self.is_visible = false;
    }

    /// Forgets the query and the matches.
    pub fn clear(&mut self)
        ensures
            final(self)@ == (FindStateView {
                query: Seq::empty(),
                matches: Seq::empty(),
                current_index: 0,
                ..old(self)@
            }),
    {
        self.query = String::new();
        self.matches = Vec::new();
        self.current_index = 0;
    }
}

} // verus!
