//! Character-level building blocks: reading a string as a sequence of
//! characters, character classes, scanning, substring search and decimal
//! formatting.
//!
//! Every offset in this crate counts characters (Unicode scalar values), never
//! bytes. The three Unicode facts the library relies on are taken from the
//! standard library and appear here as uninterpreted names.

use vstd::prelude::*;
use vstd::string::StringExecFns;

verus! {

/// Whether `c` has the Unicode `White_Space` property, as `char::is_whitespace` reports it.
pub uninterp spec fn char_is_whitespace(c: char) -> bool;

/// Whether `c` is alphabetic or numeric in the Unicode sense, as `char::is_alphanumeric` reports it.
pub uninterp spec fn char_is_alphanumeric(c: char) -> bool;

/// The lowercase form of a string, as `str::to_lowercase` computes it. The
/// result may differ in length from the argument.
pub uninterp spec fn lowercase_of(s: Seq<char>) -> Seq<char>;

/// Calls `char::is_whitespace`. Trusted: the answer is the Unicode
/// `White_Space` property of `c`, here called `char_is_whitespace`.
#[verifier::external_body]
pub(crate) fn is_whitespace(c: char) -> (b: bool)
    ensures
        b == char_is_whitespace(c),
{
    c.is_whitespace()
}

/// Calls `char::is_alphanumeric`. Trusted: the answer is a fixed property of
/// `c`, here called `char_is_alphanumeric`.
#[verifier::external_body]
pub(crate) fn is_alphanumeric(c: char) -> (b: bool)
    ensures
        b == char_is_alphanumeric(c),
{
    c.is_alphanumeric()
}

/// Calls `str::to_lowercase`. Trusted: the result depends on the characters of
/// `s` alone; it is called `lowercase_of`.
#[verifier::external_body]
pub(crate) fn to_lowercase(s: &str) -> (r: String)
    ensures
        r@ == lowercase_of(s@),
{
    s.to_lowercase()
}

/// A word character is alphanumeric or an underscore.
pub open spec fn is_word(c: char) -> bool {
    char_is_alphanumeric(c) || c == '_'
}

/// Whether `c` can be part of a word.
pub fn is_word_char(c: char) -> (b: bool)
    ensures
        b == is_word(c),
{
    is_alphanumeric(c) || c == '_'
}

/// The characters of `s`, in order.
pub fn to_chars(s: &str) -> (v: Vec<char>)
    ensures
        v@ == s@,
{
    broadcast use vstd::string::group_string_axioms;

    let mut v: Vec<char> = Vec::new();
    for c in it: s.chars()
        invariant
            it.seq() == s@,
            v@ == s@.take(it.index() as int),
    {
        v.push(c);
    }
    v
}

/// The part of `s` from character `from` up to character `to`, as an owned string.
pub fn slice_string(s: &str, from: usize, to: usize) -> (r: String)
    requires
        from <= to <= s@.len(),
    ensures
        r@ == s@.subrange(from as int, to as int),
{
    String::from_str(s.substring_char(from, to))
}

/// Whether two character vectors are equal.
pub fn chars_eq(a: &Vec<char>, b: &Vec<char>) -> (r: bool)
    ensures
        r == (a@ == b@),
{
    if a.len() != b.len() {
        return false;
    }
    let n = a.len();
    let mut i: usize = 0;
    while i < n
        invariant
            i <= n,
            n == a@.len(),
            n == b@.len(),
            a@.take(i as int) == b@.take(i as int),
        decreases n - i,
    {
        if a[i] != b[i] {
            assert(a@[i as int] != b@[i as int]);
            return false;
        }
        assert(a@.take(i + 1) == a@.take(i as int).push(a@[i as int]));
        assert(b@.take(i + 1) == b@.take(i as int).push(b@[i as int]));
        i += 1;
    }
    assert(a@.take(n as int) == a@);
    assert(b@.take(n as int) == b@);
    true
}

/// A set of characters that a scan can run over.
#[derive(Debug, Clone, Copy)]
pub enum CharClass {
    /// Unicode whitespace.
    Whitespace,
    /// Exactly this character.
    Is(char),
    /// Every character but this one.
    Not(char),
    /// The ASCII digits `0` to `9`.
    AsciiDigit,
    /// Alphanumeric characters and the underscore.
    Word,
}

impl CharClass {
    /// Whether `c` belongs to the class.
    pub open spec fn holds(self, c: char) -> bool {
        match self {
            CharClass::Whitespace => char_is_whitespace(c),
            CharClass::Is(x) => c == x,
            CharClass::Not(x) => c != x,
            CharClass::AsciiDigit => '0' <= c && c <= '9',
            CharClass::Word => is_word(c),
        }
    }

    /// Whether `c` belongs to the class.
    pub fn contains(&self, c: char) -> (b: bool)
        ensures
            b == self.holds(c),
    {
        match self {
            CharClass::Whitespace => is_whitespace(c),
            CharClass::Is(x) => c == *x,
            CharClass::Not(x) => c != *x,
            CharClass::AsciiDigit => c >= '0' && c <= '9',
            CharClass::Word => is_word_char(c),
        }
    }
}

/// The end of the longest run of characters of `class` that starts at `from`:
/// the first index at or after `from` whose character is outside the class,
/// or the length of `s` when the run reaches the end.
pub open spec fn run_end(s: Seq<char>, from: int, class: CharClass) -> int
    decreases s.len() - from,
{
    if 0 <= from < s.len() && class.holds(s[from]) {
        run_end(s, from + 1, class)
    } else {
        from
    }
}

/// The start of the longest run of characters of `class` that ends just
/// before `to`.
pub open spec fn run_start(s: Seq<char>, to: int, class: CharClass) -> int
    decreases to,
{
    if 0 < to <= s.len() && class.holds(s[to - 1]) {
        run_start(s, to - 1, class)
    } else {
        to
    }
}

/// `run_end` is the one index that ends a run: everything before it is in the
/// class and the character at it, if there is one, is not.
pub proof fn lemma_run_end(s: Seq<char>, from: int, class: CharClass, end: int)
    requires
        0 <= from <= end <= s.len(),
        forall|i: int| from <= i < end ==> class.holds(#[trigger] s[i]),
        end < s.len() ==> !class.holds(s[end]),
    ensures
        run_end(s, from, class) == end,
    decreases end - from,
{
    if from < end {
        lemma_run_end(s, from + 1, class, end);
    }
}

/// What `run_end` returns lies between `from` and the length, ends a run of
/// the class, and stops at a character outside it.
pub proof fn lemma_run_end_bounds(s: Seq<char>, from: int, class: CharClass)
    requires
        0 <= from <= s.len(),
    ensures
        from <= run_end(s, from, class) <= s.len(),
        forall|i: int| from <= i < run_end(s, from, class) ==> class.holds(#[trigger] s[i]),
        run_end(s, from, class) < s.len() ==> !class.holds(s[run_end(s, from, class)]),
    decreases s.len() - from,
{
    if from < s.len() && class.holds(s[from]) {
        lemma_run_end_bounds(s, from + 1, class);
    }
}

/// `run_start` is the one index that starts a run ending before `to`.
pub proof fn lemma_run_start(s: Seq<char>, to: int, class: CharClass, start: int)
    requires
        0 <= start <= to <= s.len(),
        forall|i: int| start <= i < to ==> class.holds(#[trigger] s[i]),
        start > 0 ==> !class.holds(s[start - 1]),
    ensures
        run_start(s, to, class) == start,
    decreases to - start,
{
    if start < to {
        lemma_run_start(s, to - 1, class, start);
    }
}

/// Scans forward from `from` over characters of `class`.
pub fn scan_while(s: &Vec<char>, from: usize, class: CharClass) -> (end: usize)
    requires
        from <= s@.len(),
    ensures
        end == run_end(s@, from as int, class),
        from <= end <= s@.len(),
{
    let n = s.len();
    let mut i = from;
    while i < n && class.contains(s[i])
        invariant
            from <= i <= n,
            n == s@.len(),
            forall|j: int| from <= j < i ==> class.holds(#[trigger] s@[j]),
        decreases n - i,
    {
        i += 1;
    }
    proof {
        lemma_run_end(s@, from as int, class, i as int);
    }
    i
}

/// Scans backward from `to` over characters of `class`.
pub fn scan_back_while(s: &Vec<char>, to: usize, class: CharClass) -> (start: usize)
    requires
        to <= s@.len(),
    ensures
        start == run_start(s@, to as int, class),
        start <= to,
{
    let mut i = to;
    while i > 0 && class.contains(s[i - 1])
        invariant
            i <= to <= s@.len(),
            forall|j: int| i <= j < to ==> class.holds(#[trigger] s@[j]),
        decreases i,
    {
        i -= 1;
    }
    proof {
        lemma_run_start(s@, to as int, class, i as int);
    }
    i
}

/// Whether `needle` stands in `hay` at index `at`.
pub open spec fn occurs_at(hay: Seq<char>, needle: Seq<char>, at: int) -> bool {
    0 <= at && at + needle.len() <= hay.len() && hay.subrange(at, at + needle.len()) == needle
}

/// The first index at or after `from` at which `needle` stands in `hay`.
pub open spec fn first_occurrence(hay: Seq<char>, needle: Seq<char>, from: int) -> Option<int>
    decreases hay.len() + 1 - from,
{
    if from < 0 || from + needle.len() > hay.len() {
        None
    } else if occurs_at(hay, needle, from) {
        Some(from)
    } else {
        first_occurrence(hay, needle, from + 1)
    }
}

/// `first_occurrence` finds an occurrence, no earlier one exists at or after
/// `from`, and it answers `None` only when there is none at all.
pub proof fn lemma_first_occurrence(hay: Seq<char>, needle: Seq<char>, from: int)
    requires
        0 <= from,
    ensures
        match first_occurrence(hay, needle, from) {
            Some(p) => from <= p && occurs_at(hay, needle, p) && forall|j: int|
                from <= j < p ==> !occurs_at(hay, needle, j),
            None => forall|j: int| from <= j ==> !occurs_at(hay, needle, j),
        },
    decreases hay.len() + 1 - from,
{
    if from + needle.len() > hay.len() {
    } else if occurs_at(hay, needle, from) {
    } else {
        lemma_first_occurrence(hay, needle, from + 1);
    }
}

/// Whether `needle` stands in `hay` at `at`.
pub fn matches_at(hay: &Vec<char>, needle: &Vec<char>, at: usize) -> (r: bool)
    ensures
        r == occurs_at(hay@, needle@, at as int),
{
    let n = needle.len();
    let h = hay.len();
    if at > h || n > h - at {
        return false;
    }
    let mut k: usize = 0;
    while k < n
        invariant
            k <= n,
            n == needle@.len(),
            h == hay@.len(),
            at + n <= h,
            forall|j: int| 0 <= j < k ==> hay@[at + j] == needle@[j],
        decreases n - k,
    {
        if hay[at + k] != needle[k] {
            assert(hay@.subrange(at as int, at + n)[k as int] != needle@[k as int]);
            return false;
        }
        k += 1;
    }
    assert(hay@.subrange(at as int, at + n) =~= needle@);
    true
}

/// The first place at or after `from` where `needle` stands in `hay`.
pub fn find_from(hay: &Vec<char>, needle: &Vec<char>, from: usize) -> (r: Option<usize>)
    ensures
        match r {
            Some(p) => first_occurrence(hay@, needle@, from as int) == Some(p as int),
            None => first_occurrence(hay@, needle@, from as int).is_none(),
        },
{
    let h = hay.len();
    let n = needle.len();
    if from > h || n > h - from {
        return None;
    }
    let last = h - n;
    let mut i = from;
    loop
        invariant
            from <= i <= last,
            last == h - n,
            h == hay@.len(),
            n == needle@.len(),
            first_occurrence(hay@, needle@, from as int) == first_occurrence(
                hay@,
                needle@,
                i as int,
            ),
        decreases last - i,
    {
        if matches_at(hay, needle, i) {
            return Some(i);
        }
        if i == last {
            assert(first_occurrence(hay@, needle@, i + 1).is_none());
            return None;
        }
        i += 1;
    }
}

/// Whether `s` begins with `prefix` at index `at`.
pub fn starts_with_at(s: &Vec<char>, at: usize, prefix: &str) -> (r: bool)
    ensures
        r == occurs_at(s@, prefix@, at as int),
{
    let p = to_chars(prefix);
    matches_at(s, &p, at)
}

/// The character that writes the digit `d`.
pub open spec fn digit_char(d: int) -> char {
    if d == 0 {
        '0'
    } else if d == 1 {
        '1'
    } else if d == 2 {
        '2'
    } else if d == 3 {
        '3'
    } else if d == 4 {
        '4'
    } else if d == 5 {
        '5'
    } else if d == 6 {
        '6'
    } else if d == 7 {
        '7'
    } else if d == 8 {
        '8'
    } else {
        '9'
    }
}

/// The decimal numeral of `n`, most significant digit first, without leading zeros.
pub open spec fn decimal(n: nat) -> Seq<char>
    decreases n,
{
    if n < 10 {
        seq![digit_char(n as int)]
    } else {
        decimal(n / 10).push(digit_char((n % 10) as int))
    }
}

fn digit_str(d: u64) -> (s: &'static str)
    requires
        d < 10,
    ensures
        s@ == seq![digit_char(d as int)],
{
    proof {
        reveal_strlit("0");
        reveal_strlit("1");
        reveal_strlit("2");
        reveal_strlit("3");
        reveal_strlit("4");
        reveal_strlit("5");
        reveal_strlit("6");
        reveal_strlit("7");
        reveal_strlit("8");
        reveal_strlit("9");
    }
    let s = if d == 0 {
        "0"
    } else if d == 1 {
        "1"
    } else if d == 2 {
        "2"
    } else if d == 3 {
        "3"
    } else if d == 4 {
        "4"
    } else if d == 5 {
        "5"
    } else if d == 6 {
        "6"
    } else if d == 7 {
        "7"
    } else if d == 8 {
        "8"
    } else {
        "9"
    };
    assert(s@ =~= seq![digit_char(d as int)]);
    s
}

/// Writes `n` in decimal.
pub fn decimal_string(n: u64) -> (s: String)
    ensures
        s@ == decimal(n as nat),
    decreases n,
{
    if n < 10 {
        String::from_str(digit_str(n))
    } else {
        let mut s = decimal_string(n / 10);
        s.append(digit_str(n % 10));
        assert(s@ =~= decimal((n / 10) as nat).push(digit_char((n % 10) as int)));
        s
    }
}

/// Where `s` starts and ends once the whitespace at both ends is left out.
pub open spec fn trim_bounds(s: Seq<char>) -> (int, int) {
    let from = run_end(s, 0, CharClass::Whitespace);
    let back = run_start(s, s.len() as int, CharClass::Whitespace);
    (
        from,
        if back < from {
            from
        } else {
            back
        },
    )
}

/// `s` without the whitespace at its ends.
pub open spec fn trimmed(s: Seq<char>) -> Seq<char> {
    s.subrange(trim_bounds(s).0, trim_bounds(s).1)
}

/// Finds where `s` starts and ends without the whitespace at its ends.
pub fn trim_range(s: &Vec<char>) -> (r: (usize, usize))
    ensures
        r.0 == trim_bounds(s@).0,
        r.1 == trim_bounds(s@).1,
        r.0 <= r.1 <= s@.len(),
{
    let from = scan_while(s, 0, CharClass::Whitespace);
    let back = scan_back_while(s, s.len(), CharClass::Whitespace);
    if back < from {
        (from, from)
    } else {
        (from, back)
    }
}

/// Copies `s` without the whitespace at its ends.
pub fn copy_trimmed(s: &Vec<char>) -> (r: Vec<char>)
    ensures
        r@ == trimmed(s@),
{
    let (from, to) = trim_range(s);
    let mut r: Vec<char> = Vec::new();
    let mut i = from;
    while i < to
        invariant
            from <= i <= to <= s@.len(),
            r@ == s@.subrange(from as int, i as int),
        decreases to - i,
    {
        r.push(s[i]);
        assert(s@.subrange(from as int, i + 1) =~= s@.subrange(from as int, i as int).push(
            s@[i as int],
        ));
        i += 1;
    }
    r
}

} // verus!
