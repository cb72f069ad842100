//! Splitting text into lines.
//!
//! A line ends at a line feed, or at a carriage return directly followed by a
//! line feed; the terminator is not part of the line. A final terminator is
//! optional: text that ends with one has the same lines as the text without
//! it, and empty text has no lines at all.

use vstd::prelude::*;

verus! {

/// The spans `(start, end)` of the lines of `s` that begin at or after
/// `line_start`, given that no line feed stands in `line_start..i`.
pub open spec fn spans_scan(s: Seq<char>, line_start: int, i: int) -> Seq<(int, int)>
    decreases s.len() - i,
{
    if i >= s.len() {
        if line_start < s.len() {
            seq![(line_start, s.len() as int)]
        } else {
            Seq::empty()
        }
    } else if s[i] == '\n' {
        let end = if i > line_start && s[i - 1] == '\r' {
            i - 1
        } else {
            i
        };
        seq![(line_start, end)] + spans_scan(s, i + 1, i + 1)
    } else {
        spans_scan(s, line_start, i + 1)
    }
}

/// The span `(start, end)` of each line of `s`, in order; `end` is exclusive.
pub open spec fn line_spans(s: Seq<char>) -> Seq<(int, int)> {
    spans_scan(s, 0, 0)
}

/// The lines of `s`, without their terminators.
pub open spec fn lines_of(s: Seq<char>) -> Seq<Seq<char>> {
    Seq::new(line_spans(s).len(), |k: int| s.subrange(line_spans(s)[k].0, line_spans(s)[k].1))
}

/// Every span lies inside the text, starts at or after `line_start`, and the
/// spans come in ascending order without overlap.
pub proof fn lemma_spans_scan_bounds(s: Seq<char>, line_start: int, i: int)
    requires
        0 <= line_start <= i <= s.len(),
    ensures
        forall|k: int|
            0 <= k < spans_scan(s, line_start, i).len() ==> line_start <= (#[trigger] spans_scan(
                s,
                line_start,
                i,
            )[k]).0 <= spans_scan(s, line_start, i)[k].1 <= s.len(),
        forall|k: int, l: int|
            0 <= k < l < spans_scan(s, line_start, i).len() ==> (#[trigger] spans_scan(
                s,
                line_start,
                i,
            )[k]).1 < (#[trigger] spans_scan(s, line_start, i)[l]).0,
        spans_scan(s, line_start, i).len() <= s.len() - line_start,
    decreases s.len() - i,
{
    if i >= s.len() {
    } else if s[i] == '\n' {
        lemma_spans_scan_bounds(s, i + 1, i + 1);
        let rest = spans_scan(s, i + 1, i + 1);
        let all = spans_scan(s, line_start, i);
        assert forall|k: int| 0 <= k < all.len() implies line_start <= (#[trigger] all[k]).0
            <= all[k].1 <= s.len() by {
            if k > 0 {
                assert(all[k] == rest[k - 1]);
            }
        }
        assert forall|k: int, l: int| 0 <= k < l < all.len() implies (#[trigger] all[k]).1 < (
        #[trigger] all[l]).0 by {
            assert(all[l] == rest[l - 1]);
            if k > 0 {
                assert(all[k] == rest[k - 1]);
            }
        }
    } else {
        lemma_spans_scan_bounds(s, line_start, i + 1);
    }
}

/// The spans of the lines lie inside the text, in ascending order, and there
/// are no more lines than characters.
pub proof fn lemma_line_spans_bounds(s: Seq<char>)
    ensures
        forall|k: int|
            0 <= k < line_spans(s).len() ==> 0 <= (#[trigger] line_spans(s)[k]).0 <= line_spans(
                s,
            )[k].1 <= s.len(),
        forall|k: int, l: int|
            0 <= k < l < line_spans(s).len() ==> (#[trigger] line_spans(s)[k]).1 < (
            #[trigger] line_spans(s)[l]).0,
        line_spans(s).len() <= s.len(),
{
    lemma_spans_scan_bounds(s, 0, 0);
}

/// Finds the span of every line of `s`.
pub fn split_lines(s: &Vec<char>) -> (spans: Vec<(usize, usize)>)
    ensures
        spans@.len() == line_spans(s@).len(),
        forall|k: int|
            0 <= k < spans@.len() ==> (#[trigger] spans@[k]).0 == line_spans(s@)[k].0 && spans@[k].1
                == line_spans(s@)[k].1,
        forall|k: int| 0 <= k < spans@.len() ==> (#[trigger] spans@[k]).0 <= spans@[k].1 <= s@.len(),
{
    let n = s.len();
    let mut spans: Vec<(usize, usize)> = Vec::new();
    let ghost mut done: Seq<(int, int)> = Seq::empty();
    let mut line_start: usize = 0;
    let mut i: usize = 0;
    while i < n
        invariant
            line_start <= i <= n,
            n == s@.len(),
            spans@.len() == done.len(),
            forall|k: int|
                0 <= k < spans@.len() ==> (#[trigger] spans@[k]).0 == done[k].0 && spans@[k].1
                    == done[k].1,
            done + spans_scan(s@, line_start as int, i as int) == line_spans(s@),
        decreases n - i,
    {
        if s[i] == '\n' {
            let end = if i > line_start && s[i - 1] == '\r' {
                i - 1
            } else {
                i
            };
            proof {
                let rest = spans_scan(s@, i + 1, i + 1);
                assert(done.push((line_start as int, end as int)) + rest =~= done + (seq![
                    (line_start as int, end as int),
                ] + rest));
                done = done.push((line_start as int, end as int));
            }
            spans.push((line_start, end));
            line_start = i + 1;
        }
        i += 1;
    }
    if line_start < n {
        proof {
            assert(done.push((line_start as int, n as int)) =~= done + seq![
                (line_start as int, n as int),
            ]);
            done = done.push((line_start as int, n as int));
        }
        spans.push((line_start, n));
    } else {
        assert(done + Seq::<(int, int)>::empty() =~= done);
    }
    proof {
        lemma_line_spans_bounds(s@);
        assert forall|k: int| 0 <= k < spans@.len() implies (#[trigger] spans@[k]).0
            <= spans@[k].1 <= s@.len() by {
            let span = line_spans(s@)[k];
            assert(0 <= span.0 <= span.1 <= s@.len());
        }
    }
    spans
}

/// Copies each of the given spans of `s` out into a vector of its own.
pub fn copy_spans(s: &Vec<char>, spans: &Vec<(usize, usize)>) -> (lines: Vec<Vec<char>>)
    requires
        forall|j: int| 0 <= j < spans@.len() ==> (#[trigger] spans@[j]).0 <= spans@[j].1 <= s@.len(),
    ensures
        lines@.len() == spans@.len(),
        forall|k: int|
            0 <= k < lines@.len() ==> (#[trigger] lines@[k])@ == s@.subrange(
                spans@[k].0 as int,
                spans@[k].1 as int,
            ),
{
    let count = spans.len();
    let mut lines: Vec<Vec<char>> = Vec::new();
    let mut k: usize = 0;
    while k < count
        invariant
            k <= count,
            count == spans@.len(),
            forall|j: int|
                0 <= j < spans@.len() ==> (#[trigger] spans@[j]).0 <= spans@[j].1 <= s@.len(),
            lines@.len() == k,
            forall|j: int|
                0 <= j < k ==> (#[trigger] lines@[j])@ == s@.subrange(
                    spans@[j].0 as int,
                    spans@[j].1 as int,
                ),
        decreases count - k,
    {
        let (from, to) = spans[k];
        let line = copy_range(s, from, to);
        lines.push(line);
        k += 1;
    }
    lines
}

/// Copies each line of `s` out into a vector of its own.
pub fn split_into_lines(s: &Vec<char>) -> (lines: Vec<Vec<char>>)
    ensures
        lines@.len() == lines_of(s@).len(),
        forall|k: int| 0 <= k < lines@.len() ==> (#[trigger] lines@[k])@ == lines_of(s@)[k],
{
    let spans = split_lines(s);
    copy_spans(s, &spans)
}

/// Copies the characters `from..to` of `s`.
pub fn copy_range(s: &Vec<char>, from: usize, to: usize) -> (r: Vec<char>)
    requires
        from <= to <= s@.len(),
    ensures
        r@ == s@.subrange(from as int, to as int),
{
    let mut r: Vec<char> = Vec::new();
    let mut i = from;
    while i < to
        invariant
            from <= i <= to <= s@.len(),
            r@ == s@.subrange(from as int, i as int),
        decreases to - i,
    {
        r.push(s[i]);
        assert(s@.subrange(from as int, i + 1) =~= s@.subrange(from as int, i as int).push(
            s@[i as int],
        ));
        i += 1;
    }
    r
}

} // verus!
