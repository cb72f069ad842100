//! Line numbers for the gutter.

use vstd::prelude::*;
use crate::text::line_count;

verus! {

/// The number of lines to number: one for empty text, and one more than the
/// number of line feeds otherwise.
pub fn count_lines(text: &str) -> (n: usize)
    requires
        text@.len() < usize::MAX,
    ensures
        n == line_count(text@),
        n >= 1,
{
    proof {
        crate::text::lemma_position_bounds(text@, text@.len() as int);
    }
    crate::text::count_lines(text)
}

} // verus!
