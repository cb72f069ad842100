//! Work that belongs to the browser.

use vstd::prelude::*;

verus! {

/// Runs `f` where the code runs in a browser, and not at all elsewhere.
pub fn on_browser<F: FnOnce() -> T, T>(in_browser: bool, f: F) -> (r: Option<T>)
    requires
        in_browser ==> f.requires(()),
    ensures
        in_browser ==> r.is_some() && f.ensures((), r.unwrap()),
        !in_browser ==> r.is_none(),
{
    if in_browser {
        Some(f())
    } else {
        None
    }
}

} // verus!
