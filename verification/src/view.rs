//! What the editor shows that follows from its state alone: class lists and
//! the effect of the tab key.

use vstd::prelude::*;
use vstd::string::StringExecFns;
use crate::chars::to_chars;
use crate::state::spliced;
use crate::text::{char_index, chars_before};

verus! {

/// `base` followed by each of `names`, with a space before each.
pub open spec fn joined_classes(base: Seq<char>, names: Seq<Seq<char>>) -> Seq<char>
    decreases names.len(),
{
    if names.len() == 0 {
        base
    } else {
        joined_classes(base, names.drop_last()) + " "@ + names.last()
    }
}

/// The class names that the state of an editor adds to its element, in order.
pub open spec fn editor_class_names(
    focused: bool,
    read_only: bool,
    word_wrap: bool,
    show_line_numbers: bool,
    custom: Option<Seq<char>>,
) -> Seq<Seq<char>> {
    let a = if focused {
        seq!["focused"@]
    } else {
        Seq::empty()
    };
    let b = if read_only {
        a.push("read-only"@)
    } else {
        a
    };
    let c = if word_wrap {
        b.push("word-wrap"@)
    } else {
        b
    };
    let d = if show_line_numbers {
        c.push("with-line-numbers"@)
    } else {
        c
    };
    match custom {
        Some(name) => d.push(name),
        None => d,
    }
}

fn add_class(list: &mut String, Ghost(names): Ghost<Seq<Seq<char>>>, name: &str)
    requires
        old(list)@ == joined_classes("leptos-editor"@, names),
    ensures
        final(list)@ == joined_classes("leptos-editor"@, names.push(name@)),
{
    list.append(" ");
    list.append(name);
    assert(names.push(name@).drop_last() =~= names);
}

/// The `class` attribute of an editor: `leptos-editor`, a class for each
/// state that holds, and the caller's own class last.
pub fn editor_class_list(
    focused: bool,
    read_only: bool,
    word_wrap: bool,
    show_line_numbers: bool,
    custom: Option<&str>,
) -> (list: String)
    ensures
        list@ == joined_classes(
            "leptos-editor"@,
            editor_class_names(
                focused,
                read_only,
                word_wrap,
                show_line_numbers,
                match custom {
                    Some(name) => Some(name@),
                    None => None,
                },
            ),
        ),
{
    let mut list = String::from_str("leptos-editor");
    let ghost mut names: Seq<Seq<char>> = Seq::empty();
    if focused {
        add_class(&mut list, Ghost(names), "focused");
        proof {
            names = names.push("focused"@);
            assert(names =~= seq!["focused"@]);
        }
    }
    if read_only {
        add_class(&mut list, Ghost(names), "read-only");
        proof {
            names = names.push("read-only"@);
        }
    }
    if word_wrap {
        add_class(&mut list, Ghost(names), "word-wrap");
        proof {
            names = names.push("word-wrap"@);
        }
    }
    if show_line_numbers {
        add_class(&mut list, Ghost(names), "with-line-numbers");
        proof {
            names = names.push("with-line-numbers"@);
        }
    }
    match custom {
        Some(name) => {
            add_class(&mut list, Ghost(names), name);
        },
        None => {},
    }
    list
}

/// The `class` attribute of a minimap: `leptos-minimap`, then the caller's
/// own class.
pub fn minimap_class_list(custom: Option<&str>) -> (list: String)
    ensures
        list@ == match custom {
            Some(name) => "leptos-minimap"@ + " "@ + name@,
            None => "leptos-minimap"@,
        },
{
    let mut list = String::from_str("leptos-minimap");
    match custom {
        Some(name) => {
            list.append(" ");
            list.append(name);
        },
        None => {},
    }
    list
}

/// `count` spaces.
pub open spec fn spaces(count: nat) -> Seq<char> {
    Seq::new(count, |i: int| ' ')
}

/// The content after the tab key: what lies before the byte offset `start`,
/// then `tab_size` spaces, then what lies from the byte offset `end` on. For
/// a selection from `start` to `end` the spaces replace the selection.
/// Returns the new content and the byte offset of the caret behind the spaces.
pub fn indent_at(content: &str, start: usize, end: usize, tab_size: usize) -> (r: (String, usize))
    requires
        start + tab_size <= usize::MAX,
    ensures
        r.0@ == spliced(
            content@,
            chars_before(content@, start as int),
            chars_before(content@, end as int),
            spaces(tab_size as nat),
        ),
        r.1 == start + tab_size,
{
    let chars = to_chars(content);
    let from = char_index(&chars, start);
    let to = char_index(&chars, end);
    let len = content.unicode_len();
    let mut out = String::from_str(content.substring_char(0, from));
    let mut k: usize = 0;
    while k < tab_size
        invariant
            k <= tab_size,
            out@ == content@.subrange(0, from as int) + spaces(k as nat),
        decreases tab_size - k,
    {
        out.append(" ");
        proof {
            reveal_strlit(" ");
            assert(spaces(k as nat) + " "@ =~= spaces((k + 1) as nat));
        }
        k += 1;
    }
    out.append(content.substring_char(to, len));
    (out, start + tab_size)
}

} // verus!
