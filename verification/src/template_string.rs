//! Texts with parameters that start with a dollar sign.
//!
//! `$name` and `$<name>` stand for the argument of that name, or for `None`
//! where there is none; `$$` stands for one dollar sign. After a bare `$` a
//! name is made of letters and digits of ASCII; between `<` and `>` it may
//! hold `-` and `_` too.

use vstd::prelude::*;
use vstd::hash_map::StringHashMap;
use crate::string::scan::{in_class, lemma_span_bounds, span, span_end, CharClass};
use crate::text::{append_chars, chars_of, slice_of, string_of};

verus! {

/// What a dollar sign starts.
pub enum Marker {
    /// `$$`, which stands for a dollar sign.
    Dollar,
    /// The name of a parameter.
    Parameter(Seq<char>),
}

/// The marker that starts at `at`, and where it ends, if one starts there.
pub open spec fn marker_at(text: Seq<char>, at: int) -> Option<(Marker, int)> {
    if !(0 <= at && at + 1 < text.len() && text[at] == '$') {
        None
    } else if text[at + 1] == '$' {
        Some((Marker::Dollar, at + 2))
    } else if in_class(text[at + 1], CharClass::AlphaNumeric) {
        let end = span_end(text, at + 1, CharClass::AlphaNumeric);
        Some((Marker::Parameter(text.subrange(at + 1, end)), end))
    } else if text[at + 1] == '<' {
        let end = span_end(text, at + 2, CharClass::Name);
        if at + 2 < end < text.len() && text[end] == '>' {
            Some((Marker::Parameter(text.subrange(at + 2, end)), end + 1))
        } else {
            None
        }
    } else {
        None
    }
}

/// The text `None`, which stands for an argument that is missing.
pub open spec fn none_text() -> Seq<char> {
    seq!['N', 'o', 'n', 'e']
}

/// What `marker` is replaced by.
pub open spec fn replacement(marker: Marker, arguments: Map<Seq<char>, String>) -> Seq<char> {
    match marker {
        Marker::Dollar => seq!['$'],
        Marker::Parameter(name) => if arguments.contains_key(name) {
            arguments[name]@
        } else {
            none_text()
        },
    }
}

/// `text` from `at` on, with each marker replaced, from left to right.
pub open spec fn applied_from(text: Seq<char>, at: int, arguments: Map<Seq<char>, String>) -> Seq<
    char,
>
    decreases text.len() - at,
{
    if at < 0 || at >= text.len() {
        Seq::<char>::empty()
    } else {
        match marker_at(text, at) {
            Some((marker, end)) => if at < end <= text.len() {
                replacement(marker, arguments) + applied_from(text, end, arguments)
            } else {
                Seq::<char>::empty()
            },
            None => seq![text[at]] + applied_from(text, at + 1, arguments),
        }
    }
}

/// `text` with each marker replaced.
pub open spec fn apply_spec(text: Seq<char>, arguments: Map<Seq<char>, String>) -> Seq<char> {
    applied_from(text, 0, arguments)
}

/// What a dollar sign starts, as a value.
enum Found {
    Dollar,
    Parameter(Vec<char>),
}

impl Found {
    spec fn marker(self) -> Marker {
        match self {
            Found::Dollar => Marker::Dollar,
            Found::Parameter(name) => Marker::Parameter(name@),
        }
    }
}

/// The marker that starts at `at`, and where it ends.
fn find_marker(text: &Vec<char>, at: usize) -> (r: Option<(Found, usize)>)
    requires
        at < text.len(),
    ensures
        match r {
            Some((found, end)) => marker_at(text@, at as int) == Some((found.marker(), end as int))
                && at < end <= text.len(),
            None => marker_at(text@, at as int) is None,
        },
{
    if text.len() - at < 2 || text[at] != '$' {
        return None;
    }
    let next = text[at + 1];
    if next == '$' {
        Some((Found::Dollar, at + 2))
    } else if crate::string::scan::belongs(next, CharClass::AlphaNumeric) {
        let end = span(text, at + 1, CharClass::AlphaNumeric);
        proof {
            lemma_span_bounds(text@, at + 2, CharClass::AlphaNumeric);
        }
        Some((Found::Parameter(slice_of(text, at + 1, end)), end))
    } else if next == '<' {
        let end = span(text, at + 2, CharClass::Name);
        if at + 2 < end && end < text.len() && text[end] == '>' {
            Some((Found::Parameter(slice_of(text, at + 2, end)), end + 1))
        } else {
            None
        }
    } else {
        None
    }
}

/// Applies arguments to a text with parameters: `$name` and `$<name>` are
/// replaced by the argument of that name, or by `None` where there is none,
/// and `$$` by one dollar sign.
pub fn apply(parameterized: &str, arguments: &StringHashMap<String>) -> (r: String)
    ensures
        r@ == apply_spec(parameterized@, arguments@),
{
    let text = chars_of(parameterized);
    let mut r: Vec<char> = Vec::new();
    let mut i: usize = 0;
    while i < text.len()
        invariant
            0 <= i <= text.len(),
            text@ == parameterized@,
            apply_spec(text@, arguments@) == r@ + applied_from(text@, i as int, arguments@),
        decreases text.len() - i,
    {
        let ghost before = r@;
        match find_marker(&text, i) {
            Some((found, end)) => {
                match found {
                    Found::Dollar => {
                        r.push('$');
                    },
                    Found::Parameter(name) => {
                        let key = string_of(&name);
                        match arguments.get(key.as_str()) {
                            Some(value) => {
                                let chars = chars_of(value.as_str());
                                append_chars(&mut r, &chars);
                            },
                            None => {
                                r.push('N');
                                r.push('o');
                                r.push('n');
                                r.push('e');
                                assert(r@ == before + none_text());
                            },
                        }
                    },
                }
                assert(r@ + applied_from(text@, end as int, arguments@) =~= before + applied_from(
                    text@,
                    i as int,
                    arguments@,
                ));
                i = end;
            },
            None => {
                r.push(text[i]);
                assert(r@ + applied_from(text@, i + 1, arguments@) =~= before + applied_from(
                    text@,
                    i as int,
                    arguments@,
                ));
                i += 1;
            },
        }
    }
    assert(r@ + applied_from(text@, i as int, arguments@) =~= r@);
    string_of(&r)
}

} // verus!
