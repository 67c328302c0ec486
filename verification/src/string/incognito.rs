//! Texts with parameters in curly brackets.
//!
//! `{name}` stands for the argument of that name, or for `None` where there
//! is none. `{"text"}` stands for `text` as it is, which is the way to write
//! a curly bracket. Whitespace may stand inside the brackets, around the name
//! or the quoted text. A name is made of letters and digits of ASCII and of
//! `_ - . $`.

use vstd::prelude::*;
use vstd::hash_map::StringHashMap;
use crate::text::{append_chars, chars_of, slice_of, string_of};
use super::scan::{in_class, span, span_end, CharClass};

verus! {

/// What stands in a pair of curly brackets.
pub enum Placeholder {
    /// The name of a parameter.
    Parameter(Seq<char>),
    /// A text that stands for itself.
    Escaped(Seq<char>),
}

/// The placeholder that starts at `at`, and where it ends, if one starts
/// there.
pub open spec fn placeholder_at(text: Seq<char>, at: int) -> Option<(Placeholder, int)> {
    if !(0 <= at < text.len() && text[at] == '{') {
        None
    } else {
        let inner = span_end(text, at + 1, CharClass::Whitespace);
        if inner < text.len() && in_class(text[inner], CharClass::Parameter) {
            let name_end = span_end(text, inner, CharClass::Parameter);
            let close = span_end(text, name_end, CharClass::Whitespace);
            if close < text.len() && text[close] == '}' {
                Some((Placeholder::Parameter(text.subrange(inner, name_end)), close + 1))
            } else {
                None
            }
        } else if inner < text.len() && text[inner] == '"' {
            let quote = span_end(text, inner + 1, CharClass::Unquoted);
            if quote < text.len() {
                let close = span_end(text, quote + 1, CharClass::Whitespace);
                if close < text.len() && text[close] == '}' {
                    Some((Placeholder::Escaped(text.subrange(inner + 1, quote)), close + 1))
                } else {
                    None
                }
            } else {
                None
            }
        } else {
            None
        }
    }
}

/// The text `None`, which stands for an argument that is missing.
pub open spec fn none_text() -> Seq<char> {
    seq!['N', 'o', 'n', 'e']
}

/// What `placeholder` is replaced by.
pub open spec fn replacement(placeholder: Placeholder, arguments: Map<Seq<char>, String>) -> Seq<
    char,
> {
    match placeholder {
        Placeholder::Parameter(name) => if arguments.contains_key(name) {
            arguments[name]@
        } else {
            none_text()
        },
        Placeholder::Escaped(escaped) => escaped,
    }
}

/// `text` from `at` on, with each placeholder replaced, from left to right.
pub open spec fn formatted_from(text: Seq<char>, at: int, arguments: Map<Seq<char>, String>) -> Seq<
    char,
>
    decreases text.len() - at,
{
    if at < 0 || at >= text.len() {
        Seq::<char>::empty()
    } else {
        match placeholder_at(text, at) {
            Some((placeholder, end)) => if at < end <= text.len() {
                replacement(placeholder, arguments) + formatted_from(text, end, arguments)
            } else {
                Seq::<char>::empty()
            },
            None => seq![text[at]] + formatted_from(text, at + 1, arguments),
        }
    }
}

/// `text` with each placeholder replaced.
pub open spec fn incognito_format_spec(text: Seq<char>, arguments: Map<Seq<char>, String>) -> Seq<
    char,
> {
    formatted_from(text, 0, arguments)
}

/// What stands in a pair of curly brackets, as a value.
enum Found {
    Parameter(Vec<char>),
    Escaped(Vec<char>),
}

impl Found {
    spec fn placeholder(self) -> Placeholder {
        match self {
            Found::Parameter(name) => Placeholder::Parameter(name@),
            Found::Escaped(escaped) => Placeholder::Escaped(escaped@),
        }
    }
}

/// The placeholder that starts at `at`, and where it ends.
fn find_placeholder(text: &Vec<char>, at: usize) -> (r: Option<(Found, usize)>)
    requires
        at < text.len(),
    ensures
        match r {
            Some((found, end)) => placeholder_at(text@, at as int) == Some(
                (found.placeholder(), end as int),
            ) && at < end <= text.len(),
            None => placeholder_at(text@, at as int) is None,
        },
{
    if text[at] != '{' {
        return None;
    }
    let inner = span(text, at + 1, CharClass::Whitespace);
    if inner < text.len() && super::scan::belongs(text[inner], CharClass::Parameter) {
        let name_end = span(text, inner, CharClass::Parameter);
        let close = span(text, name_end, CharClass::Whitespace);
        if close < text.len() && text[close] == '}' {
            Some((Found::Parameter(slice_of(text, inner, name_end)), close + 1))
        } else {
            None
        }
    } else if inner < text.len() && text[inner] == '"' {
        let quote = span(text, inner + 1, CharClass::Unquoted);
        if quote < text.len() {
            let close = span(text, quote + 1, CharClass::Whitespace);
            if close < text.len() && text[close] == '}' {
                Some((Found::Escaped(slice_of(text, inner + 1, quote)), close + 1))
            } else {
                None
            }
        } else {
            None
        }
    } else {
        None
    }
}

/// Replaces each placeholder of `text`.
pub(crate) fn format_chars(text: &Vec<char>, arguments: &StringHashMap<String>) -> (r: Vec<char>)
    ensures
        r@ == incognito_format_spec(text@, arguments@),
{
    let mut r: Vec<char> = Vec::new();
    let mut i: usize = 0;
    while i < text.len()
        invariant
            0 <= i <= text.len(),
            incognito_format_spec(text@, arguments@) == r@ + formatted_from(
                text@,
                i as int,
                arguments@,
            ),
        decreases text.len() - i,
    {
        let ghost before = r@;
        match find_placeholder(text, i) {
            Some((found, end)) => {
                match found {
                    Found::Escaped(escaped) => {
                        append_chars(&mut r, &escaped);
                    },
                    Found::Parameter(name) => {
                        let key = string_of(&name);
                        match arguments.get(key.as_str()) {
                            Some(value) => {
                                let chars = chars_of(value.as_str());
                                append_chars(&mut r, &chars);
                            },
                            None => {
                                r.push('N');
                                r.push('o');
                                r.push('n');
                                r.push('e');
                                assert(r@ == before + none_text());
                            },
                        }
                    },
                }
                assert(r@ + formatted_from(text@, end as int, arguments@) =~= before
                    + formatted_from(text@, i as int, arguments@));
                i = end;
            },
            None => {
                r.push(text[i]);
                assert(r@ + formatted_from(text@, i + 1, arguments@) =~= before + formatted_from(
                    text@,
                    i as int,
                    arguments@,
                ));
                i += 1;
            },
        }
    }
    assert(r@ + formatted_from(text@, i as int, arguments@) =~= r@);
    r
}

/// Texts whose parameters, in curly brackets, are replaced by arguments that
/// are named at run time.
pub trait StringIncognitoFormat {
    /// The text that is formatted.
    spec fn template(&self) -> Seq<char>;

    /// The text with `{name}` replaced by the argument of that name, or by
    /// `None` where there is none, and `{"text"}` replaced by `text`.
    fn incognito_format(&self, arguments: &StringHashMap<String>) -> (r: String)
        ensures
            r@ == incognito_format_spec(self.template(), arguments@),
    ;
}

impl StringIncognitoFormat for &str {
    open spec fn template(&self) -> Seq<char> {
        self@
    }

    fn incognito_format(&self, arguments: &StringHashMap<String>) -> (r: String) {
        string_of(&format_chars(&chars_of(self), arguments))
    }
}

} // verus!
