//! Classes of characters and the stretches of a text that lie in one.

use vstd::prelude::*;
use crate::text::{is_whitespace, whitespace};

verus! {

/// A class of characters.
#[derive(Clone, Copy, PartialEq, Eq, Structural, Debug)]
pub enum CharClass {
    /// The characters with the Unicode property `White_Space`.
    Whitespace,
    /// Letters and digits of ASCII.
    AlphaNumeric,
    /// Letters and digits of ASCII, `-` and `_`.
    Name,
    /// Letters and digits of ASCII and `_ - . $`.
    Parameter,
    /// Every character but `"`.
    Unquoted,
}

/// Whether `c` is a letter or a digit of ASCII.
pub open spec fn is_alphanumeric(c: char) -> bool {
    ('A' <= c && c <= 'Z') || ('a' <= c && c <= 'z') || ('0' <= c && c <= '9')
}

/// Whether `c` lies in `class`.
pub open spec fn in_class(c: char, class: CharClass) -> bool {
    match class {
        CharClass::Whitespace => is_whitespace(c),
        CharClass::AlphaNumeric => is_alphanumeric(c),
        CharClass::Name => is_alphanumeric(c) || c == '-' || c == '_',
        CharClass::Parameter => is_alphanumeric(c) || c == '_' || c == '-' || c == '.' || c == '$',
        CharClass::Unquoted => c != '"',
    }
}

/// Where the stretch of characters of `class` that starts at `from` ends:
/// the first place at or after `from` where a character of another class
/// stands, or the end of `text`.
pub open spec fn span_end(text: Seq<char>, from: int, class: CharClass) -> int
    decreases text.len() - from,
{
    if 0 <= from < text.len() && in_class(text[from], class) {
        span_end(text, from + 1, class)
    } else {
        from
    }
}

/// A stretch ends at or after its start, and within the text if it starts
/// there.
pub proof fn lemma_span_bounds(text: Seq<char>, from: int, class: CharClass)
    requires
        0 <= from <= text.len(),
    ensures
        from <= span_end(text, from, class) <= text.len(),
    decreases text.len() - from,
{
    if from < text.len() && in_class(text[from], class) {
        lemma_span_bounds(text, from + 1, class);
    }
}

/// True iff `c` lies in `class`.
pub fn belongs(c: char, class: CharClass) -> (r: bool)
    ensures
        r == in_class(c, class),
{
    let alphanumeric = ('A' <= c && c <= 'Z') || ('a' <= c && c <= 'z') || ('0' <= c && c <= '9');
    match class {
        CharClass::Whitespace => whitespace(c),
        CharClass::AlphaNumeric => alphanumeric,
        CharClass::Name => alphanumeric || c == '-' || c == '_',
        CharClass::Parameter => alphanumeric || c == '_' || c == '-' || c == '.' || c == '$',
        CharClass::Unquoted => c != '"',
    }
}

/// Where the stretch of characters of `class` that starts at `from` ends.
pub fn span(text: &Vec<char>, from: usize, class: CharClass) -> (r: usize)
    requires
        from <= text.len(),
    ensures
        r == span_end(text@, from as int, class),
        from <= r <= text.len(),
{
    let mut i: usize = from;
    while i < text.len() && belongs(text[i], class)
        invariant
            from <= i <= text.len(),
            span_end(text@, from as int, class) == span_end(text@, i as int, class),
        decreases text.len() - i,
    {
        i += 1;
    }
    i
}

} // verus!
