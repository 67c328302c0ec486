//! Filename extensions and base names.

use vstd::prelude::*;
use crate::text::{append_chars, chars_of, ends_with, has_suffix, same_chars, slice_of, string_of};
use super::model::{pieces, resolve_one_spec};
use super::portions::{split, views};
use super::{resolve_one_chars, texts};

verus! {

/// `extension` with a dot before it, unless it starts with one.
pub open spec fn dotted(extension: Seq<char>) -> Seq<char> {
    if extension.len() > 0 && extension[0] == '.' {
        extension
    } else {
        seq!['.'] + extension
    }
}

/// At `at` stands a dot that starts no extension: the path ends with it, or
/// another dot follows.
pub open spec fn is_bare_dot(path: Seq<char>, at: int) -> bool {
    path[at] == '.' && !(at + 1 < path.len() && path[at + 1] != '.')
}

/// From `start` to its end `path` is a chain of extensions: one or more
/// times a dot and at least one character that is no dot.
pub open spec fn chain_from(path: Seq<char>, start: int) -> bool {
    &&& 0 <= start < path.len()
    &&& path[start] == '.'
    &&& forall|i: int| start <= i < path.len() ==> !#[trigger] is_bare_dot(path, i)
}

/// `start` is where the longest chain of extensions at the end of `path`
/// starts.
pub open spec fn is_chain_start(path: Seq<char>, start: int) -> bool {
    &&& chain_from(path, start)
    &&& forall|other: int| chain_from(path, other) ==> start <= other
}

/// Where the longest chain of extensions at the end of `path` starts, if
/// `path` ends with one.
pub open spec fn chain_start(path: Seq<char>) -> Option<int> {
    if exists|start: int| is_chain_start(path, start) {
        Some(choose|start: int| is_chain_start(path, start))
    } else {
        None
    }
}

/// There is one longest chain at most.
pub proof fn lemma_chain_start(path: Seq<char>, start: int)
    requires
        is_chain_start(path, start),
    ensures
        chain_start(path) == Some(start),
{
    let chosen = choose|s: int| is_chain_start(path, s);
    assert(is_chain_start(path, chosen));
    assert(chosen <= start && start <= chosen);
}

/// Without a chain there is no start of one.
pub proof fn lemma_no_chain(path: Seq<char>)
    requires
        forall|start: int| !chain_from(path, start),
    ensures
        chain_start(path) is None,
{
}

/// The characters that a tail may start with.
#[derive(Clone, Copy, PartialEq, Eq, Structural, Debug)]
pub enum Lead {
    /// A dot.
    Dot,
    /// `/` or `\`.
    Separator,
    /// A dot or `\`.
    DotOrBackslash,
}

/// Whether `c` is one of the characters of `lead`.
pub open spec fn leads(c: char, lead: Lead) -> bool {
    match lead {
        Lead::Dot => c == '.',
        Lead::Separator => c == '/' || c == '\\',
        Lead::DotOrBackslash => c == '.' || c == '\\',
    }
}

/// From `start` to its end `path` is a character of `lead` and at least one
/// more character, none of these a line feed.
pub open spec fn tail_from(path: Seq<char>, start: int, lead: Lead) -> bool {
    &&& 0 <= start
    &&& start + 1 < path.len()
    &&& leads(path[start], lead)
    &&& forall|i: int| start < i < path.len() ==> path[i] != '\n'
}

/// `start` is the first place from which `path` is such a tail.
pub open spec fn is_tail_start(path: Seq<char>, start: int, lead: Lead) -> bool {
    &&& tail_from(path, start, lead)
    &&& forall|other: int| tail_from(path, other, lead) ==> start <= other
}

/// The first place from which `path` is such a tail, if there is one.
pub open spec fn tail_start(path: Seq<char>, lead: Lead) -> Option<int> {
    if exists|start: int| is_tail_start(path, start, lead) {
        Some(choose|start: int| is_tail_start(path, start, lead))
    } else {
        None
    }
}

/// There is one first place at most.
pub proof fn lemma_tail_start(path: Seq<char>, start: int, lead: Lead)
    requires
        is_tail_start(path, start, lead),
    ensures
        tail_start(path, lead) == Some(start),
{
    let chosen = choose|s: int| is_tail_start(path, s, lead);
    assert(is_tail_start(path, chosen, lead));
    assert(chosen <= start && start <= chosen);
}

/// `path` with the chain of extensions at its end replaced by `extension`,
/// or with `extension` added where it ends with none.
pub open spec fn change_extension_spec(path: Seq<char>, extension: Seq<char>) -> Seq<char> {
    match chain_start(path) {
        Some(start) => path.take(start) + dotted(extension),
        None => path + dotted(extension),
    }
}

/// `path` with everything from its first dot that has a line after it
/// replaced by `extension`, or with `extension` added where there is no such
/// dot.
pub open spec fn change_last_extension_spec(path: Seq<char>, extension: Seq<char>) -> Seq<char> {
    match tail_start(path, Lead::Dot) {
        Some(start) => path.take(start) + dotted(extension),
        None => path + dotted(extension),
    }
}

/// `extension` is one extension: apart from the dot at its start it holds no
/// dot.
pub open spec fn is_single(extension: Seq<char>) -> bool {
    forall|i: int| 1 <= i < dotted(extension).len() ==> dotted(extension)[i] != '.'
}

/// Whether `path` ends with `extension`, the dot included.
pub open spec fn has_extension_spec(path: Seq<char>, extension: Seq<char>) -> bool {
    ends_with(path, dotted(extension))
}

/// Whether `path` ends with one of `extensions`.
pub open spec fn has_extensions_spec(path: Seq<char>, extensions: Seq<Seq<char>>) -> bool {
    exists|i: int| 0 <= i < extensions.len() && has_extension_spec(path, #[trigger] extensions[i])
}

/// The last portion of `path` once it is resolved.
pub open spec fn base_name_spec(path: Seq<char>) -> Seq<char> {
    pieces(resolve_one_spec(path), false).last()
}

/// Where the last dot of `name` stands.
pub open spec fn is_last_dot(name: Seq<char>, at: int) -> bool {
    &&& 0 <= at < name.len()
    &&& name[at] == '.'
    &&& forall|i: int| at < i < name.len() ==> name[i] != '.'
}

/// Whether `extension`, with its dot, is one of `extensions`.
pub open spec fn listed(extension: Seq<char>, extensions: Seq<Seq<char>>) -> bool {
    exists|i: int| 0 <= i < extensions.len() && dotted(#[trigger] extensions[i]) == extension
}

/// `name` without the chain of extensions at its end where the last of them
/// is one of `extensions`; else with that chain replaced by the last of
/// them. A name that ends with no chain stays as it is.
pub open spec fn without_extensions(name: Seq<char>, extensions: Seq<Seq<char>>) -> Seq<char> {
    match chain_start(name) {
        Some(start) => {
            let at = choose|at: int| is_last_dot(name, at);
            let last = name.skip(at);
            if listed(last, extensions) {
                name.take(start)
            } else {
                name.take(start) + last
            }
        },
        None => name,
    }
}

/// The base name of `path` with its extensions handled as
/// `without_extensions` says.
pub open spec fn base_name_without_ext_spec(path: Seq<char>, extensions: Seq<Seq<char>>) -> Seq<
    char,
> {
    without_extensions(base_name_spec(path), extensions)
}

/// `extension` with a dot before it, unless it starts with one.
pub(crate) fn dotted_chars(extension: &Vec<char>) -> (r: Vec<char>)
    ensures
        r@ == dotted(extension@),
{
    let mut r: Vec<char> = Vec::new();
    if !(extension.len() > 0 && extension[0] == '.') {
        r.push('.');
    }
    append_chars(&mut r, extension);
    r
}

/// Adds the dot to `extension` where it lacks one.
pub fn extension_arg(extension: &str) -> (r: String)
    ensures
        r@ == dotted(extension@),
{
    string_of(&dotted_chars(&chars_of(extension)))
}

/// Where the longest chain of extensions at the end of `path` starts.
pub(crate) fn find_chain(path: &Vec<char>) -> (r: Option<usize>)
    ensures
        match r {
            Some(start) => chain_start(path@) == Some(start as int) && is_chain_start(
                path@,
                start as int,
            ),
            None => chain_start(path@) is None,
        },
{
    let mut found: Option<usize> = None;
    let mut i: usize = path.len();
    let mut stopped = false;
    while i > 0 && !stopped
        invariant
            0 <= i <= path.len(),
            !stopped ==> forall|j: int| i <= j < path.len() ==> !#[trigger] is_bare_dot(path@, j),
            stopped ==> i < path.len() && is_bare_dot(path@, i as int),
            stopped ==> forall|j: int| i < j < path.len() ==> !#[trigger] is_bare_dot(path@, j),
            match found {
                Some(start) => (if stopped {
                    i < start
                } else {
                    i <= start
                }) && start < path.len() && path@[start as int] == '.' && forall|j: int|
                    (if stopped {
                        i < j
                    } else {
                        i <= j
                    }) && j < start ==> path@[j] != '.',
                None => forall|j: int|
                    (if stopped {
                        i < j
                    } else {
                        i <= j
                    }) && j < path.len() ==> path@[j] != '.',
            },
        decreases i + (if stopped { 0int } else { 1int }),
    {
        let at: usize = i - 1;
        if path[at] == '.' {
            if at + 1 == path.len() || path[at + 1] == '.' {
                stopped = true;
                i = at;
            } else {
                found = Some(at);
                i = at;
            }
        } else {
            i = at;
        }
    }
    proof {
        match found {
            Some(start) => {
                assert(chain_from(path@, start as int));
                assert forall|other: int| chain_from(path@, other) implies start <= other by {
                    if other < start {
                        if stopped {
                            if other <= i {
                                assert(is_bare_dot(path@, i as int));
                            }
                        }
                    }
                }
                lemma_chain_start(path@, start as int);
            },
            None => {
                assert forall|start: int| !chain_from(path@, start) by {
                    if chain_from(path@, start) {
                        if stopped && start <= i {
                            assert(is_bare_dot(path@, i as int));
                        }
                    }
                }
                lemma_no_chain(path@);
            },
        }
    }
    found
}

/// Changes the extension of a path. A dot is put before `extension` where it
/// lacks one. The whole chain of extensions at the end of `path` is replaced,
/// so `a.x.y` with `.z` gives `a.z`.
pub fn change_extension(path: &str, extension: &str) -> (r: String)
    ensures
        r@ == change_extension_spec(path@, extension@),
{
    let chars = chars_of(path);
    let extension = dotted_chars(&chars_of(extension));
    let mut r = match find_chain(&chars) {
        Some(start) => slice_of(&chars, 0, start),
        None => chars,
    };
    append_chars(&mut r, &extension);
    string_of(&r)
}

/// True iff `c` is one of the characters of `lead`.
fn leading(c: char, lead: Lead) -> (r: bool)
    ensures
        r == leads(c, lead),
{
    match lead {
        Lead::Dot => c == '.',
        Lead::Separator => c == '/' || c == '\\',
        Lead::DotOrBackslash => c == '.' || c == '\\',
    }
}

/// The first place from which `path` is a character of `lead` and more, up
/// to its end, without a line feed after that character.
pub(crate) fn find_tail(path: &Vec<char>, lead: Lead) -> (r: Option<usize>)
    ensures
        match r {
            Some(start) => tail_start(path@, lead) == Some(start as int) && start + 1
                < path.len(),
            None => tail_start(path@, lead) is None,
        },
{
    let mut found: Option<usize> = None;
    let mut i: usize = path.len();
    let mut stopped = false;
    while i > 0 && !stopped
        invariant
            0 <= i <= path.len(),
            !stopped ==> forall|j: int| i <= j < path.len() ==> path@[j] != '\n',
            stopped ==> i < path.len() && path@[i as int] == '\n' && forall|j: int|
                i < j < path.len() ==> path@[j] != '\n',
            match found {
                Some(start) => i <= start && start + 1 < path.len() && leads(
                    path@[start as int],
                    lead,
                ) && forall|j: int|
                    i <= j < start ==> !(leads(path@[j], lead) && j + 1 < path.len()),
                None => forall|j: int|
                    i <= j < path.len() ==> !(leads(path@[j], lead) && j + 1 < path.len()),
            },
        decreases i + (if stopped { 0int } else { 1int }),
    {
        let at: usize = i - 1;
        if path[at] == '\n' {
            stopped = true;
            i = at;
        } else {
            if leading(path[at], lead) && at + 1 < path.len() {
                found = Some(at);
            }
            i = at;
        }
    }
    proof {
        match found {
            Some(start) => {
                assert(tail_from(path@, start as int, lead));
                assert forall|other: int| tail_from(path@, other, lead) implies start
                    <= other by {
                    if other < start {
                        if other < i {
                            assert(stopped);
                            assert(path@[i as int] == '\n');
                        }
                    }
                }
                lemma_tail_start(path@, start as int, lead);
            },
            None => {
                assert forall|start: int| !is_tail_start(path@, start, lead) by {
                    if tail_from(path@, start, lead) {
                        if start < i {
                            assert(stopped);
                            assert(path@[i as int] == '\n');
                        }
                    }
                }
            },
        }
    }
    found
}

/// Changes the extension of a path, where `extension` is a single one. A dot
/// is put before `extension` where it lacks one. Everything from the first
/// dot of `path` is replaced, unless a line ends after it.
pub fn change_last_extension(path: &str, extension: &str) -> (r: String)
    requires
        is_single(extension@),
    ensures
        r@ == change_last_extension_spec(path@, extension@),
{
    let chars = chars_of(path);
    let extension = dotted_chars(&chars_of(extension));
    let mut r = match find_tail(&chars, Lead::Dot) {
        Some(start) => slice_of(&chars, 0, start),
        None => chars,
    };
    append_chars(&mut r, &extension);
    string_of(&r)
}

/// Whether `path` ends with `extension`. A dot is put before `extension`
/// where it lacks one.
pub fn has_extension(path: &str, extension: &str) -> (r: bool)
    ensures
        r == has_extension_spec(path@, extension@),
{
    let extension = dotted_chars(&chars_of(extension));
    has_suffix(&chars_of(path), &extension)
}

/// Whether `path` ends with one of `extensions`.
pub fn has_extensions(path: &str, extensions: &[&str]) -> (r: bool)
    ensures
        r == has_extensions_spec(path@, texts(extensions@)),
{
    let mut i: usize = 0;
    while i < extensions.len()
        invariant
            0 <= i <= extensions.len(),
            forall|j: int| 0 <= j < i ==> !has_extension_spec(path@, #[trigger] texts(extensions@)[j]),
        decreases extensions.len() - i,
    {
        assert(texts(extensions@)[i as int] == extensions@[i as int]@);
        if has_extension(path, extensions[i]) {
            return true;
        }
        i += 1;
    }
    false
}

/// The last portion of `path`, as characters.
pub(crate) fn base_name_chars(path: &Vec<char>) -> (r: Vec<char>)
    ensures
        r@ == base_name_spec(path@),
{
    let resolved = resolve_one_chars(path);
    let mut cut = split(&resolved, false);
    proof {
        lemma_pieces_some(resolved@, false);
        assert(views(cut@).last() == cut@.last()@);
    }
    match cut.pop() {
        Some(last) => last,
        None => Vec::new(),
    }
}

/// A path has at least one portion.
pub proof fn lemma_pieces_some(path: Seq<char>, both: bool)
    ensures
        pieces(path, both).len() >= 1,
    decreases path.len(),
{
    if path.len() > 0 {
        lemma_pieces_some(path.drop_last(), both);
    }
}

/// The base name of a path: its last portion once it is resolved.
pub fn base_name(path: &str) -> (r: String)
    ensures
        r@ == base_name_spec(path@),
{
    string_of(&base_name_chars(&chars_of(path)))
}

/// Whether `extension` is one of `extensions`, each taken with its dot.
fn is_listed(extension: &Vec<char>, extensions: &[&str]) -> (r: bool)
    ensures
        r == listed(extension@, texts(extensions@)),
{
    let mut i: usize = 0;
    while i < extensions.len()
        invariant
            0 <= i <= extensions.len(),
            forall|j: int| 0 <= j < i ==> dotted(#[trigger] texts(extensions@)[j]) != extension@,
        decreases extensions.len() - i,
    {
        assert(texts(extensions@)[i as int] == extensions@[i as int]@);
        let candidate = dotted_chars(&chars_of(extensions[i]));
        if same_chars(&candidate, extension) {
            return true;
        }
        i += 1;
    }
    false
}

/// The base name of a path without its extensions: the chain of extensions
/// at its end is dropped where the last of them is one of `extensions`, and
/// replaced by the last of them where it is not.
pub fn base_name_without_ext(path: &str, extensions: &[&str]) -> (r: String)
    ensures
        r@ == base_name_without_ext_spec(path@, texts(extensions@)),
{
    let name = base_name_chars(&chars_of(path));
    match find_chain(&name) {
        None => string_of(&name),
        Some(start) => {
            let mut at: usize = name.len() - 1;
            while name[at] != '.'
                invariant
                    start <= at < name.len(),
                    name@[start as int] == '.',
                    forall|i: int| at < i < name.len() ==> name@[i] != '.',
                decreases at,
            {
                at -= 1;
            }
            proof {
                assert(is_last_dot(name@, at as int));
                let chosen = choose|a: int| is_last_dot(name@, a);
                assert(is_last_dot(name@, chosen));
                assert(chosen == at) by {
                    if chosen < at {
                        assert(name@[at as int] != '.');
                    }
                    if at < chosen {
                        assert(name@[chosen] != '.');
                    }
                }
            }
            let last = slice_of(&name, at, name.len());
            let mut r = slice_of(&name, 0, start);
            if !is_listed(&last, extensions) {
                append_chars(&mut r, &last);
            }
            string_of(&r)
        },
    }
}

} // verus!
