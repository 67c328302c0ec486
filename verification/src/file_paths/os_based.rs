//! File paths in the manner of a given operating system.
//!
//! In the manner of Windows a path may start with a drive prefix, a letter
//! and a colon, or with the UNC prefix `\\`. Such a path is absolute, and the
//! prefix of the last path that has one is the prefix of the result.

use vstd::prelude::*;
use crate::text::{append_chars, chars_of, slice_of, string_of};
use super::model::{is_absolute, resolve_one_spec, resolve_spec, resolved_body, root_mark};
use super::{resolve_chars, texts};

verus! {

/// The manner in which a path is handled.
#[derive(Clone, Copy, PartialEq, Eq, Structural, Debug)]
pub enum OsPathManipulation {
    /// The generic manner of the parent module.
    Default,
    /// The manner of Windows, which knows drive and UNC prefixes.
    Windows,
}

/// The letters `A` to `Z` and `a` to `z`.
pub open spec fn is_letter(c: char) -> bool {
    ('A' <= c && c <= 'Z') || ('a' <= c && c <= 'z')
}

/// Whether `path` starts with the UNC prefix `\\`.
pub open spec fn has_unc_prefix(path: Seq<char>) -> bool {
    path.len() >= 2 && path[0] == '\\' && path[1] == '\\'
}

/// Whether `path` starts with a drive prefix: a letter and a colon.
pub open spec fn has_drive_prefix(path: Seq<char>) -> bool {
    path.len() >= 2 && is_letter(path[0]) && path[1] == ':'
}

/// Whether `path` starts with a prefix of Windows. Each prefix is two
/// characters long.
pub open spec fn has_prefix(path: Seq<char>) -> bool {
    has_unc_prefix(path) || has_drive_prefix(path)
}

/// `path` with `/` in place of its prefix, if it has one.
pub open spec fn without_prefix(path: Seq<char>) -> Seq<char> {
    if has_prefix(path) {
        seq!['/'] + path.skip(2)
    } else {
        path
    }
}

/// `path2` resolved relative to `path1` in the manner of Windows.
pub open spec fn resolve_windows_spec(path1: Seq<char>, path2: Seq<char>) -> Seq<char> {
    if !has_prefix(path1) && !has_prefix(path2) {
        resolve_spec(path1, path2)
    } else {
        let leading = if has_prefix(path2) {
            path2
        } else {
            path1
        };
        let resolved = resolve_spec(without_prefix(path1), without_prefix(path2));
        if has_unc_prefix(leading) {
            leading.take(2) + resolved.skip(1)
        } else {
            leading.take(2) + resolved
        }
    }
}

/// `path2` resolved relative to `path1` in the given manner.
pub open spec fn os_resolve_spec(
    path1: Seq<char>,
    path2: Seq<char>,
    manipulation: OsPathManipulation,
) -> Seq<char> {
    match manipulation {
        OsPathManipulation::Default => resolve_spec(path1, path2),
        OsPathManipulation::Windows => resolve_windows_spec(path1, path2),
    }
}

/// `paths` resolved from left to right in the given manner.
pub open spec fn os_resolve_n_spec(paths: Seq<Seq<char>>, manipulation: OsPathManipulation) -> Seq<
    char,
>
    decreases paths.len(),
{
    if paths.len() == 0 {
        Seq::<char>::empty()
    } else if paths.len() == 1 {
        os_resolve_spec(paths[0], Seq::<char>::empty(), manipulation)
    } else if paths.len() == 2 {
        os_resolve_spec(paths[0], paths[1], manipulation)
    } else {
        os_resolve_spec(
            os_resolve_n_spec(paths.drop_last(), manipulation),
            paths.last(),
            manipulation,
        )
    }
}

/// A path resolved relative to an absolute one, or an absolute path resolved
/// relative to any, starts with `/`.
pub proof fn lemma_resolved_absolute(path1: Seq<char>, path2: Seq<char>)
    requires
        is_absolute(path1) || is_absolute(path2),
    ensures
        resolve_spec(path1, path2).len() >= 1,
        resolve_spec(path1, path2)[0] == '/',
{
    if is_absolute(path2) {
        assert(resolve_one_spec(path2)[0] == '/');
    } else if path2.len() == 0 {
        assert((root_mark(true) + resolved_body(path1))[0] == '/');
    } else {
        assert((root_mark(true) + resolved_body(resolved_body(path1) + seq!['/'] + path2))[0] == '/');
    }
}

/// True iff `c` is a letter from `A` to `Z` or from `a` to `z`.
fn letter(c: char) -> (r: bool)
    ensures
        r == is_letter(c),
{
    ('A' <= c && c <= 'Z') || ('a' <= c && c <= 'z')
}

/// True iff `path` starts with the UNC prefix.
fn unc_prefixed(path: &Vec<char>) -> (r: bool)
    ensures
        r == has_unc_prefix(path@),
{
    path.len() >= 2 && path[0] == '\\' && path[1] == '\\'
}

/// True iff `path` starts with a prefix of Windows.
fn prefixed(path: &Vec<char>) -> (r: bool)
    ensures
        r == has_prefix(path@),
{
    unc_prefixed(path) || (path.len() >= 2 && letter(path[0]) && path[1] == ':')
}

/// `path` with `/` in place of its prefix, if it has one.
fn strip_prefix(path: &Vec<char>) -> (r: Vec<char>)
    ensures
        r@ == without_prefix(path@),
{
    if prefixed(path) {
        let mut r: Vec<char> = Vec::new();
        r.push('/');
        let rest = slice_of(path, 2, path.len());
        assert(rest@ == path@.skip(2));
        append_chars(&mut r, &rest);
        r
    } else {
        let r = slice_of(path, 0, path.len());
        assert(r@ == path@);
        r
    }
}

/// `second` resolved relative to `first` in the given manner, as characters.
fn os_resolve_chars(first: &Vec<char>, second: &Vec<char>, manipulation: OsPathManipulation) -> (r:
    Vec<char>)
    ensures
        r@ == os_resolve_spec(first@, second@, manipulation),
{
    match manipulation {
        OsPathManipulation::Default => resolve_chars(first, second),
        OsPathManipulation::Windows => {
            let first_prefixed = prefixed(first);
            let second_prefixed = prefixed(second);
            if !first_prefixed && !second_prefixed {
                return resolve_chars(first, second);
            }
            let leading = if second_prefixed {
                second
            } else {
                first
            };
            let bare_first = strip_prefix(first);
            let bare_second = strip_prefix(second);
            let resolved = resolve_chars(&bare_first, &bare_second);
            proof {
                lemma_resolved_absolute(bare_first@, bare_second@);
            }
            let mut r = slice_of(leading, 0, 2);
            assert(r@ == leading@.take(2));
            if unc_prefixed(leading) {
                let rest = slice_of(&resolved, 1, resolved.len());
                assert(rest@ == resolved@.skip(1));
                append_chars(&mut r, &rest);
            } else {
                append_chars(&mut r, &resolved);
            }
            r
        },
    }
}

/// Resolves `path2` relative to `path1`. In the manner of Windows a path
/// with a drive or UNC prefix is absolute, and the result carries the prefix
/// of the last path that has one; without any prefix, and in the default
/// manner, this is the generic resolution.
pub fn resolve(path1: &str, path2: &str, manipulation: OsPathManipulation) -> (r: String)
    ensures
        r@ == os_resolve_spec(path1@, path2@, manipulation),
{
    let first = chars_of(path1);
    let second = chars_of(path2);
    string_of(&os_resolve_chars(&first, &second, manipulation))
}

/// Resolves several paths from left to right in the given manner. No path
/// gives the empty string.
pub fn resolve_n(paths: &[&str], manipulation: OsPathManipulation) -> (r: String)
    ensures
        r@ == os_resolve_n_spec(texts(paths@), manipulation),
{
    if paths.len() == 0 {
        return String::new();
    }
    let first = chars_of(paths[0]);
    assert(texts(paths@)[0] == paths@[0]@);
    if paths.len() == 1 {
        let nothing: Vec<char> = Vec::new();
        assert(nothing@ == Seq::<char>::empty());
        return string_of(&os_resolve_chars(&first, &nothing, manipulation));
    }
    let second = chars_of(paths[1]);
    let mut resolved = os_resolve_chars(&first, &second, manipulation);
    let mut i: usize = 2;
    proof {
        assert(texts(paths@).take(2)[0] == paths@[0]@);
        assert(texts(paths@).take(2)[1] == paths@[1]@);
    }
    while i < paths.len()
        invariant
            2 <= i <= paths.len(),
            resolved@ == os_resolve_n_spec(texts(paths@).take(i as int), manipulation),
        decreases paths.len() - i,
    {
        let next = chars_of(paths[i]);
        proof {
            assert(texts(paths@).take(i + 1).drop_last() == texts(paths@).take(i as int));
            assert(texts(paths@).take(i + 1).last() == paths@[i as int]@);
        }
        resolved = os_resolve_chars(&resolved, &next, manipulation);
        i += 1;
    }
    assert(texts(paths@).take(paths.len() as int) == texts(paths@));
    string_of(&resolved)
}

/// Resolves a single path in the given manner.
pub fn resolve_one(path: &str, manipulation: OsPathManipulation) -> (r: String)
    ensures
        r@ == os_resolve_spec(path@, Seq::<char>::empty(), manipulation),
{
    let chars = chars_of(path);
    let nothing: Vec<char> = Vec::new();
    assert(nothing@ == Seq::<char>::empty());
    string_of(&os_resolve_chars(&chars, &nothing, manipulation))
}

} // verus!
