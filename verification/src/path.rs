//! Paths of the file system interface: resolution that keeps a path rooted
//! iff its base starts with `/`.

use vstd::prelude::*;
use crate::file_paths::model::{
    is_absolute, join, pieces, resolved_body, root_mark, route, slash,
};
use crate::file_paths::portions::{join_portions, split};
use crate::file_paths::{absolute, resolve_body, rooted, route_between};
use crate::text::{append_chars, chars_of, string_of, trim, trimmed};

verus! {

/// Whether `path` starts with `/`.
pub open spec fn is_rooted(path: Seq<char>) -> bool {
    path.len() > 0 && path[0] == '/'
}

/// `path` resolved: `.`, `..` and empty portions are gone, the separators
/// are `/`, and none stands at the start.
pub open spec fn resolve_single_path_spec(path: Seq<char>) -> Seq<char> {
    resolved_body(path)
}

/// `path2` resolved relative to `path1`. The result starts with `/` iff
/// `path1` does; a `path2` that starts with a separator takes the place of
/// `path1`.
pub open spec fn resolve_spec(path1: Seq<char>, path2: Seq<char>) -> Seq<char> {
    root_mark(is_rooted(path1)) + (if is_absolute(path2) {
        resolved_body(path2)
    } else if path2.len() == 0 {
        resolved_body(path1)
    } else {
        resolved_body(resolved_body(path1) + slash() + path2)
    })
}

/// The relative path that leads from `from_path` to `to_path`, or `.` where
/// both resolve to the same path.
pub open spec fn relative_spec(from_path: Seq<char>, to_path: Seq<char>) -> Seq<char> {
    let steps = trim(
        join(
            route(
                pieces(resolved_body(from_path), true),
                pieces(resolved_body(to_path), true),
            ),
            slash(),
        ),
    );
    if steps.len() == 0 {
        seq!['.']
    } else {
        steps
    }
}

/// Resolves a single path, without a separator at the start of the result.
pub fn resolve_single_path(path: &str) -> (r: String)
    ensures
        r@ == resolve_single_path_spec(path@),
{
    string_of(&resolve_body(&chars_of(path)))
}

/// `path2` resolved relative to `path1`, as characters.
pub(crate) fn resolve_chars(first: &Vec<char>, second: &Vec<char>) -> (r: Vec<char>)
    ensures
        r@ == resolve_spec(first@, second@),
{
    let body = if absolute(second) {
        resolve_body(second)
    } else {
        let mut body = resolve_body(first);
        if second.len() > 0 {
            body.push('/');
            append_chars(&mut body, second);
            assert(body@ == resolved_body(first@) + slash() + second@);
            body = resolve_body(&body);
        }
        body
    };
    rooted(first.len() > 0 && first[0] == '/', &body)
}

/// Resolves `path2` relative to `path1`.
pub fn resolve(path1: &str, path2: &str) -> (r: String)
    ensures
        r@ == resolve_spec(path1@, path2@),
{
    string_of(&resolve_chars(&chars_of(path1), &chars_of(path2)))
}

/// The relative path from `from` to `to`, as characters.
pub(crate) fn relative_chars(from: &Vec<char>, to: &Vec<char>) -> (r: Vec<char>)
    ensures
        r@ == relative_spec(from@, to@),
{
    let from_parts = split(&resolve_body(from), true);
    let to_parts = split(&resolve_body(to), true);
    let steps = route_between(&from_parts, &to_parts);
    let cut = trimmed(&join_portions(&steps, '/'));
    if cut.len() == 0 {
        let mut r: Vec<char> = Vec::new();
        r.push('.');
        r
    } else {
        cut
    }
}

/// Finds the relative path that leads from `from_path` to `to_path`. Where
/// both resolve to the same path the result is a single dot.
pub fn relative(from_path: &str, to_path: &str) -> (r: String)
    ensures
        r@ == relative_spec(from_path@, to_path@),
{
    string_of(&relative_chars(&chars_of(from_path), &chars_of(to_path)))
}

} // verus!
