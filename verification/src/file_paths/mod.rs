//! Generic file paths.
//!
//! A path is absolute here iff it starts with a path separator, `/` or `\`.
//! Drive letters and UNC prefixes are the business of [`os_based`].

pub mod model;
pub mod portions;
pub mod laws;
pub mod way_back;
pub mod os_based;
pub mod extensions;

pub use extensions::{
    base_name, base_name_without_ext, change_extension, change_last_extension, extension_arg,
    has_extension, has_extensions,
};

use vstd::prelude::*;
use crate::text::{append_chars, chars_of, string_of, trimmed};
use model::{
    common_prefix_len, is_absolute, relative_spec, resolve_n_spec, resolve_one_spec, resolve_spec,
    resolved_body, root_mark, route, slash, ups,
};
use portions::{join_portions, resolve_portions, separates, split, views};

verus! {

/// The character sequences of `paths`.
pub open spec fn texts(paths: Seq<&str>) -> Seq<Seq<char>> {
    paths.map_values(|path: &str| path@)
}

/// True iff `path` starts with a separator.
pub(crate) fn absolute(path: &Vec<char>) -> (r: bool)
    ensures
        r == is_absolute(path@),
{
    path.len() > 0 && separates(path[0], true)
}

/// `path` resolved, without a separator at its start.
pub(crate) fn resolve_body(path: &Vec<char>) -> (r: Vec<char>)
    ensures
        r@ == resolved_body(path@),
{
    let cut = split(path, true);
    let kept = resolve_portions(&cut);
    join_portions(&kept, '/')
}

/// `body` with `/` before it where `absolute`.
pub(crate) fn rooted(absolute: bool, body: &Vec<char>) -> (r: Vec<char>)
    ensures
        r@ == root_mark(absolute) + body@,
{
    let mut r: Vec<char> = Vec::new();
    if absolute {
        r.push('/');
    }
    assert(r@ == root_mark(absolute));
    append_chars(&mut r, body);
    r
}

/// `path` resolved, as characters.
pub(crate) fn resolve_one_chars(path: &Vec<char>) -> (r: Vec<char>)
    ensures
        r@ == resolve_one_spec(path@),
{
    let body = resolve_body(path);
    rooted(absolute(path), &body)
}

/// `second` resolved relative to `first`, as characters.
pub(crate) fn resolve_chars(first: &Vec<char>, second: &Vec<char>) -> (r: Vec<char>)
    ensures
        r@ == resolve_spec(first@, second@),
{
    if absolute(second) {
        return resolve_one_chars(second);
    }
    let mut body = resolve_body(first);
    if second.len() > 0 {
        body.push('/');
        append_chars(&mut body, second);
        assert(body@ == resolved_body(first@) + slash() + second@);
        body = resolve_body(&body);
    }
    rooted(absolute(first), &body)
}

/// Resolves a single path without regard to how it starts: the result has
/// no separator at its start.
pub fn resolve_one_without_starting_sep(path: &str) -> (r: String)
    ensures
        r@ == resolved_body(path@),
{
    string_of(&resolve_body(&chars_of(path)))
}

/// Resolves a single path: the portions `.` and `..` are worked off, empty
/// portions and separators at the end are dropped, every separator becomes
/// `/`, and the result starts with `/` iff `path` starts with a separator.
pub fn resolve_one(path: &str) -> (r: String)
    ensures
        r@ == resolve_one_spec(path@),
{
    let chars = chars_of(path);
    let resolved = resolve_one_chars(&chars);
    string_of(&resolved)
}

/// Resolves `path2` relative to `path1`. Where `path2` starts with a
/// separator the result is `path2` resolved alone.
pub fn resolve(path1: &str, path2: &str) -> (r: String)
    ensures
        r@ == resolve_spec(path1@, path2@),
{
    let first = chars_of(path1);
    let second = chars_of(path2);
    let resolved = resolve_chars(&first, &second);
    string_of(&resolved)
}

/// Resolves several paths from left to right. No path gives the empty
/// string.
pub fn resolve_n(paths: &[&str]) -> (r: String)
    ensures
        r@ == resolve_n_spec(texts(paths@)),
{
    if paths.len() == 0 {
        return String::new();
    }
    if paths.len() == 1 {
        assert(texts(paths@)[0] == paths@[0]@);
        return resolve_one(paths[0]);
    }
    let first = chars_of(paths[0]);
    let second = chars_of(paths[1]);
    let mut resolved = resolve_chars(&first, &second);
    let mut i: usize = 2;
    proof {
        assert(texts(paths@).take(2)[0] == paths@[0]@);
        assert(texts(paths@).take(2)[1] == paths@[1]@);
    }
    while i < paths.len()
        invariant
            2 <= i <= paths.len(),
            resolved@ == resolve_n_spec(texts(paths@).take(i as int)),
        decreases paths.len() - i,
    {
        let next = chars_of(paths[i]);
        proof {
            assert(texts(paths@).take(i + 1).drop_last() == texts(paths@).take(i as int));
            assert(texts(paths@).take(i + 1).last() == paths@[i as int]@);
        }
        resolved = resolve_chars(&resolved, &next);
        i += 1;
    }
    assert(texts(paths@).take(paths.len() as int) == texts(paths@));
    string_of(&resolved)
}

/// How many portions `a` and `b` share at their start.
fn shared_portions(a: &Vec<Vec<char>>, b: &Vec<Vec<char>>) -> (r: usize)
    ensures
        r == common_prefix_len(views(a@), views(b@)),
        r <= a.len(),
        r <= b.len(),
{
    let mut i: usize = 0;
    assert(views(a@).skip(0) == views(a@));
    assert(views(b@).skip(0) == views(b@));
    while i < a.len() && i < b.len() && crate::text::same_chars(&a[i], &b[i])
        invariant
            0 <= i <= a.len(),
            i <= b.len(),
            common_prefix_len(views(a@), views(b@)) == i + common_prefix_len(
                views(a@).skip(i as int),
                views(b@).skip(i as int),
            ),
        decreases a.len() - i,
    {
        proof {
            assert(views(a@).skip(i as int)[0] == a@[i as int]@);
            assert(views(b@).skip(i as int)[0] == b@[i as int]@);
            assert(views(a@).skip(i as int).drop_first() == views(a@).skip(i + 1));
            assert(views(b@).skip(i as int).drop_first() == views(b@).skip(i + 1));
        }
        i += 1;
    }
    proof {
        if i < a.len() && i < b.len() {
            assert(views(a@).skip(i as int)[0] == a@[i as int]@);
            assert(views(b@).skip(i as int)[0] == b@[i as int]@);
        }
    }
    i
}

/// The steps that lead from the portions `from` to the portions `to`.
pub(crate) fn route_between(from: &Vec<Vec<char>>, to: &Vec<Vec<char>>) -> (r: Vec<Vec<char>>)
    ensures
        views(r@) == route(views(from@), views(to@)),
{
    let shared = shared_portions(from, to);
    let mut r: Vec<Vec<char>> = Vec::new();
    let mut i: usize = shared;
    while i < from.len()
        invariant
            shared <= i <= from.len(),
            views(r@) == ups((i - shared) as nat),
        decreases from.len() - i,
    {
        let mut up: Vec<char> = Vec::new();
        up.push('.');
        up.push('.');
        assert(up@ == model::dot_dot());
        let ghost before = views(r@);
        r.push(up);
        i += 1;
        assert(views(r@) =~= before.push(model::dot_dot()));
        assert(before.push(model::dot_dot()) =~= ups((i - shared) as nat));
    }
    let mut j: usize = shared;
    assert(views(to@).subrange(shared as int, shared as int) == Seq::<Seq<char>>::empty());
    while j < to.len()
        invariant
            shared <= j <= to.len(),
            views(r@) == ups((from.len() - shared) as nat) + views(to@).subrange(
                shared as int,
                j as int,
            ),
        decreases to.len() - j,
    {
        let copy = crate::text::slice_of(&to[j], 0, to[j].len());
        assert(copy@ == to@[j as int]@);
        let ghost before = views(r@);
        r.push(copy);
        j += 1;
        assert(views(r@) =~= before.push(to@[j - 1]@));
        assert(views(to@).subrange(shared as int, j as int) =~= views(to@).subrange(
            shared as int,
            j - 1,
        ).push(to@[j - 1]@));
        assert(views(r@) =~= ups((from.len() - shared) as nat) + views(to@).subrange(
            shared as int,
            j as int,
        ));
    }
    assert(views(to@).subrange(shared as int, to.len() as int) == views(to@).skip(shared as int));
    r
}

/// Finds the relative path that leads from `from_path` to `to_path`. Both
/// paths are resolved first. Where they resolve to the same path the result
/// is the empty string.
///
/// Both paths must be absolute.
pub fn relative(from_path: &str, to_path: &str) -> (r: String)
    requires
        is_absolute(from_path@),
        is_absolute(to_path@),
    ensures
        r@ == relative_spec(from_path@, to_path@),
{
    let from = resolve_one_chars(&chars_of(from_path));
    let to = resolve_one_chars(&chars_of(to_path));
    let from_parts = split(&from, true);
    let to_parts = split(&to, true);
    let steps = route_between(&from_parts, &to_parts);
    let joined = join_portions(&steps, '/');
    let cut = trimmed(&joined);
    string_of(&cut)
}

} // verus!
