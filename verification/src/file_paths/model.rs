//! What path resolution means, over sequences of characters.

use vstd::prelude::*;

verus! {

/// `/` separates the portions of a path, and `\` does where `both` is set.
pub open spec fn is_separator(c: char, both: bool) -> bool {
    c == '/' || (both && c == '\\')
}

/// The portions of `path` between its separators, empty ones included: a
/// path with `n` separators has `n + 1` portions.
pub open spec fn pieces(path: Seq<char>, both: bool) -> Seq<Seq<char>>
    decreases path.len(),
{
    if path.len() == 0 {
        seq![Seq::<char>::empty()]
    } else {
        let init = pieces(path.drop_last(), both);
        if is_separator(path.last(), both) {
            init.push(Seq::<char>::empty())
        } else {
            init.drop_last().push(init.last().push(path.last()))
        }
    }
}

/// The portion `.`.
pub open spec fn dot() -> Seq<char> {
    seq!['.']
}

/// The portion `..`.
pub open spec fn dot_dot() -> Seq<char> {
    seq!['.', '.']
}

/// What one more portion makes of the portions resolved so far: `.` and an
/// empty portion change nothing, `..` takes the last portion away if there is
/// one, anything else is added.
pub open spec fn step(resolved: Seq<Seq<char>>, piece: Seq<char>) -> Seq<Seq<char>> {
    if piece == dot() || piece.len() == 0 {
        resolved
    } else if piece == dot_dot() {
        if resolved.len() > 0 {
            resolved.drop_last()
        } else {
            resolved
        }
    } else {
        resolved.push(piece)
    }
}

/// The portions that are left when `pieces` are resolved from left to right.
pub open spec fn normalize(pieces: Seq<Seq<char>>) -> Seq<Seq<char>>
    decreases pieces.len(),
{
    if pieces.len() == 0 {
        Seq::<Seq<char>>::empty()
    } else {
        step(normalize(pieces.drop_last()), pieces.last())
    }
}

/// `parts` written one after the other with `separator` between them.
pub open spec fn join(parts: Seq<Seq<char>>, separator: Seq<char>) -> Seq<char>
    decreases parts.len(),
{
    if parts.len() == 0 {
        Seq::<char>::empty()
    } else if parts.len() == 1 {
        parts[0]
    } else {
        join(parts.drop_last(), separator) + separator + parts.last()
    }
}

/// The separator that resolved paths are written with.
pub open spec fn slash() -> Seq<char> {
    seq!['/']
}

/// Whether `path` starts with `/` or `\`.
pub open spec fn is_absolute(path: Seq<char>) -> bool {
    path.len() > 0 && is_separator(path[0], true)
}

/// `path` resolved, without a separator at its start.
pub open spec fn resolved_body(path: Seq<char>) -> Seq<char> {
    join(normalize(pieces(path, true)), slash())
}

/// `/` where `absolute`, else nothing.
pub open spec fn root_mark(absolute: bool) -> Seq<char> {
    if absolute {
        slash()
    } else {
        Seq::<char>::empty()
    }
}

/// `path` resolved: `.`, `..` and empty portions are gone, the separators are
/// `/`, and the path starts with `/` iff `path` is absolute.
pub open spec fn resolve_one_spec(path: Seq<char>) -> Seq<char> {
    root_mark(is_absolute(path)) + resolved_body(path)
}

/// `second` resolved relative to `first`. An absolute `second` stands alone.
pub open spec fn resolve_spec(first: Seq<char>, second: Seq<char>) -> Seq<char> {
    if is_absolute(second) {
        resolve_one_spec(second)
    } else if second.len() == 0 {
        root_mark(is_absolute(first)) + resolved_body(first)
    } else {
        root_mark(is_absolute(first)) + resolved_body(resolved_body(first) + slash() + second)
    }
}

/// `paths` resolved from left to right, each relative to what came before.
pub open spec fn resolve_n_spec(paths: Seq<Seq<char>>) -> Seq<char>
    decreases paths.len(),
{
    if paths.len() == 0 {
        Seq::<char>::empty()
    } else if paths.len() == 1 {
        resolve_one_spec(paths[0])
    } else if paths.len() == 2 {
        resolve_spec(paths[0], paths[1])
    } else {
        resolve_spec(resolve_n_spec(paths.drop_last()), paths.last())
    }
}

/// How many portions `a` and `b` have in common at their start.
pub open spec fn common_prefix_len(a: Seq<Seq<char>>, b: Seq<Seq<char>>) -> nat
    decreases a.len(),
{
    if a.len() > 0 && b.len() > 0 && a[0] == b[0] {
        1 + common_prefix_len(a.drop_first(), b.drop_first())
    } else {
        0
    }
}

/// `count` times the portion `..`.
pub open spec fn ups(count: nat) -> Seq<Seq<char>> {
    Seq::new(count, |i: int| dot_dot())
}

/// The steps from `from` to `to`, both given by their portions: one `..` for
/// each portion of `from` that `to` does not share, then the portions of `to`
/// that `from` does not share.
pub open spec fn route(from: Seq<Seq<char>>, to: Seq<Seq<char>>) -> Seq<Seq<char>> {
    let shared = common_prefix_len(from, to);
    ups((from.len() - shared) as nat) + to.skip(shared as int)
}

/// The relative path that leads from `from` to `to`. It is empty where both
/// resolve to the same path.
pub open spec fn relative_spec(from: Seq<char>, to: Seq<char>) -> Seq<char> {
    crate::text::trim(
        join(
            route(pieces(resolve_one_spec(from), true), pieces(resolve_one_spec(to), true)),
            slash(),
        ),
    )
}

} // verus!
