//! Paths cut into their portions, resolved, and put together again.

use vstd::prelude::*;
use crate::text::slice_of;
use crate::text::append_chars;
use super::model::{dot, dot_dot, is_separator, join, normalize, pieces, step};

verus! {

/// The character sequences that the vectors of `portions` hold.
pub open spec fn views(portions: Seq<Vec<char>>) -> Seq<Seq<char>> {
    portions.map_values(|portion: Vec<char>| portion@)
}

/// True iff `c` separates portions.
pub fn separates(c: char, both: bool) -> (r: bool)
    ensures
        r == is_separator(c, both),
{
    c == '/' || (both && c == '\\')
}

/// Cuts `path` at its separators.
pub fn split(path: &Vec<char>, both: bool) -> (r: Vec<Vec<char>>)
    ensures
        views(r@) == pieces(path@, both),
{
    let mut done: Vec<Vec<char>> = Vec::new();
    let mut current: Vec<char> = Vec::new();
    let mut i: usize = 0;
    assert(path@.take(0) == Seq::<char>::empty());
    assert(views(done@).push(current@) == seq![Seq::<char>::empty()]);
    while i < path.len()
        invariant
            0 <= i <= path.len(),
            views(done@).push(current@) == pieces(path@.take(i as int), both),
        decreases path.len() - i,
    {
        let c = path[i];
        let ghost before = views(done@).push(current@);
        proof {
            assert(path@.take(i + 1).drop_last() == path@.take(i as int));
            assert(path@.take(i + 1).last() == c);
            assert(before.drop_last() == views(done@));
            assert(before.last() == current@);
        }
        if separates(c, both) {
            let ghost grown = done@.push(current);
            done.push(current);
            current = Vec::new();
            assert(views(grown) == before);
        } else {
            current.push(c);
        }
        i += 1;
    }
    assert(path@.take(path.len() as int) == path@);
    let ghost whole = views(done@).push(current@);
    done.push(current);
    assert(views(done@) == whole);
    done
}

/// True iff `portion` is `.`.
fn is_dot(portion: &Vec<char>) -> (r: bool)
    ensures
        r == (portion@ == dot()),
{
    let r = portion.len() == 1 && portion[0] == '.';
    assert(r ==> portion@ =~= dot());
    r
}

/// True iff `portion` is `..`.
fn is_dot_dot(portion: &Vec<char>) -> (r: bool)
    ensures
        r == (portion@ == dot_dot()),
{
    let r = portion.len() == 2 && portion[0] == '.' && portion[1] == '.';
    assert(r ==> portion@ =~= dot_dot());
    r
}

/// Resolves `portions` from left to right.
pub fn resolve_portions(portions: &Vec<Vec<char>>) -> (r: Vec<Vec<char>>)
    ensures
        views(r@) == normalize(views(portions@)),
{
    let mut kept: Vec<Vec<char>> = Vec::new();
    let mut i: usize = 0;
    assert(views(portions@).take(0) == Seq::<Seq<char>>::empty());
    assert(views(kept@) == Seq::<Seq<char>>::empty());
    while i < portions.len()
        invariant
            0 <= i <= portions.len(),
            views(kept@) == normalize(views(portions@).take(i as int)),
        decreases portions.len() - i,
    {
        let portion = &portions[i];
        let ghost before = views(kept@);
        proof {
            assert(views(portions@).take(i + 1).drop_last() == views(portions@).take(i as int));
            assert(views(portions@).take(i + 1).last() == portion@);
        }
        if is_dot(portion) || portion.len() == 0 {
        } else if is_dot_dot(portion) {
            if kept.len() > 0 {
                kept.pop();
                assert(views(kept@) == before.drop_last());
            }
        } else {
            let copy = slice_of(portion, 0, portion.len());
            assert(copy@ == portion@);
            kept.push(copy);
            assert(views(kept@) == before.push(portion@));
        }
        assert(views(kept@) == step(before, portion@));
        i += 1;
    }
    assert(views(portions@).take(portions.len() as int) == views(portions@));
    kept
}

/// Writes `portions` one after the other with `separator` between them.
pub fn join_portions(portions: &Vec<Vec<char>>, separator: char) -> (r: Vec<char>)
    ensures
        r@ == join(views(portions@), seq![separator]),
{
    let mut r: Vec<char> = Vec::new();
    let mut i: usize = 0;
    assert(views(portions@).take(0) == Seq::<Seq<char>>::empty());
    while i < portions.len()
        invariant
            0 <= i <= portions.len(),
            r@ == join(views(portions@).take(i as int), seq![separator]),
        decreases portions.len() - i,
    {
        proof {
            assert(views(portions@).take(i + 1).drop_last() == views(portions@).take(i as int));
            assert(views(portions@).take(i + 1).last() == portions@[i as int]@);
        }
        if i > 0 {
            r.push(separator);
            assert(r@ == join(views(portions@).take(i as int), seq![separator]) + seq![
                separator,
            ]);
        } else {
            assert(views(portions@).take(1)[0] == portions@[0]@);
        }
        append_chars(&mut r, &portions[i]);
        i += 1;
    }
    assert(views(portions@).take(portions.len() as int) == views(portions@));
    r
}

} // verus!
