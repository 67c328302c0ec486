//! A relative path leads back: resolved against the path it starts from, it
//! gives the path it leads to.

use vstd::prelude::*;
use super::laws::{
    are_names, is_name, is_plain, lemma_normalize_after_empty, lemma_normalize_names,
    lemma_names_are_resolved, lemma_pieces_after_slash, lemma_pieces_grow, lemma_pieces_of_rooted,
    lemma_pieces_plain,
};
use super::model::{
    common_prefix_len, dot, dot_dot, is_absolute, is_separator, join, normalize, pieces,
    relative_spec, resolve_one_spec, resolve_spec, resolved_body, root_mark, route, slash, step,
    ups,
};

verus! {

/// What `portions` make of the portions `start` that are resolved already,
/// taken from left to right.
pub open spec fn resolved_on(start: Seq<Seq<char>>, portions: Seq<Seq<char>>) -> Seq<Seq<char>>
    decreases portions.len(),
{
    if portions.len() == 0 {
        start
    } else {
        step(resolved_on(start, portions.drop_last()), portions.last())
    }
}

/// Resolving portions is resolving the first of them and going on with the
/// rest.
pub proof fn lemma_resolved_on(first: Seq<Seq<char>>, rest: Seq<Seq<char>>)
    ensures
        normalize(first + rest) == resolved_on(normalize(first), rest),
    decreases rest.len(),
{
    if rest.len() == 0 {
        assert(first + rest == first);
    } else {
        lemma_resolved_on(first, rest.drop_last());
        assert((first + rest).drop_last() == first + rest.drop_last());
        assert((first + rest).last() == rest.last());
    }
}

/// Going on with two runs of portions is going on with the first and then
/// with the second.
pub proof fn lemma_resolved_on_both(
    start: Seq<Seq<char>>,
    first: Seq<Seq<char>>,
    second: Seq<Seq<char>>,
)
    ensures
        resolved_on(start, first + second) == resolved_on(resolved_on(start, first), second),
    decreases second.len(),
{
    if second.len() == 0 {
        assert(first + second == first);
    } else {
        lemma_resolved_on_both(start, first, second.drop_last());
        assert((first + second).drop_last() == first + second.drop_last());
        assert((first + second).last() == second.last());
    }
}

/// Each `..` takes one portion away, as long as one is left.
pub proof fn lemma_resolved_on_ups(start: Seq<Seq<char>>, count: nat)
    ensures
        resolved_on(start, ups(count)) == start.take(
            if count <= start.len() {
                start.len() - count
            } else {
                0
            },
        ),
    decreases count,
{
    if count == 0 {
        assert(start.take(start.len() as int) == start);
    } else {
        lemma_resolved_on_ups(start, (count - 1) as nat);
        assert(ups(count).drop_last() == ups((count - 1) as nat));
        assert(ups(count).last() == dot_dot());
        let before = resolved_on(start, ups((count - 1) as nat));
        if count <= start.len() {
            assert(before == start.take(start.len() - count + 1));
            assert(before.drop_last() == start.take(start.len() - count));
        } else {
            assert(before.len() == 0);
        }
    }
}

/// Names are added as they are.
pub proof fn lemma_resolved_on_names(start: Seq<Seq<char>>, names: Seq<Seq<char>>)
    requires
        are_names(names),
    ensures
        resolved_on(start, names) == start + names,
    decreases names.len(),
{
    if names.len() == 0 {
        assert(start + names == start);
    } else {
        let init = names.drop_last();
        assert forall|i: int| 0 <= i < init.len() implies is_name(#[trigger] init[i]) by {
            assert(init[i] == names[i]);
        }
        lemma_resolved_on_names(start, init);
        assert(is_name(names[names.len() - 1]));
        assert((start + init).push(names.last()) == start + names);
    }
}

/// The portions of two paths with `/` between them are the portions of the
/// first and then those of the second.
pub proof fn lemma_pieces_of_both(first: Seq<char>, second: Seq<char>)
    ensures
        pieces(first + slash() + second, true) == pieces(first, true) + pieces(second, true),
    decreases second.len(),
{
    let nothing = Seq::<char>::empty();
    lemma_pieces_plain(second, true);
    if second.len() == 0 {
        assert(first + slash() + second == first + slash());
        lemma_pieces_after_slash(first, true);
        assert(pieces(second, true) == seq![nothing]);
        assert(pieces(first, true).push(nothing) == pieces(first, true) + seq![nothing]);
    } else {
        let init = second.drop_last();
        lemma_pieces_of_both(first, init);
        lemma_pieces_plain(init, true);
        assert((first + slash() + second).drop_last() == first + slash() + init);
        assert((first + slash() + second).last() == second.last());
        let head = pieces(first, true);
        let tail = pieces(init, true);
        if is_separator(second.last(), true) {
            assert((head + tail).push(nothing) == head + tail.push(nothing));
        } else {
            assert((head + tail).last() == tail.last());
            assert((head + tail).drop_last() == head + tail.drop_last());
            assert((head + tail).drop_last().push((head + tail).last().push(second.last()))
                == head + tail.drop_last().push(tail.last().push(second.last())));
        }
    }
}

/// The portions of plain portions that are joined are those portions.
pub proof fn lemma_pieces_of_plain(portions: Seq<Seq<char>>)
    requires
        portions.len() >= 1,
        forall|i: int| 0 <= i < portions.len() ==> is_plain(#[trigger] portions[i], true),
    ensures
        pieces(join(portions, slash()), true) == portions,
    decreases portions.len(),
{
    let last = portions.last();
    let nothing = Seq::<char>::empty();
    assert(is_plain(portions[portions.len() - 1], true));
    if portions.len() == 1 {
        lemma_pieces_grow(nothing, last, true);
        assert(nothing + last == last);
        assert(pieces(nothing, true) == seq![nothing]);
        assert(seq![nothing].drop_last().push(nothing + last) == seq![last]);
        assert(portions == seq![last]);
    } else {
        let init = portions.drop_last();
        assert forall|i: int| 0 <= i < init.len() implies is_plain(#[trigger] init[i], true) by {
            assert(init[i] == portions[i]);
        }
        lemma_pieces_of_plain(init);
        let head = join(init, slash());
        lemma_pieces_after_slash(head, true);
        lemma_pieces_grow(head + slash(), last, true);
        assert(init.push(nothing).drop_last() == init);
        assert(nothing + last == last);
        assert(init.push(last) == portions);
    }
}

/// Portions that are joined start as the first of them does, if it is not
/// empty; with two portions or more, something is written.
pub proof fn lemma_join_start(portions: Seq<Seq<char>>)
    requires
        portions.len() >= 1,
    ensures
        portions[0].len() > 0 ==> join(portions, slash()).len() > 0 && join(portions, slash())[0]
            == portions[0][0],
        portions.len() >= 2 ==> join(portions, slash()).len() > 0,
    decreases portions.len(),
{
    if portions.len() > 1 {
        let init = portions.drop_last();
        lemma_join_start(init);
        assert(init[0] == portions[0]);
    }
}

/// What two runs of portions share at their start, they share portion by
/// portion.
pub proof fn lemma_common_prefix(a: Seq<Seq<char>>, b: Seq<Seq<char>>)
    ensures
        common_prefix_len(a, b) <= a.len(),
        common_prefix_len(a, b) <= b.len(),
        a.take(common_prefix_len(a, b) as int) == b.take(common_prefix_len(a, b) as int),
    decreases a.len(),
{
    if a.len() > 0 && b.len() > 0 && a[0] == b[0] {
        lemma_common_prefix(a.drop_first(), b.drop_first());
        let shared = common_prefix_len(a.drop_first(), b.drop_first()) as int;
        assert(a.take(shared + 1) =~= seq![a[0]] + a.drop_first().take(shared));
        assert(b.take(shared + 1) =~= seq![b[0]] + b.drop_first().take(shared));
    } else {
        assert(a.take(0) =~= b.take(0));
    }
}

/// The portions of `names` as a resolved path holds them: the names, or
/// one empty portion where there is none.
pub open spec fn held_portions(names: Seq<Seq<char>>) -> Seq<Seq<char>> {
    if names.len() >= 1 {
        names
    } else {
        seq![Seq::<char>::empty()]
    }
}

/// The portions of a resolved absolute path: an empty portion, then the
/// names that are left of the path.
pub proof fn lemma_rooted_portions(path: Seq<char>)
    ensures
        are_names(normalize(pieces(path, true))),
        pieces(resolved_body(path), true) == held_portions(normalize(pieces(path, true))),
        pieces(slash() + resolved_body(path), true) == seq![Seq::<char>::empty()] + held_portions(
            normalize(pieces(path, true)),
        ),
        normalize(held_portions(normalize(pieces(path, true)))) == normalize(pieces(path, true)),
{
    let nothing = Seq::<char>::empty();
    let names = normalize(pieces(path, true));
    lemma_pieces_plain(path, true);
    lemma_normalize_names(pieces(path, true));
    lemma_pieces_of_rooted(resolved_body(path));
    if names.len() >= 1 {
        assert forall|i: int| 0 <= i < names.len() implies is_plain(#[trigger] names[i], true) by {
            assert(is_name(names[i]));
        }
        lemma_pieces_of_plain(names);
        lemma_names_are_resolved(names);
    } else {
        assert(resolved_body(path) == nothing);
        assert(pieces(nothing, true) == seq![nothing]);
        assert(seq![nothing].drop_last() == Seq::<Seq<char>>::empty());
        assert(normalize(seq![nothing].drop_last()) == Seq::<Seq<char>>::empty());
        assert(normalize(seq![nothing]) == Seq::<Seq<char>>::empty());
    }
}

/// The steps between two resolved absolute paths, given by the names that
/// are left of them, lead from the first to the second: there are none
/// only where the paths are the same, and else they start with `..` or a
/// name, hold no separator, and make the names of the second of the names
/// of the first.
pub proof fn lemma_steps_lead(from: Seq<Seq<char>>, to: Seq<Seq<char>>)
    requires
        are_names(from),
        are_names(to),
    ensures
        ({
            let first = seq![Seq::<char>::empty()];
            let steps = route(first + held_portions(from), first + held_portions(to));
            &&& steps.len() == 0 ==> from == to
            &&& steps.len() > 0 ==> {
                &&& steps[0].len() > 0
                &&& !is_separator(steps[0][0], true)
                &&& forall|i: int| 0 <= i < steps.len() ==> is_plain(#[trigger] steps[i], true)
                &&& resolved_on(from, steps) == to
            }
        }),
{
    let nothing = Seq::<char>::empty();
    let first = seq![nothing];
    let held_from = held_portions(from);
    let held_to = held_portions(to);
    let p = first + held_from;
    let q = first + held_to;
    assert(p.drop_first() == held_from);
    assert(q.drop_first() == held_to);
    assert(p[0] == q[0]);
    let shared = common_prefix_len(held_from, held_to);
    assert(common_prefix_len(p, q) == 1 + shared);
    lemma_common_prefix(held_from, held_to);
    let count = (held_from.len() - shared) as nat;
    let rest = held_to.skip(shared as int);
    assert(q.skip(1 + shared as int) == rest);
    let steps = route(p, q);
    assert(steps == ups(count) + rest);
    lemma_resolved_on_both(from, ups(count), rest);
    lemma_resolved_on_ups(from, count);
    assert(dot_dot()[0] == '.');
    assert(is_plain(dot_dot(), true)) by {
        assert(dot_dot()[0] == '.' && dot_dot()[1] == '.');
    }
    assert(is_plain(nothing, true));
    if from.len() == 0 && to.len() == 0 {
        assert(held_from[0] == held_to[0]);
        assert(held_from.drop_first().len() == 0);
        assert(common_prefix_len(held_from.drop_first(), held_to.drop_first()) == 0);
        assert(shared == 1);
        assert(steps.len() == 0);
        assert(from =~= to);
    } else if from.len() == 0 {
        assert(is_name(to[0]));
        assert(held_from[0] != held_to[0]);
        assert(shared == 0);
        assert(rest == to);
        assert(steps[0] == dot_dot());
        lemma_resolved_on_names(from.take(0), to);
        assert(from.take(0) + to == to);
        assert forall|i: int| 0 <= i < steps.len() implies is_plain(#[trigger] steps[i], true) by {
            if i >= 1 {
                assert(steps[i] == to[i - 1]);
                assert(is_name(to[i - 1]));
            }
        }
    } else if to.len() == 0 {
        assert(is_name(from[0]));
        assert(held_from[0] != held_to[0]);
        assert(shared == 0);
        assert(rest == seq![nothing]);
        assert(steps[0] == dot_dot());
        assert(from.take(0) == Seq::<Seq<char>>::empty());
        assert(rest.drop_last() == Seq::<Seq<char>>::empty());
        assert(resolved_on(from.take(0), rest.drop_last()) == from.take(0));
        assert(resolved_on(from.take(0), rest) == from.take(0));
        assert(to == Seq::<Seq<char>>::empty());
        assert forall|i: int| 0 <= i < steps.len() implies is_plain(#[trigger] steps[i], true) by {
            if i < count {
                assert(steps[i] == dot_dot());
            } else {
                assert(steps[i] == nothing);
            }
        }
    } else {
        assert forall|i: int| 0 <= i < rest.len() implies is_name(#[trigger] rest[i]) by {
            assert(rest[i] == to[shared + i]);
        }
        lemma_resolved_on_names(from.take(shared as int), rest);
        assert(from.take(shared as int) == to.take(shared as int));
        assert(to.take(shared as int) + to.skip(shared as int) == to);
        if steps.len() == 0 {
            assert(count == 0 && rest.len() == 0);
            assert(from.take(shared as int) == from);
            assert(to.take(shared as int) == to);
        } else {
            if count > 0 {
                assert(steps[0] == dot_dot());
            } else {
                assert(steps[0] == rest[0]);
                assert(is_name(rest[0]));
                assert(is_plain(rest[0], true));
            }
            assert forall|i: int| 0 <= i < steps.len() implies is_plain(
                #[trigger] steps[i],
                true,
            ) by {
                if i < count {
                    assert(steps[i] == dot_dot());
                } else {
                    assert(steps[i] == rest[i - count]);
                    assert(is_name(rest[i - count]));
                }
            }
        }
    }
}

/// The steps from `from` to `to` as they are written, before whitespace is
/// cut from their ends.
pub open spec fn written_steps(from: Seq<char>, to: Seq<char>) -> Seq<char> {
    join(
        route(pieces(resolve_one_spec(from), true), pieces(resolve_one_spec(to), true)),
        slash(),
    )
}

/// The relative path from one absolute path to another leads back: resolved
/// against the first it gives the second, resolved.
///
/// This is said of paths between which the steps neither start nor end with
/// whitespace, so that nothing is cut from them.
pub proof fn law_relative_leads_back(from: Seq<char>, to: Seq<char>)
    requires
        is_absolute(from),
        is_absolute(to),
        relative_spec(from, to) == written_steps(from, to),
    ensures
        resolve_spec(from, relative_spec(from, to)) == resolve_one_spec(to),
{
    let nothing = Seq::<char>::empty();
    let first = seq![nothing];
    let names_from = normalize(pieces(from, true));
    let names_to = normalize(pieces(to, true));
    lemma_rooted_portions(from);
    lemma_rooted_portions(to);
    lemma_steps_lead(names_from, names_to);
    let steps = route(first + held_portions(names_from), first + held_portions(names_to));
    let written = join(steps, slash());
    assert(resolve_one_spec(from) == slash() + resolved_body(from));
    assert(resolve_one_spec(to) == slash() + resolved_body(to));
    assert(written == written_steps(from, to));
    if steps.len() == 0 {
        assert(written == nothing);
    } else {
        lemma_join_start(steps);
        assert(!is_absolute(written));
        lemma_pieces_of_plain(steps);
        lemma_pieces_of_both(resolved_body(from), written);
        lemma_resolved_on(held_portions(names_from), steps);
        assert(normalize(pieces(resolved_body(from) + slash() + written, true)) == names_to);
    }
}

} // verus!
