//! What holds of resolved paths.

use vstd::prelude::*;
use super::model::{
    common_prefix_len, dot, dot_dot, is_absolute, is_separator, join, normalize, pieces,
    relative_spec, resolve_one_spec, resolved_body, root_mark, route, slash, step, ups,
};

verus! {

/// No separator stands in `portion`.
pub open spec fn is_plain(portion: Seq<char>, both: bool) -> bool {
    forall|j: int| 0 <= j < portion.len() ==> !is_separator(#[trigger] portion[j], both)
}

/// `portion` is a name: it is not empty, it is neither `.` nor `..`, and no
/// separator stands in it.
pub open spec fn is_name(portion: Seq<char>) -> bool {
    portion.len() > 0 && portion != dot() && portion != dot_dot() && is_plain(portion, true)
}

/// Every portion of `portions` is a name.
pub open spec fn are_names(portions: Seq<Seq<char>>) -> bool {
    forall|i: int| 0 <= i < portions.len() ==> is_name(#[trigger] portions[i])
}

/// A path has at least one portion, and no separator stands in a portion.
pub proof fn lemma_pieces_plain(path: Seq<char>, both: bool)
    ensures
        pieces(path, both).len() >= 1,
        forall|i: int|
            0 <= i < pieces(path, both).len() ==> is_plain(#[trigger] pieces(path, both)[i], both),
    decreases path.len(),
{
    if path.len() > 0 {
        lemma_pieces_plain(path.drop_last(), both);
        let init = pieces(path.drop_last(), both);
        let now = pieces(path, both);
        assert forall|i: int| 0 <= i < now.len() implies is_plain(#[trigger] now[i], both) by {
            if i < init.len() - 1 {
                assert(now[i] == init[i]);
            } else if is_separator(path.last(), both) {
                if i == init.len() - 1 {
                    assert(now[i] == init[i]);
                }
            } else {
                assert(is_plain(init[init.len() - 1], both));
                assert forall|j: int| 0 <= j < now[i].len() implies !is_separator(
                    #[trigger] now[i][j],
                    both,
                ) by {
                    if j < init.last().len() {
                        assert(now[i][j] == init.last()[j]);
                    }
                }
            }
        }
    }
}

/// What is left of plain portions when they are resolved are names.
pub proof fn lemma_normalize_names(portions: Seq<Seq<char>>)
    requires
        forall|i: int| 0 <= i < portions.len() ==> is_plain(#[trigger] portions[i], true),
    ensures
        are_names(normalize(portions)),
    decreases portions.len(),
{
    if portions.len() > 0 {
        let init = portions.drop_last();
        assert forall|i: int| 0 <= i < init.len() implies is_plain(#[trigger] init[i], true) by {
            assert(init[i] == portions[i]);
        }
        lemma_normalize_names(init);
        let kept = normalize(init);
        let now = step(kept, portions.last());
        assert(is_plain(portions[portions.len() - 1], true));
        assert forall|i: int| 0 <= i < now.len() implies is_name(#[trigger] now[i]) by {
            if i < kept.len() {
                assert(is_name(kept[i]));
            }
        }
    }
}

/// Names stay as they are when they are resolved.
pub proof fn lemma_names_are_resolved(portions: Seq<Seq<char>>)
    requires
        are_names(portions),
    ensures
        normalize(portions) == portions,
    decreases portions.len(),
{
    if portions.len() > 0 {
        let init = portions.drop_last();
        assert forall|i: int| 0 <= i < init.len() implies is_name(#[trigger] init[i]) by {
            assert(init[i] == portions[i]);
        }
        lemma_names_are_resolved(init);
        assert(is_name(portions[portions.len() - 1]));
        assert(init.push(portions.last()) == portions);
    } else {
        assert(portions == Seq::<Seq<char>>::empty());
    }
}

/// An empty portion at the start does not count.
pub proof fn lemma_normalize_after_empty(portions: Seq<Seq<char>>)
    ensures
        normalize(seq![Seq::<char>::empty()] + portions) == normalize(portions),
    decreases portions.len(),
{
    let first = seq![Seq::<char>::empty()];
    if portions.len() == 0 {
        assert(first + portions == first);
        assert(first.drop_last() == Seq::<Seq<char>>::empty());
        assert(normalize(first.drop_last()) == Seq::<Seq<char>>::empty());
    } else {
        lemma_normalize_after_empty(portions.drop_last());
        assert((first + portions).drop_last() == first + portions.drop_last());
        assert((first + portions).last() == portions.last());
    }
}

/// The portions of a path that a plain text is added to: the last portion
/// goes on with that text.
pub proof fn lemma_pieces_grow(path: Seq<char>, more: Seq<char>, both: bool)
    requires
        is_plain(more, both),
    ensures
        pieces(path + more, both) == pieces(path, both).drop_last().push(
            pieces(path, both).last() + more,
        ),
    decreases more.len(),
{
    lemma_pieces_plain(path, both);
    let before = pieces(path, both);
    if more.len() == 0 {
        assert(path + more == path);
        assert(before.last() + more == before.last());
        assert(before.drop_last().push(before.last()) == before);
    } else {
        let init = more.drop_last();
        assert(is_plain(init, both)) by {
            assert forall|j: int| 0 <= j < init.len() implies !is_separator(
                #[trigger] init[j],
                both,
            ) by {
                assert(init[j] == more[j]);
            }
        }
        lemma_pieces_grow(path, init, both);
        assert((path + more).drop_last() == path + init);
        assert((path + more).last() == more.last());
        assert(!is_separator(more[more.len() - 1], both));
        let mid = pieces(path + init, both);
        assert(mid.drop_last() == before.drop_last());
        assert(mid.last() + seq![more.last()] == before.last() + more) by {
            assert(init.push(more.last()) == more);
            assert(mid.last().push(more.last()) == (before.last() + init).push(more.last()));
            assert((before.last() + init).push(more.last()) == before.last() + init.push(
                more.last(),
            ));
            assert(mid.last() + seq![more.last()] == mid.last().push(more.last()));
        }
        assert(mid.last().push(more.last()) == before.last() + more);
    }
}

/// The portions of a path that a separator is added to: an empty portion
/// more.
pub proof fn lemma_pieces_after_slash(path: Seq<char>, both: bool)
    ensures
        pieces(path + slash(), both) == pieces(path, both).push(Seq::<char>::empty()),
{
    assert((path + slash()).drop_last() == path);
    assert((path + slash()).last() == '/');
}

/// The portions of names that are joined are those names.
pub proof fn lemma_pieces_of_join(names: Seq<Seq<char>>)
    requires
        are_names(names),
        names.len() >= 1,
    ensures
        pieces(join(names, slash()), true) == names,
    decreases names.len(),
{
    let last = names.last();
    assert(is_name(names[names.len() - 1]));
    if names.len() == 1 {
        let nothing = Seq::<char>::empty();
        lemma_pieces_grow(nothing, last, true);
        assert(nothing + last == last);
        assert(pieces(nothing, true) == seq![nothing]);
        assert(seq![nothing].drop_last().push(nothing + last) == seq![last]);
        assert(names == seq![last]);
    } else {
        let init = names.drop_last();
        assert forall|i: int| 0 <= i < init.len() implies is_name(#[trigger] init[i]) by {
            assert(init[i] == names[i]);
        }
        lemma_pieces_of_join(init);
        let head = join(init, slash());
        lemma_pieces_after_slash(head, true);
        lemma_pieces_grow(head + slash(), last, true);
        let nothing = Seq::<char>::empty();
        assert(init.push(nothing).drop_last() == init);
        assert(nothing + last == last);
        assert(init.push(last) == names);
    }
}

/// The portions of a path with one `/` before it: an empty portion, then
/// the portions of the path.
pub proof fn lemma_pieces_of_rooted(path: Seq<char>)
    ensures
        pieces(slash() + path, true) == seq![Seq::<char>::empty()] + pieces(path, true),
    decreases path.len(),
{
    let nothing = Seq::<char>::empty();
    lemma_pieces_plain(path, true);
    if path.len() == 0 {
        assert(slash() + path == slash());
        assert(slash().drop_last() == nothing);
        assert(pieces(nothing, true) == seq![nothing]);
        assert(pieces(slash(), true) == seq![nothing].push(nothing));
        assert(seq![nothing].push(nothing) == seq![nothing] + seq![nothing]);
    } else {
        lemma_pieces_of_rooted(path.drop_last());
        lemma_pieces_plain(path.drop_last(), true);
        assert((slash() + path).drop_last() == slash() + path.drop_last());
        assert((slash() + path).last() == path.last());
        let init = pieces(path.drop_last(), true);
        let rooted = seq![nothing] + init;
        if is_separator(path.last(), true) {
            assert(rooted.push(nothing) == seq![nothing] + init.push(nothing));
        } else {
            assert(rooted.last() == init.last());
            assert(rooted.drop_last() == seq![nothing] + init.drop_last());
            assert(rooted.drop_last().push(rooted.last().push(path.last())) == seq![nothing]
                + init.drop_last().push(init.last().push(path.last())));
        }
    }
}

/// The body of a resolved path resolves to itself.
pub proof fn lemma_body_is_resolved(path: Seq<char>)
    ensures
        resolved_body(resolved_body(path)) == resolved_body(path),
        resolved_body(slash() + resolved_body(path)) == resolved_body(path),
        !is_absolute(resolved_body(path)),
{
    lemma_pieces_plain(path, true);
    lemma_normalize_names(pieces(path, true));
    let names = normalize(pieces(path, true));
    let body = join(names, slash());
    let nothing = Seq::<char>::empty();
    if names.len() == 0 {
        assert(body == nothing);
        assert(pieces(nothing, true) == seq![nothing]);
        assert(seq![nothing].drop_last() == Seq::<Seq<char>>::empty());
        assert(normalize(seq![nothing].drop_last()) == Seq::<Seq<char>>::empty());
        assert(normalize(seq![nothing]) == Seq::<Seq<char>>::empty());
    } else {
        lemma_pieces_of_join(names);
        lemma_names_are_resolved(names);
        lemma_join_starts_with_name(names);
    }
    lemma_pieces_of_rooted(body);
    lemma_normalize_after_empty(pieces(body, true));
}

/// Names that are joined start with the first character of the first name.
pub proof fn lemma_join_starts_with_name(names: Seq<Seq<char>>)
    requires
        are_names(names),
        names.len() >= 1,
    ensures
        join(names, slash()).len() >= 1,
        join(names, slash())[0] == names[0][0],
    decreases names.len(),
{
    assert(is_name(names[0]));
    if names.len() > 1 {
        let init = names.drop_last();
        assert forall|i: int| 0 <= i < init.len() implies is_name(#[trigger] init[i]) by {
            assert(init[i] == names[i]);
        }
        lemma_join_starts_with_name(init);
        assert(init[0] == names[0]);
    }
}

/// Resolving a resolved path changes nothing.
pub proof fn law_resolve_one_idempotent(path: Seq<char>)
    ensures
        resolve_one_spec(resolve_one_spec(path)) == resolve_one_spec(path),
{
    lemma_body_is_resolved(path);
    let body = resolved_body(path);
    if is_absolute(path) {
        assert(resolve_one_spec(path) == slash() + body);
        assert((slash() + body)[0] == '/');
    } else {
        let nothing = Seq::<char>::empty();
        assert(nothing + body == body);
    }
}

/// In a resolved path every portion is a name: none is empty, `.` or `..`,
/// and no `\` is left. A relative path that resolves to nothing is the one
/// exception: it is the empty path, which has one empty portion.
pub proof fn law_resolved_portions_are_names(path: Seq<char>)
    ensures
        are_names(normalize(pieces(path, true))),
        normalize(pieces(path, true)).len() >= 1 ==> pieces(resolved_body(path), true)
            == normalize(pieces(path, true)),
        normalize(pieces(path, true)).len() == 0 ==> resolved_body(path) == Seq::<char>::empty(),
{
    lemma_pieces_plain(path, true);
    lemma_normalize_names(pieces(path, true));
    if normalize(pieces(path, true)).len() >= 1 {
        lemma_pieces_of_join(normalize(pieces(path, true)));
    }
}

/// Portions share all of themselves with themselves.
pub proof fn lemma_common_with_itself(portions: Seq<Seq<char>>)
    ensures
        common_prefix_len(portions, portions) == portions.len(),
    decreases portions.len(),
{
    if portions.len() > 0 {
        lemma_common_with_itself(portions.drop_first());
    }
}

/// The relative path from a path to itself is empty.
pub proof fn law_relative_to_itself(path: Seq<char>)
    ensures
        relative_spec(path, path) == Seq::<char>::empty(),
{
    let portions = pieces(resolve_one_spec(path), true);
    lemma_common_with_itself(portions);
    assert(ups(0) == Seq::<Seq<char>>::empty());
    assert(portions.skip(portions.len() as int) == Seq::<Seq<char>>::empty());
    assert(route(portions, portions) == Seq::<Seq<char>>::empty());
    assert(join(Seq::<Seq<char>>::empty(), slash()) == Seq::<char>::empty());
}

} // verus!
