//! The fallbacks of a locale: which locales it reaches through them.

use vstd::prelude::*;
use vstd::set_lib::lemma_len_subset;
use super::ftl::{fallback_list, falls_back, holds_text, is_way, reaches, same_text};
use super::options::{copy_text, copy_texts, fallback_views, text_views, Fallback, FallbackView};

verus! {

/// Every locale that is someone's fallback.
pub open spec fn mentioned(fallbacks: Seq<FallbackView>) -> Seq<Seq<char>>
    decreases fallbacks.len(),
{
    if fallbacks.len() == 0 {
        Seq::<Seq<char>>::empty()
    } else {
        mentioned(fallbacks.drop_last()) + fallbacks.last().fallbacks
    }
}

/// A direct fallback is mentioned.
pub proof fn lemma_fallback_is_mentioned(
    fallbacks: Seq<FallbackView>,
    from: Seq<char>,
    to: Seq<char>,
)
    requires
        falls_back(fallbacks, from, to),
    ensures
        mentioned(fallbacks).contains(to),
    decreases fallbacks.len(),
{
    if fallbacks.len() > 0 {
        let init = mentioned(fallbacks.drop_last());
        if fallbacks.last().locale == from {
            let list = fallbacks.last().fallbacks;
            let at = choose|i: int| 0 <= i < list.len() && list[i] == to;
            assert(mentioned(fallbacks)[init.len() + at] == to);
        } else {
            lemma_fallback_is_mentioned(fallbacks.drop_last(), from, to);
            let at = choose|i: int| 0 <= i < init.len() && init[i] == to;
            assert(mentioned(fallbacks)[at] == to);
        }
    }
}

/// What is reached is mentioned.
pub proof fn lemma_reached_is_mentioned(
    fallbacks: Seq<FallbackView>,
    from: Seq<char>,
    to: Seq<char>,
)
    requires
        reaches(fallbacks, from, to),
    ensures
        mentioned(fallbacks).contains(to),
{
    let way = choose|way: Seq<Seq<char>>|
        #[trigger] is_way(fallbacks, way) && way[0] == from && way.last() == to;
    assert(falls_back(fallbacks, way[way.len() - 2], way[way.len() - 2 + 1]));
    lemma_fallback_is_mentioned(fallbacks, way[way.len() - 2], to);
}

/// A direct fallback is reached.
pub proof fn lemma_step_reaches(fallbacks: Seq<FallbackView>, from: Seq<char>, to: Seq<char>)
    requires
        falls_back(fallbacks, from, to),
    ensures
        reaches(fallbacks, from, to),
{
    let way = seq![from, to];
    assert(is_way(fallbacks, way));
    assert(way[0] == from && way.last() == to);
}

/// A list without duplicates whose entries are all in another list is no
/// longer than that list.
pub proof fn lemma_bounded<A>(part: Seq<A>, whole: Seq<A>)
    requires
        part.no_duplicates(),
        forall|i: int| 0 <= i < part.len() ==> whole.contains(#[trigger] part[i]),
    ensures
        part.len() <= whole.len(),
{
    part.unique_seq_to_set();
    whole.lemma_cardinality_of_set();
    assert(part.to_set().subset_of(whole.to_set())) by {
        assert forall|a: A| part.to_set().contains(a) implies whole.to_set().contains(a) by {
            let i = choose|i: int| 0 <= i < part.len() && part[i] == a;
            assert(whole.contains(part[i]));
        }
    }
    lemma_len_subset(part.to_set(), whole.to_set());
}

/// What a reached locale falls back to is reached.
pub proof fn lemma_reaches_on(
    fallbacks: Seq<FallbackView>,
    from: Seq<char>,
    mid: Seq<char>,
    to: Seq<char>,
)
    requires
        reaches(fallbacks, from, mid),
        falls_back(fallbacks, mid, to),
    ensures
        reaches(fallbacks, from, to),
{
    let way = choose|way: Seq<Seq<char>>|
        #[trigger] is_way(fallbacks, way) && way[0] == from && way.last() == mid;
    let longer = way.push(to);
    assert forall|i: int| 0 <= i < longer.len() - 1 implies falls_back(
        fallbacks,
        #[trigger] longer[i],
        longer[i + 1],
    ) by {
        if i < way.len() - 1 {
            assert(falls_back(fallbacks, way[i], way[i + 1]));
        }
    }
    assert(is_way(fallbacks, longer));
    assert(longer[0] == from && longer.last() == to);
}

/// `set` holds every fallback of each locale it holds.
pub open spec fn is_closed(fallbacks: Seq<FallbackView>, set: Seq<Seq<char>>) -> bool {
    forall|from: Seq<char>, to: Seq<char>|
        set.contains(from) && #[trigger] falls_back(fallbacks, from, to) ==> set.contains(to)
}

/// A closed set that holds a locale of a way holds the locales after it.
pub proof fn lemma_closed_holds_way(
    fallbacks: Seq<FallbackView>,
    set: Seq<Seq<char>>,
    way: Seq<Seq<char>>,
    start: int,
    at: int,
)
    requires
        is_closed(fallbacks, set),
        is_way(fallbacks, way),
        0 <= start <= at < way.len(),
        set.contains(way[start]),
    ensures
        set.contains(way[at]),
    decreases at - start,
{
    if start < at {
        assert(falls_back(fallbacks, way[start], way[start + 1]));
        lemma_closed_holds_way(fallbacks, set, way, start + 1, at);
    }
}

/// The locales that `locale` falls back to directly.
pub fn direct_fallbacks(fallbacks: &Vec<Fallback>, locale: &str) -> (r: Vec<String>)
    ensures
        text_views(r@) == fallback_list(fallback_views(fallbacks@), locale@),
{
    let mut i: usize = fallbacks.len();
    assert(fallback_views(fallbacks@).take(i as int) == fallback_views(fallbacks@));
    while i > 0
        invariant
            0 <= i <= fallbacks.len(),
            fallback_list(fallback_views(fallbacks@), locale@) == fallback_list(
                fallback_views(fallbacks@).take(i as int),
                locale@,
            ),
        decreases i,
    {
        proof {
            assert(fallback_views(fallbacks@).take(i as int).drop_last() == fallback_views(
                fallbacks@,
            ).take(i - 1));
            assert(fallback_views(fallbacks@).take(i as int).last() == fallbacks@[i - 1]@);
        }
        i -= 1;
        if same_text(fallbacks[i].locale.as_str(), locale) {
            return copy_texts(&fallbacks[i].fallbacks);
        }
    }
    let r: Vec<String> = Vec::new();
    assert(text_views(r@) == Seq::<Seq<char>>::empty());
    r
}

/// Every locale that `locale` falls back to, directly or through other
/// fallbacks, once each.
pub fn reachable(fallbacks: &Vec<Fallback>, locale: &str) -> (r: Vec<String>)
    ensures
        text_views(r@).no_duplicates(),
        forall|to: Seq<char>|
            text_views(r@).contains(to) <==> reaches(fallback_views(fallbacks@), locale@, to),
{
    let ghost graph = fallback_views(fallbacks@);
    let ghost all = mentioned(graph);
    let mut visited: Vec<String> = Vec::new();
    let mut stack: Vec<String> = direct_fallbacks(fallbacks, locale);
    proof {
        assert forall|i: int| 0 <= i < stack.len() implies reaches(
            graph,
            locale@,
            #[trigger] text_views(stack@)[i],
        ) by {
            assert(falls_back(graph, locale@, text_views(stack@)[i]));
            lemma_step_reaches(graph, locale@, text_views(stack@)[i]);
        }
    }
    while stack.len() > 0
        invariant
            graph == fallback_views(fallbacks@),
            all == mentioned(graph),
            text_views(visited@).no_duplicates(),
            visited.len() <= all.len(),
            forall|i: int|
                0 <= i < visited.len() ==> reaches(
                    graph,
                    locale@,
                    #[trigger] text_views(visited@)[i],
                ),
            forall|i: int|
                0 <= i < stack.len() ==> reaches(graph, locale@, #[trigger] text_views(stack@)[i]),
            forall|to: Seq<char>| #[trigger]
                falls_back(graph, locale@, to) ==> text_views(visited@).contains(to)
                    || text_views(stack@).contains(to),
            forall|from: Seq<char>, to: Seq<char>|
                text_views(visited@).contains(from) && #[trigger] falls_back(graph, from, to)
                    ==> text_views(visited@).contains(to) || text_views(stack@).contains(to),
        decreases all.len() - visited.len(), stack.len(),
    {
        let ghost old_stack = text_views(stack@);
        let ghost old_visited = text_views(visited@);
        let next = stack.pop().unwrap();
        proof {
            assert(text_views(stack@) =~= old_stack.drop_last());
            assert(old_stack.last() == next@);
            assert(reaches(graph, locale@, old_stack[old_stack.len() - 1]));
            assert forall|to: Seq<char>| old_stack.contains(to) implies text_views(
                stack@,
            ).contains(to) || to == next@ by {
                let at = choose|i: int| 0 <= i < old_stack.len() && old_stack[i] == to;
                if at < old_stack.len() - 1 {
                    assert(text_views(stack@)[at] == to);
                }
            }
        }
        if !holds_text(&visited, next.as_str()) {
            let children = direct_fallbacks(fallbacks, next.as_str());
            visited.push(copy_text(&next));
            proof {
                assert(text_views(visited@) =~= old_visited.push(next@));
                lemma_reached_is_mentioned(graph, locale@, next@);
                assert forall|i: int| 0 <= i < visited.len() implies all.contains(
                    #[trigger] text_views(visited@)[i],
                ) by {
                    lemma_reached_is_mentioned(graph, locale@, text_views(visited@)[i]);
                }
                lemma_bounded(text_views(visited@), all);
                assert forall|to: Seq<char>| old_visited.contains(to) implies text_views(
                    visited@,
                ).contains(to) by {
                    let at = choose|i: int| 0 <= i < old_visited.len() && old_visited[i] == to;
                    assert(text_views(visited@)[at] == to);
                }
                assert(text_views(visited@)[visited.len() - 1] == next@);
            }
            let ghost base = text_views(stack@);
            let mut j: usize = 0;
            while j < children.len()
                invariant
                    0 <= j <= children.len(),
                    graph == fallback_views(fallbacks@),
                    text_views(children@) == fallback_list(graph, next@),
                    reaches(graph, locale@, next@),
                    text_views(stack@) == base + text_views(children@).take(j as int),
                    forall|i: int|
                        0 <= i < stack.len() ==> reaches(
                            graph,
                            locale@,
                            #[trigger] text_views(stack@)[i],
                        ),
                decreases children.len() - j,
            {
                let ghost before = text_views(stack@);
                let child = copy_text(&children[j]);
                proof {
                    assert(text_views(children@)[j as int] == child@);
                    assert(falls_back(graph, next@, child@));
                    lemma_reaches_on(graph, locale@, next@, child@);
                }
                stack.push(child);
                j += 1;
                proof {
                    assert(text_views(stack@) =~= before.push(child@));
                    assert(text_views(children@).take(j as int) =~= text_views(children@).take(
                        j - 1,
                    ).push(child@));
                    assert(text_views(stack@) =~= base + text_views(children@).take(j as int));
                    assert forall|i: int| 0 <= i < stack.len() implies reaches(
                        graph,
                        locale@,
                        #[trigger] text_views(stack@)[i],
                    ) by {
                        if i < before.len() {
                            assert(text_views(stack@)[i] == before[i]);
                        }
                    }
                }
            }
            proof {
                assert(text_views(children@).take(children.len() as int) == text_views(
                    children@,
                ));
                let now = text_views(stack@);
                assert forall|to: Seq<char>| base.contains(to) implies now.contains(to) by {
                    let at = choose|i: int| 0 <= i < base.len() && base[i] == to;
                    assert(now[at] == to);
                }
                assert forall|to: Seq<char>| falls_back(graph, next@, to) implies now.contains(
                    to,
                ) by {
                    let list = fallback_list(graph, next@);
                    let at = choose|i: int| 0 <= i < list.len() && list[i] == to;
                    assert(now[base.len() + at] == to);
                }
                assert forall|from: Seq<char>, to: Seq<char>|
                    text_views(visited@).contains(from) && #[trigger] falls_back(
                        graph,
                        from,
                        to,
                    ) implies text_views(visited@).contains(to) || now.contains(to) by {
                    if from != next@ {
                        let at = choose|i: int|
                            0 <= i < visited.len() && text_views(visited@)[i] == from;
                        assert(old_visited.contains(from)) by {
                            assert(old_visited[at] == from);
                        }
                    }
                }
            }
        } else {
            proof {
                assert(text_views(visited@).contains(next@));
            }
        }
    }
    proof {
        let set = text_views(visited@);
        assert(text_views(stack@).len() == 0);
        assert(is_closed(graph, set)) by {
            assert forall|from: Seq<char>, to: Seq<char>|
                set.contains(from) && #[trigger] falls_back(graph, from, to) implies set.contains(
                to,
            ) by {
                assert(!text_views(stack@).contains(to));
            }
        }
        assert forall|to: Seq<char>| reaches(graph, locale@, to) implies set.contains(to) by {
            let way = choose|way: Seq<Seq<char>>|
                #[trigger] is_way(graph, way) && way[0] == locale@ && way.last() == to;
            assert(falls_back(graph, way[0int], way[0int + 1]));
            assert(!text_views(stack@).contains(way[1]));
            lemma_closed_holds_way(graph, set, way, 1, way.len() - 1);
        }
    }
    visited
}

} // verus!
