//! What holds of the streams of sequences, and of the streams that are made
//! of them by `filter` and `map`, when the observer lets a run run to its
//! end.

use vstd::prelude::*;
use vstd::pervasive::cloned;
use super::filter::filtered;
use super::map::images;
use super::protocol::Notification;
use super::sequence::sequence_run;

verus! {

/// The values `values` as notifications.
pub open spec fn nexts<T, E>(values: Seq<T>) -> Seq<Notification<T, E>> {
    values.map_values(|value: T| Notification::Next(value))
}

/// The run that delivers `values` and then completes.
pub open spec fn whole_run<T, E>(values: Seq<T>) -> Seq<Notification<T, E>> {
    nexts(values).push(Notification::Complete)
}

/// A steady observer receives the whole of a sequence, and every
/// subscription delivers the same: each value in order, then `Complete`.
/// This is said of values whose copies equal them.
pub proof fn law_steady_sequence<T: Clone, E>(
    values: Seq<T>,
    emitted: Seq<Notification<T, E>>,
    closed: bool,
)
    requires
        sequence_run(values, emitted, closed, true),
        forall|a: T, b: T| #[trigger] cloned(a, b) ==> a == b,
    ensures
        closed,
        emitted == whole_run::<T, E>(values),
{
    assert(emitted.len() == values.len() + 1);
    assert forall|i: int| 0 <= i < emitted.len() implies emitted[i] == whole_run::<T, E>(
        values,
    )[i] by {
        if i < values.len() {
            assert(emitted[i] is Next);
            assert(cloned(values[i], emitted[i]->Next_0));
        } else {
            assert(emitted[values.len() as int] is Complete);
        }
    }
    assert(emitted =~= whole_run::<T, E>(values));
}

/// What a predicate leaves of values, where the predicate answers as
/// `keep` says: the values that `keep` holds of, in their order.
pub proof fn lemma_filtered_values<T, E, P: Fn(&T) -> bool>(
    predicate: P,
    keep: spec_fn(T) -> bool,
    values: Seq<T>,
    out: Seq<Notification<T, E>>,
)
    requires
        forall|value: T, answer: bool| #[trigger]
            call_ensures(predicate, (&value,), answer) ==> answer == keep(value),
        filtered(predicate, nexts::<T, E>(values), out),
    ensures
        out == nexts::<T, E>(values.filter(keep)),
    decreases values.len(),
{
    reveal(Seq::filter);
    let src = nexts::<T, E>(values);
    if values.len() == 0 {
        assert(out =~= nexts::<T, E>(values.filter(keep)));
    } else {
        let last = values.last();
        assert(src.last() == Notification::<T, E>::Next(last));
        assert(src.drop_last() =~= nexts::<T, E>(values.drop_last()));
        if call_ensures(predicate, (&last,), true) && out.len() > 0 && out.last() == src.last()
            && filtered(predicate, src.drop_last(), out.drop_last()) {
            lemma_filtered_values(predicate, keep, values.drop_last(), out.drop_last());
            assert(keep(last));
            assert(out =~= out.drop_last().push(out.last()));
            assert(nexts::<T, E>(values.drop_last().filter(keep).push(last)) =~= nexts::<T, E>(
                values.drop_last().filter(keep),
            ).push(Notification::Next(last)));
        } else {
            assert(call_ensures(predicate, (&last,), false));
            assert(!keep(last));
            lemma_filtered_values(predicate, keep, values.drop_last(), out);
        }
    }
}

/// Of a whole run a filter leaves a whole run: the values that the
/// predicate holds of, in their order, then `Complete`.
pub proof fn law_filter<T, E, P: Fn(&T) -> bool>(
    predicate: P,
    keep: spec_fn(T) -> bool,
    values: Seq<T>,
    out: Seq<Notification<T, E>>,
)
    requires
        forall|value: T, answer: bool| #[trigger]
            call_ensures(predicate, (&value,), answer) ==> answer == keep(value),
        filtered(predicate, whole_run::<T, E>(values), out),
    ensures
        out == whole_run::<T, E>(values.filter(keep)),
{
    let src = whole_run::<T, E>(values);
    assert(src.last() == Notification::<T, E>::Complete);
    assert(src.drop_last() =~= nexts::<T, E>(values));
    lemma_filtered_values(predicate, keep, values, out.drop_last());
    assert(out =~= out.drop_last().push(out.last()));
}

/// Of a whole run a map makes a whole run: the value that the transform
/// gives for each value, in order, then `Complete`.
pub proof fn law_map<T, U, E, F: Fn(T) -> U>(
    transform: F,
    image: spec_fn(T) -> U,
    values: Seq<T>,
    out: Seq<Notification<U, E>>,
)
    requires
        forall|value: T, given: U| #[trigger]
            call_ensures(transform, (value,), given) ==> given == image(value),
        images(transform, whole_run::<T, E>(values), out),
    ensures
        out == whole_run::<U, E>(values.map_values(image)),
{
    let src = whole_run::<T, E>(values);
    let wanted = whole_run::<U, E>(values.map_values(image));
    assert(out.len() == wanted.len());
    assert forall|i: int| 0 <= i < out.len() implies out[i] == wanted[i] by {
        assert(super::map::image(transform, src[i], out[i]));
        if i < values.len() {
            assert(src[i] == Notification::<T, E>::Next(values[i]));
        } else {
            assert(src[i] == Notification::<T, E>::Complete);
        }
    }
    assert(out =~= wanted);
}

} // verus!
