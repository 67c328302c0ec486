//! The stream of a finite sequence of values.

use vstd::prelude::*;
use vstd::pervasive::cloned;
use super::protocol::{extends, Notification};
use super::observer::{Gateway, NoCleanup, SubscriberFunction};

verus! {

/// The subscriber function of an observable made from a sequence: each run
/// pushes the values in order, looks after each one whether the subscription
/// is closed, and completes the stream if it is still open at the end.
pub struct Sequence<T> {
    values: Vec<T>,
}

/// A run over `values`: copies of a leading part of the values, in order, and
/// after all of them `Complete`. At least one notification passes, the run
/// leaves the gateway closed, and it stops short only where the observer has
/// closed the subscription: with a steady observer it ends with `Complete`.
pub open spec fn sequence_run<T: Clone, E>(
    values: Seq<T>,
    emitted: Seq<Notification<T, E>>,
    closed: bool,
    steady: bool,
) -> bool {
    &&& closed
    &&& steady ==> emitted.len() == values.len() + 1
    &&& 1 <= emitted.len() <= values.len() + 1
    &&& forall|i: int|
        0 <= i < emitted.len() && i < values.len() ==> (#[trigger] emitted[i]) is Next && cloned(
            values[i],
            emitted[i]->Next_0,
        )
    &&& emitted.len() == values.len() + 1 ==> emitted[values.len() as int] is Complete
}

impl<T> Sequence<T> {
    /// The values of the sequence.
    pub closed spec fn values(&self) -> Seq<T> {
        self.values@
    }

    /// The subscriber function that produces `values`.
    pub fn new(values: Vec<T>) -> (r: Self)
        ensures
            r.values() == values@,
    {
        Sequence { values }
    }
}

impl<T: Clone, E> SubscriberFunction<T, E> for Sequence<T> {
    type Action = NoCleanup;

    open spec fn valid(&self) -> bool {
        true
    }

    open spec fn produces(
        &self,
        emitted: Seq<Notification<T, E>>,
        closed: bool,
        steady: bool,
    ) -> bool {
        sequence_run(self.values(), emitted, closed, steady)
    }

    fn produce<G: Gateway<T, E>>(&self, gateway: G) -> (r: (G, NoCleanup)) {
        let ghost before = gateway.accepted();
        proof {
            gateway.lemma_follows_itself();
        }
        let mut current = gateway;
        let mut i: usize = 0;
        while i < self.values.len()
            invariant
                0 <= i <= self.values.len(),
                before == gateway.accepted(),
                current.follows(&gateway),
                current.inv(),
                !current.is_closed(),
                gateway.is_steady() ==> current.is_steady(),
                before.is_prefix_of(current.accepted()),
                current.accepted().len() == before.len() + i,
                forall|j: int|
                    0 <= j < i ==> (#[trigger] current.accepted()[before.len() + j]) is Next
                        && cloned(self.values@[j], current.accepted()[before.len() + j]->Next_0),
            decreases self.values.len() - i,
        {
            let ghost reached = current.accepted();
            let ghost earlier = current;
            let value = self.values[i].clone();
            current.next(value);
            i += 1;
            proof {
                current.lemma_follows_on(&earlier, &gateway);
                assert(current.accepted() == reached.push(Notification::Next(value)));
                assert forall|j: int| 0 <= j < i implies (#[trigger] current.accepted()[before.len()
                    + j]) is Next && cloned(
                    self.values@[j],
                    current.accepted()[before.len() + j]->Next_0,
                ) by {
                    if j < i - 1 {
                        assert(current.accepted()[before.len() + j] == reached[before.len() + j]);
                    }
                }
            }
            if current.closed() {
                proof {
                    lemma_run_of_prefix::<T, E>(
                        self.values@,
                        before,
                        current.accepted(),
                        i as int,
                        false,
                    );
                }
                return (current, NoCleanup::new());
            }
        }
        let ghost reached = current.accepted();
        let ghost earlier = current;
        current.complete();
        proof {
            current.lemma_follows_on(&earlier, &gateway);
            assert(current.accepted() == reached.push(Notification::Complete));
            assert forall|j: int| 0 <= j < i implies (#[trigger] current.accepted()[before.len()
                + j]) is Next && cloned(
                self.values@[j],
                current.accepted()[before.len() + j]->Next_0,
            ) by {
                assert(current.accepted()[before.len() + j] == reached[before.len() + j]);
            }
            lemma_run_of_prefix::<T, E>(
                self.values@,
                before,
                current.accepted(),
                i as int,
                gateway.is_steady(),
            );
        }
        (current, NoCleanup::new())
    }
}

/// What has passed through a gateway since `before` is a run over `values`,
/// where `sent` values were pushed and, if one more notification passed, it
/// was `Complete` after the last value.
proof fn lemma_run_of_prefix<T: Clone, E>(
    values: Seq<T>,
    before: Seq<Notification<T, E>>,
    after: Seq<Notification<T, E>>,
    sent: int,
    steady: bool,
)
    requires
        steady ==> after.len() == before.len() + values.len() + 1,
        0 <= sent <= values.len(),
        before.is_prefix_of(after),
        after.len() == before.len() + sent || (sent == values.len() && after.len() == before.len()
            + sent + 1 && after.last() is Complete),
        after.len() > before.len(),
        forall|j: int|
            0 <= j < sent ==> (#[trigger] after[before.len() + j]) is Next && cloned(
                values[j],
                after[before.len() + j]->Next_0,
            ),
    ensures
        sequence_run(values, after.skip(before.len() as int), true, steady),
        extends(before, false, after, true),
{
    let emitted = after.skip(before.len() as int);
    assert forall|i: int| 0 <= i < emitted.len() && i < values.len() implies (
    #[trigger] emitted[i]) is Next && cloned(values[i], emitted[i]->Next_0) by {
        assert(emitted[i] == after[before.len() + i]);
    }
}

/// Every run over a sequence that the observer lets run to the end
/// delivers the same: a copy of each value, in order, then `Complete`. A run
/// leaves nothing behind that a later run could see. A steady observer lets
/// every run run to the end.
pub proof fn law_sequence_restartable<T: Clone, E>(
    values: Seq<T>,
    first: Seq<Notification<T, E>>,
    first_closed: bool,
    first_steady: bool,
    second: Seq<Notification<T, E>>,
    second_closed: bool,
    second_steady: bool,
)
    requires
        sequence_run(values, first, first_closed, first_steady),
        sequence_run(values, second, second_closed, second_steady),
        first_steady || first.last() is Complete,
        second_steady || second.last() is Complete,
    ensures
        first.len() == values.len() + 1,
        second.len() == values.len() + 1,
        first.last() is Complete,
        second.last() is Complete,
        forall|i: int|
            0 <= i < values.len() ==> (#[trigger] first[i]) is Next && cloned(
                values[i],
                first[i]->Next_0,
            ),
        forall|i: int|
            0 <= i < values.len() ==> (#[trigger] second[i]) is Next && cloned(
                values[i],
                second[i]->Next_0,
            ),
{
    assert(first[first.len() - 1] is Complete || first_steady);
    assert(second[second.len() - 1] is Complete || second_steady);
}

} // verus!
