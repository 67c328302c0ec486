//! The stream of those values of another stream that a predicate holds of.

use vstd::prelude::*;
use core::marker::PhantomData;
use super::protocol::{sound, Notification};
use super::observer::{Gateway, SubscriberFunction};

verus! {

/// `out` is what is left of `src` when each value on which `predicate` has
/// answered `false` is taken out. The order stays, and `error` and `complete`
/// always pass.
pub open spec fn filtered<T, E, P: Fn(&T) -> bool>(
    predicate: P,
    src: Seq<Notification<T, E>>,
    out: Seq<Notification<T, E>>,
) -> bool
    decreases src.len(),
{
    if src.len() == 0 {
        out.len() == 0
    } else {
        let passed = out.len() > 0 && out.last() == src.last() && filtered(
            predicate,
            src.drop_last(),
            out.drop_last(),
        );
        match src.last() {
            Notification::Next(value) => {
                ||| call_ensures(predicate, (&value,), true) && passed
                ||| call_ensures(predicate, (&value,), false) && filtered(
                    predicate,
                    src.drop_last(),
                    out,
                )
            },
            _ => passed,
        }
    }
}

/// `filtered` goes on when an entry passes.
proof fn lemma_filtered_kept<T, E, P: Fn(&T) -> bool>(
    predicate: P,
    src: Seq<Notification<T, E>>,
    out: Seq<Notification<T, E>>,
    sent: Notification<T, E>,
)
    requires
        filtered(predicate, src, out),
        sent is Next ==> call_ensures(predicate, (&sent->Next_0,), true),
    ensures
        filtered(predicate, src.push(sent), out.push(sent)),
{
    assert(src.push(sent).drop_last() == src);
    assert(out.push(sent).drop_last() == out);
}

/// `filtered` goes on when a value is dropped.
proof fn lemma_filtered_dropped<T, E, P: Fn(&T) -> bool>(
    predicate: P,
    src: Seq<Notification<T, E>>,
    out: Seq<Notification<T, E>>,
    value: T,
)
    requires
        filtered(predicate, src, out),
        call_ensures(predicate, (&value,), false),
    ensures
        filtered(predicate, src.push(Notification::Next(value)), out),
{
    assert(src.push(Notification::<T, E>::Next(value)).drop_last() == src);
}

/// The subscriber function of a filtered observable: it runs the source's
/// subscriber function on a gateway that forwards a value only where the
/// predicate holds of it, and forwards `error` and `complete` as they are.
/// The filtered stream shares the subscription of its source, so the source's
/// cleanup action is its own.
pub struct Filtered<T, S, P> {
    source: S,
    predicate: P,
    input: PhantomData<T>,
}

impl<T, S, P> Filtered<T, S, P> {
    /// The subscriber function of the source.
    pub closed spec fn source(&self) -> S {
        self.source
    }

    /// The predicate that decides which values pass.
    pub closed spec fn predicate(&self) -> P {
        self.predicate
    }

    /// The subscriber function that lets pass what `source` produces and
    /// `predicate` holds of.
    pub fn new(source: S, predicate: P) -> (r: Self)
        ensures
            r.source() == source,
            r.predicate() == predicate,
    {
        Filtered { source, predicate, input: PhantomData }
    }
}

/// The gateway that a filtered observable hands to its source.
pub struct FilterGateway<'a, T, E, G, P> {
    inner: G,
    predicate: &'a P,
    log: Ghost<Seq<Notification<T, E>>>,
    base: Ghost<Seq<Notification<T, E>>>,
}

impl<'a, T, E, G: Gateway<T, E>, P: Fn(&T) -> bool> Gateway<T, E> for FilterGateway<'a, T, E, G, P> {
    closed spec fn accepted(&self) -> Seq<Notification<T, E>> {
        self.log@
    }

    closed spec fn is_closed(&self) -> bool {
        self.inner.is_closed()
    }

    closed spec fn is_steady(&self) -> bool {
        self.inner.is_steady()
    }

    closed spec fn inv(&self) -> bool {
        &&& self.inner.inv()
        &&& forall|value: T| call_requires(*self.predicate, (&value,))
        &&& self.base@.is_prefix_of(self.inner.accepted())
        &&& filtered(
            *self.predicate,
            self.log@,
            self.inner.accepted().skip(self.base@.len() as int),
        )
        &&& sound(self.log@, self.inner.is_closed())
    }

    closed spec fn follows(&self, earlier: &Self) -> bool {
        &&& self.base@ == earlier.base@
        &&& *self.predicate == *earlier.predicate
        &&& self.inner.follows(&earlier.inner)
    }

    proof fn lemma_follows_itself(&self) {
        self.inner.lemma_follows_itself();
    }

    proof fn lemma_follows_on(&self, earlier: &Self, first: &Self) {
        self.inner.lemma_follows_on(&earlier.inner, &first.inner);
    }

    proof fn lemma_sound(&self) {
        self.inner.lemma_sound();
    }

    fn closed(&self) -> (r: bool) {
        self.inner.closed()
    }

    fn next(&mut self, value: T) {
        proof {
            self.inner.lemma_sound();
        }
        if !self.inner.closed() {
            let ghost reached = self.inner.accepted();
            let ghost sent = Notification::<T, E>::Next(value);
            if (self.predicate)(&value) {
                self.inner.next(value);
                proof {
                    lemma_filtered_kept(
                        *self.predicate,
                        self.log@,
                        reached.skip(self.base@.len() as int),
                        sent,
                    );
                    assert(self.inner.accepted().skip(self.base@.len() as int) == reached.skip(
                        self.base@.len() as int,
                    ).push(sent));
                }
            } else {
                proof {
                    self.inner.lemma_follows_itself();
                    lemma_filtered_dropped(
                        *self.predicate,
                        self.log@,
                        reached.skip(self.base@.len() as int),
                        value,
                    );
                }
            }
            self.log = Ghost(self.log@.push(sent));
        } else {
            proof {
                self.inner.lemma_follows_itself();
            }
        }
    }

    fn error(&mut self, error: E) {
        if !self.inner.closed() {
            let ghost reached = self.inner.accepted();
            let ghost sent = Notification::<T, E>::Error(error);
            self.inner.error(error);
            proof {
                lemma_filtered_kept(
                    *self.predicate,
                    self.log@,
                    reached.skip(self.base@.len() as int),
                    sent,
                );
                assert(self.inner.accepted().skip(self.base@.len() as int) == reached.skip(
                    self.base@.len() as int,
                ).push(sent));
            }
            self.log = Ghost(self.log@.push(sent));
        } else {
            proof {
                self.inner.lemma_follows_itself();
            }
        }
    }

    fn complete(&mut self) {
        if !self.inner.closed() {
            let ghost reached = self.inner.accepted();
            let ghost sent = Notification::<T, E>::Complete;
            self.inner.complete();
            proof {
                lemma_filtered_kept(
                    *self.predicate,
                    self.log@,
                    reached.skip(self.base@.len() as int),
                    sent,
                );
                assert(self.inner.accepted().skip(self.base@.len() as int) == reached.skip(
                    self.base@.len() as int,
                ).push(sent));
            }
            self.log = Ghost(self.log@.push(sent));
        } else {
            proof {
                self.inner.lemma_follows_itself();
            }
        }
    }
}

impl<T, E, S: SubscriberFunction<T, E>, P: Fn(&T) -> bool> SubscriberFunction<T, E> for Filtered<
    T,
    S,
    P,
> {
    type Action = S::Action;

    /// The source can be called, and the predicate takes every value.
    open spec fn valid(&self) -> bool {
        &&& self.source().valid()
        &&& forall|value: T| call_requires(self.predicate(), (&value,))
    }

    /// A run of the filtered stream is what the predicate leaves of a run of
    /// the source.
    open spec fn produces(
        &self,
        emitted: Seq<Notification<T, E>>,
        closed: bool,
        steady: bool,
    ) -> bool {
        exists|src: Seq<Notification<T, E>>|
            #[trigger] self.source().produces(src, closed, steady) && filtered(
                self.predicate(),
                src,
                emitted,
            )
    }

    fn produce<G: Gateway<T, E>>(&self, gateway: G) -> (r: (G, S::Action)) {
        let ghost before = gateway.accepted();
        proof {
            gateway.lemma_sound();
            assert(gateway.accepted().skip(before.len() as int) == Seq::<
                Notification<T, E>,
            >::empty());
            assert(self.predicate() == self.predicate);
        }
        let filtering = FilterGateway {
            inner: gateway,
            predicate: &self.predicate,
            log: Ghost(Seq::empty()),
            base: Ghost(before),
        };
        let (filtering, action) = self.source.produce(filtering);
        proof {
            assert(filtering.log@.skip(0) =~= filtering.log@);
        }
        (filtering.inner, action)
    }
}

} // verus!
