//! The stream of another stream's values, each passed through a function.

use vstd::prelude::*;
use core::marker::PhantomData;
use super::protocol::{sound, Notification};
use super::observer::{Gateway, SubscriberFunction};

verus! {

/// `out` is what `src` becomes when `transform` is applied to its value:
/// `Next` carries a result of the function, everything else is unchanged.
pub open spec fn image<T, U, E, F: Fn(T) -> U>(
    transform: F,
    src: Notification<T, E>,
    out: Notification<U, E>,
) -> bool {
    match src {
        Notification::Start => out is Start,
        Notification::Next(value) => out is Next && call_ensures(
            transform,
            (value,),
            out->Next_0,
        ),
        Notification::Error(error) => out is Error && out->Error_0 == error,
        Notification::Complete => out is Complete,
    }
}

/// `out` is `src` with `transform` applied to each value, entry by entry.
pub open spec fn images<T, U, E, F: Fn(T) -> U>(
    transform: F,
    src: Seq<Notification<T, E>>,
    out: Seq<Notification<U, E>>,
) -> bool {
    &&& src.len() == out.len()
    &&& forall|i: int| 0 <= i < src.len() ==> image(transform, #[trigger] src[i], out[i])
}

/// The subscriber function of a mapped observable: it runs the source's
/// subscriber function on a gateway that applies the transform to every value
/// before it forwards it, and forwards `error` and `complete` as they are.
/// The mapped stream shares the subscription of its source, so the source's
/// cleanup action is its own.
pub struct Mapped<T, S, F> {
    source: S,
    transform: F,
    input: PhantomData<T>,
}

impl<T, S, F> Mapped<T, S, F> {
    /// The subscriber function of the source.
    pub closed spec fn source(&self) -> S {
        self.source
    }

    /// The function applied to each value.
    pub closed spec fn transform(&self) -> F {
        self.transform
    }

    /// The subscriber function that maps what `source` produces by
    /// `transform`.
    pub fn new(source: S, transform: F) -> (r: Self)
        ensures
            r.source() == source,
            r.transform() == transform,
    {
        Mapped { source, transform, input: PhantomData }
    }
}

/// The gateway that a mapped observable hands to its source.
pub struct MapGateway<'a, T, U, E, G, F> {
    inner: G,
    transform: &'a F,
    log: Ghost<Seq<Notification<T, E>>>,
    base: Ghost<Seq<Notification<U, E>>>,
}

impl<'a, T, U, E, G: Gateway<U, E>, F: Fn(T) -> U> Gateway<T, E> for MapGateway<'a, T, U, E, G, F> {
    closed spec fn accepted(&self) -> Seq<Notification<T, E>> {
        self.log@
    }

    closed spec fn is_closed(&self) -> bool {
        self.inner.is_closed()
    }

    closed spec fn is_steady(&self) -> bool {
        self.inner.is_steady()
    }

    closed spec fn inv(&self) -> bool {
        &&& self.inner.inv()
        &&& forall|value: T| call_requires(*self.transform, (value,))
        &&& self.base@.is_prefix_of(self.inner.accepted())
        &&& images(*self.transform, self.log@, self.inner.accepted().skip(self.base@.len() as int))
        &&& sound(self.log@, self.inner.is_closed())
    }

    closed spec fn follows(&self, earlier: &Self) -> bool {
        &&& self.base@ == earlier.base@
        &&& *self.transform == *earlier.transform
        &&& self.inner.follows(&earlier.inner)
    }

    proof fn lemma_follows_itself(&self) {
        self.inner.lemma_follows_itself();
    }

    proof fn lemma_follows_on(&self, earlier: &Self, first: &Self) {
        self.inner.lemma_follows_on(&earlier.inner, &first.inner);
    }

    proof fn lemma_sound(&self) {
        self.inner.lemma_sound();
    }

    fn closed(&self) -> (r: bool) {
        self.inner.closed()
    }

    fn next(&mut self, value: T) {
        proof {
            self.inner.lemma_sound();
        }
        if !self.inner.closed() {
            let ghost reached = self.inner.accepted();
            let ghost sent = Notification::<T, E>::Next(value);
            let mapped = (self.transform)(value);
            self.inner.next(mapped);
            self.log = Ghost(self.log@.push(sent));
            proof {
                lemma_images_push(
                    *self.transform,
                    old(self).log@,
                    reached.skip(self.base@.len() as int),
                    sent,
                    Notification::Next(mapped),
                );
                assert(self.inner.accepted().skip(self.base@.len() as int) == reached.skip(
                    self.base@.len() as int,
                ).push(Notification::Next(mapped)));
            }
        } else {
            proof {
                self.inner.lemma_follows_itself();
            }
        }
    }

    fn error(&mut self, error: E) {
        if !self.inner.closed() {
            let ghost reached = self.inner.accepted();
            let ghost sent = Notification::<T, E>::Error(error);
            let ghost passed = Notification::<U, E>::Error(error);
            self.inner.error(error);
            self.log = Ghost(self.log@.push(sent));
            proof {
                lemma_images_push(
                    *self.transform,
                    old(self).log@,
                    reached.skip(self.base@.len() as int),
                    sent,
                    passed,
                );
                assert(self.inner.accepted().skip(self.base@.len() as int) == reached.skip(
                    self.base@.len() as int,
                ).push(passed));
            }
        } else {
            proof {
                self.inner.lemma_follows_itself();
            }
        }
    }

    fn complete(&mut self) {
        if !self.inner.closed() {
            let ghost reached = self.inner.accepted();
            self.inner.complete();
            self.log = Ghost(self.log@.push(Notification::Complete));
            proof {
                lemma_images_push(
                    *self.transform,
                    old(self).log@,
                    reached.skip(self.base@.len() as int),
                    Notification::<T, E>::Complete,
                    Notification::<U, E>::Complete,
                );
                assert(self.inner.accepted().skip(self.base@.len() as int) == reached.skip(
                    self.base@.len() as int,
                ).push(Notification::Complete));
            }
        } else {
            proof {
                self.inner.lemma_follows_itself();
            }
        }
    }
}

/// `images` goes on when both sides gain an entry and its image.
proof fn lemma_images_push<T, U, E, F: Fn(T) -> U>(
    transform: F,
    src: Seq<Notification<T, E>>,
    out: Seq<Notification<U, E>>,
    sent: Notification<T, E>,
    passed: Notification<U, E>,
)
    requires
        images(transform, src, out),
        image(transform, sent, passed),
    ensures
        images(transform, src.push(sent), out.push(passed)),
{
    assert forall|i: int| 0 <= i < src.push(sent).len() implies image(
        transform,
        #[trigger] src.push(sent)[i],
        out.push(passed)[i],
    ) by {
        if i < src.len() {
            assert(src.push(sent)[i] == src[i]);
            assert(out.push(passed)[i] == out[i]);
        }
    }
}

impl<T, U, E, S: SubscriberFunction<T, E>, F: Fn(T) -> U> SubscriberFunction<U, E> for Mapped<T, S, F> {
    type Action = S::Action;

    /// The source can be called, and the transform takes every value.
    open spec fn valid(&self) -> bool {
        &&& self.source().valid()
        &&& forall|value: T| call_requires(self.transform(), (value,))
    }

    /// A run of the mapped stream is the image of a run of the source.
    open spec fn produces(
        &self,
        emitted: Seq<Notification<U, E>>,
        closed: bool,
        steady: bool,
    ) -> bool {
        exists|src: Seq<Notification<T, E>>|
            #[trigger] self.source().produces(src, closed, steady) && images(
                self.transform(),
                src,
                emitted,
            )
    }

    fn produce<G: Gateway<U, E>>(&self, gateway: G) -> (r: (G, S::Action)) {
        let ghost before = gateway.accepted();
        proof {
            gateway.lemma_sound();
            assert(gateway.accepted().skip(before.len() as int) == Seq::<
                Notification<U, E>,
            >::empty());
            assert(self.transform() == self.transform);
        }
        let mapping = MapGateway {
            inner: gateway,
            transform: &self.transform,
            log: Ghost(Seq::empty()),
            base: Ghost(before),
        };
        let (mapping, action) = self.source.produce(mapping);
        proof {
            assert(mapping.log@.skip(0) =~= mapping.log@);
        }
        (mapping.inner, action)
    }
}

} // verus!
