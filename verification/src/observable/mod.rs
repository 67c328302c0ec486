//! Push-based data sources.
//!
//! An [`Observable`] is a lazy, restartable template of a stream: nothing is
//! produced until an observer subscribes, and every subscription is a
//! production run of its own. A [`Subscription`] is open until the consumer
//! unsubscribes, the observer asks to, or the producer ends the stream with
//! `error` or `complete`; once closed it stays closed, nothing reaches the
//! observer any more, and the cleanup action that the producer registered
//! has run exactly once.
//!
//! # The parties
//!
//! - An observer implements [`AbstractObserver`]: `start`, `next`, `error`
//!   and `complete`. `start` and `next` answer with a [`Demand`]: to go on,
//!   or to unsubscribe on the spot. [`Observer`] is an observer made of up
//!   to four callbacks, [`Recorder`] one that keeps what it receives.
//! - A producer implements [`SubscriberFunction`]: it is handed the
//!   [`Gateway`] of a subscription, pushes through it, and hands it back
//!   with the [`Cleanup`] action of the run. The gateway is the one place
//!   where a notification passes from producer to observer, and it lets
//!   nothing pass once the subscription is closed.
//! - A subscription owns its observer and its cleanup action, and keeps
//!   both when it closes: the observer where nothing reaches it any more,
//!   the action where nothing runs it again. Whoever holds the subscription
//!   holds it alone, so two parties can never close it at the same time; a
//!   program that shares one puts it behind a lock.
//!
//! # What is proved
//!
//! Every subscription keeps the history of what has passed through its
//! gateway, [`Subscription::delivered`], and the contracts and laws speak
//! of it: `start` comes first and once, at most one terminal notification
//! is delivered and nothing after it, and a closed subscription is silent.
//! An observer that keeps a record holds exactly that history, while the
//! subscription is open and after it has closed
//! ([`Subscription::receiver`]); of an observer that keeps none, the
//! history says what it has been handed and nothing is known of what it
//! made of it. A cleanup action counts its own runs, and
//! [`Subscription::cleanup_runs`] is that count: none while the
//! subscription is open, one once it is closed. [`laws`] says what a
//! sequence delivers, and what `filter` and `map` make of it.

pub mod protocol;
pub mod observer;
pub mod subscription;
pub mod sequence;
pub mod map;
pub mod filter;
pub mod callbacks;
pub mod recorder;
pub mod laws;

use vstd::prelude::*;
use core::marker::PhantomData;

pub use protocol::{Call, Channel, Demand, Notification};
pub use observer::{AbstractObserver, Cleanup, Gateway, NoCleanup, SubscriberFunction};
pub use subscription::{Subscription, SubscriptionObserver};
pub use sequence::Sequence;
pub use map::Mapped;
pub use filter::Filtered;
pub use callbacks::Observer;
pub use recorder::Recorder;

verus! {

/// A template of a stream: it holds the subscriber function and nothing else,
/// so every subscription is a production run of its own.
pub struct Observable<T, E, S> {
    subscriber: S,
    kind: PhantomData<(T, E)>,
}

impl<T, E, S: SubscriberFunction<T, E>> Observable<T, E, S> {
    /// The subscriber function.
    pub closed spec fn subscriber(&self) -> S {
        self.subscriber
    }

    /// The observable whose runs `subscriber` produces. Nothing is produced
    /// yet.
    pub fn new(subscriber: S) -> (r: Self)
        ensures
            r.subscriber() == subscriber,
    {
        Observable { subscriber, kind: PhantomData }
    }

    /// Starts a production run for `observer`: `start` is called first, then,
    /// unless it asked to unsubscribe, the subscriber function runs.
    pub fn subscribe<O: AbstractObserver<T, E>>(&self, observer: O) -> (r: Subscription<
        T,
        E,
        O,
        S::Action,
    >)
        requires
            self.subscriber().valid(),
        ensures
            r.inv(),
            r.earlier() == observer.received(),
            observer.is_steady() ==> r.subscriber_ran(),
            !r.subscriber_ran() ==> r.is_closed() && r.delivered() == seq![
                Notification::<T, E>::Start,
            ],
            r.subscriber_ran() ==> r.delivered()[0] is Start && self.subscriber().produces(
                r.delivered().skip(1),
                r.is_closed(),
                observer.is_steady(),
            ),
    {
        Subscription::new(observer, &self.subscriber)
    }

    /// The observable of this one's values, each passed through `transform`.
    pub fn map<U, F: Fn(T) -> U>(self, transform: F) -> (r: Observable<U, E, Mapped<T, S, F>>)
        ensures
            r.subscriber().source() == self.subscriber(),
            r.subscriber().transform() == transform,
            r.subscriber().valid() <==> self.subscriber().valid() && forall|value: T|
                call_requires(transform, (value,)),
    {
        Observable { subscriber: Mapped::new(self.subscriber, transform), kind: PhantomData }
    }

    /// The observable of those of this one's values that `predicate` holds
    /// of.
    pub fn filter<P: Fn(&T) -> bool>(self, predicate: P) -> (r: Observable<
        T,
        E,
        Filtered<T, S, P>,
    >)
        ensures
            r.subscriber().source() == self.subscriber(),
            r.subscriber().predicate() == predicate,
            r.subscriber().valid() <==> self.subscriber().valid() && forall|value: T|
                call_requires(predicate, (&value,)),
    {
        Observable { subscriber: Filtered::new(self.subscriber, predicate), kind: PhantomData }
    }
}

impl<T: Clone, E> Observable<T, E, Sequence<T>> {
    /// The observable that emits `values` in order and then completes. Each
    /// subscription starts again at the first value.
    pub fn from_sequence(values: Vec<T>) -> (r: Self)
        ensures
            r.subscriber().values() == values@,
            SubscriberFunction::<T, E>::valid(&r.subscriber()),
    {
        Observable { subscriber: Sequence::new(values), kind: PhantomData }
    }
}

} // verus!
