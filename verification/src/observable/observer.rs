//! The capabilities that the parties of a subscription offer each other.

use vstd::prelude::*;
use super::protocol::{after, extends, sound, Call, Channel, Demand, Notification};

verus! {

/// What a consumer must offer to receive notifications.
///
/// `start` is called once, before anything else. `next` is called for each
/// value, in the order of production. `error` and `complete` are terminal: at
/// most one of them is called, once, and nothing follows it. A callback that
/// returns [`Demand::Unsubscribe`] closes the subscription on the spot.
///
/// An observer may keep a record of what it receives. Of one that does, each
/// callback adds its notification to the record; of one that keeps none,
/// nothing is asked. An observer may also be known never to ask to
/// unsubscribe: of such a one `start` and `next` answer `Continue`.
pub trait AbstractObserver<T, E> {
    /// Whether the observer keeps a record of what it receives.
    open spec fn records(&self) -> bool {
        false
    }

    /// Whether the observer is known never to ask to unsubscribe.
    open spec fn is_steady(&self) -> bool {
        false
    }

    /// The record of an observer that keeps one: what it has received,
    /// oldest first.
    open spec fn received(&self) -> Seq<Notification<T, E>> {
        Seq::empty()
    }

    /// Told once, before anything else, that the subscription is made.
    fn start(&mut self) -> (demand: Demand)
        ensures
            final(self).is_steady() == old(self).is_steady(),
            old(self).is_steady() ==> demand == Demand::Continue,
            final(self).records() == old(self).records(),
            old(self).records() ==> final(self).received() == old(self).received().push(
                Notification::Start,
            ),
    ;

    /// Handed the next value of the stream.
    fn next(&mut self, value: T) -> (demand: Demand)
        ensures
            final(self).is_steady() == old(self).is_steady(),
            old(self).is_steady() ==> demand == Demand::Continue,
            final(self).records() == old(self).records(),
            old(self).records() ==> final(self).received() == old(self).received().push(
                Notification::Next(value),
            ),
    ;

    /// Told that the stream has failed. Nothing follows.
    fn error(&mut self, error: E)
        ensures
            final(self).is_steady() == old(self).is_steady(),
            final(self).records() == old(self).records(),
            old(self).records() ==> final(self).received() == old(self).received().push(
                Notification::Error(error),
            ),
    ;

    /// Told that the stream has ended. Nothing follows.
    fn complete(&mut self)
        ensures
            final(self).is_steady() == old(self).is_steady(),
            final(self).records() == old(self).records(),
            old(self).records() ==> final(self).received() == old(self).received().push(
                Notification::Complete,
            ),
    ;
}

/// An action that releases what a production run holds. A subscription runs
/// it once, when it closes.
///
/// An action counts how often it has run, so that whoever holds it can tell
/// that it has.
pub trait Cleanup {
    /// How often the action has run. An action says here how it counts;
    /// one that says nothing cannot be shown to run.
    open spec fn runs(&self) -> nat {
        0
    }

    /// Releases what the run holds.
    fn run(&mut self)
        ensures
            final(self).runs() == old(self).runs() + 1,
    ;
}

/// The cleanup action of a producer that holds nothing.
pub struct NoCleanup {
    runs: Ghost<nat>,
}

impl NoCleanup {
    /// An action that has not run.
    pub fn new() -> (r: Self)
        ensures
            r.runs() == 0,
    {
        NoCleanup { runs: Ghost(0) }
    }
}

impl Cleanup for NoCleanup {
    closed spec fn runs(&self) -> nat {
        self.runs@
    }

    fn run(&mut self) {
        self.runs = Ghost(self.runs@ + 1);
    }
}

/// The producer's side of a subscription: the one place where notifications
/// pass from producer code to the observer, guarded by the closed state.
pub trait Gateway<T, E>: Sized {
    /// The notifications that have passed through, oldest first.
    spec fn accepted(&self) -> Seq<Notification<T, E>>;

    /// Whether the subscription is closed.
    spec fn is_closed(&self) -> bool;

    /// Whether the subscription is open and its observer is known never to
    /// ask to unsubscribe: then a value does not close it.
    spec fn is_steady(&self) -> bool;

    /// The gateway's invariant.
    spec fn inv(&self) -> bool;

    /// Whether this is a later state of the gateway that `earlier` is a state
    /// of.
    spec fn follows(&self, earlier: &Self) -> bool;

    /// A gateway follows itself.
    proof fn lemma_follows_itself(&self)
        ensures
            self.follows(self),
    ;

    /// What follows a later state follows the earlier one.
    proof fn lemma_follows_on(&self, earlier: &Self, first: &Self)
        requires
            self.follows(earlier),
            earlier.follows(first),
        ensures
            self.follows(first),
    ;

    /// The channel of the gateway.
    open spec fn channel(&self) -> Channel<T, E> {
        Channel { accepted: self.accepted(), closed: self.is_closed() }
    }

    /// A valid gateway holds a sound history, and a steady one is open.
    proof fn lemma_sound(&self)
        requires
            self.inv(),
        ensures
            sound(self.accepted(), self.is_closed()),
            self.is_steady() ==> !self.is_closed(),
    ;

    /// True iff the subscription is closed.
    fn closed(&self) -> (r: bool)
        requires
            self.inv(),
        ensures
            r == self.is_closed(),
    ;

    /// Hands `value` to the observer, unless the subscription is closed: then
    /// the value is dropped. The observer may close the subscription in reply.
    fn next(&mut self, value: T)
        requires
            old(self).inv(),
        ensures
            final(self).inv(),
            final(self).follows(old(self)),
            old(self).is_closed() ==> *final(self) == *old(self),
            !old(self).is_closed() ==> final(self).accepted() == old(self).accepted().push(
                Notification::Next(value),
            ),
            old(self).is_steady() ==> final(self).is_steady() && !final(self).is_closed(),
            final(self).channel() == after(
                old(self).channel(),
                Call::Next(value, if final(self).is_closed() {
                    Demand::Unsubscribe
                } else {
                    Demand::Continue
                }),
            ),
    ;

    /// Closes the subscription and hands `error` to the observer, unless the
    /// subscription is closed already: then the error is dropped.
    fn error(&mut self, error: E)
        requires
            old(self).inv(),
        ensures
            final(self).inv(),
            final(self).follows(old(self)),
            final(self).is_closed(),
            old(self).is_closed() ==> *final(self) == *old(self),
            !old(self).is_closed() ==> final(self).accepted() == old(self).accepted().push(
                Notification::Error(error),
            ),
            final(self).channel() == after(old(self).channel(), Call::Error(error)),
    ;

    /// Closes the subscription and tells the observer that the stream has
    /// ended, unless the subscription is closed already.
    fn complete(&mut self)
        requires
            old(self).inv(),
        ensures
            final(self).inv(),
            final(self).follows(old(self)),
            final(self).is_closed(),
            old(self).is_closed() ==> *final(self) == *old(self),
            !old(self).is_closed() ==> final(self).accepted() == old(self).accepted().push(
                Notification::Complete,
            ),
            final(self).channel() == after(old(self).channel(), Call::Complete),
    ;
}

/// The function of an observable that produces its stream: it pushes
/// notifications through the gateway it is given, and hands the gateway back
/// together with the cleanup action of the run, which has not run yet.
pub trait SubscriberFunction<T, E> {
    /// The cleanup action of a production run.
    type Action: Cleanup;

    /// Whether the function can be called.
    open spec fn valid(&self) -> bool {
        true
    }

    /// The runs this function may produce on a gateway that is open at the
    /// start: `emitted` is what passed through, `closed` is how the gateway
    /// stands when the function returns, and `steady` tells whether the
    /// observer was known never to ask to unsubscribe.
    open spec fn produces(
        &self,
        emitted: Seq<Notification<T, E>>,
        closed: bool,
        steady: bool,
    ) -> bool {
        true
    }

    /// Runs the production on an open gateway.
    fn produce<G: Gateway<T, E>>(&self, gateway: G) -> (r: (G, Self::Action))
        requires
            self.valid(),
            gateway.inv(),
            !gateway.is_closed(),
        ensures
            r.0.inv(),
            r.0.follows(&gateway),
            extends(gateway.accepted(), false, r.0.accepted(), r.0.is_closed()),
            self.produces(
                r.0.accepted().skip(gateway.accepted().len() as int),
                r.0.is_closed(),
                gateway.is_steady(),
            ),
            r.1.runs() == 0,
    ;
}

} // verus!
