//! The live connection between one producer and one observer.

use vstd::prelude::*;
use super::protocol::{sound, Demand, Notification};
use super::observer::{AbstractObserver, Cleanup, Gateway, SubscriberFunction};

verus! {

/// The gateway of a subscription: it forwards what the producer pushes to the
/// observer while the subscription is open, and drops it afterwards.
///
/// The observer is held in one slot while the subscription is open. When it
/// closes the observer leaves that slot for good and is set aside, where
/// nothing reaches it any more.
pub struct SubscriptionObserver<T, E, O> {
    observer: Option<O>,
    retired: Option<O>,
    accepted: Ghost<Seq<Notification<T, E>>>,
    earlier: Ghost<Seq<Notification<T, E>>>,
}

impl<T, E, O: AbstractObserver<T, E>> SubscriptionObserver<T, E, O> {
    /// What the observer had received before it was subscribed, if it keeps
    /// a record.
    pub closed spec fn earlier(&self) -> Seq<Notification<T, E>> {
        self.earlier@
    }

    /// The observer, while the subscription is open.
    pub closed spec fn observer(&self) -> Option<O> {
        self.observer
    }

    /// The observer, once the subscription is closed.
    pub closed spec fn retired(&self) -> Option<O> {
        self.retired
    }

    /// A gateway to `observer`, which has been told of the start, through
    /// which nothing has passed yet.
    fn open(observer: O, earlier: Ghost<Seq<Notification<T, E>>>) -> (r: Self)
        requires
            observer.records() ==> observer.received() == earlier@.push(Notification::Start),
        ensures
            r.inv(),
            !r.is_closed(),
            r.is_steady() == observer.is_steady(),
            r.accepted() == Seq::<Notification<T, E>>::empty(),
            r.earlier() == earlier@,
            r.observer() == Some(observer),
    {
        SubscriptionObserver {
            observer: Some(observer),
            retired: None,
            accepted: Ghost(Seq::empty()),
            earlier,
        }
    }

    /// Takes note of what the observer has answered to `value`, which it
    /// has just been handed while it was out of the gateway: the value has
    /// passed, and the observer is held again if it wants to go on and set
    /// aside for good if it asks to unsubscribe.
    pub fn replied(&mut self, observer: O, demand: Demand, value: Ghost<T>)
        requires
            old(self).observer() is None,
            sound(old(self).accepted(), false),
            observer.records() ==> observer.received() == old(self).earlier().push(
                Notification::Start,
            ) + old(self).accepted().push(Notification::Next(value@)),
        ensures
            final(self).inv(),
            final(self).is_closed() <==> demand == Demand::Unsubscribe,
            final(self).accepted() == old(self).accepted().push(Notification::Next(value@)),
            final(self).earlier() == old(self).earlier(),
            final(self).observer() == (if demand == Demand::Continue {
                Some(observer)
            } else {
                None
            }),
            final(self).retired() == (if demand == Demand::Continue {
                None
            } else {
                Some(observer)
            }),
    {
        self.accepted = Ghost(self.accepted@.push(Notification::Next(value@)));
        match demand {
            Demand::Continue => {
                self.observer = Some(observer);
                self.retired = None;
            },
            Demand::Unsubscribe => {
                self.retired = Some(observer);
            },
        }
    }

    /// Sets the observer aside.
    fn detach(&mut self)
        requires
            old(self).inv(),
        ensures
            final(self).inv(),
            final(self).is_closed(),
            final(self).accepted() == old(self).accepted(),
            final(self).earlier() == old(self).earlier(),
            final(self).retired() == (if old(self).is_closed() {
                old(self).retired()
            } else {
                old(self).observer()
            }),
    {
        match self.observer.take() {
            None => {},
            Some(observer) => {
                self.retired = Some(observer);
            },
        }
    }

    /// The observer, wherever it is held. The record of an observer that
    /// keeps one holds what it had received before, the start, and then
    /// everything that has passed through the gateway.
    fn held(&self) -> (r: &O)
        requires
            self.inv(),
        ensures
            r.records() ==> r.received() == self.earlier().push(Notification::Start)
                + self.accepted(),
            self.observer() is Some ==> self.observer() == Some(*r),
            self.observer() is None ==> self.retired() == Some(*r),
    {
        match &self.observer {
            Some(observer) => observer,
            None => self.retired.as_ref().unwrap(),
        }
    }
}

impl<T, E, O: AbstractObserver<T, E>> Gateway<T, E> for SubscriptionObserver<T, E, O> {
    closed spec fn accepted(&self) -> Seq<Notification<T, E>> {
        self.accepted@
    }

    closed spec fn is_closed(&self) -> bool {
        self.observer is None
    }

    closed spec fn is_steady(&self) -> bool {
        self.observer is Some && self.observer->0.is_steady()
    }

    closed spec fn inv(&self) -> bool {
        &&& sound(self.accepted@, self.observer is None)
        &&& self.observer is Some <==> self.retired is None
        &&& match (self.observer, self.retired) {
            (Some(observer), _) => observer.records() ==> observer.received()
                == self.earlier@.push(Notification::Start) + self.accepted@,
            (None, Some(observer)) => observer.records() ==> observer.received()
                == self.earlier@.push(Notification::Start) + self.accepted@,
            (None, None) => true,
        }
    }

    closed spec fn follows(&self, earlier: &Self) -> bool {
        self.earlier@ == earlier.earlier@
    }

    proof fn lemma_follows_itself(&self) {
    }

    proof fn lemma_follows_on(&self, earlier: &Self, first: &Self) {
    }

    proof fn lemma_sound(&self) {
    }

    fn closed(&self) -> (r: bool) {
        self.observer.is_none()
    }

    fn next(&mut self, value: T) {
        match self.observer.take() {
            None => {},
            Some(mut observer) => {
                let ghost sent = value;
                let demand = observer.next(value);
                self.replied(observer, demand, Ghost(sent));
            },
        }
    }

    fn error(&mut self, error: E) {
        match self.observer.take() {
            None => {},
            Some(mut observer) => {
                let ghost sent = Notification::<T, E>::Error(error);
                observer.error(error);
                self.accepted = Ghost(self.accepted@.push(sent));
                self.retired = Some(observer);
            },
        }
    }

    fn complete(&mut self) {
        match self.observer.take() {
            None => {},
            Some(mut observer) => {
                observer.complete();
                self.accepted = Ghost(self.accepted@.push(Notification::Complete));
                self.retired = Some(observer);
            },
        }
    }
}

} // verus!

verus! {

/// One production run of an observable for one observer.
///
/// It is open from the moment it is made until the consumer unsubscribes, the
/// observer asks to, or the producer ends the stream. Closing is final.
///
/// The cleanup action waits in one slot while the subscription is open. When
/// the subscription closes the action leaves that slot, runs, and is set
/// aside, where nothing runs it again.
pub struct Subscription<T, E, O, A> {
    gateway: SubscriptionObserver<T, E, O>,
    cleanup: Option<A>,
    spent: Option<A>,
}

impl<T, E, O: AbstractObserver<T, E>, A: Cleanup> Subscription<T, E, O, A> {
    /// Everything the observer has received, oldest first.
    pub closed spec fn delivered(&self) -> Seq<Notification<T, E>> {
        seq![Notification::Start] + self.gateway.accepted()
    }

    /// Whether the subscription is closed.
    pub closed spec fn is_closed(&self) -> bool {
        self.gateway.is_closed()
    }

    /// Whether the subscriber function has run: then the subscription holds
    /// the cleanup action that it returned.
    pub closed spec fn subscriber_ran(&self) -> bool {
        self.cleanup is Some || self.spent is Some
    }

    /// How often the cleanup action has run, by its own count.
    pub closed spec fn cleanup_runs(&self) -> nat {
        match (self.cleanup, self.spent) {
            (Some(action), _) => action.runs(),
            (None, Some(action)) => action.runs(),
            (None, None) => 0,
        }
    }

    /// What the observer had received before it was subscribed, if it keeps
    /// a record.
    pub closed spec fn earlier(&self) -> Seq<Notification<T, E>> {
        self.gateway.earlier()
    }

    /// The subscription's invariant: the cleanup action waits exactly while
    /// the subscription is open, and has run once when a subscription whose
    /// subscriber function ran is closed.
    pub closed spec fn inv(&self) -> bool {
        &&& self.gateway.inv()
        &&& self.cleanup is Some <==> !self.gateway.is_closed()
        &&& self.cleanup is Some ==> self.spent is None && self.cleanup->0.runs() == 0
        &&& self.spent is Some ==> self.spent->0.runs() == 1
        &&& self.cleanup is None && self.spent is None ==> self.gateway.accepted().len() == 0
    }

    /// Subscribes `observer` to the stream that `subscriber` produces.
    ///
    /// The observer's `start` is called first, and what it answers decides
    /// how the subscription begins: see [`Subscription::begin`].
    pub fn new<S: SubscriberFunction<T, E, Action = A>>(observer: O, subscriber: &S) -> (r: Self)
        requires
            subscriber.valid(),
        ensures
            r.inv(),
            r.earlier() == observer.received(),
            observer.is_steady() ==> r.subscriber_ran(),
            !r.subscriber_ran() ==> r.is_closed() && r.delivered() == seq![
                Notification::<T, E>::Start,
            ],
            r.subscriber_ran() ==> r.delivered()[0] is Start && subscriber.produces(
                r.delivered().skip(1),
                r.is_closed(),
                observer.is_steady(),
            ),
    {
        let mut observer = observer;
        let ghost earlier = observer.received();
        let demand = observer.start();
        Subscription::begin(observer, demand, Ghost(earlier), subscriber)
    }

    /// Begins the subscription of `observer`, which has been told of the
    /// start and has answered `demand`.
    ///
    /// If it asked to unsubscribe, the subscription is closed and the
    /// subscriber function never runs. If it wants to go on, the subscriber
    /// function runs, and what it returns becomes the cleanup action; if the
    /// run has closed the subscription, the action runs at once.
    pub fn begin<S: SubscriberFunction<T, E, Action = A>>(
        observer: O,
        demand: Demand,
        earlier: Ghost<Seq<Notification<T, E>>>,
        subscriber: &S,
    ) -> (r: Self)
        requires
            subscriber.valid(),
            observer.records() ==> observer.received() == earlier@.push(Notification::Start),
        ensures
            r.inv(),
            r.earlier() == earlier@,
            demand == Demand::Unsubscribe ==> !r.subscriber_ran() && r.is_closed()
                && r.delivered() == seq![Notification::<T, E>::Start] && r.cleanup_runs() == 0,
            demand == Demand::Continue ==> r.subscriber_ran() && r.delivered()[0] is Start
                && subscriber.produces(
                r.delivered().skip(1),
                r.is_closed(),
                observer.is_steady(),
            ) && r.cleanup_runs() == (if r.is_closed() {
                1nat
            } else {
                0nat
            }),
    {
        let gateway = SubscriptionObserver::open(observer, earlier);
        match demand {
            Demand::Unsubscribe => {
                let mut gateway = gateway;
                gateway.detach();
                Subscription { gateway, cleanup: None, spent: None }
            },
            Demand::Continue => {
                let (gateway, action) = subscriber.produce(gateway);
                assert(gateway.accepted().skip(0) == gateway.accepted());
                assert((seq![Notification::<T, E>::Start] + gateway.accepted()).skip(1)
                    == gateway.accepted());
                if gateway.closed() {
                    let mut action = action;
                    action.run();
                    Subscription { gateway, cleanup: None, spent: Some(action) }
                } else {
                    Subscription { gateway, cleanup: Some(action), spent: None }
                }
            },
        }
    }

    /// True iff the subscription is closed.
    pub fn closed(&self) -> (r: bool)
        requires
            self.inv(),
        ensures
            r == self.is_closed(),
    {
        self.gateway.closed()
    }

    /// The observer, while the subscription is open. The record of an
    /// observer that keeps one holds what it had received before and then
    /// everything this subscription has delivered, in that order.
    pub fn observer(&self) -> (r: Option<&O>)
        requires
            self.inv(),
        ensures
            r is Some <==> !self.is_closed(),
            r is Some && r->0.records() ==> r->0.received() == self.earlier() + self.delivered(),
    {
        proof {
            assert(self.earlier().push(Notification::Start) + self.gateway.accepted()
                == self.earlier() + self.delivered());
        }
        self.gateway.observer.as_ref()
    }

    /// The observer of the subscription, be it open or closed. The record of
    /// an observer that keeps one holds what it had received before and then
    /// everything this subscription has delivered, in that order: whatever
    /// the history holds has reached the observer, and nothing else has.
    pub fn receiver(&self) -> (r: &O)
        requires
            self.inv(),
        ensures
            r.records() ==> r.received() == self.earlier() + self.delivered(),
    {
        proof {
            assert(self.earlier().push(Notification::Start) + self.gateway.accepted()
                == self.earlier() + self.delivered());
        }
        self.gateway.held()
    }

    /// The cleanup action, from when the subscriber function has returned
    /// it. Its own count of runs is that of the subscription.
    pub fn cleanup_action(&self) -> (r: Option<&A>)
        requires
            self.inv(),
        ensures
            r is Some <==> self.subscriber_ran(),
            r is Some ==> r->0.runs() == self.cleanup_runs(),
    {
        match &self.cleanup {
            Some(action) => Some(action),
            None => self.spent.as_ref(),
        }
    }

    /// Runs the cleanup action if the subscription is closed and the action
    /// is still waiting.
    fn settle(&mut self)
        requires
            old(self).gateway.inv(),
            old(self).cleanup is Some,
            old(self).cleanup->0.runs() == 0,
            old(self).spent is None,
        ensures
            final(self).inv(),
            final(self).gateway == old(self).gateway,
            final(self).subscriber_ran(),
            final(self).cleanup_runs() == (if old(self).gateway.is_closed() {
                1nat
            } else {
                0nat
            }),
    {
        if self.gateway.closed() {
            match self.cleanup.take() {
                None => {},
                Some(mut action) => {
                    action.run();
                    self.spent = Some(action);
                },
            }
        }
    }

    /// Whether `after` is a subscription as one call of `unsubscribe` may
    /// leave this one: closed, with nothing more delivered, and with the
    /// cleanup action run if it was still waiting. A closed subscription is
    /// left as it is.
    pub open spec fn unsubscribes_to(self, after: Self) -> bool {
        &&& after.inv()
        &&& after.is_closed()
        &&& after.delivered() == self.delivered()
        &&& after.earlier() == self.earlier()
        &&& after.subscriber_ran() == self.subscriber_ran()
        &&& after.cleanup_runs() == self.cleanup_runs() + (if self.is_closed() {
            0nat
        } else {
            1nat
        })
        &&& self.is_closed() ==> after == self
    }

    /// Closes the subscription: the observer is set aside, then the cleanup
    /// action runs. On a closed subscription this does nothing.
    pub fn unsubscribe(&mut self)
        requires
            old(self).inv(),
        ensures
            old(self).unsubscribes_to(*final(self)),
            final(self).cleanup_runs() == (if old(self).subscriber_ran() {
                1nat
            } else {
                0nat
            }),
    {
        if !self.gateway.closed() {
            self.gateway.detach();
            self.settle();
        }
    }

    /// Pushes a value after the subscriber function has returned. The value
    /// reaches the observer iff the subscription is open; if the observer
    /// closes the subscription in reply, the cleanup action runs.
    pub fn next(&mut self, value: T)
        requires
            old(self).inv(),
        ensures
            final(self).inv(),
            final(self).earlier() == old(self).earlier(),
            final(self).subscriber_ran() == old(self).subscriber_ran(),
            old(self).is_closed() ==> *final(self) == *old(self),
            final(self).is_closed() ==> final(self).cleanup_runs() == (if old(self).is_closed() {
                old(self).cleanup_runs()
            } else {
                1nat
            }),
            !old(self).is_closed() ==> final(self).delivered() == old(self).delivered().push(
                Notification::Next(value),
            ),
    {
        if !self.gateway.closed() {
            self.gateway.next(value);
            self.settle();
        }
    }

    /// Ends the stream with an error after the subscriber function has
    /// returned. On an open subscription the observer leaves its slot,
    /// receives the error, and the cleanup action runs; on a closed one
    /// nothing happens.
    pub fn error(&mut self, error: E)
        requires
            old(self).inv(),
        ensures
            final(self).inv(),
            final(self).is_closed(),
            final(self).earlier() == old(self).earlier(),
            final(self).subscriber_ran() == old(self).subscriber_ran(),
            old(self).is_closed() ==> *final(self) == *old(self),
            !old(self).is_closed() ==> final(self).delivered() == old(self).delivered().push(
                Notification::Error(error),
            ) && final(self).cleanup_runs() == 1,
    {
        if !self.gateway.closed() {
            self.gateway.error(error);
            self.settle();
        }
    }

    /// Ends the stream after the subscriber function has returned. On an open
    /// subscription the observer leaves its slot, is told, and the cleanup
    /// action runs; on a closed one nothing happens.
    pub fn complete(&mut self)
        requires
            old(self).inv(),
        ensures
            final(self).inv(),
            final(self).is_closed(),
            final(self).earlier() == old(self).earlier(),
            final(self).subscriber_ran() == old(self).subscriber_ran(),
            old(self).is_closed() ==> *final(self) == *old(self),
            !old(self).is_closed() ==> final(self).delivered() == old(self).delivered().push(
                Notification::Complete,
            ) && final(self).cleanup_runs() == 1,
    {
        if !self.gateway.closed() {
            self.gateway.complete();
            self.settle();
        }
    }

    /// `start` is the first notification an observer receives, and it
    /// receives it once.
    pub proof fn law_start_comes_first(self)
        requires
            self.inv(),
        ensures
            self.delivered().len() >= 1,
            self.delivered()[0] is Start,
            forall|i: int| 1 <= i < self.delivered().len() ==> !(#[trigger] self.delivered()[i] is Start),
    {
        self.gateway.lemma_sound();
        assert forall|i: int| 1 <= i < self.delivered().len() implies !(
        #[trigger] self.delivered()[i] is Start) by {
            assert(self.delivered()[i] == self.gateway.accepted()[i - 1]);
        }
    }

    /// Nothing reaches the observer after `error` or `complete`, neither a
    /// value nor a second terminal notification: only the last notification
    /// can be terminal, and the subscription is closed if it is.
    pub proof fn law_one_terminal(self)
        requires
            self.inv(),
        ensures
            forall|i: int|
                0 <= i < self.delivered().len() - 1 ==> !(#[trigger] self.delivered()[i]).is_terminal(),
            self.delivered().last().is_terminal() ==> self.is_closed(),
    {
        self.gateway.lemma_sound();
        assert forall|i: int|
            0 <= i < self.delivered().len() && (
            #[trigger] self.delivered()[i]).is_terminal() implies i == self.delivered().len() - 1
            && self.is_closed() by {
            if i >= 1 {
                assert(self.delivered()[i] == self.gateway.accepted()[i - 1]);
            }
        }
    }

    /// The cleanup action has not run while the subscription is open. Once
    /// it is closed the action has run exactly once, or never if the
    /// subscriber function never ran.
    pub proof fn law_cleanup_once(self)
        requires
            self.inv(),
        ensures
            !self.is_closed() ==> self.subscriber_ran() && self.cleanup_runs() == 0,
            self.is_closed() ==> self.cleanup_runs() == (if self.subscriber_ran() {
                1nat
            } else {
                0nat
            }),
    {
    }

    /// All but the first of `states` are one and the same.
    proof fn lemma_unsubscribed_stays(states: Seq<Self>, at: int)
        requires
            states.len() >= 2,
            forall|i: int|
                0 <= i < states.len() - 1 ==> (#[trigger] states[i]).unsubscribes_to(states[i + 1]),
            1 <= at < states.len(),
        ensures
            states[at] == states[1],
        decreases at,
    {
        if at > 1 {
            Self::lemma_unsubscribed_stays(states, at - 1);
            assert(states[at - 2].unsubscribes_to(states[at - 2 + 1]));
            assert(states[at - 1].unsubscribes_to(states[at - 1 + 1]));
        }
    }

    /// However often `unsubscribe` is called, the outcome is that of one
    /// call. Let `states` hold a subscription and how each of one or more
    /// calls of `unsubscribe` in a row leaves it: the last of them is what
    /// the first call left, it is closed, the observer has received nothing
    /// more, and the cleanup action has run once, or never if the subscriber
    /// function never ran.
    pub proof fn law_unsubscribe_idempotent(states: Seq<Self>)
        requires
            states.len() >= 2,
            states[0].inv(),
            forall|i: int|
                0 <= i < states.len() - 1 ==> (#[trigger] states[i]).unsubscribes_to(states[i + 1]),
        ensures
            states.last() == states[1],
            states.last().inv(),
            states.last().is_closed(),
            states.last().delivered() == states[0].delivered(),
            states.last().cleanup_runs() == (if states[0].subscriber_ran() {
                1nat
            } else {
                0nat
            }),
    {
        Self::lemma_unsubscribed_stays(states, states.len() - 1);
        assert(states[0].unsubscribes_to(states[1]));
        states[0].law_cleanup_once();
    }
}

} // verus!
