//! An observer that keeps what it receives.

use vstd::prelude::*;
use super::protocol::{Demand, Notification};
use super::observer::AbstractObserver;

verus! {

/// An observer that keeps every notification it receives, in order, and
/// never asks to unsubscribe.
pub struct Recorder<T, E> {
    notifications: Vec<Notification<T, E>>,
}

impl<T, E> Recorder<T, E> {
    /// What the recorder has received so far.
    pub closed spec fn record(&self) -> Seq<Notification<T, E>> {
        self.notifications@
    }

    /// A recorder that has received nothing.
    pub fn new() -> (r: Self)
        ensures
            r.record() == Seq::<Notification<T, E>>::empty(),
    {
        Recorder { notifications: Vec::new() }
    }

    /// What the recorder has received so far, oldest first.
    pub fn notifications(&self) -> (r: &Vec<Notification<T, E>>)
        ensures
            r@ == self.record(),
    {
        &self.notifications
    }

    /// Gives up the recorder for what it has received.
    pub fn into_notifications(self) -> (r: Vec<Notification<T, E>>)
        ensures
            r@ == self.record(),
    {
        self.notifications
    }
}

impl<T, E> AbstractObserver<T, E> for Recorder<T, E> {
    open spec fn records(&self) -> bool {
        true
    }

    open spec fn is_steady(&self) -> bool {
        true
    }

    open spec fn received(&self) -> Seq<Notification<T, E>> {
        self.record()
    }

    fn start(&mut self) -> (demand: Demand)
        ensures
            demand == Demand::Continue,
    {
        self.notifications.push(Notification::Start);
        Demand::Continue
    }

    fn next(&mut self, value: T) -> (demand: Demand)
        ensures
            demand == Demand::Continue,
    {
        self.notifications.push(Notification::Next(value));
        Demand::Continue
    }

    fn error(&mut self, error: E) {
        self.notifications.push(Notification::Error(error));
    }

    fn complete(&mut self) {
        self.notifications.push(Notification::Complete);
    }
}

} // verus!
