//! An observer made of callbacks.

use vstd::prelude::*;
use core::marker::PhantomData;
use super::protocol::Demand;
use super::observer::AbstractObserver;

verus! {

/// An observer built from up to four callbacks. A callback that is left out
/// does nothing, and asks for nothing.
pub struct Observer<T, E, N: Fn(T) -> Demand, R: Fn(E), C: Fn(), S: Fn() -> Demand> {
    next: Option<N>,
    error: Option<R>,
    complete: Option<C>,
    start: Option<S>,
    kind: PhantomData<(T, E)>,
}

impl<T, E, N: Fn(T) -> Demand, R: Fn(E), C: Fn(), S: Fn() -> Demand> Observer<T, E, N, R, C, S> {
    /// Every callback that is there can be called with any argument.
    #[verifier::type_invariant]
    pub closed spec fn callable(self) -> bool {
        callbacks_total::<T, E, N, R, C, S>(self.next, self.error, self.complete, self.start)
    }

    /// The callback for values, if there is one.
    pub closed spec fn on_next(self) -> Option<N> {
        self.next
    }

    /// The callback for an error, if there is one.
    pub closed spec fn on_error(self) -> Option<R> {
        self.error
    }

    /// The callback for the end of the stream, if there is one.
    pub closed spec fn on_complete(self) -> Option<C> {
        self.complete
    }

    /// The callback for the start of the subscription, if there is one.
    pub closed spec fn on_start(self) -> Option<S> {
        self.start
    }

    /// The observer with the given callbacks.
    pub fn new(next: Option<N>, error: Option<R>, complete: Option<C>, start: Option<S>) -> (r:
        Self)
        requires
            callbacks_total::<T, E, N, R, C, S>(next, error, complete, start),
        ensures
            r.on_next() == next,
            r.on_error() == error,
            r.on_complete() == complete,
            r.on_start() == start,
    {
        Observer { next, error, complete, start, kind: PhantomData }
    }
}

/// Each callback that is there accepts every argument.
pub open spec fn callbacks_total<T, E, N: Fn(T) -> Demand, R: Fn(E), C: Fn(), S: Fn() -> Demand>(
    next: Option<N>,
    error: Option<R>,
    complete: Option<C>,
    start: Option<S>,
) -> bool {
    &&& next is Some ==> forall|value: T| call_requires(next->0, (value,))
    &&& error is Some ==> forall|error_value: E| call_requires(error->0, (error_value,))
    &&& complete is Some ==> call_requires(complete->0, ())
    &&& start is Some ==> call_requires(start->0, ())
}

impl<T, E, N: Fn(T) -> Demand, R: Fn(E), C: Fn(), S: Fn() -> Demand> AbstractObserver<
    T,
    E,
> for Observer<T, E, N, R, C, S> {
    /// Without callbacks for the start and for values the observer never
    /// asks to unsubscribe.
    open spec fn is_steady(&self) -> bool {
        self.on_start() is None && self.on_next() is None
    }

    /// Calls the callback for the start. Without one the observer goes on.
    fn start(&mut self) -> (r: Demand)
        ensures
            *final(self) == *old(self),
            match old(self).on_start() {
                Some(callback) => call_ensures(callback, (), r),
                None => r == Demand::Continue,
            },
    {
        proof {
            use_type_invariant(&*self);
        }
        match &self.start {
            Some(callback) => callback(),
            None => Demand::Continue,
        }
    }

    /// Calls the callback for values. Without one the observer goes on.
    fn next(&mut self, value: T) -> (r: Demand)
        ensures
            *final(self) == *old(self),
            match old(self).on_next() {
                Some(callback) => call_ensures(callback, (value,), r),
                None => r == Demand::Continue,
            },
    {
        proof {
            use_type_invariant(&*self);
        }
        match &self.next {
            Some(callback) => callback(value),
            None => Demand::Continue,
        }
    }

    /// Calls the callback for an error with the error, if there is one.
    /// Without one the error is dropped.
    fn error(&mut self, error: E)
        ensures
            *final(self) == *old(self),
            match old(self).on_error() {
                Some(callback) => call_ensures(callback, (error,), ()),
                None => true,
            },
    {
        proof {
            use_type_invariant(&*self);
        }
        match &self.error {
            Some(callback) => callback(error),
            None => {},
        }
    }

    /// Calls the callback for the end of the stream, if there is one.
    fn complete(&mut self)
        ensures
            *final(self) == *old(self),
            match old(self).on_complete() {
                Some(callback) => call_ensures(callback, (), ()),
                None => true,
            },
    {
        proof {
            use_type_invariant(&*self);
        }
        match &self.complete {
            Some(callback) => callback(),
            None => {},
        }
    }
}

} // verus!
