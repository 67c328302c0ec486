//! Timeouts and intervals: what is decided about them. The waiting itself
//! is the host's.

use vstd::prelude::*;
use crate::temporal::Instant;
use crate::text::{chars_of, string_of};

verus! {

/// A timeout expired before the work was done.
#[derive(Clone, Copy, PartialEq, Eq, Structural, Debug)]
pub struct ElapsedError;

impl ElapsedError {
    /// The message of the error.
    pub open spec fn message_spec() -> Seq<char> {
        seq!['T', 'i', 'm', 'e', 'o', 'u', 't', ' ', 'e', 'x', 'p', 'i', 'r', 'e', 'd']
    }

    /// The message of the error: `Timeout expired`.
    pub fn message(&self) -> (r: String)
        ensures
            r@ == Self::message_spec(),
    {
        proof {
            reveal_strlit("Timeout expired");
        }
        let r = string_of(&chars_of("Timeout expired"));
        assert(r@ =~= Self::message_spec());
        r
    }
}

/// What comes of a race between work and a timer: the work won iff it was
/// the first to finish.
pub fn timeout_outcome(first_finished: usize) -> (r: Result<(), ElapsedError>)
    ensures
        first_finished == 0 <==> r is Ok,
{
    if first_finished == 0 {
        Ok(())
    } else {
        Err(ElapsedError)
    }
}

/// A timeout that runs a callback once its time has passed, unless it was
/// stopped before.
pub struct BackgroundTimeout {
    stopped: bool,
}

impl BackgroundTimeout {
    /// Whether the timeout has been stopped.
    pub closed spec fn is_stopped(&self) -> bool {
        self.stopped
    }

    /// A timeout that has not been stopped.
    pub fn new() -> (r: Self)
        ensures
            !r.is_stopped(),
    {
        BackgroundTimeout { stopped: false }
    }

    /// Stops the timeout: its callback will not run.
    pub fn stop(&mut self)
        ensures
            final(self).is_stopped(),
    {
        self.stopped = true;
    }

    /// Whether the callback is to run now that the time has passed.
    pub fn fires(&self) -> (r: bool)
        ensures
            r == !self.is_stopped(),
    {
        !self.stopped
    }
}

/// What an interval does at a tick.
#[derive(Clone, Copy, PartialEq, Eq, Structural, Debug)]
pub enum TickAction {
    /// Run the callback with the time since the last tick.
    Call(u64),
    /// End the interval.
    Stop,
}

/// An interval that runs a callback after each period until it is stopped.
pub struct BackgroundInterval {
    stopped: bool,
}

impl BackgroundInterval {
    /// Whether the interval has been stopped.
    pub closed spec fn is_stopped(&self) -> bool {
        self.stopped
    }

    /// An interval that has not been stopped.
    pub fn new() -> (r: Self)
        ensures
            !r.is_stopped(),
    {
        BackgroundInterval { stopped: false }
    }

    /// Stops the interval: its callback will not run again.
    pub fn stop(&mut self)
        ensures
            final(self).is_stopped(),
    {
        self.stopped = true;
    }

    /// What is to be done at a tick that comes `delta` milliseconds after
    /// the last one.
    pub fn on_tick(&self, delta: u64) -> (r: TickAction)
        ensures
            r == if self.is_stopped() {
                TickAction::Stop
            } else {
                TickAction::Call(delta)
            },
    {
        if self.stopped {
            TickAction::Stop
        } else {
            TickAction::Call(delta)
        }
    }
}

/// What an interval waits for next.
#[derive(Clone, Copy, PartialEq, Eq, Structural, Debug)]
pub enum IntervalStep {
    /// The first tick: wait until the start, then start a ticker with the
    /// period in milliseconds; no time has passed.
    Begin { start: Instant, period: u32, for_animation: bool },
    /// A later tick: wait for the ticker.
    Tick,
}

/// An interval that ticks once at its start and then after each period.
pub struct Interval {
    for_animation: bool,
    period: u32,
    start: Instant,
    started: bool,
}

impl Interval {
    /// Whether the first tick is over.
    pub closed spec fn has_started(&self) -> bool {
        self.started
    }

    /// The period in milliseconds.
    pub closed spec fn period(&self) -> u32 {
        self.period
    }

    /// The instant of the first tick.
    pub closed spec fn start(&self) -> Instant {
        self.start
    }

    /// Whether the interval is meant for animations.
    pub closed spec fn for_animation(&self) -> bool {
        self.for_animation
    }

    /// An interval of the given period in milliseconds whose first tick
    /// comes at `start`. The period is not zero, and no longer than a `u32`
    /// holds. [`Interval::try_new`] takes any period.
    pub fn new(for_animation: bool, period: u128, start: Instant) -> (r: Self)
        requires
            0 < period <= u32::MAX,
        ensures
            !r.has_started(),
            r.period() == period,
            r.start() == start,
            r.for_animation() == for_animation,
    {
        Interval { for_animation, period: period as u32, start, started: false }
    }

    /// An interval as [`Interval::new`] makes it. A period of zero, or one
    /// that is longer than a `u32` holds, gives no interval.
    pub fn try_new(for_animation: bool, period: u128, start: Instant) -> (r: Option<Self>)
        ensures
            0 < period <= u32::MAX ==> r is Some && !r->0.has_started() && r->0.period() == period
                && r->0.start() == start && r->0.for_animation() == for_animation,
            !(0 < period <= u32::MAX) ==> r is None,
    {
        if period == 0 || period > u32::MAX as u128 {
            None
        } else {
            Some(Interval::new(for_animation, period, start))
        }
    }

    /// What the interval waits for at its next tick.
    pub fn tick(&mut self) -> (r: IntervalStep)
        ensures
            final(self).has_started(),
            final(self).period() == old(self).period(),
            final(self).start() == old(self).start(),
            final(self).for_animation() == old(self).for_animation(),
            r == if old(self).has_started() {
                IntervalStep::Tick
            } else {
                IntervalStep::Begin {
                    start: old(self).start(),
                    period: old(self).period(),
                    for_animation: old(self).for_animation(),
                }
            },
    {
        if self.started {
            IntervalStep::Tick
        } else {
            self.started = true;
            IntervalStep::Begin {
                start: self.start,
                period: self.period,
                for_animation: self.for_animation,
            }
        }
    }
}

} // verus!
