//! Instants and durations, counted in milliseconds.

use vstd::prelude::*;

verus! {

/// A value lies outside the range that a type can hold.
#[derive(Clone, Copy, PartialEq, Eq, Structural, Debug)]
pub struct RangeError;

/// A span of time in milliseconds, which may be negative. Its size is at
/// most `i64::MAX`, so the opposite span can always be told.
#[derive(Clone, Copy, PartialEq, Eq, Structural, Debug)]
pub struct Duration {
    milliseconds: i64,
}

impl Duration {
    /// The milliseconds of the span.
    pub closed spec fn value(self) -> int {
        self.milliseconds as int
    }

    /// The invariant of the type.
    pub closed spec fn wf(self) -> bool {
        self.milliseconds > i64::MIN
    }

    /// The span of `milliseconds`, which must not be `i64::MIN`.
    pub fn from_milliseconds(milliseconds: i64) -> (r: Self)
        requires
            milliseconds > i64::MIN,
        ensures
            r.wf(),
            r.value() == milliseconds,
    {
        Duration { milliseconds }
    }

    /// The span of `milliseconds`, unless that is `i64::MIN`.
    pub fn try_from_milliseconds(milliseconds: i64) -> (r: Result<Self, RangeError>)
        ensures
            milliseconds > i64::MIN ==> r is Ok && r->Ok_0.wf() && r->Ok_0.value() == milliseconds,
            milliseconds == i64::MIN ==> r is Err,
    {
        if milliseconds == i64::MIN {
            Err(RangeError)
        } else {
            Ok(Duration { milliseconds })
        }
    }

    /// The span of `milliseconds` of a duration that is never negative, as
    /// the host counts them. A span that is longer than `i64::MAX`
    /// milliseconds is out of range.
    pub fn try_from_std(milliseconds: u128) -> (r: Result<Self, RangeError>)
        ensures
            milliseconds <= i64::MAX ==> r is Ok && r->Ok_0.wf() && r->Ok_0.value()
                == milliseconds,
            milliseconds > i64::MAX ==> r is Err,
    {
        if milliseconds > i64::MAX as u128 {
            Err(RangeError)
        } else {
            Ok(Duration { milliseconds: milliseconds as i64 })
        }
    }

    /// The milliseconds of the span as a duration that is never negative.
    /// A negative span is out of range.
    pub fn try_into_std(&self) -> (r: Result<u64, RangeError>)
        ensures
            self.value() >= 0 ==> r == Ok::<u64, RangeError>(self.value() as u64),
            self.value() < 0 ==> r is Err,
    {
        if self.milliseconds < 0 {
            Err(RangeError)
        } else {
            Ok(self.milliseconds as u64)
        }
    }

    /// The milliseconds of the span.
    pub fn milliseconds(&self) -> (r: i64)
        ensures
            r == self.value(),
    {
        self.milliseconds
    }

    /// The span without its sign.
    pub fn abs(&self) -> (r: Self)
        requires
            self.wf(),
        ensures
            r.wf(),
            r.value() == if self.value() < 0 {
                -self.value()
            } else {
                self.value()
            },
    {
        if self.milliseconds < 0 {
            Duration { milliseconds: -self.milliseconds }
        } else {
            *self
        }
    }
}

/// A point in time, given by the milliseconds since the epoch.
#[derive(Clone, Copy, PartialEq, Eq, Structural, Debug)]
pub struct Instant {
    epoch_ms: u128,
}

/// `value` where a `u64` holds it, else the largest `u64`.
pub open spec fn saturated(value: int) -> int {
    if value > u64::MAX {
        u64::MAX as int
    } else {
        value
    }
}

/// `value` cut down to what a `u64` holds.
fn saturate(value: u128) -> (r: u64)
    ensures
        r == saturated(value as int),
{
    if value > u64::MAX as u128 {
        u64::MAX
    } else {
        value as u64
    }
}

impl Instant {
    /// The milliseconds since the epoch.
    pub closed spec fn value(self) -> int {
        self.epoch_ms as int
    }

    /// The epoch.
    pub fn epoch_start() -> (r: Self)
        ensures
            r.value() == 0,
    {
        Instant { epoch_ms: 0 }
    }

    /// The instant that lies `epoch_duration` after the epoch. The duration
    /// must not be negative.
    pub fn from_epoch(epoch_duration: Duration) -> (r: Self)
        requires
            epoch_duration.value() >= 0,
        ensures
            r.value() == epoch_duration.value(),
    {
        Instant { epoch_ms: epoch_duration.milliseconds as u128 }
    }

    /// The instant that lies `epoch_duration` after the epoch, unless the
    /// duration is negative.
    pub fn try_from_epoch(epoch_duration: Duration) -> (r: Result<Self, RangeError>)
        ensures
            epoch_duration.value() >= 0 ==> r is Ok && r->Ok_0.value() == epoch_duration.value(),
            epoch_duration.value() < 0 ==> r is Err,
    {
        if epoch_duration.milliseconds < 0 {
            Err(RangeError)
        } else {
            Ok(Instant { epoch_ms: epoch_duration.milliseconds as u128 })
        }
    }

    /// The milliseconds from `other` to this instant, at most `u64::MAX`, or
    /// zero where this instant is the earlier one.
    pub fn since(&self, other: Instant) -> (r: u64)
        ensures
            r == if self.value() < other.value() {
                0
            } else {
                saturated(self.value() - other.value())
            },
    {
        if self.epoch_ms < other.epoch_ms {
            0
        } else {
            saturate(self.epoch_ms - other.epoch_ms)
        }
    }

    /// The milliseconds since the epoch, at most `u64::MAX`.
    pub fn epoch(&self) -> (r: u64)
        ensures
            r == saturated(self.value()),
    {
        saturate(self.epoch_ms)
    }

    /// The instant that lies `milliseconds` later, unless no instant can
    /// hold it.
    pub fn try_add_milliseconds(&self, milliseconds: u128) -> (r: Option<Instant>)
        ensures
            self.value() + milliseconds <= u128::MAX ==> r is Some && r->0.value() == self.value()
                + milliseconds,
            self.value() + milliseconds > u128::MAX ==> r is None,
    {
        if milliseconds > u128::MAX - self.epoch_ms {
            None
        } else {
            Some(Instant { epoch_ms: self.epoch_ms + milliseconds })
        }
    }

    /// The instant that lies `milliseconds` earlier, unless that is before
    /// the epoch.
    pub fn try_subtract_milliseconds(&self, milliseconds: u128) -> (r: Option<Instant>)
        ensures
            milliseconds <= self.value() ==> r is Some && r->0.value() == self.value()
                - milliseconds,
            milliseconds > self.value() ==> r is None,
    {
        if milliseconds > self.epoch_ms {
            None
        } else {
            Some(Instant { epoch_ms: self.epoch_ms - milliseconds })
        }
    }

    /// The instant that lies `duration` later, or earlier where the duration
    /// is negative. `None` where the result is earlier than the epoch or
    /// later than an instant can hold.
    pub fn try_add(&self, duration: Duration) -> (r: Option<Instant>)
        requires
            duration.wf(),
        ensures
            0 <= self.value() + duration.value() <= u128::MAX ==> r is Some && r->0.value()
                == self.value() + duration.value(),
            !(0 <= self.value() + duration.value() <= u128::MAX) ==> r is None,
    {
        if duration.milliseconds < 0 {
            self.try_subtract_milliseconds(duration.abs().milliseconds as u128)
        } else {
            self.try_add_milliseconds(duration.milliseconds as u128)
        }
    }

    /// The instant that lies `duration` earlier, or later where the duration
    /// is negative. `None` where the result is earlier than the epoch or
    /// later than an instant can hold.
    pub fn try_subtract(&self, duration: Duration) -> (r: Option<Instant>)
        requires
            duration.wf(),
        ensures
            0 <= self.value() - duration.value() <= u128::MAX ==> r is Some && r->0.value()
                == self.value() - duration.value(),
            !(0 <= self.value() - duration.value() <= u128::MAX) ==> r is None,
    {
        if duration.milliseconds < 0 {
            self.try_add_milliseconds(duration.abs().milliseconds as u128)
        } else {
            self.try_subtract_milliseconds(duration.milliseconds as u128)
        }
    }
}

/// The calendar in which a date is told.
#[derive(Clone, Copy, PartialEq, Eq, Structural, Debug)]
pub enum Calendar {
    Iso8601,
}

/// The time zone in which a date is told.
#[derive(Clone, Copy, PartialEq, Eq, Structural, Debug)]
pub enum TimeZone {
    Utc,
}

/// What a date and time with its zone is made from.
#[derive(Clone, Copy, PartialEq, Eq, Structural, Debug)]
pub struct ZonedDateTimeOptions {
    pub timezone: Option<TimeZone>,
    pub calendar: Calendar,
    pub year: Option<i64>,
    pub month: Option<i64>,
    pub day: Option<i64>,
    pub hour: i64,
    pub minute: i64,
    pub second: i64,
    pub millisecond: i64,
    pub microsecond: i64,
    pub nanosecond: i64,
}

impl Default for ZonedDateTimeOptions {
    /// No zone, no date, midnight, in the calendar of ISO 8601.
    fn default() -> (r: Self)
        ensures
            r == (ZonedDateTimeOptions {
                timezone: None,
                calendar: Calendar::Iso8601,
                year: None,
                month: None,
                day: None,
                hour: 0,
                minute: 0,
                second: 0,
                millisecond: 0,
                microsecond: 0,
                nanosecond: 0,
            }),
    {
        ZonedDateTimeOptions {
            timezone: None,
            calendar: Calendar::Iso8601,
            year: None,
            month: None,
            day: None,
            hour: 0,
            minute: 0,
            second: 0,
            millisecond: 0,
            microsecond: 0,
            nanosecond: 0,
        }
    }
}

/// The milliseconds from the epoch to the moment that `text` names, where
/// `text` is a date with its time and zone in the form of RFC 3339.
pub uninterp spec fn utc_milliseconds(text: Seq<char>) -> Option<i64>;

/// `DateTime::<Utc>::from_str` of chrono: the moment that `text` names, or
/// nothing where `text` names none. The moment is handed on as its
/// milliseconds since the epoch, by `DateTime::timestamp_millis`: that call
/// only turns the moment into an integer, and within the years that chrono
/// holds it cannot overflow.
#[verifier::external_body]
fn parse_utc_milliseconds(text: &str) -> (r: Option<i64>)
    ensures
        r == utc_milliseconds(text@),
{
    match text.parse::<chrono::DateTime<chrono::Utc>>() {
        Ok(moment) => Some(moment.timestamp_millis()),
        Err(_) => None,
    }
}

/// A date and time with its zone, in a calendar.
#[derive(Clone, Copy, PartialEq, Eq, Structural, Debug)]
pub struct ZonedDateTime {
    since_epoch: Duration,
    calendar: Calendar,
}

impl ZonedDateTime {
    /// The time from the epoch to this moment.
    pub closed spec fn since_epoch(self) -> Duration {
        self.since_epoch
    }

    /// The calendar in which the date is told.
    pub closed spec fn calendar_of(self) -> Calendar {
        self.calendar
    }

    /// The moment that `value` names, in the calendar of ISO 8601. A text
    /// that names no moment is out of range.
    pub fn try_from(value: &str) -> (r: Result<Self, RangeError>)
        ensures
            match utc_milliseconds(value@) {
                Some(milliseconds) => if milliseconds > i64::MIN {
                    r is Ok && r->Ok_0.since_epoch().wf() && r->Ok_0.since_epoch().value()
                        == milliseconds && r->Ok_0.calendar_of() == Calendar::Iso8601
                } else {
                    r is Err
                },
                None => r is Err,
            },
    {
        match parse_utc_milliseconds(value) {
            None => Err(RangeError),
            Some(milliseconds) => match Duration::try_from_milliseconds(milliseconds) {
                Ok(since_epoch) => Ok(ZonedDateTime { since_epoch, calendar: Calendar::Iso8601 }),
                Err(error) => Err(error),
            },
        }
    }

    /// The time from the epoch to this moment.
    pub fn epoch(&self) -> (r: Duration)
        ensures
            r == self.since_epoch(),
    {
        self.since_epoch
    }

    /// The calendar in which the date is told.
    pub fn calendar(&self) -> (r: Calendar)
        ensures
            r == self.calendar_of(),
    {
        self.calendar
    }
}

} // verus!
