//! Spans and points of time as whole nanoseconds.

use vstd::prelude::*;

verus! {

/// Nanoseconds in one millisecond.
pub const NANOS_PER_MILLI: u128 = 1_000_000;

/// Nanoseconds in one second.
pub const NANOS_PER_SECOND: u128 = 1_000_000_000;

/// Longest span of time, in nanoseconds.
pub const MAX_SPAN_NANOS: u128 = 18_446_744_073_709_551_615_999_999_999;

/// Last point of the runtime clock, in nanoseconds.
pub const MAX_CLOCK_NANOS: u128 = 9_223_372_036_854_775_807_999_999_999;

/// Bounded span of time.
#[derive(Clone, Copy, Debug, PartialEq, Eq, Structural)]
pub struct Duration {
    nanos: u128,
}

impl Duration {
    #[verifier::type_invariant]
    spec fn bounded(self) -> bool {
        self.nanos <= MAX_SPAN_NANOS
    }

    /// Length in nanoseconds.
    pub closed spec fn nanos(self) -> nat {
        self.nanos as nat
    }

    /// Length in whole milliseconds.
    pub open spec fn millis(self) -> nat {
        self.nanos() / NANOS_PER_MILLI as nat
    }

    /// The empty span.
    pub fn zero() -> (span: Duration)
        ensures
            span.nanos() == 0,
    {
        Duration { nanos: 0 }
    }

    /// The longest span.
    pub fn max() -> (span: Duration)
        ensures
            span.nanos() == MAX_SPAN_NANOS,
    {
        Duration { nanos: MAX_SPAN_NANOS }
    }

    /// A span of whole milliseconds.
    pub fn from_millis(millis: u64) -> (span: Duration)
        ensures
            span.nanos() == millis * NANOS_PER_MILLI,
    {
        Duration { nanos: millis as u128 * NANOS_PER_MILLI }
    }

    /// A span of whole seconds.
    pub fn from_secs(seconds: u64) -> (span: Duration)
        ensures
            span.nanos() == seconds * NANOS_PER_SECOND,
    {
        Duration { nanos: seconds as u128 * NANOS_PER_SECOND }
    }

    /// A span of nanoseconds, where it is inside the supported range.
    pub fn from_nanos(nanos: u128) -> (span: Option<Duration>)
        ensures
            match span {
                Some(span) => span.nanos() == nanos,
                None => nanos > MAX_SPAN_NANOS,
            },
    {
        if nanos <= MAX_SPAN_NANOS {
            Some(Duration { nanos })
        } else {
            None
        }
    }

    /// Length in nanoseconds.
    pub fn as_nanos(&self) -> (nanos: u128)
        ensures
            nanos == self.nanos(),
            nanos <= MAX_SPAN_NANOS,
    {
        proof {
            use_type_invariant(self);
        }
        self.nanos
    }

    /// Length in whole milliseconds.
    pub fn as_millis(&self) -> (millis: u128)
        ensures
            millis == self.millis(),
    {
        self.nanos / NANOS_PER_MILLI
    }

    /// Decides whether the span is empty.
    pub fn is_zero(&self) -> (result: bool)
        ensures
            result == (self.nanos() == 0),
    {
        self.nanos == 0
    }
}

/// Point on the runtime clock.
#[derive(Clone, Copy, Debug, PartialEq, Eq, Structural)]
pub struct Moment {
    /// Nanoseconds since the start of the clock.
    pub nanos: u128,
}

/// Point reached after a span, where the clock still covers it.
pub open spec fn after_span(now: Moment, span: Duration) -> Option<Moment> {
    if now.nanos + span.nanos() <= MAX_CLOCK_NANOS {
        Some(Moment { nanos: (now.nanos + span.nanos()) as u128 })
    } else {
        None
    }
}

impl Moment {
    /// Adds a span to a point of time.
    pub fn checked_add(self, span: Duration) -> (later: Option<Moment>)
        ensures
            later == after_span(self, span),
    {
        let length: u128 = span.as_nanos();
        if length <= MAX_CLOCK_NANOS && self.nanos <= MAX_CLOCK_NANOS - length {
            Some(Moment { nanos: self.nanos + length })
        } else {
            None
        }
    }
}

/// Time that a reading of the system clock stands for, in milliseconds since
/// the Unix epoch: the reading itself, the last time in range where it lies
/// behind that, and the epoch where the clock stands before it.
pub open spec fn reading_millis(elapsed: Option<u128>) -> u64 {
    match elapsed {
        Some(elapsed) => if elapsed <= u64::MAX {
            elapsed as u64
        } else {
            u64::MAX
        },
        None => 0,
    }
}

/// Brings a reading of the system clock into the range of its type.
pub fn epoch_millis(elapsed: Option<u128>) -> (millis: u64)
    ensures
        millis == reading_millis(elapsed),
{
    match elapsed {
        Some(elapsed) => if elapsed <= u64::MAX as u128 {
            elapsed as u64
        } else {
            u64::MAX
        },
        None => 0,
    }
}

/// A later moment is as many nanoseconds later as the span is long, as long as
/// the clock reaches that far.
pub proof fn law_moments_move_by_spans(now: Moment, span: Duration)
    ensures
        after_span(now, span) is Some <==> now.nanos + span.nanos() <= 9_223_372_036_854_775_807_999_999_999,
        after_span(now, span) matches Some(later) ==> later.nanos == now.nanos + span.nanos(),
{
}

/// Whole milliseconds of a span.
pub proof fn law_spans_have_whole_milliseconds(span: Duration)
    ensures
        span.millis() * 1_000_000 <= span.nanos() < (span.millis() + 1) * 1_000_000,
{
}

/// A clock reading beyond the range is the end of the range, and none is the
/// beginning.
pub proof fn law_readings_stay_in_range(elapsed: u128)
    ensures
        reading_millis(None) == 0,
        elapsed <= 18_446_744_073_709_551_615 ==> reading_millis(Some(elapsed)) == elapsed,
        elapsed > 18_446_744_073_709_551_615 ==> reading_millis(Some(elapsed)) == 18_446_744_073_709_551_615,
{
}

} // verus!
