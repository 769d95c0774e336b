//! A half-open span of time: `[start_time, start_time + duration)`.

use vstd::prelude::*;
use vstd::std_specs::cmp::PartialEqSpecImpl;
use crate::ratio::Ratio;
use crate::rational_time::RationalTime;

verus! {

/// The span `[start_time, start_time + duration)`.
#[derive(Debug, Clone, Copy)]
pub struct TimeRange {
    pub start_time: RationalTime,
    pub duration: RationalTime,
}

impl TimeRange {
    /// Both fields are well formed, as every executable value's are.
    pub open spec fn wf(self) -> bool {
        self.start_time.wf() && self.duration.wf()
    }

    /// The span from `start_time` up to `end_time_exclusive`.
    pub open spec fn spec_from_start_and_end_time(
        start_time: RationalTime,
        end_time_exclusive: RationalTime,
    ) -> TimeRange {
        TimeRange { start_time, duration: end_time_exclusive.spec_sub(start_time) }
    }

    /// The first instant after the span: `start_time + duration`.
    pub open spec fn spec_end_time_exclusive(self) -> RationalTime {
        self.start_time.spec_add(self.duration)
    }

    /// The last whole tick inside the span: the exclusive end less one tick
    /// at the rate of the duration.
    pub open spec fn spec_end_time_inclusive(self) -> RationalTime {
        self.spec_end_time_exclusive().spec_sub(
            RationalTime { value: Ratio::from_fraction(1, 1), rate: self.duration.rate },
        )
    }

    /// The span with the same start and with `other` added to the duration.
    pub open spec fn spec_duration_extended_by(self, other: RationalTime) -> TimeRange {
        TimeRange { start_time: self.start_time, duration: self.duration.spec_add(other) }
    }

    /// The smallest span that covers both: from the earlier start to the
    /// later exclusive end.
    pub open spec fn spec_extended_by(self, other: TimeRange) -> TimeRange {
        TimeRange::spec_from_start_and_end_time(
            self.start_time.spec_earliest(other.start_time),
            self.spec_end_time_exclusive().spec_latest(other.spec_end_time_exclusive()),
        )
    }

    /// `other` moved into the span: an instant before the start goes to the
    /// start, one at or after the exclusive end goes to the inclusive end,
    /// and any other stays where it is.
    pub open spec fn spec_clamped_with_rational_time(self, other: RationalTime) -> RationalTime {
        if other.spec_lt(self.start_time) {
            self.start_time
        } else if self.spec_end_time_exclusive().spec_le(other) {
            self.spec_end_time_inclusive()
        } else {
            other
        }
    }

    /// `other` cut to the span: its start is moved into the span, it keeps
    /// its duration from there, and it is cut off at the span's exclusive
    /// end.
    pub open spec fn spec_clamped_with_time_range(self, other: TimeRange) -> TimeRange {
        let start_time = self.spec_clamped_with_rational_time(other.start_time);
        let moved = TimeRange { start_time, duration: other.duration };
        let end_time = moved.spec_end_time_exclusive().spec_earliest(
            self.spec_end_time_exclusive(),
        );
        TimeRange { start_time, duration: end_time.spec_sub(start_time) }
    }

    /// `start_time <= other < end_time_exclusive`.
    pub open spec fn spec_contains_rational_time(self, other: RationalTime) -> bool {
        self.start_time.spec_le(other) && other.spec_lt(self.spec_end_time_exclusive())
    }

    /// `other` starts no earlier and ends no later than the span.
    pub open spec fn spec_contains_time_range(self, other: TimeRange) -> bool {
        self.start_time.spec_le(other.start_time) && other.spec_end_time_exclusive().spec_le(
            self.spec_end_time_exclusive(),
        )
    }

    /// The two spans share an instant: each starts before the other ends.
    pub open spec fn spec_overlaps_time_range(self, other: TimeRange) -> bool {
        self.start_time.spec_lt(other.spec_end_time_exclusive()) && other.start_time.spec_lt(
            self.spec_end_time_exclusive(),
        )
    }

    /// Both fields are equal as instants.
    pub open spec fn spec_eq(self, other: TimeRange) -> bool {
        self.start_time.spec_eq(other.start_time) && self.duration.spec_eq(other.duration)
    }
}

impl TimeRange {
    /// The span with the fields as given.
    pub fn new(start_time: RationalTime, duration: RationalTime) -> (range: TimeRange)
        ensures
            range == (TimeRange { start_time, duration }),
    {
        TimeRange { start_time, duration }
    }

    /// The empty span at `start_time`: a duration of zero at its rate.
    pub fn with_start_time(start_time: RationalTime) -> (range: TimeRange)
        ensures
            range == (TimeRange {
                start_time,
                duration: RationalTime { value: Ratio::from_fraction(0, 1), rate: start_time.rate },
            }),
    {
        TimeRange {
            start_time,
            duration: RationalTime { value: Ratio::from_int(0), rate: start_time.rate },
        }
    }

    /// The span of `duration` that starts at zero at its rate.
    pub fn with_duration(duration: RationalTime) -> (range: TimeRange)
        ensures
            range == (TimeRange {
                start_time: RationalTime { value: Ratio::from_fraction(0, 1), rate: duration.rate },
                duration,
            }),
    {
        TimeRange {
            start_time: RationalTime { value: Ratio::from_int(0), rate: duration.rate },
            duration,
        }
    }

    /// The span from `start_time` up to `end_time_exclusive`.
    pub fn from_start_and_end_time(start_time: RationalTime, end_time_exclusive: RationalTime) -> (range:
        TimeRange)
        ensures
            range == TimeRange::spec_from_start_and_end_time(start_time, end_time_exclusive),
    {
        TimeRange { start_time, duration: end_time_exclusive - start_time }
    }

    /// The last whole tick inside the span.
    pub fn end_time_inclusive(&self) -> (t: RationalTime)
        ensures
            t == self.spec_end_time_inclusive(),
    {
        self.end_time_exclusive() - RationalTime {
            value: Ratio::from_int(1),
            rate: self.duration.rate,
        }
    }

    /// The first instant after the span.
    pub fn end_time_exclusive(&self) -> (t: RationalTime)
        ensures
            t == self.spec_end_time_exclusive(),
    {
        self.start_time + self.duration
    }

    /// The span with the same start and with `other` added to the duration.
    pub fn duration_extended_by(&self, other: RationalTime) -> (range: TimeRange)
        ensures
            range == self.spec_duration_extended_by(other),
    {
        TimeRange { start_time: self.start_time, duration: self.duration + other }
    }

    /// The smallest span that covers both.
    pub fn extended_by(&self, other: TimeRange) -> (range: TimeRange)
        ensures
            range == self.spec_extended_by(other),
    {
        TimeRange::from_start_and_end_time(
            self.start_time.earliest(other.start_time),
            self.end_time_exclusive().latest(other.end_time_exclusive()),
        )
    }

    /// `other` moved into the span.
    pub fn clamped_with_rational_time(&self, other: RationalTime) -> (t: RationalTime)
        ensures
            t == self.spec_clamped_with_rational_time(other),
    {
        if other.lt(self.start_time) {
            self.start_time
        } else if self.end_time_exclusive().le(other) {
            self.end_time_inclusive()
        } else {
            other
        }
    }

    /// `other` cut to the span.
    pub fn clamped_with_time_range(&self, other: TimeRange) -> (range: TimeRange)
        ensures
            range == self.spec_clamped_with_time_range(other),
    {
        let start_time = self.clamped_with_rational_time(other.start_time);
        let moved = TimeRange { start_time, duration: other.duration };
        let end_time = moved.end_time_exclusive().earliest(self.end_time_exclusive());
        TimeRange { start_time, duration: end_time - start_time }
    }

    /// Whether `other` lies in the span.
    pub fn contains_rational_time(&self, other: RationalTime) -> (b: bool)
        ensures
            b == self.spec_contains_rational_time(other),
    {
        self.start_time.le(other) && other.lt(self.end_time_exclusive())
    }

    /// Whether `other` lies within the span.
    pub fn contains_time_range(&self, other: TimeRange) -> (b: bool)
        ensures
            b == self.spec_contains_time_range(other),
    {
        self.start_time.le(other.start_time) && other.end_time_exclusive().le(
            self.end_time_exclusive(),
        )
    }

    /// Whether `other` lies in the span; the same as
    /// `contains_rational_time`.
    pub fn overlaps_rational_time(&self, other: RationalTime) -> (b: bool)
        ensures
            b == self.spec_contains_rational_time(other),
    {
        self.contains_rational_time(other)
    }

    /// Whether the two spans share an instant.
    pub fn overlaps_time_range(&self, other: TimeRange) -> (b: bool)
        ensures
            b == self.spec_overlaps_time_range(other),
    {
        self.start_time.lt(other.end_time_exclusive()) && other.start_time.lt(
            self.end_time_exclusive(),
        )
    }
}

impl Default for TimeRange {
    /// The default span has the default, invalid time in both fields.
    fn default() -> (range: TimeRange)
        ensures
            range.start_time == (RationalTime {
                value: Ratio::from_fraction(0, 1),
                rate: Ratio::from_fraction(0, 1),
            }),
            range.duration == range.start_time,
    {
        TimeRange { start_time: RationalTime::default(), duration: RationalTime::default() }
    }
}

impl PartialEq for TimeRange {
    fn eq(&self, other: &TimeRange) -> (b: bool) {
        self.start_time == other.start_time && self.duration == other.duration
    }
}

impl PartialEqSpecImpl for TimeRange {
    open spec fn obeys_eq_spec() -> bool {
        true
    }

    open spec fn eq_spec(&self, other: &TimeRange) -> bool {
        self.spec_eq(*other)
    }
}

impl TimeRange {
    /// The exclusive end of a well-formed span is well formed.
    pub proof fn lemma_end_time_wf(self)
        requires
            self.wf(),
        ensures
            self.spec_end_time_exclusive().wf(),
    {
        self.start_time.value.lemma_add(
            self.duration.spec_value_rescaled_to_rate(self.start_time.rate),
        );
    }

    /// Overlap symmetry: one span overlaps a second exactly when the second
    /// overlaps the first.
    pub proof fn lemma_overlaps_symmetric(self, other: TimeRange)
        ensures
            self.spec_overlaps_time_range(other) == other.spec_overlaps_time_range(self),
    {
    }

    /// Clamp idempotence: an instant that was moved into the span is left
    /// where it is when moved into the span again, provided that the end
    /// it was moved to lies in the span: for an instant before the start,
    /// the start must lie before the exclusive end; for one at or after the
    /// exclusive end, the inclusive end must lie neither before the start
    /// nor at or after the exclusive end. A span of less than one tick has
    /// no such ends.
    pub proof fn lemma_clamp_idempotent(self, other: RationalTime)
        requires
            other.spec_lt(self.start_time) ==> !self.spec_end_time_exclusive().spec_le(
                self.start_time,
            ),
            !other.spec_lt(self.start_time) && self.spec_end_time_exclusive().spec_le(other) ==> {
                &&& !self.spec_end_time_inclusive().spec_lt(self.start_time)
                &&& !self.spec_end_time_exclusive().spec_le(self.spec_end_time_inclusive())
            },
        ensures
            self.spec_clamped_with_rational_time(self.spec_clamped_with_rational_time(other))
                == self.spec_clamped_with_rational_time(other),
            self.spec_clamped_with_rational_time(
                self.spec_clamped_with_rational_time(other),
            ).spec_eq(self.spec_clamped_with_rational_time(other)),
    {
    }

    /// Where the span that two spans are extended to contains both, the
    /// starts and the exclusive ends of the two, and the exclusive end of
    /// the result, each have a finite number of seconds. So the condition of
    /// `lemma_extended_by_covers_both` leaves out no spans for which it
    /// holds.
    pub proof fn lemma_extended_by_covers_needs_finite(self, other: TimeRange)
        requires
            self.spec_extended_by(other).spec_contains_time_range(self),
            self.spec_extended_by(other).spec_contains_time_range(other),
        ensures
            self.start_time.spec_to_seconds().is_finite(),
            other.start_time.spec_to_seconds().is_finite(),
            self.spec_end_time_exclusive().spec_to_seconds().is_finite(),
            other.spec_end_time_exclusive().spec_to_seconds().is_finite(),
            self.spec_extended_by(other).spec_end_time_exclusive().spec_to_seconds().is_finite(),
    {
    }

    /// Extend covers both: the span that two spans are extended to
    /// contains each of them, provided that the starts and the exclusive
    /// ends of the two, and the exclusive end of the result, each have a
    /// finite number of seconds. Where one of these has none, no comparison
    /// with it holds, and the result cannot contain both.
    pub proof fn lemma_extended_by_covers_both(self, other: TimeRange)
        requires
            self.wf(),
            other.wf(),
            self.start_time.spec_to_seconds().is_finite(),
            other.start_time.spec_to_seconds().is_finite(),
            self.spec_end_time_exclusive().spec_to_seconds().is_finite(),
            other.spec_end_time_exclusive().spec_to_seconds().is_finite(),
            self.spec_extended_by(other).spec_end_time_exclusive().spec_to_seconds().is_finite(),
        ensures
            self.spec_extended_by(other).spec_contains_time_range(self),
            self.spec_extended_by(other).spec_contains_time_range(other),
    {
        let covering = self.spec_extended_by(other);
        let start = covering.start_time;
        let end = self.spec_end_time_exclusive().spec_latest(other.spec_end_time_exclusive());
        let covering_end = covering.spec_end_time_exclusive();
        self.lemma_end_time_wf();
        other.lemma_end_time_wf();
        self.start_time.lemma_to_seconds();
        other.start_time.lemma_to_seconds();
        self.spec_end_time_exclusive().lemma_to_seconds();
        other.spec_end_time_exclusive().lemma_to_seconds();
        // The result's end is its start plus the way from there to the
        // later end, which in seconds is the later end.
        end.value.lemma_sub(start.spec_value_rescaled_to_rate(end.rate));
        start.value.lemma_add(covering.duration.spec_value_rescaled_to_rate(start.rate));
        covering_end.lemma_to_seconds();
        covering.duration.lemma_value_rescaled(start.rate);
        start.lemma_add_seconds(covering.duration);
        end.lemma_sub_seconds(start);
    }
}

} // verus!
