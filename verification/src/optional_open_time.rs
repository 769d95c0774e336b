//! Times and spans that may be absent.

use vstd::prelude::*;
use vstd::std_specs::cmp::PartialEqSpecImpl;
use crate::rational_time::RationalTime;
use crate::time_range::TimeRange;

verus! {

/// A time, or none.
#[derive(Debug, Clone, Copy)]
pub enum OptionalRationalTime {
    Valid(RationalTime),
    Invalid,
}

impl OptionalRationalTime {
    /// Both hold a time and the times are equal as instants, or both hold
    /// none.
    pub open spec fn spec_eq(self, other: OptionalRationalTime) -> bool {
        match (self, other) {
            (OptionalRationalTime::Valid(a), OptionalRationalTime::Valid(b)) => a.spec_eq(b),
            (OptionalRationalTime::Invalid, OptionalRationalTime::Invalid) => true,
            _ => false,
        }
    }

    /// The wrapper that holds `rational_time`.
    pub fn new(rational_time: RationalTime) -> (optional: OptionalRationalTime)
        ensures
            optional == OptionalRationalTime::Valid(rational_time),
    {
        OptionalRationalTime::Valid(rational_time)
    }

    /// Whether a time is held.
    pub fn is_valid(&self) -> (b: bool)
        ensures
            b == (*self is Valid),
    {
        match self {
            OptionalRationalTime::Valid(_) => true,
            OptionalRationalTime::Invalid => false,
        }
    }
}

impl Default for OptionalRationalTime {
    fn default() -> (optional: OptionalRationalTime)
        ensures
            optional == OptionalRationalTime::Invalid,
    {
        OptionalRationalTime::Invalid
    }
}

impl PartialEq for OptionalRationalTime {
    fn eq(&self, other: &OptionalRationalTime) -> (b: bool) {
        match (self, other) {
            (OptionalRationalTime::Valid(a), OptionalRationalTime::Valid(b)) => *a == *b,
            (OptionalRationalTime::Invalid, OptionalRationalTime::Invalid) => true,
            _ => false,
        }
    }
}

impl PartialEqSpecImpl for OptionalRationalTime {
    open spec fn obeys_eq_spec() -> bool {
        true
    }

    open spec fn eq_spec(&self, other: &OptionalRationalTime) -> bool {
        self.spec_eq(*other)
    }
}

/// A span, or none.
#[derive(Debug, Clone, Copy)]
pub enum OptionalTimeRange {
    Valid(TimeRange),
    Invalid,
}

impl OptionalTimeRange {
    /// Both hold a span and the spans are equal, or both hold none.
    pub open spec fn spec_eq(self, other: OptionalTimeRange) -> bool {
        match (self, other) {
            (OptionalTimeRange::Valid(a), OptionalTimeRange::Valid(b)) => a.spec_eq(b),
            (OptionalTimeRange::Invalid, OptionalTimeRange::Invalid) => true,
            _ => false,
        }
    }

    /// The wrapper that holds `time_range`.
    pub fn new(time_range: TimeRange) -> (optional: OptionalTimeRange)
        ensures
            optional == OptionalTimeRange::Valid(time_range),
    {
        OptionalTimeRange::Valid(time_range)
    }

    /// Whether a span is held.
    pub fn is_valid(&self) -> (b: bool)
        ensures
            b == (*self is Valid),
    {
        match self {
            OptionalTimeRange::Valid(_) => true,
            OptionalTimeRange::Invalid => false,
        }
    }
}

impl Default for OptionalTimeRange {
    fn default() -> (optional: OptionalTimeRange)
        ensures
            optional == OptionalTimeRange::Invalid,
    {
        OptionalTimeRange::Invalid
    }
}

impl PartialEq for OptionalTimeRange {
    fn eq(&self, other: &OptionalTimeRange) -> (b: bool) {
        match (self, other) {
            (OptionalTimeRange::Valid(a), OptionalTimeRange::Valid(b)) => *a == *b,
            (OptionalTimeRange::Invalid, OptionalTimeRange::Invalid) => true,
            _ => false,
        }
    }
}

impl PartialEqSpecImpl for OptionalTimeRange {
    open spec fn obeys_eq_spec() -> bool {
        true
    }

    open spec fn eq_spec(&self, other: &OptionalTimeRange) -> bool {
        self.spec_eq(*other)
    }
}

} // verus!
