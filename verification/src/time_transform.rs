//! An affine map of time: a scale, an offset and a target rate.

use vstd::prelude::*;
use vstd::std_specs::cmp::PartialEqSpecImpl;
use crate::ratio::Ratio;
use crate::rational_time::RationalTime;
use crate::time_range::TimeRange;

verus! {

/// The map `t -> rescale(t, rate) * scale + offset`. A rate that is not
/// positive stands for "the rate of the input".
#[derive(Debug, Clone, Copy)]
pub struct TimeTransform {
    pub offset: RationalTime,
    pub scale: Ratio,
    pub rate: Ratio,
}

impl TimeTransform {
    /// Every number in the transform is well formed, as every executable
    /// value's are.
    pub open spec fn wf(self) -> bool {
        self.offset.wf() && self.scale.wf() && self.rate.wf()
    }

    /// The transform names a rate of its own: a finite, positive one.
    pub open spec fn spec_has_rate(self) -> bool {
        self.rate.is_finite() && self.rate.value() > 0 as real
    }

    /// The rate of the results for an input at `input_rate`.
    pub open spec fn spec_target_rate(self, input_rate: Ratio) -> Ratio {
        if self.spec_has_rate() {
            self.rate
        } else {
            input_rate
        }
    }

    /// The image of `other`: rescaled to the target rate, multiplied by the
    /// scale, and the offset added at that rate.
    pub open spec fn spec_applied_to_rational_time(self, other: RationalTime) -> RationalTime {
        let rate = self.spec_target_rate(other.rate);
        (RationalTime {
            value: other.spec_value_rescaled_to_rate(rate).spec_mul(self.scale),
            rate,
        }).spec_add(self.offset)
    }

    /// The image of a span: from the image of its start up to the image of
    /// its exclusive end.
    pub open spec fn spec_applied_to_time_range(self, other: TimeRange) -> TimeRange {
        TimeRange::spec_from_start_and_end_time(
            self.spec_applied_to_rational_time(other.start_time),
            self.spec_applied_to_rational_time(other.spec_end_time_exclusive()),
        )
    }

    /// The transform that applies `other` and then `self`: offsets add,
    /// scales multiply, and the rate is that of `self` unless it has none.
    pub open spec fn spec_applied_to_time_transform(self, other: TimeTransform) -> TimeTransform {
        TimeTransform {
            offset: self.offset.spec_add(other.offset),
            scale: self.scale.spec_mul(other.scale),
            rate: self.spec_target_rate(other.rate),
        }
    }

    /// The offsets are equal as instants, and scale and rate are equal.
    pub open spec fn spec_eq(self, other: TimeTransform) -> bool {
        self.offset.spec_eq(other.offset) && self.scale == other.scale && self.rate == other.rate
    }

    /// The transform with the fields as given.
    pub fn new(offset: RationalTime, scale: Ratio, rate: Ratio) -> (transform: TimeTransform)
        ensures
            transform == (TimeTransform { offset, scale, rate }),
    {
        TimeTransform { offset, scale, rate }
    }

    /// The rate of the results for an input at `input_rate`.
    fn target_rate(&self, input_rate: Ratio) -> (rate: Ratio)
        ensures
            rate == self.spec_target_rate(input_rate),
    {
        let zero = Ratio::from_int(0);
        proof {
            Ratio::lemma_from_int(0);
        }
        if zero.lt(self.rate) {
            self.rate
        } else {
            input_rate
        }
    }

    /// The image of the instant `other`.
    pub fn applied_to_rational_time(&self, other: RationalTime) -> (t: RationalTime)
        ensures
            t == self.spec_applied_to_rational_time(other),
    {
        let rate = self.target_rate(other.rate);
        RationalTime { value: other.value_rescaled_to_rate(rate).mul(self.scale), rate }
            + self.offset
    }

    /// The image of the span `other`.
    pub fn applied_to_time_range(&self, other: TimeRange) -> (range: TimeRange)
        ensures
            range == self.spec_applied_to_time_range(other),
    {
        TimeRange::from_start_and_end_time(
            self.applied_to_rational_time(other.start_time),
            self.applied_to_rational_time(other.end_time_exclusive()),
        )
    }

    /// The transform that applies `other` and then `self`.
    pub fn applied_to_time_transform(&self, other: TimeTransform) -> (transform: TimeTransform)
        ensures
            transform == self.spec_applied_to_time_transform(other),
    {
        TimeTransform {
            offset: self.offset + other.offset,
            scale: self.scale.mul(other.scale),
            rate: self.target_rate(other.rate),
        }
    }
}

impl Default for TimeTransform {
    /// The identity: no offset, a scale of one, and the rate of the input.
    fn default() -> (transform: TimeTransform)
        ensures
            transform == (TimeTransform {
                offset: RationalTime {
                    value: Ratio::from_fraction(0, 1),
                    rate: Ratio::from_fraction(1, 1),
                },
                scale: Ratio::from_fraction(1, 1),
                rate: Ratio::from_fraction(-1, 1),
            }),
    {
        TimeTransform {
            offset: RationalTime { value: Ratio::from_int(0), rate: Ratio::from_int(1) },
            scale: Ratio::from_int(1),
            rate: Ratio::from_int(-1),
        }
    }
}

impl PartialEq for TimeTransform {
    fn eq(&self, other: &TimeTransform) -> (b: bool) {
        self.offset == other.offset && self.scale == other.scale && self.rate == other.rate
    }
}

impl PartialEqSpecImpl for TimeTransform {
    open spec fn obeys_eq_spec() -> bool {
        true
    }

    open spec fn eq_spec(&self, other: &TimeTransform) -> bool {
        self.spec_eq(*other)
    }
}

} // verus!
