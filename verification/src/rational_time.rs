//! A point in time: `value` ticks at `rate` ticks per second.

use vstd::prelude::*;
use vstd::std_specs::cmp::PartialEqSpecImpl;
use vstd::std_specs::ops::{AddSpecImpl, SubSpecImpl};
use crate::error_status::{ErrorStatus, ErrorStatusOutcome, contains_nul, detail_for, detail_of,
    nul_character};
use crate::ratio::{Ratio, fraction, fits, lemma_fraction_whole};
use crate::time_string::{spec_seconds_text, spec_parse_seconds, seconds_text, parse_seconds};
use crate::timecode::{Timecode, spec_is_valid_timecode_rate, spec_is_dropframe_rate, nominal_fps,
    frames_per_day, is_valid_timecode_rate, is_dropframe_rate, nominal_frames,
    lemma_frames_in_range, lemma_valid_rate_counts};

verus! {

/// Whether timecode is written with drop-frame counting.
#[derive(Debug, Clone, Copy, PartialEq, Eq, Structural)]
pub enum IsDropFrameRate {
    /// Drop-frame exactly at the rates where drop-frame counting is defined.
    InferFromRate,
    /// Never drop-frame.
    ForceNo,
    /// Always drop-frame; an error at any other rate.
    ForceYes,
}

impl IsDropFrameRate {
    /// Whether timecode at `rate` is written drop-frame under this choice.
    pub open spec fn uses_drop_frame(self, rate: Ratio) -> bool {
        match self {
            IsDropFrameRate::InferFromRate => spec_is_dropframe_rate(rate),
            IsDropFrameRate::ForceNo => false,
            IsDropFrameRate::ForceYes => true,
        }
    }
}

/// A time of `value` ticks at `rate` ticks per second. Nothing is
/// normalised: both fields are kept as given, and a time whose rate is not
/// positive is carried along as an invalid time.
#[derive(Debug, Clone, Copy)]
pub struct RationalTime {
    pub value: Ratio,
    pub rate: Ratio,
}

/// Clamps a whole number into the 32-bit range.
pub open spec fn saturate_i32(k: int) -> i32 {
    if k < i32::MIN {
        i32::MIN
    } else if k > i32::MAX {
        i32::MAX
    } else {
        k as i32
    }
}

impl RationalTime {
    /// Both fields are well-formed numbers, as every executable value's are.
    pub open spec fn wf(self) -> bool {
        self.value.wf() && self.rate.wf()
    }

    /// The instant in seconds as a real number: `value / rate`.
    pub open spec fn seconds_value(self) -> real {
        self.value.value() / self.rate.value()
    }

    /// A time is invalid unless both fields are finite and the rate is
    /// positive.
    pub open spec fn spec_is_invalid_time(self) -> bool {
        !(self.value.is_finite() && self.rate.is_finite() && self.rate.value() > 0 as real)
    }

    /// The tick count of the same instant at `new_rate`:
    /// `value * new_rate / rate`, and `value` itself when the rate does not
    /// change.
    pub open spec fn spec_value_rescaled_to_rate(self, new_rate: Ratio) -> Ratio {
        if new_rate == self.rate {
            self.value
        } else {
            self.value.spec_mul(new_rate).spec_div(self.rate)
        }
    }

    /// The same instant expressed at `new_rate`.
    pub open spec fn spec_rescaled_to(self, new_rate: Ratio) -> RationalTime {
        RationalTime { value: self.spec_value_rescaled_to_rate(new_rate), rate: new_rate }
    }

    /// The instant in seconds: the value rescaled to one tick per second.
    pub open spec fn spec_to_seconds(self) -> Ratio {
        self.spec_value_rescaled_to_rate(Ratio::from_fraction(1, 1))
    }

    /// `|value at other's rate - other.value| <= delta`.
    pub open spec fn spec_almost_equal(self, other: RationalTime, delta: Ratio) -> bool {
        self.spec_value_rescaled_to_rate(other.rate).spec_sub(other.value).spec_abs().spec_le(delta)
    }

    /// The duration of `[self, end_time_exclusive)`, at the rate of `self`.
    pub open spec fn spec_duration_from_start_end_time(
        self,
        end_time_exclusive: RationalTime,
    ) -> RationalTime {
        RationalTime {
            value: end_time_exclusive.spec_value_rescaled_to_rate(self.rate).spec_sub(self.value),
            rate: self.rate,
        }
    }

    /// The sum at the rate of `self`: `rhs` is rescaled to it first.
    pub open spec fn spec_add(self, rhs: RationalTime) -> RationalTime {
        RationalTime {
            value: self.value.spec_add(rhs.spec_value_rescaled_to_rate(self.rate)),
            rate: self.rate,
        }
    }

    /// The difference at the rate of `self`: `rhs` is rescaled to it first.
    pub open spec fn spec_sub(self, rhs: RationalTime) -> RationalTime {
        RationalTime {
            value: self.value.spec_sub(rhs.spec_value_rescaled_to_rate(self.rate)),
            rate: self.rate,
        }
    }

    /// Equality of instants: the values agree once `self` is rescaled to
    /// the rate of `other`.
    pub open spec fn spec_eq(self, other: RationalTime) -> bool {
        self.spec_value_rescaled_to_rate(other.rate) == other.value
    }

    /// Strictly earlier, compared in seconds; false when either instant has
    /// no finite number of seconds.
    pub open spec fn spec_lt(self, other: RationalTime) -> bool {
        self.spec_to_seconds().spec_lt(other.spec_to_seconds())
    }

    /// Not later, compared in seconds; false when either instant has no
    /// finite number of seconds.
    pub open spec fn spec_le(self, other: RationalTime) -> bool {
        self.spec_to_seconds().spec_le(other.spec_to_seconds())
    }

    /// The earlier of two instants, `self` when neither is earlier.
    pub open spec fn spec_earliest(self, other: RationalTime) -> RationalTime {
        if other.spec_lt(self) {
            other
        } else {
            self
        }
    }

    /// The later of two instants, `self` when neither is later.
    pub open spec fn spec_latest(self, other: RationalTime) -> RationalTime {
        if self.spec_lt(other) {
            other
        } else {
            self
        }
    }

    /// The value at `rate`, rounded to the nearest whole frame (a tie goes
    /// up) and clamped into the 32-bit range; zero if it is not finite.
    pub open spec fn spec_to_frames_with_rate(self, rate: Ratio) -> i32 {
        let frames = self.spec_value_rescaled_to_rate(rate);
        if frames.is_finite() {
            saturate_i32(frames.spec_round())
        } else {
            0
        }
    }

    /// What `to_timecode` returns: the text, or why there is none.
    ///
    /// An illegal rate is refused first, then drop-frame forced at a rate
    /// that has none, then a value that is negative or not finite at `rate`.
    /// Otherwise the text is that of the whole frame the instant falls in.
    pub open spec fn spec_to_timecode(self, rate: Ratio, drop_frame: IsDropFrameRate) -> Result<
        Seq<char>,
        ErrorStatusOutcome,
    > {
        let frames = self.spec_value_rescaled_to_rate(rate);
        if !spec_is_valid_timecode_rate(rate) {
            Err(ErrorStatusOutcome::InvalidTimecodeRate)
        } else if drop_frame == IsDropFrameRate::ForceYes && !spec_is_dropframe_rate(rate) {
            Err(ErrorStatusOutcome::InvalidRateForDropFrameTimecode)
        } else if !(frames.is_finite() && frames.value() >= 0 as real) {
            Err(ErrorStatusOutcome::NegativeValue)
        } else {
            Ok(
                Timecode::spec_from_frames(
                    frames.spec_floor(),
                    rate,
                    drop_frame.uses_drop_frame(rate),
                ).text(),
            )
        }
    }

    /// What `from_timecode` returns: the time, or why there is none.
    ///
    /// A text with a NUL character inside is refused first, whatever the
    /// rate, then an illegal rate, then a text that is no timecode, then a
    /// drop-frame separator at a rate without drop-frame counting, then a
    /// frames field that the rate has no frame for.
    pub open spec fn spec_from_timecode(timecode: Seq<char>, rate: Ratio) -> Result<
        RationalTime,
        ErrorStatusOutcome,
    > {
        if timecode.contains('\0') {
            Err(ErrorStatusOutcome::InvalidTimecodeString)
        } else if !spec_is_valid_timecode_rate(rate) {
            Err(ErrorStatusOutcome::InvalidTimecodeRate)
        } else {
            match Timecode::spec_parse(timecode) {
                None => Err(ErrorStatusOutcome::InvalidTimecodeString),
                Some(tc) => if tc.drop_frame && !spec_is_dropframe_rate(rate) {
                    Err(ErrorStatusOutcome::NonDropframeRate)
                } else if tc.frames >= nominal_fps(rate) {
                    Err(ErrorStatusOutcome::InvalidTimecodeString)
                } else {
                    Ok(
                        RationalTime {
                            value: Ratio::from_fraction(tc.spec_to_frames(rate), 1),
                            rate,
                        },
                    )
                },
            }
        }
    }

    /// What `from_time_string` returns: the seconds that the text spells,
    /// as a time at `rate`; an error for a text that is no time string, as
    /// every text with a NUL character inside is.
    pub open spec fn spec_from_time_string(time_string: Seq<char>, rate: Ratio) -> Result<
        RationalTime,
        ErrorStatusOutcome,
    > {
        if time_string.contains('\0') {
            Err(ErrorStatusOutcome::InvalidTimeString)
        } else {
            match spec_parse_seconds(time_string) {
                Some(seconds) => Ok(
                    (RationalTime {
                        value: seconds,
                        rate: Ratio::from_fraction(1, 1),
                    }).spec_rescaled_to(rate),
                ),
                None => Err(ErrorStatusOutcome::InvalidTimeString),
            }
        }
    }
}

impl RationalTime {
    /// A time with the fields as given.
    pub fn new(value: Ratio, rate: Ratio) -> (t: RationalTime)
        ensures
            t == (RationalTime { value, rate }),
    {
        RationalTime { value, rate }
    }

    /// True unless both fields are finite and the rate is positive.
    pub fn is_invalid_time(self) -> (b: bool)
        ensures
            b == self.spec_is_invalid_time(),
    {
        let zero = Ratio::from_int(0);
        proof {
            Ratio::lemma_from_int(0);
        }
        !(self.value.is_finite() && zero.lt(self.rate))
    }

    /// The same instant expressed at `new_rate`.
    pub fn rescaled_to(self, new_rate: Ratio) -> (t: RationalTime)
        ensures
            t == self.spec_rescaled_to(new_rate),
    {
        RationalTime { value: self.value_rescaled_to_rate(new_rate), rate: new_rate }
    }

    /// The same instant expressed at the rate of `rt`, whose value is not
    /// looked at.
    pub fn rescaled_to_rational_time(self, rt: RationalTime) -> (t: RationalTime)
        ensures
            t == self.spec_rescaled_to(rt.rate),
    {
        self.rescaled_to(rt.rate)
    }

    /// The tick count of the same instant at `new_rate`.
    pub fn value_rescaled_to_rate(self, new_rate: Ratio) -> (v: Ratio)
        ensures
            v == self.spec_value_rescaled_to_rate(new_rate),
    {
        if new_rate == self.rate {
            self.value
        } else {
            self.value.mul(new_rate).div(self.rate)
        }
    }

    /// The tick count of the same instant at the rate of `rt`.
    pub fn value_rescaled_to_rational_time(self, rt: RationalTime) -> (v: Ratio)
        ensures
            v == self.spec_value_rescaled_to_rate(rt.rate),
    {
        self.value_rescaled_to_rate(rt.rate)
    }

    /// Whether the two instants differ by at most `delta` ticks at the rate
    /// of `other`.
    pub fn almost_equal(self, other: RationalTime, delta: Ratio) -> (b: bool)
        ensures
            b == self.spec_almost_equal(other, delta),
    {
        self.value_rescaled_to_rate(other.rate).sub(other.value).abs().le(delta)
    }

    /// The duration of `[self, end_time_exclusive)`, at the rate of `self`.
    pub fn duration_from_start_end_time(self, end_time_exclusive: RationalTime) -> (t: RationalTime)
        ensures
            t == self.spec_duration_from_start_end_time(end_time_exclusive),
    {
        RationalTime {
            value: end_time_exclusive.value_rescaled_to_rate(self.rate).sub(self.value),
            rate: self.rate,
        }
    }

    /// Whether timecode is defined at `rate`.
    pub fn is_valid_timecode_rate(rate: Ratio) -> (b: bool)
        ensures
            b == spec_is_valid_timecode_rate(rate),
    {
        is_valid_timecode_rate(rate)
    }

    /// A frame number as a time: `frame` ticks at `rate`.
    pub fn from_frames(frame: Ratio, rate: Ratio) -> (t: RationalTime)
        ensures
            t == (RationalTime { value: frame, rate }),
    {
        RationalTime { value: frame, rate }
    }

    /// A number of seconds as a time at one tick per second.
    pub fn from_seconds(seconds: Ratio) -> (t: RationalTime)
        ensures
            t == (RationalTime { value: seconds, rate: Ratio::from_fraction(1, 1) }),
    {
        RationalTime { value: seconds, rate: Ratio::from_int(1) }
    }

    /// Reads a timecode, `HH:MM:SS:FF` or `HH:MM:SS;FF`, as a time at
    /// `rate`. The failure record carries a detail exactly for a text with
    /// a NUL character inside.
    pub fn from_timecode(timecode: &str, rate: Ratio) -> (r: Result<RationalTime, ErrorStatus>)
        ensures
            match r {
                Ok(t) => RationalTime::spec_from_timecode(timecode@, rate) == Ok::<
                    RationalTime,
                    ErrorStatusOutcome,
                >(t),
                Err(e) => RationalTime::spec_from_timecode(timecode@, rate) == Err::<
                    RationalTime,
                    ErrorStatusOutcome,
                >(e.outcome) && detail_of(e) == detail_for(timecode@),
            },
            r matches Err(e) ==> (e.details is Some <==> timecode@.contains('\0')),
    {
        if contains_nul(timecode) {
            return Err(nul_character(ErrorStatusOutcome::InvalidTimecodeString));
        }
        if !is_valid_timecode_rate(rate) {
            return Err(ErrorStatus::with_outcome(ErrorStatusOutcome::InvalidTimecodeRate));
        }
        match Timecode::parse(timecode) {
            None => Err(ErrorStatus::with_outcome(ErrorStatusOutcome::InvalidTimecodeString)),
            Some(tc) => {
                if tc.drop_frame && !is_dropframe_rate(rate) {
                    Err(ErrorStatus::with_outcome(ErrorStatusOutcome::NonDropframeRate))
                } else if tc.frames as i64 >= nominal_frames(rate) {
                    Err(ErrorStatus::with_outcome(ErrorStatusOutcome::InvalidTimecodeString))
                } else {
                    Ok(RationalTime { value: Ratio::from_int(tc.to_frames(rate)), rate })
                }
            },
        }
    }

    /// Reads a time string, `HH:MM:SS` with an optional fraction, as a time
    /// at `rate`. The failure record carries a detail exactly for a text
    /// with a NUL character inside.
    pub fn from_time_string(time_string: &str, rate: Ratio) -> (r: Result<
        RationalTime,
        ErrorStatus,
    >)
        ensures
            match r {
                Ok(t) => RationalTime::spec_from_time_string(time_string@, rate) == Ok::<
                    RationalTime,
                    ErrorStatusOutcome,
                >(t),
                Err(e) => RationalTime::spec_from_time_string(time_string@, rate) == Err::<
                    RationalTime,
                    ErrorStatusOutcome,
                >(e.outcome) && detail_of(e) == detail_for(time_string@),
            },
            r matches Err(e) ==> (e.details is Some <==> time_string@.contains('\0')),
    {
        if contains_nul(time_string) {
            return Err(nul_character(ErrorStatusOutcome::InvalidTimeString));
        }
        match parse_seconds(time_string) {
            Some(seconds) => Ok(RationalTime::from_seconds(seconds).rescaled_to(rate)),
            None => Err(ErrorStatus::with_outcome(ErrorStatusOutcome::InvalidTimeString)),
        }
    }

    /// The value rounded to the nearest whole frame.
    pub fn to_frames(self) -> (frames: i32)
        ensures
            frames == self.spec_to_frames_with_rate(self.rate),
    {
        self.to_frames_with_rate(self.rate)
    }

    /// The value at `rate`, rounded to the nearest whole frame.
    pub fn to_frames_with_rate(self, rate: Ratio) -> (frames: i32)
        ensures
            frames == self.spec_to_frames_with_rate(rate),
    {
        match self.value_rescaled_to_rate(rate).round() {
            None => 0,
            Some(k) => if k < i32::MIN as i64 {
                i32::MIN
            } else if k > i32::MAX as i64 {
                i32::MAX
            } else {
                k as i32
            },
        }
    }

    /// The instant in seconds.
    pub fn to_seconds(self) -> (seconds: Ratio)
        ensures
            seconds == self.spec_to_seconds(),
    {
        self.value_rescaled_to_rate(Ratio::from_int(1))
    }

    /// Writes the instant as timecode at `rate`.
    pub fn to_timecode(self, rate: Ratio, drop_frame: IsDropFrameRate) -> (r: Result<
        String,
        ErrorStatus,
    >)
        ensures
            match r {
                Ok(text) => self.spec_to_timecode(rate, drop_frame) == Ok::<
                    Seq<char>,
                    ErrorStatusOutcome,
                >(text@),
                Err(e) => self.spec_to_timecode(rate, drop_frame) == Err::<
                    Seq<char>,
                    ErrorStatusOutcome,
                >(e.outcome) && e.details is None,
            },
    {
        if !is_valid_timecode_rate(rate) {
            return Err(ErrorStatus::with_outcome(ErrorStatusOutcome::InvalidTimecodeRate));
        }
        let rate_is_dropframe = is_dropframe_rate(rate);
        let use_drop_frame = match drop_frame {
            IsDropFrameRate::InferFromRate => rate_is_dropframe,
            IsDropFrameRate::ForceNo => false,
            IsDropFrameRate::ForceYes => {
                if !rate_is_dropframe {
                    return Err(
                        ErrorStatus::with_outcome(
                            ErrorStatusOutcome::InvalidRateForDropFrameTimecode,
                        ),
                    );
                }
                true
            },
        };
        match self.value_rescaled_to_rate(rate).floor() {
            None => Err(ErrorStatus::with_outcome(ErrorStatusOutcome::NegativeValue)),
            Some(frames) => {
                if frames < 0 {
                    Err(ErrorStatus::with_outcome(ErrorStatusOutcome::NegativeValue))
                } else {
                    Ok(Timecode::from_frames(frames, rate, use_drop_frame).to_string())
                }
            },
        }
    }

    /// Writes the instant as timecode at its own rate, drop-frame where the
    /// rate has drop-frame counting.
    pub fn to_timecode_auto(self) -> (r: Result<String, ErrorStatus>)
        ensures
            match r {
                Ok(text) => self.spec_to_timecode(self.rate, IsDropFrameRate::InferFromRate)
                    == Ok::<Seq<char>, ErrorStatusOutcome>(text@),
                Err(e) => self.spec_to_timecode(self.rate, IsDropFrameRate::InferFromRate) == Err::<
                    Seq<char>,
                    ErrorStatusOutcome,
                >(e.outcome) && e.details is None,
            },
    {
        self.to_timecode(self.rate, IsDropFrameRate::InferFromRate)
    }

    /// Writes the instant as a time string: hours, minutes, seconds and up
    /// to six digits of a second.
    pub fn to_time_string(self) -> (text: String)
        ensures
            text@ == spec_seconds_text(self.spec_to_seconds()),
    {
        seconds_text(self.to_seconds())
    }

    /// Strictly earlier than `other`, compared in seconds.
    pub fn lt(self, other: RationalTime) -> (b: bool)
        ensures
            b == self.spec_lt(other),
    {
        self.to_seconds().lt(other.to_seconds())
    }

    /// Not later than `other`, compared in seconds.
    pub fn le(self, other: RationalTime) -> (b: bool)
        ensures
            b == self.spec_le(other),
    {
        self.to_seconds().le(other.to_seconds())
    }

    /// The earlier of two instants, `self` when neither is earlier.
    pub fn earliest(self, other: RationalTime) -> (t: RationalTime)
        ensures
            t == self.spec_earliest(other),
    {
        if other.lt(self) {
            other
        } else {
            self
        }
    }

    /// The later of two instants, `self` when neither is later.
    pub fn latest(self, other: RationalTime) -> (t: RationalTime)
        ensures
            t == self.spec_latest(other),
    {
        if self.lt(other) {
            other
        } else {
            self
        }
    }
}

impl Default for RationalTime {
    /// The default time is invalid: zero ticks at a rate of zero.
    fn default() -> (t: RationalTime)
        ensures
            t == (RationalTime {
                value: Ratio::from_fraction(0, 1),
                rate: Ratio::from_fraction(0, 1),
            }),
    {
        RationalTime { value: Ratio::from_int(0), rate: Ratio::from_int(0) }
    }
}

impl PartialEq for RationalTime {
    fn eq(&self, other: &RationalTime) -> (b: bool) {
        self.value_rescaled_to_rate(other.rate) == other.value
    }
}

impl PartialEqSpecImpl for RationalTime {
    open spec fn obeys_eq_spec() -> bool {
        true
    }

    open spec fn eq_spec(&self, other: &RationalTime) -> bool {
        self.spec_eq(*other)
    }
}

impl core::ops::Add for RationalTime {
    type Output = RationalTime;

    fn add(self, rhs: RationalTime) -> (t: RationalTime) {
        RationalTime {
            value: self.value.add(rhs.value_rescaled_to_rate(self.rate)),
            rate: self.rate,
        }
    }
}

impl AddSpecImpl for RationalTime {
    open spec fn obeys_add_spec() -> bool {
        true
    }

    open spec fn add_req(self, rhs: RationalTime) -> bool {
        true
    }

    open spec fn add_spec(self, rhs: RationalTime) -> RationalTime {
        self.spec_add(rhs)
    }
}

impl core::ops::Sub for RationalTime {
    type Output = RationalTime;

    fn sub(self, rhs: RationalTime) -> (t: RationalTime) {
        RationalTime {
            value: self.value.sub(rhs.value_rescaled_to_rate(self.rate)),
            rate: self.rate,
        }
    }
}

impl SubSpecImpl for RationalTime {
    open spec fn obeys_sub_spec() -> bool {
        true
    }

    open spec fn sub_req(self, rhs: RationalTime) -> bool {
        true
    }

    open spec fn sub_spec(self, rhs: RationalTime) -> RationalTime {
        self.spec_sub(rhs)
    }
}

impl RationalTime {
    /// An instant with a finite number of seconds has finite fields and a
    /// rate that is not zero, and that number is `value / rate`.
    pub proof fn lemma_to_seconds(self)
        requires
            self.wf(),
            self.spec_to_seconds().is_finite(),
        ensures
            self.value.is_finite(),
            self.rate.is_finite(),
            self.rate.value() != 0 as real,
            self.spec_to_seconds().value() == self.seconds_value(),
    {
        let one = Ratio::from_fraction(1, 1);
        Ratio::lemma_from_int(1);
        let v = self.value.value();
        let r = self.rate.value();
        if one == self.rate {
            assert(v / (1 as real) == v) by (nonlinear_arith);
        } else {
            self.value.lemma_mul(one);
            self.value.spec_mul(one).lemma_div(self.rate);
            assert(v * (1 as real) == v) by (nonlinear_arith);
        }
    }

    /// A finite rescaled value comes from a finite value; where the rate
    /// changes, both rates are finite, the old one is not zero, and the
    /// result is `value * new_rate / rate`.
    pub proof fn lemma_value_rescaled(self, new_rate: Ratio)
        requires
            self.wf(),
            self.spec_value_rescaled_to_rate(new_rate).is_finite(),
        ensures
            self.value.is_finite(),
            new_rate != self.rate ==> self.rate.is_finite() && new_rate.is_finite()
                && self.rate.value() != 0 as real && self.spec_value_rescaled_to_rate(
                new_rate,
            ).value() == self.value.value() * new_rate.value() / self.rate.value(),
    {
        if new_rate != self.rate {
            self.value.lemma_mul(new_rate);
            self.value.spec_mul(new_rate).lemma_div(self.rate);
        }
    }

    /// Where the rates are finite and not zero, the seconds of a finite sum
    /// are the sum of the seconds.
    pub proof fn lemma_add_seconds(self, rhs: RationalTime)
        requires
            self.wf(),
            rhs.wf(),
            self.spec_add(rhs).value.is_finite(),
            self.rate.is_finite() && self.rate.value() != 0 as real,
            rhs.rate.is_finite() && rhs.rate.value() != 0 as real,
        ensures
            self.value.is_finite(),
            rhs.value.is_finite(),
            self.spec_add(rhs).seconds_value() == self.seconds_value() + rhs.seconds_value(),
    {
        let x = rhs.spec_value_rescaled_to_rate(self.rate);
        self.value.lemma_add(x);
        rhs.lemma_value_rescaled(self.rate);
        let a = self.value.value();
        let r = self.rate.value();
        let b = rhs.value.value();
        let q = rhs.rate.value();
        if self.rate == rhs.rate {
            assert((a + b) / r == a / r + b / r) by (nonlinear_arith)
                requires
                    r != 0 as real,
            ;
        } else {
            assert((a + b * r / q) / r == a / r + b / q) by (nonlinear_arith)
                requires
                    r != 0 as real,
                    q != 0 as real,
            ;
        }
    }

    /// Where the rates are finite and not zero, the seconds of a finite
    /// difference are the difference of the seconds.
    pub proof fn lemma_sub_seconds(self, rhs: RationalTime)
        requires
            self.wf(),
            rhs.wf(),
            self.spec_sub(rhs).value.is_finite(),
            self.rate.is_finite() && self.rate.value() != 0 as real,
            rhs.rate.is_finite() && rhs.rate.value() != 0 as real,
        ensures
            self.value.is_finite(),
            rhs.value.is_finite(),
            self.spec_sub(rhs).seconds_value() == self.seconds_value() - rhs.seconds_value(),
    {
        let x = rhs.spec_value_rescaled_to_rate(self.rate);
        self.value.lemma_sub(x);
        rhs.lemma_value_rescaled(self.rate);
        let a = self.value.value();
        let r = self.rate.value();
        let b = rhs.value.value();
        let q = rhs.rate.value();
        if self.rate == rhs.rate {
            assert((a - b) / r == a / r - b / r) by (nonlinear_arith)
                requires
                    r != 0 as real,
            ;
        } else {
            assert((a - b * r / q) / r == a / r - b / q) by (nonlinear_arith)
                requires
                    r != 0 as real,
                    q != 0 as real,
            ;
        }
    }

    /// A time with a finite value is almost equal to itself for every
    /// tolerance that is not negative.
    pub proof fn lemma_almost_equal_self(self, delta: Ratio)
        requires
            self.value.wf(),
            self.value.is_finite(),
            delta.is_finite() && delta.value() >= 0 as real,
        ensures
            self.spec_almost_equal(self, delta),
    {
        let v = self.value.value();
        let zero = self.value.spec_sub(self.value);
        lemma_fraction_whole(0);
        assert(fits(0, 1) && fraction(0, 1) == v - v);
        Ratio::lemma_of(v - v);
        zero.lemma_abs();
    }

    /// Addition identity: adding zero ticks at the same rate to a time with
    /// a finite value gives the same time.
    pub proof fn lemma_add_zero(self)
        requires
            self.wf(),
            self.value.is_finite(),
        ensures
            self.spec_add(RationalTime { value: Ratio::from_fraction(0, 1), rate: self.rate })
                == self,
            self.spec_add(
                RationalTime { value: Ratio::from_fraction(0, 1), rate: self.rate },
            ).spec_eq(self),
    {
        Ratio::lemma_from_int(0);
        self.value.lemma_of_value();
    }

    /// The rescale round trip keeps the rate in every case, and fails
    /// whenever its result is not finite: the result is then neither equal
    /// nor almost equal to a time with a finite value. So the condition of
    /// `lemma_rescale_round_trip` leaves out no time for which the round
    /// trip holds.
    pub proof fn lemma_rescale_round_trip_needs_finite(self, r1: Ratio, r2: Ratio, delta: Ratio)
        requires
            self.value.is_finite(),
            !self.spec_rescaled_to(r1).spec_rescaled_to(r2).spec_rescaled_to(
                self.rate,
            ).value.is_finite(),
        ensures
            self.spec_rescaled_to(r1).spec_rescaled_to(r2).spec_rescaled_to(self.rate).rate
                == self.rate,
            !self.spec_rescaled_to(r1).spec_rescaled_to(r2).spec_rescaled_to(self.rate).spec_eq(
                self,
            ),
            !self.spec_rescaled_to(r1).spec_rescaled_to(r2).spec_rescaled_to(
                self.rate,
            ).spec_almost_equal(self, delta),
    {
        let back = self.spec_rescaled_to(r1).spec_rescaled_to(r2).spec_rescaled_to(self.rate);
        Ratio::lemma_nan();
        back.value.lemma_sub(self.value);
        back.value.spec_sub(self.value).lemma_abs_finite();
    }

    /// Rescale round trip: rescaling a time to a second rate, then to a
    /// third, then back to its own rate gives the time back, unless a step
    /// on the way cannot be stored, which shows in a result that is not
    /// finite. The time is then also almost equal to the result for every
    /// tolerance that is not negative.
    pub proof fn lemma_rescale_round_trip(self, r1: Ratio, r2: Ratio, delta: Ratio)
        requires
            self.wf(),
            r1.wf(),
            r2.wf(),
            !self.spec_is_invalid_time(),
            r1.is_finite() && r1.value() > 0 as real,
            r2.is_finite() && r2.value() > 0 as real,
            self.spec_rescaled_to(r1).spec_rescaled_to(r2).spec_rescaled_to(
                self.rate,
            ).value.is_finite(),
            delta.is_finite() && delta.value() >= 0 as real,
        ensures
            self.spec_rescaled_to(r1).spec_rescaled_to(r2).spec_rescaled_to(self.rate) == self,
            self.spec_rescaled_to(r1).spec_rescaled_to(r2).spec_rescaled_to(self.rate).spec_eq(
                self,
            ),
            self.spec_rescaled_to(r1).spec_rescaled_to(r2).spec_rescaled_to(
                self.rate,
            ).spec_almost_equal(self, delta),
    {
        let t1 = self.spec_rescaled_to(r1);
        let t2 = t1.spec_rescaled_to(r2);
        let t3 = t2.spec_rescaled_to(self.rate);
        self.value.spec_mul(r1).lemma_div(self.rate);
        self.value.lemma_mul(r1);
        t1.value.spec_mul(r2).lemma_div(r1);
        t1.value.lemma_mul(r2);
        t2.value.spec_mul(self.rate).lemma_div(r2);
        t2.value.lemma_mul(self.rate);
        t2.lemma_value_rescaled(self.rate);
        t1.lemma_value_rescaled(r2);
        self.lemma_value_rescaled(r1);
        let v = self.value.value();
        let r = self.rate.value();
        let a = r1.value();
        let b = r2.value();
        assert(t1.value.value() == v * a / r) by {
            if r1 == self.rate {
                assert(v * a / a == v) by (nonlinear_arith)
                    requires
                        a > 0 as real,
                ;
            }
        }
        assert(t2.value.value() == v * b / r) by {
            if r2 == r1 {
            } else {
                assert((v * a / r) * b / a == v * b / r) by (nonlinear_arith)
                    requires
                        a > 0 as real,
                        r > 0 as real,
                ;
            }
        }
        assert(t3.value.value() == v) by {
            if self.rate == r2 {
                assert(v * b / b == v) by (nonlinear_arith)
                    requires
                        b > 0 as real,
                ;
            } else {
                assert((v * b / r) * r / b == v) by (nonlinear_arith)
                    requires
                        b > 0 as real,
                        r > 0 as real,
                ;
            }
        }
        t3.value.lemma_value_unique(self.value);
        self.lemma_almost_equal_self(delta);
    }

    /// Timecode round trip: a whole, non-negative number of frames below a
    /// day's worth, at a legal timecode rate, is written as a timecode that
    /// reads back as the same time, which is almost equal to it for every
    /// tolerance that is not negative.
    pub proof fn lemma_timecode_round_trip(self, frames: int, delta: Ratio)
        requires
            spec_is_valid_timecode_rate(self.rate),
            0 <= frames < frames_per_day(self.rate),
            self.value == Ratio::from_fraction(frames, 1),
            delta.is_finite() && delta.value() >= 0 as real,
        ensures
            self.spec_to_timecode(self.rate, IsDropFrameRate::InferFromRate) is Ok,
            RationalTime::spec_from_timecode(
                self.spec_to_timecode(self.rate, IsDropFrameRate::InferFromRate)->Ok_0,
                self.rate,
            ) == Ok::<RationalTime, ErrorStatusOutcome>(self),
            RationalTime::spec_from_timecode(
                self.spec_to_timecode(self.rate, IsDropFrameRate::InferFromRate)->Ok_0,
                self.rate,
            )->Ok_0.spec_almost_equal(self, delta),
    {
        assert(self.spec_almost_equal(self, delta)) by {
            lemma_valid_rate_counts(self.rate);
            Ratio::lemma_from_int(frames);
            self.lemma_almost_equal_self(delta);
        }
        let rate = self.rate;
        let drop_frame = spec_is_dropframe_rate(rate);
        lemma_valid_rate_counts(rate);
        Ratio::lemma_from_int(frames);
        assert(self.spec_value_rescaled_to_rate(rate) == self.value);
        assert(self.value.spec_floor() == frames);
        let tc = Timecode::spec_from_frames(frames, rate, drop_frame);
        lemma_frames_in_range(frames, rate, drop_frame);
        tc.lemma_parse_text();
        Timecode::lemma_frames_round_trip(frames, rate, drop_frame);
    }
}

} // verus!
