//! SMPTE timecode: the legal rates, drop-frame counting, and the
//! `HH:MM:SS:FF` text form.

use vstd::prelude::*;
use vstd::string::*;
use crate::decimal::{two_digits, two_digit_value, two_digits_at, push_two_digits,
    lemma_two_digits_value};
use crate::ratio::{Ratio, fraction, lemma_fraction_whole};

verus! {

/// The rates at which timecode is defined.
pub open spec fn spec_is_valid_timecode_rate(rate: Ratio) -> bool {
    ||| rate.is_fraction(1, 1)
    ||| rate.is_fraction(12, 1)
    ||| rate.is_fraction(2397, 100)
    ||| rate.is_fraction(23976, 1000)
    ||| rate.is_fraction(2398, 100)
    ||| rate.is_fraction(24000, 1001)
    ||| rate.is_fraction(24, 1)
    ||| rate.is_fraction(25, 1)
    ||| rate.is_fraction(2997, 100)
    ||| rate.is_fraction(30000, 1001)
    ||| rate.is_fraction(30, 1)
    ||| rate.is_fraction(48, 1)
    ||| rate.is_fraction(50, 1)
    ||| rate.is_fraction(5994, 100)
    ||| rate.is_fraction(60000, 1001)
    ||| rate.is_fraction(60, 1)
}

/// The rates at which drop-frame counting is defined.
pub open spec fn spec_is_dropframe_rate(rate: Ratio) -> bool {
    ||| rate.is_fraction(2997, 100)
    ||| rate.is_fraction(30000, 1001)
    ||| rate.is_fraction(5994, 100)
    ||| rate.is_fraction(60000, 1001)
}

/// How many frame numbers drop-frame counting skips at the start of a
/// minute: two at the 30-frame rates, four at the 60-frame rates.
pub open spec fn dropframes(rate: Ratio) -> int {
    if rate.is_fraction(2997, 100) || rate.is_fraction(30000, 1001) {
        2
    } else if rate.is_fraction(5994, 100) || rate.is_fraction(60000, 1001) {
        4
    } else {
        0
    }
}

/// The frame count that timecode runs at: the rate rounded up.
pub open spec fn nominal_fps(rate: Ratio) -> int {
    -rate.spec_scaled_floor(-1)
}

/// The frames in a day of real time, after which timecode starts over.
pub open spec fn frames_per_day(rate: Ratio) -> int {
    rate.spec_scaled_round(3600) * 24
}

/// The frames in ten minutes of real time.
pub open spec fn frames_per_ten_minutes(rate: Ratio) -> int {
    rate.spec_scaled_round(600)
}

/// The frame numbers that a drop-frame minute counts.
pub open spec fn frames_per_minute(rate: Ratio) -> int {
    rate.spec_round() * 60 - dropframes(rate)
}

/// The frame number that the text shows for the frame count `frames`: the
/// count within the day, moved past the numbers that drop-frame counting
/// has skipped up to there.
pub open spec fn displayed_frames(frames: int, rate: Ratio, drop_frame: bool) -> int {
    let within = frames % frames_per_day(rate);
    if drop_frame {
        let skip = dropframes(rate);
        let chunks = within / frames_per_ten_minutes(rate);
        let over = within % frames_per_ten_minutes(rate);
        if over > skip {
            within + skip * 9 * chunks + skip * ((over - skip) / frames_per_minute(rate))
        } else {
            within + skip * 9 * chunks
        }
    } else {
        within
    }
}

/// The fields of a timecode. `drop_frame` records which separator stands
/// before the frames: a semicolon for drop-frame counting, else a colon.
#[derive(Debug, Clone, Copy, PartialEq, Eq, Structural)]
pub struct Timecode {
    pub hours: u8,
    pub minutes: u8,
    pub seconds: u8,
    pub frames: u8,
    pub drop_frame: bool,
}

impl Timecode {
    /// Every field can be written with two digits, and minutes and seconds
    /// are below sixty.
    pub open spec fn wf(self) -> bool {
        self.hours <= 99 && self.minutes <= 59 && self.seconds <= 59 && self.frames <= 99
    }

    /// The text form: `HH:MM:SS:FF`, or `HH:MM:SS;FF` for drop-frame.
    pub open spec fn text(self) -> Seq<char> {
        two_digits(self.hours as int) + seq![':'] + two_digits(self.minutes as int) + seq![':']
            + two_digits(self.seconds as int) + seq![if self.drop_frame {
            ';'
        } else {
            ':'
        }] + two_digits(self.frames as int)
    }

    /// The timecode that a text spells: exactly eleven characters, two
    /// digits for each field, colons between them, a colon or a semicolon
    /// before the frames, and minutes and seconds below sixty.
    pub open spec fn spec_parse(text: Seq<char>) -> Option<Timecode> {
        if text.len() == 11 && text[2] == ':' && text[5] == ':' && (text[8] == ':' || text[8]
            == ';') {
            match (
                two_digit_value(text, 0),
                two_digit_value(text, 3),
                two_digit_value(text, 6),
                two_digit_value(text, 9),
            ) {
                (Some(hours), Some(minutes), Some(seconds), Some(frames)) => {
                    if minutes <= 59 && seconds <= 59 {
                        Some(
                            Timecode {
                                hours: hours as u8,
                                minutes: minutes as u8,
                                seconds: seconds as u8,
                                frames: frames as u8,
                                drop_frame: text[8] == ';',
                            },
                        )
                    } else {
                        None
                    }
                },
                _ => None,
            }
        } else {
            None
        }
    }

    /// The timecode of the frame count `frames` at `rate`.
    pub open spec fn spec_from_frames(frames: int, rate: Ratio, drop_frame: bool) -> Timecode {
        let shown = displayed_frames(frames, rate, drop_frame);
        let seconds_total = shown / nominal_fps(rate);
        Timecode {
            hours: (seconds_total / 3600) as u8,
            minutes: ((seconds_total / 60) % 60) as u8,
            seconds: (seconds_total % 60) as u8,
            frames: (shown % nominal_fps(rate)) as u8,
            drop_frame,
        }
    }

    /// The frame count that the timecode stands for at `rate`.
    pub open spec fn spec_to_frames(self, rate: Ratio) -> int {
        let skip = if self.drop_frame {
            dropframes(rate)
        } else {
            0
        };
        let minutes_total = self.hours * 60 + self.minutes;
        (minutes_total * 60 + self.seconds) * nominal_fps(rate) + self.frames - skip * (
        minutes_total - minutes_total / 10)
    }
}

/// Whether timecode is defined at `rate`.
pub fn is_valid_timecode_rate(rate: Ratio) -> (b: bool)
    ensures
        b == spec_is_valid_timecode_rate(rate),
{
    rate.equals_fraction(1, 1) || rate.equals_fraction(12, 1) || rate.equals_fraction(2397, 100)
        || rate.equals_fraction(23976, 1000) || rate.equals_fraction(2398, 100)
        || rate.equals_fraction(24000, 1001) || rate.equals_fraction(24, 1)
        || rate.equals_fraction(25, 1) || rate.equals_fraction(2997, 100) || rate.equals_fraction(
        30000,
        1001,
    ) || rate.equals_fraction(30, 1) || rate.equals_fraction(48, 1) || rate.equals_fraction(50, 1)
        || rate.equals_fraction(5994, 100) || rate.equals_fraction(60000, 1001)
        || rate.equals_fraction(60, 1)
}

/// Whether drop-frame counting is defined at `rate`.
pub fn is_dropframe_rate(rate: Ratio) -> (b: bool)
    ensures
        b == spec_is_dropframe_rate(rate),
{
    rate.equals_fraction(2997, 100) || rate.equals_fraction(30000, 1001) || rate.equals_fraction(
        5994,
        100,
    ) || rate.equals_fraction(60000, 1001)
}

/// The frame numbers skipped at the start of a drop-frame minute.
fn dropframe_count(rate: Ratio) -> (skip: i64)
    ensures
        skip == dropframes(rate),
{
    if rate.equals_fraction(2997, 100) || rate.equals_fraction(30000, 1001) {
        2
    } else if rate.equals_fraction(5994, 100) || rate.equals_fraction(60000, 1001) {
        4
    } else {
        0
    }
}

/// The frame count that timecode runs at.
pub(crate) fn nominal_frames(rate: Ratio) -> (nominal: i64)
    requires
        spec_is_valid_timecode_rate(rate),
    ensures
        nominal == nominal_fps(rate),
        1 <= nominal <= 60,
{
    proof {
        lemma_valid_rate_counts(rate);
    }
    -(rate.scaled_floor(-1).unwrap() as i64)
}

impl Timecode {
    /// Reads a timecode from its text form.
    pub fn parse(text: &str) -> (r: Option<Timecode>)
        ensures
            r == Timecode::spec_parse(text@),
    {
        if text.unicode_len() != 11 {
            return None;
        }
        let separator = text.get_char(8);
        if text.get_char(2) != ':' || text.get_char(5) != ':' || (separator != ':' && separator
            != ';') {
            return None;
        }
        match (
            two_digits_at(text, 0),
            two_digits_at(text, 3),
            two_digits_at(text, 6),
            two_digits_at(text, 9),
        ) {
            (Some(hours), Some(minutes), Some(seconds), Some(frames)) => {
                if minutes <= 59 && seconds <= 59 {
                    Some(Timecode { hours, minutes, seconds, frames, drop_frame: separator == ';' })
                } else {
                    None
                }
            },
            _ => None,
        }
    }

    /// Writes the timecode in its text form.
    pub fn to_string(&self) -> (text: String)
        ensures
            text@ == self.text(),
    {
        proof {
            reveal_strlit(":");
            reveal_strlit(";");
        }
        let mut text = String::new();
        push_two_digits(&mut text, self.hours);
        text.append(":");
        push_two_digits(&mut text, self.minutes);
        text.append(":");
        push_two_digits(&mut text, self.seconds);
        if self.drop_frame {
            text.append(";");
        } else {
            text.append(":");
        }
        push_two_digits(&mut text, self.frames);
        assert(text@ =~= self.text());
        text
    }

    /// The timecode of the frame count `frames` at `rate`.
    pub(crate) fn from_frames(frames: i64, rate: Ratio, drop_frame: bool) -> (tc: Timecode)
        requires
            frames >= 0,
            spec_is_valid_timecode_rate(rate),
            drop_frame ==> spec_is_dropframe_rate(rate),
        ensures
            tc == Timecode::spec_from_frames(frames as int, rate, drop_frame),
    {
        proof {
            lemma_valid_rate_counts(rate);
            lemma_frames_in_range(frames as int, rate, drop_frame);
        }
        let nominal: i64 = nominal_frames(rate);
        let per_day: i64 = (rate.scaled_round(3600).unwrap() as i64) * 24;
        let within: i64 = frames % per_day;
        let shown: i64 = if drop_frame {
            proof {
                lemma_dropframe_counts(rate);
            }
            let skip: i64 = dropframe_count(rate);
            let per_ten: i64 = rate.scaled_round(600).unwrap() as i64;
            let per_minute: i64 = rate.round().unwrap() * 60 - skip;
            let chunks: i64 = within / per_ten;
            let over: i64 = within % per_ten;
            if over > skip {
                within + skip * 9 * chunks + skip * ((over - skip) / per_minute)
            } else {
                within + skip * 9 * chunks
            }
        } else {
            within
        };
        let seconds_total: i64 = shown / nominal;
        Timecode {
            hours: (seconds_total / 3600) as u8,
            minutes: ((seconds_total / 60) % 60) as u8,
            seconds: (seconds_total % 60) as u8,
            frames: (shown % nominal) as u8,
            drop_frame,
        }
    }

    /// The frame count that the timecode stands for at `rate`.
    pub(crate) fn to_frames(&self, rate: Ratio) -> (frames: i64)
        requires
            self.wf(),
            spec_is_valid_timecode_rate(rate),
        ensures
            frames == self.spec_to_frames(rate),
            0 <= frames < 0x1_0000_0000,
    {
        let nominal: i64 = nominal_frames(rate);
        let skip: i64 = if self.drop_frame {
            dropframe_count(rate)
        } else {
            0
        };
        let minutes_total: i64 = (self.hours as i64) * 60 + (self.minutes as i64);
        let seconds_total: i64 = minutes_total * 60 + (self.seconds as i64);
        assert(0 <= seconds_total * nominal <= 360000 * 60 && seconds_total * nominal
            >= seconds_total) by (nonlinear_arith)
            requires
                0 <= seconds_total < 360000,
                1 <= nominal <= 60,
        ;
        seconds_total * nominal + (self.frames as i64) - skip * (minutes_total - minutes_total / 10)
    }
}

/// Every legal timecode rate lies between one and sixty frames a second.
pub proof fn lemma_valid_rate_range(rate: Ratio)
    requires
        spec_is_valid_timecode_rate(rate),
    ensures
        rate.is_finite(),
        1 as real <= rate.value() <= 60 as real,
{
    lemma_fraction_whole(1);
    lemma_fraction_whole(12);
    lemma_fraction_whole(24);
    lemma_fraction_whole(25);
    lemma_fraction_whole(30);
    lemma_fraction_whole(48);
    lemma_fraction_whole(50);
    lemma_fraction_whole(60);
    assert(1 as real <= fraction(2397, 100) <= 60 as real) by (nonlinear_arith);
    assert(1 as real <= fraction(23976, 1000) <= 60 as real) by (nonlinear_arith);
    assert(1 as real <= fraction(2398, 100) <= 60 as real) by (nonlinear_arith);
    assert(1 as real <= fraction(24000, 1001) <= 60 as real) by (nonlinear_arith);
    assert(1 as real <= fraction(2997, 100) <= 60 as real) by (nonlinear_arith);
    assert(1 as real <= fraction(30000, 1001) <= 60 as real) by (nonlinear_arith);
    assert(1 as real <= fraction(5994, 100) <= 60 as real) by (nonlinear_arith);
    assert(1 as real <= fraction(60000, 1001) <= 60 as real) by (nonlinear_arith);
}

/// The counts that timecode at a legal rate works with are small and
/// positive, and a day of real time never holds more frames than a day of
/// timecode can number.
pub proof fn lemma_valid_rate_counts(rate: Ratio)
    requires
        spec_is_valid_timecode_rate(rate),
    ensures
        1 <= nominal_fps(rate) <= 60,
        3600 <= rate.spec_scaled_round(3600) <= 3600 * nominal_fps(rate),
        600 <= rate.spec_scaled_round(600) <= 600 * nominal_fps(rate),
        1 <= rate.spec_round() <= nominal_fps(rate),
        0 < frames_per_day(rate) <= 86400 * nominal_fps(rate),
{
    lemma_valid_rate_range(rate);
    let v = rate.value();
    assert(0 as real <= fraction(1, 2) < 1 as real) by (nonlinear_arith);
    assert(v * (-1 as real) == -v) by (nonlinear_arith);
    let n = nominal_fps(rate);
    assert((n - 1) as real <= v <= n as real);
    assert((3600 as real) <= v * (3600 as real) <= (3600 * n) as real) by (nonlinear_arith)
        requires
            1 as real <= v <= n as real,
    ;
    assert((600 as real) <= v * (600 as real) <= (600 * n) as real) by (nonlinear_arith)
        requires
            1 as real <= v <= n as real,
    ;
}

/// The counts of the four drop-frame rates.
pub proof fn lemma_dropframe_counts(rate: Ratio)
    requires
        spec_is_dropframe_rate(rate),
    ensures
        spec_is_valid_timecode_rate(rate),
        dropframes(rate) == 2 ==> nominal_fps(rate) == 30 && frames_per_day(rate) == 24 * 107892
            && frames_per_ten_minutes(rate) == 17982 && frames_per_minute(rate) == 1798,
        dropframes(rate) == 4 ==> nominal_fps(rate) == 60 && frames_per_day(rate) == 24 * 215784
            && frames_per_ten_minutes(rate) == 35964 && frames_per_minute(rate) == 3596,
        dropframes(rate) == 2 || dropframes(rate) == 4,
{
    let v = rate.value();
    assert(fraction(1, 2) * (2 as real) == 1 as real) by (nonlinear_arith);
    assert(v * (-1 as real) == -v) by (nonlinear_arith);
    assert(fraction(2997, 100) * (100 as real) == 2997 as real) by (nonlinear_arith);
    assert(fraction(30000, 1001) * (1001 as real) == 30000 as real) by (nonlinear_arith);
    assert(fraction(5994, 100) * (100 as real) == 5994 as real) by (nonlinear_arith);
    assert(fraction(60000, 1001) * (1001 as real) == 60000 as real) by (nonlinear_arith);
    if rate.is_fraction(2997, 100) || rate.is_fraction(30000, 1001) {
        assert(v * (100 as real) == 2997 as real || v * (1001 as real) == 30000 as real);
        assert(dropframes(rate) == 2);
        assert({
            &&& (29 as real) < v <= 30 as real
            &&& (107892 as real) <= v * (3600 as real) + fraction(1, 2) < 107893 as real
            &&& (17982 as real) <= v * (600 as real) + fraction(1, 2) < 17983 as real
            &&& (30 as real) <= v + fraction(1, 2) < 31 as real
        }) by (nonlinear_arith)
            requires
                v * (100 as real) == 2997 as real || v * (1001 as real) == 30000 as real,
                fraction(1, 2) * (2 as real) == 1 as real,
        ;
        assert(nominal_fps(rate) == 30);
        assert(rate.spec_scaled_round(3600) == 107892);
        assert(frames_per_ten_minutes(rate) == 17982);
        assert(rate.spec_round() == 30);
    } else {
        assert(v * (100 as real) == 5994 as real || v * (1001 as real) == 60000 as real);
        assert(fraction(5994, 100) != fraction(2997, 100) && fraction(5994, 100) != fraction(
            30000,
            1001,
        ) && fraction(60000, 1001) != fraction(2997, 100) && fraction(60000, 1001) != fraction(
            30000,
            1001,
        )) by (nonlinear_arith);
        assert(dropframes(rate) == 4);
        assert({
            &&& (59 as real) < v <= 60 as real
            &&& (215784 as real) <= v * (3600 as real) + fraction(1, 2) < 215785 as real
            &&& (35964 as real) <= v * (600 as real) + fraction(1, 2) < 35965 as real
            &&& (60 as real) <= v + fraction(1, 2) < 61 as real
        }) by (nonlinear_arith)
            requires
                v * (100 as real) == 5994 as real || v * (1001 as real) == 60000 as real,
                fraction(1, 2) * (2 as real) == 1 as real,
        ;
        assert(nominal_fps(rate) == 60);
        assert(rate.spec_scaled_round(3600) == 215784);
        assert(frames_per_ten_minutes(rate) == 35964);
        assert(rate.spec_round() == 60);
    }
}

/// The text shows a frame number that a day of timecode holds: the fields
/// of `spec_from_frames` are in range, and the frames field is below the
/// nominal frame count.
pub proof fn lemma_frames_in_range(frames: int, rate: Ratio, drop_frame: bool)
    requires
        frames >= 0,
        spec_is_valid_timecode_rate(rate),
        drop_frame ==> spec_is_dropframe_rate(rate),
    ensures
        0 <= displayed_frames(frames, rate, drop_frame) < 86400 * nominal_fps(rate),
        0 <= displayed_frames(frames, rate, drop_frame) / nominal_fps(rate) < 86400,
        0 <= displayed_frames(frames, rate, drop_frame) % nominal_fps(rate) < nominal_fps(rate),
        Timecode::spec_from_frames(frames, rate, drop_frame).wf(),
        Timecode::spec_from_frames(frames, rate, drop_frame).hours <= 23,
        Timecode::spec_from_frames(frames, rate, drop_frame).frames < nominal_fps(rate),
{
    lemma_valid_rate_counts(rate);
    let nominal = nominal_fps(rate);
    let shown = displayed_frames(frames, rate, drop_frame);
    if drop_frame {
        lemma_dropframe_counts(rate);
    }
    let per_day = frames_per_day(rate);
    let within = frames % per_day;
    assert(0 <= within < per_day) by (nonlinear_arith)
        requires
            within == frames % per_day,
            per_day > 0,
    ;
    if drop_frame {
        let skip = dropframes(rate);
        let per_ten = frames_per_ten_minutes(rate);
        let per_minute = frames_per_minute(rate);
        let chunks = within / per_ten;
        let over = within % per_ten;
        if skip == 2 {
            assert(0 <= chunks <= 143 && 0 <= over < 17982);
            assert(over > 2 ==> 0 <= (over - 2) / 1798 <= 9);
            assert(shown <= within + 18 * chunks + 18);
        } else {
            assert(0 <= chunks <= 143 && 0 <= over < 35964);
            assert(over > 4 ==> 0 <= (over - 4) / 3596 <= 9);
            assert(shown <= within + 36 * chunks + 36);
        }
    }
    assert(0 <= shown < 86400 * nominal);
    assert(0 <= shown / nominal < 86400 && 0 <= shown % nominal < nominal) by (nonlinear_arith)
        requires
            0 <= shown < 86400 * nominal,
            nominal >= 1,
    ;
}

/// Hours, minutes, seconds and frames, taken from a frame number at
/// `nominal` frames a second, put the frame number together again.
proof fn lemma_fields_recombine(shown: int, nominal: int)
    requires
        nominal >= 1,
        0 <= shown < 86400 * nominal,
    ensures
        ({
            let seconds_total = shown / nominal;
            let minutes_total = (seconds_total / 3600) * 60 + (seconds_total / 60) % 60;
            &&& minutes_total == seconds_total / 60
            &&& (minutes_total * 60 + seconds_total % 60) * nominal + shown % nominal == shown
        }),
{
    let seconds_total = shown / nominal;
    assert(seconds_total * nominal + shown % nominal == shown && 0 <= seconds_total < 86400)
        by (nonlinear_arith)
        requires
            seconds_total == shown / nominal,
            nominal >= 1,
            0 <= shown < 86400 * nominal,
    ;
}

/// At thirty frames a second, the numbers that drop-frame counting has
/// skipped up to a frame are two for each minute that does not start a
/// ten-minute chunk.
proof fn lemma_skipped_two(frames: int)
    requires
        0 <= frames < 24 * 107892,
    ensures
        ({
            let chunks = frames / 17982;
            let over = frames % 17982;
            let shown = if over > 2 {
                frames + 2 * 9 * chunks + 2 * ((over - 2) / 1798)
            } else {
                frames + 2 * 9 * chunks
            };
            let minutes_total = (shown / 30) / 60;
            shown - 2 * (minutes_total - minutes_total / 10) == frames
        }),
{
    let chunks = frames / 17982;
    let over = frames % 17982;
    let extra = if over > 2 {
        (over - 2) / 1798
    } else {
        0
    };
    let shown = frames + 18 * chunks + 2 * extra;
    assert(shown == chunks * 18000 + over + 2 * extra);
    assert(0 <= extra <= 9);
    assert((over + 2 * extra) / 1800 == extra);
    assert(shown / 1800 == chunks * 10 + extra);
    assert((shown / 30) / 60 == shown / 1800);
}

/// At sixty frames a second, the numbers that drop-frame counting has
/// skipped up to a frame are four for each minute that does not start a
/// ten-minute chunk.
proof fn lemma_skipped_four(frames: int)
    requires
        0 <= frames < 24 * 215784,
    ensures
        ({
            let chunks = frames / 35964;
            let over = frames % 35964;
            let shown = if over > 4 {
                frames + 4 * 9 * chunks + 4 * ((over - 4) / 3596)
            } else {
                frames + 4 * 9 * chunks
            };
            let minutes_total = (shown / 60) / 60;
            shown - 4 * (minutes_total - minutes_total / 10) == frames
        }),
{
    let chunks = frames / 35964;
    let over = frames % 35964;
    let extra = if over > 4 {
        (over - 4) / 3596
    } else {
        0
    };
    let shown = frames + 36 * chunks + 4 * extra;
    assert(shown == chunks * 36000 + over + 4 * extra);
    assert(0 <= extra <= 9);
    assert((over + 4 * extra) / 3600 == extra);
    assert(shown / 3600 == chunks * 10 + extra);
    assert((shown / 60) / 60 == shown / 3600);
}

impl Timecode {
    /// Reading the text of a well-formed timecode gives the timecode back.
    pub proof fn lemma_parse_text(self)
        requires
            self.wf(),
        ensures
            Timecode::spec_parse(self.text()) == Some(self),
    {
        let text = self.text();
        assert(text.len() == 11);
        assert(text[2] == ':' && text[5] == ':');
        assert(text[8] == (if self.drop_frame {
            ';'
        } else {
            ':'
        }));
        lemma_two_digits_value(self.hours as int, text, 0);
        lemma_two_digits_value(self.minutes as int, text, 3);
        lemma_two_digits_value(self.seconds as int, text, 6);
        lemma_two_digits_value(self.frames as int, text, 9);
    }

    /// Within a day, the frame count of the timecode of a frame count is
    /// that frame count.
    pub proof fn lemma_frames_round_trip(frames: int, rate: Ratio, drop_frame: bool)
        requires
            spec_is_valid_timecode_rate(rate),
            0 <= frames < frames_per_day(rate),
            drop_frame ==> spec_is_dropframe_rate(rate),
        ensures
            Timecode::spec_from_frames(frames, rate, drop_frame).spec_to_frames(rate) == frames,
    {
        lemma_valid_rate_counts(rate);
        lemma_frames_in_range(frames, rate, drop_frame);
        let nominal = nominal_fps(rate);
        let per_day = frames_per_day(rate);
        assert(frames % per_day == frames) by (nonlinear_arith)
            requires
                0 <= frames < per_day,
        ;
        let shown = displayed_frames(frames, rate, drop_frame);
        let tc = Timecode::spec_from_frames(frames, rate, drop_frame);
        let minutes_total = tc.hours * 60 + tc.minutes;
        lemma_fields_recombine(shown, nominal);
        if drop_frame {
            lemma_dropframe_counts(rate);
            let skip = dropframes(rate);
            let gap = minutes_total - minutes_total / 10;
            if skip == 2 {
                lemma_skipped_two(frames);
                assert(skip * gap == 2 * gap) by (nonlinear_arith)
                    requires
                        skip == 2,
                ;
            } else {
                lemma_skipped_four(frames);
                assert(skip * gap == 4 * gap) by (nonlinear_arith)
                    requires
                        skip == 4,
                ;
            }
        }
    }
}

} // verus!
