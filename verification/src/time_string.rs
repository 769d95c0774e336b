//! Time strings: seconds written as `HH:MM:SS.ffffff`.

use vstd::prelude::*;
use vstd::string::*;
use crate::decimal::{digit_char, two_digits, two_digit_value, digits_end, digits_number, pow10,
    signed, digit_str, push_two_digits, two_digits_at, read_digits, lemma_pow10_bound,
    lemma_pow10_increases};
use crate::ratio::Ratio;

verus! {

/// `value` written in exactly `width` decimal digits, zeros in front.
pub open spec fn padded_digits(value: int, width: nat) -> Seq<char>
    decreases width,
{
    if width == 0 {
        Seq::empty()
    } else {
        padded_digits(value / 10, (width - 1) as nat).push(digit_char(value % 10))
    }
}

/// The digits after the point for `value` parts in ten to the `width`:
/// `width` digits with the zeros at the end left off, but at least one
/// digit.
pub open spec fn fraction_text(value: int, width: nat) -> Seq<char>
    decreases width,
{
    if width <= 1 || value % 10 != 0 {
        padded_digits(value, width)
    } else {
        fraction_text(value / 10, (width - 1) as nat)
    }
}

/// The time string of `micros` microseconds, with a minus sign in front if
/// `negative`: hours, which start over after a day, minutes, seconds, and up
/// to six digits after the point.
pub open spec fn time_text(negative: bool, micros: int) -> Seq<char> {
    let whole = micros / 1_000_000;
    (if negative {
        seq!['-']
    } else {
        Seq::empty()
    }) + two_digits((whole / 3600) % 24) + seq![':'] + two_digits((whole / 60) % 60) + seq![':']
        + two_digits(whole % 60) + seq!['.'] + fraction_text(micros % 1_000_000, 6)
}

/// The time string of a number of seconds, cut off at whole microseconds;
/// `NaN` for a number that is not finite.
pub open spec fn spec_seconds_text(seconds: Ratio) -> Seq<char> {
    if seconds.is_finite() {
        let v = seconds.value();
        let magnitude = if v < 0 as real {
            -v
        } else {
            v
        };
        time_text(v < 0 as real, (magnitude * (1_000_000 as real)).floor())
    } else {
        "NaN"@
    }
}

/// The number of seconds that a time string spells: an optional minus
/// sign, then `HH:MM:SS` with two digits each and minutes and seconds below
/// sixty, then, optionally, a point and one to nine digits.
pub open spec fn spec_parse_seconds(text: Seq<char>) -> Option<Ratio> {
    let negative = text.len() > 0 && text[0] == '-';
    let start: int = if negative {
        1
    } else {
        0
    };
    if text.len() >= start + 8 && text[start + 2] == ':' && text[start + 5] == ':' {
        match (
            two_digit_value(text, start),
            two_digit_value(text, start + 3),
            two_digit_value(text, start + 6),
        ) {
            (Some(hours), Some(minutes), Some(seconds)) => {
                let whole = hours * 3600 + minutes * 60 + seconds;
                if minutes > 59 || seconds > 59 {
                    None
                } else if text.len() == start + 8 {
                    Some(Ratio::from_fraction(signed(negative, whole), 1))
                } else if text[start + 8] == '.' {
                    let end = digits_end(text, start + 9);
                    let places = end - (start + 9);
                    if end == text.len() && 1 <= places <= 9 {
                        Some(
                            Ratio::from_fraction(
                                signed(
                                    negative,
                                    whole * pow10(places as nat) + digits_number(
                                        text,
                                        start + 9,
                                        end,
                                    ),
                                ),
                                pow10(places as nat),
                            ),
                        )
                    } else {
                        None
                    }
                } else {
                    None
                }
            },
            _ => None,
        }
    } else {
        None
    }
}

/// Appends `value` in exactly `width` digits.
fn push_padded_digits(out: &mut String, value: u32, width: u8)
    requires
        width <= 6,
    ensures
        final(out)@ == old(out)@ + padded_digits(value as int, width as nat),
    decreases width,
{
    if width == 0 {
        assert(final(out)@ =~= old(out)@ + padded_digits(value as int, 0));
    } else {
        push_padded_digits(out, value / 10, width - 1);
        out.append(digit_str((value % 10) as u8));
        assert(final(out)@ =~= old(out)@ + padded_digits(value as int, width as nat));
    }
}

/// Appends the digits after the point for `micros` millionths.
fn push_fraction(out: &mut String, micros: u32)
    ensures
        final(out)@ == old(out)@ + fraction_text(micros as int, 6),
{
    let mut value: u32 = micros;
    let mut width: u8 = 6;
    while width > 1 && value % 10 == 0
        invariant
            1 <= width <= 6,
            fraction_text(micros as int, 6) == fraction_text(value as int, width as nat),
        decreases width,
    {
        value = value / 10;
        width = width - 1;
    }
    push_padded_digits(out, value, width);
}

/// Writes a number of seconds as a time string.
pub fn seconds_text(seconds: Ratio) -> (text: String)
    ensures
        text@ == spec_seconds_text(seconds),
{
    let micros: i128 = match seconds.abs().scaled_floor(1_000_000) {
        Some(micros) => micros,
        None => {
            proof {
                use_type_invariant(&seconds);
                Ratio::lemma_nan();
                if seconds.is_finite() {
                    seconds.lemma_abs();
                }
            }
            return String::from_str("NaN");
        },
    };
    let zero = Ratio::from_int(0);
    let negative = seconds.lt(zero);
    proof {
        use_type_invariant(&seconds);
        Ratio::lemma_nan();
        seconds.lemma_abs();
        Ratio::lemma_from_int(0);
        seconds.spec_abs().lemma_whole_bounds();
        assert(0 as real <= seconds.spec_abs().value() * (1_000_000 as real)
            <= 9_223_372_036_854_775_807_000_000 as real) by (nonlinear_arith)
            requires
                0 as real <= seconds.spec_abs().value() <= i64::MAX as real,
        ;
        reveal_strlit(":");
        reveal_strlit(".");
        reveal_strlit("-");
    }
    let whole: i128 = micros / 1_000_000;
    let mut text = String::new();
    if negative {
        text.append("-");
    }
    push_two_digits(&mut text, ((whole / 3600) % 24) as u8);
    text.append(":");
    push_two_digits(&mut text, ((whole / 60) % 60) as u8);
    text.append(":");
    push_two_digits(&mut text, (whole % 60) as u8);
    text.append(".");
    push_fraction(&mut text, (micros % 1_000_000) as u32);
    assert(text@ =~= spec_seconds_text(seconds));
    text
}

/// Reads a time string as a number of seconds.
pub fn parse_seconds(text: &str) -> (r: Option<Ratio>)
    ensures
        r == spec_parse_seconds(text@),
{
    let len = text.unicode_len();
    let negative = len > 0 && text.get_char(0) == '-';
    let start: usize = if negative {
        1
    } else {
        0
    };
    if len < start + 8 || text.get_char(start + 2) != ':' || text.get_char(start + 5) != ':' {
        return None;
    }
    let (hours, minutes, seconds) = match (
        two_digits_at(text, start),
        two_digits_at(text, start + 3),
        two_digits_at(text, start + 6),
    ) {
        (Some(hours), Some(minutes), Some(seconds)) => (hours, minutes, seconds),
        _ => {
            return None;
        },
    };
    if minutes > 59 || seconds > 59 {
        return None;
    }
    let whole: i64 = (hours as i64) * 3600 + (minutes as i64) * 60 + (seconds as i64);
    if len == start + 8 {
        return Some(
            Ratio::from_int(
                if negative {
                    -whole
                } else {
                    whole
                },
            ),
        );
    }
    if text.get_char(start + 8) != '.' {
        return None;
    }
    let run = read_digits(text, len, start + 9);
    if run.end != len || run.end == start + 9 || run.end - (start + 9) > 9 {
        return None;
    }
    let part: i64 = run.number.unwrap();
    let scale: i64 = run.scale;
    proof {
        lemma_pow10_bound((run.end - (start + 9)) as nat);
        lemma_pow10_increases((run.end - (start + 9)) as nat, 9);
        reveal_with_fuel(pow10, 10);
        assert(pow10(9) == 1_000_000_000);
        assert(0 <= whole * scale <= 360_000 * 1_000_000_000) by (nonlinear_arith)
            requires
                0 <= whole < 360_000,
                1 <= scale <= 1_000_000_000,
        ;
    }
    let numerator: i64 = whole * scale + part;
    Some(
        Ratio::new(
            if negative {
                -numerator
            } else {
                numerator
            },
            scale,
        ),
    )
}

} // verus!
