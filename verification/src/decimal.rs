//! Decimal digits: the characters, the numbers they spell, and the text of
//! numbers.

use vstd::prelude::*;
use vstd::string::*;
use crate::ratio::Ratio;

verus! {

/// The character of a decimal digit.
pub open spec fn digit_char(d: int) -> char {
    if d == 0 {
        '0'
    } else if d == 1 {
        '1'
    } else if d == 2 {
        '2'
    } else if d == 3 {
        '3'
    } else if d == 4 {
        '4'
    } else if d == 5 {
        '5'
    } else if d == 6 {
        '6'
    } else if d == 7 {
        '7'
    } else if d == 8 {
        '8'
    } else {
        '9'
    }
}

/// The decimal digit that a character stands for, if it is one.
pub open spec fn digit_value(c: char) -> Option<int> {
    if c == '0' {
        Some(0)
    } else if c == '1' {
        Some(1)
    } else if c == '2' {
        Some(2)
    } else if c == '3' {
        Some(3)
    } else if c == '4' {
        Some(4)
    } else if c == '5' {
        Some(5)
    } else if c == '6' {
        Some(6)
    } else if c == '7' {
        Some(7)
    } else if c == '8' {
        Some(8)
    } else if c == '9' {
        Some(9)
    } else {
        None
    }
}

/// A number below one hundred as two decimal digits.
pub open spec fn two_digits(k: int) -> Seq<char> {
    seq![digit_char(k / 10), digit_char(k % 10)]
}

/// The number that the two characters at `at` and `at + 1` spell, if both
/// are digits.
pub open spec fn two_digit_value(text: Seq<char>, at: int) -> Option<int> {
    match (digit_value(text[at]), digit_value(text[at + 1])) {
        (Some(tens), Some(ones)) => Some(10 * tens + ones),
        _ => None,
    }
}

/// Ten to the power `k`.
pub open spec fn pow10(k: nat) -> int
    decreases k,
{
    if k == 0 {
        1
    } else {
        10 * pow10((k - 1) as nat)
    }
}

/// Where the run of digits that starts at `from` ends: the index of the
/// first character at or after `from` that is no digit, or the length of
/// the text.
pub open spec fn digits_end(text: Seq<char>, from: int) -> int
    decreases text.len() - from,
{
    if 0 <= from < text.len() && digit_value(text[from]) is Some {
        digits_end(text, from + 1)
    } else {
        from
    }
}

/// The digit that a character stands for, and zero for any other character.
pub open spec fn digit_or_zero(c: char) -> int {
    match digit_value(c) {
        Some(d) => d,
        None => 0,
    }
}

/// The number that the digits at `from .. to` spell.
pub open spec fn digits_number(text: Seq<char>, from: int, to: int) -> int
    decreases to - from,
{
    if to <= from {
        0
    } else {
        10 * digits_number(text, from, to - 1) + digit_or_zero(text[to - 1])
    }
}

/// `n`, negated if `negative`.
pub open spec fn signed(negative: bool, n: int) -> int {
    if negative {
        -n
    } else {
        n
    }
}

impl Ratio {
    /// The number that a decimal text spells: an optional minus sign, one
    /// to eighteen digits and, optionally, a point followed by one to
    /// eighteen digits. Any other text spells no number.
    pub open spec fn spec_parse(text: Seq<char>) -> Option<Ratio> {
        let negative = text.len() > 0 && text[0] == '-';
        let start: int = if negative {
            1
        } else {
            0
        };
        let point = digits_end(text, start);
        let whole = Ratio::from_fraction(signed(negative, digits_number(text, start, point)), 1);
        if !(1 <= point - start <= 18) {
            None
        } else if point == text.len() {
            Some(whole)
        } else if text[point] == '.' {
            let end = digits_end(text, point + 1);
            let places = end - (point + 1);
            if end == text.len() && 1 <= places <= 18 {
                Some(
                    whole.spec_add(
                        Ratio::from_fraction(
                            signed(negative, digits_number(text, point + 1, end)),
                            pow10(places as nat),
                        ),
                    ),
                )
            } else {
                None
            }
        } else {
            None
        }
    }

    /// Reads a decimal number such as `24`, `-0.5` or `23.976`.
    pub fn parse(text: &str) -> (r: Option<Ratio>)
        ensures
            r == Ratio::spec_parse(text@),
    {
        let len = text.unicode_len();
        let negative = len > 0 && text.get_char(0) == '-';
        let start: usize = if negative {
            1
        } else {
            0
        };
        let whole_run = read_digits(text, len, start);
        let point = whole_run.end;
        let whole = match whole_run.number {
            Some(number) => {
                if point == start {
                    return None;
                }
                Ratio::from_int(
                    if negative {
                        -number
                    } else {
                        number
                    },
                )
            },
            None => {
                return None;
            },
        };
        if point == len {
            return Some(whole);
        }
        if text.get_char(point) != '.' {
            return None;
        }
        let places_run = read_digits(text, len, point + 1);
        match places_run.number {
            Some(number) => {
                if places_run.end != len || places_run.end == point + 1 {
                    return None;
                }
                let part = Ratio::new(
                    if negative {
                        -number
                    } else {
                        number
                    },
                    places_run.scale,
                );
                Some(whole.add(part))
            },
            None => None,
        }
    }
}

/// The digit that a character stands for.
pub(crate) fn digit_of(c: char) -> (d: Option<u8>)
    ensures
        d.is_some() == digit_value(c).is_some(),
        d matches Some(v) ==> digit_value(c) == Some(v as int),
{
    if c == '0' {
        Some(0)
    } else if c == '1' {
        Some(1)
    } else if c == '2' {
        Some(2)
    } else if c == '3' {
        Some(3)
    } else if c == '4' {
        Some(4)
    } else if c == '5' {
        Some(5)
    } else if c == '6' {
        Some(6)
    } else if c == '7' {
        Some(7)
    } else if c == '8' {
        Some(8)
    } else if c == '9' {
        Some(9)
    } else {
        None
    }
}

/// The number spelled by the two characters at `at` and `at + 1`.
pub(crate) fn two_digits_at(text: &str, at: usize) -> (r: Option<u8>)
    requires
        at <= 9,
        at + 1 < text@.len(),
    ensures
        r.is_some() == two_digit_value(text@, at as int).is_some(),
        r matches Some(v) ==> two_digit_value(text@, at as int) == Some(v as int),
{
    match (digit_of(text.get_char(at)), digit_of(text.get_char(at + 1))) {
        (Some(tens), Some(ones)) => Some(10 * tens + ones),
        _ => None,
    }
}

/// One decimal digit as text; nine for anything above.
pub(crate) fn digit_str(d: u8) -> (s: &'static str)
    ensures
        s@ == seq![digit_char(d as int)],
{
    proof {
        reveal_strlit("0");
        reveal_strlit("1");
        reveal_strlit("2");
        reveal_strlit("3");
        reveal_strlit("4");
        reveal_strlit("5");
        reveal_strlit("6");
        reveal_strlit("7");
        reveal_strlit("8");
        reveal_strlit("9");
    }
    let s = if d == 0 {
        "0"
    } else if d == 1 {
        "1"
    } else if d == 2 {
        "2"
    } else if d == 3 {
        "3"
    } else if d == 4 {
        "4"
    } else if d == 5 {
        "5"
    } else if d == 6 {
        "6"
    } else if d == 7 {
        "7"
    } else if d == 8 {
        "8"
    } else {
        "9"
    };
    assert(s@ =~= seq![digit_char(d as int)]);
    s
}

/// Appends `k` as two decimal digits.
pub(crate) fn push_two_digits(out: &mut String, k: u8)
    ensures
        final(out)@ == old(out)@ + two_digits(k as int),
{
    out.append(digit_str(k / 10));
    out.append(digit_str(k % 10));
    assert(final(out)@ =~= old(out)@ + two_digits(k as int));
}

/// A run of digits read from a text.
pub(crate) struct DigitRun {
    /// The index after the last digit of the run.
    pub end: usize,
    /// The number that the run spells, if it has at most eighteen digits.
    pub number: Option<i64>,
    /// Ten to the number of digits, if the run has at most eighteen.
    pub scale: i64,
}

/// Reads the run of digits that starts at `from`.
pub(crate) fn read_digits(text: &str, len: usize, from: usize) -> (run: DigitRun)
    requires
        len == text@.len(),
        from <= len,
    ensures
        run.end == digits_end(text@, from as int),
        from <= run.end <= len,
        run.end - from <= 18 ==> run.number == Some(
            digits_number(text@, from as int, run.end as int) as i64,
        ) && run.scale == pow10((run.end - from) as nat),
        run.end - from <= 18 ==> 0 <= digits_number(text@, from as int, run.end as int) < pow10(
            (run.end - from) as nat,
        ) <= 1_000_000_000_000_000_000,
        run.end - from > 18 ==> run.number is None,
{
    let mut at: usize = from;
    let mut number: i64 = 0;
    let mut scale: i64 = 1;
    let mut more: bool = at < len;
    while more
        invariant
            len == text@.len(),
            from <= at <= len,
            more ==> at < len,
            !more ==> digits_end(text@, at as int) == at,
            digits_end(text@, from as int) == digits_end(text@, at as int),
            at - from <= 18 ==> number == digits_number(text@, from as int, at as int) && scale
                == pow10((at - from) as nat),
            at - from > 18 ==> scale == 0,
        decreases len - at + (if more { 1int } else { 0int }),
    {
        match digit_of(text.get_char(at)) {
            Some(digit) => {
                if at - from < 18 {
                    proof {
                        lemma_digits_number_bound(text@, from as int, at as int);
                        lemma_pow10_bound((at - from) as nat);
                    }
                    number = 10 * number + digit as i64;
                    scale = 10 * scale;
                } else {
                    scale = 0;
                }
                at = at + 1;
                more = at < len;
            },
            None => {
                more = false;
            },
        }
    }
    proof {
        if at - from <= 18 {
            lemma_digits_number_bound(text@, from as int, at as int);
            lemma_pow10_bound((at - from) as nat);
        }
    }
    DigitRun {
        end: at,
        number: if scale == 0 {
            None
        } else {
            Some(number)
        },
        scale,
    }
}

/// Two digits spell the number they were written from.
pub proof fn lemma_two_digits_value(k: int, text: Seq<char>, at: int)
    requires
        0 <= k <= 99,
        0 <= at,
        at + 1 < text.len(),
        text[at] == two_digits(k)[0],
        text[at + 1] == two_digits(k)[1],
    ensures
        two_digit_value(text, at) == Some(k),
{
    let tens = k / 10;
    let ones = k % 10;
    assert(digit_value(digit_char(tens)) == Some(tens));
    assert(digit_value(digit_char(ones)) == Some(ones));
}

/// A greater power of ten is not smaller.
pub proof fn lemma_pow10_increases(j: nat, k: nat)
    requires
        j <= k,
    ensures
        1 <= pow10(j) <= pow10(k),
    decreases k,
{
    if k > j {
        lemma_pow10_increases(j, (k - 1) as nat);
    } else if k > 0 {
        lemma_pow10_increases(0, (k - 1) as nat);
    }
}

/// Powers of ten up to the eighteenth fit in 64 bits, and grow.
pub proof fn lemma_pow10_bound(k: nat)
    requires
        k <= 18,
    ensures
        1 <= pow10(k) <= 1_000_000_000_000_000_000,
        k < 18 ==> pow10(k) <= 100_000_000_000_000_000,
{
    reveal_with_fuel(pow10, 19);
    assert(pow10(17) == 100_000_000_000_000_000);
    assert(pow10(18) == 1_000_000_000_000_000_000);
    lemma_pow10_increases(0, k);
    lemma_pow10_increases(k, 18);
    if k < 18 {
        lemma_pow10_increases(k, 17);
    }
}

/// The digits of a run spell a number below the matching power of ten.
pub proof fn lemma_digits_number_bound(text: Seq<char>, from: int, to: int)
    requires
        from <= to,
    ensures
        0 <= digits_number(text, from, to) < pow10((to - from) as nat),
    decreases to - from,
{
    if to > from {
        lemma_digits_number_bound(text, from, to - 1);
    }
}

} // verus!
