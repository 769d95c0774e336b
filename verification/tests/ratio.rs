use opentime::gcd::gcd_u128;
use opentime::ratio::Ratio;

#[test]
fn gcd_of_machine_integers() {
    assert_eq!(gcd_u128(0, 0), 0);
    assert_eq!(gcd_u128(0, 7), 7);
    assert_eq!(gcd_u128(7, 0), 7);
    assert_eq!(gcd_u128(12, 18), 6);
    assert_eq!(gcd_u128(18, 12), 6);
    assert_eq!(gcd_u128(24000, 1001), 1);
    assert_eq!(gcd_u128(u128::MAX, u128::MAX), u128::MAX);
    assert_eq!(gcd_u128(1 << 100, 1 << 90), 1 << 90);
}

#[test]
fn fractions_are_kept_in_lowest_terms() {
    let r = Ratio::new(6, 4);
    assert_eq!(r.numer(), 3);
    assert_eq!(r.denom(), 2);
    let r = Ratio::new(6, -4);
    assert_eq!(r.numer(), -3);
    assert_eq!(r.denom(), 2);
    let r = Ratio::new(-6, -4);
    assert_eq!(r.numer(), 3);
    assert_eq!(r.denom(), 2);
    let r = Ratio::new(0, -5);
    assert_eq!(r.numer(), 0);
    assert_eq!(r.denom(), 1);
    assert_eq!(Ratio::new(23976, 1000), Ratio::new(2997, 125));
    assert_eq!(Ratio::from_int(-7), Ratio::new(-7, 1));
    assert_eq!(Ratio::from_int(-7).numer(), -7);
    assert_eq!(Ratio::from_int(-7).denom(), 1);
}

#[test]
fn a_zero_denominator_is_not_finite() {
    assert!(!Ratio::new(1, 0).is_finite());
    assert!(!Ratio::new(0, 0).is_finite());
    assert_eq!(Ratio::new(1, 0), Ratio::nan());
    assert_eq!(Ratio::nan().numer(), 0);
    assert_eq!(Ratio::nan().denom(), 0);
    assert!(Ratio::new(0, 1).is_finite());
}

#[test]
fn the_least_integer_is_stored_only_where_it_reduces() {
    assert!(!Ratio::from_int(i64::MIN).is_finite());
    assert!(!Ratio::new(i64::MIN, 3).is_finite());
    assert_eq!(Ratio::new(i64::MIN, 2), Ratio::from_int(i64::MIN / 2));
    assert_eq!(Ratio::new(1, i64::MIN), Ratio::nan());
    assert_eq!(Ratio::new(2, i64::MIN), Ratio::new(-1, 1 << 62));
    assert_eq!(Ratio::new(i64::MIN, i64::MIN), Ratio::from_int(1));
    assert!(Ratio::from_int(i64::MAX).is_finite());
    assert!(Ratio::from_int(-i64::MAX).is_finite());
}

#[test]
fn arithmetic_is_exact() {
    let half = Ratio::new(1, 2);
    let third = Ratio::new(1, 3);
    assert_eq!(half.add(third), Ratio::new(5, 6));
    assert_eq!(half.sub(third), Ratio::new(1, 6));
    assert_eq!(third.sub(half), Ratio::new(-1, 6));
    assert_eq!(half.mul(third), Ratio::new(1, 6));
    assert_eq!(half.div(third), Ratio::new(3, 2));
    assert_eq!(half.div(Ratio::new(-1, 3)), Ratio::new(-3, 2));
    assert_eq!(Ratio::new(1, 10).add(Ratio::new(2, 10)), Ratio::new(3, 10));
    assert_eq!(Ratio::new(-3, 4).abs(), Ratio::new(3, 4));
    assert_eq!(Ratio::new(3, 4).abs(), Ratio::new(3, 4));
    assert_eq!(Ratio::from_int(0).abs(), Ratio::from_int(0));
}

#[test]
fn division_by_zero_is_not_finite() {
    assert!(!Ratio::from_int(1).div(Ratio::from_int(0)).is_finite());
    assert!(!Ratio::from_int(0).div(Ratio::from_int(0)).is_finite());
}

#[test]
fn not_finite_is_absorbing() {
    let nan = Ratio::nan();
    let one = Ratio::from_int(1);
    assert!(!nan.add(one).is_finite());
    assert!(!one.add(nan).is_finite());
    assert!(!nan.sub(one).is_finite());
    assert!(!one.sub(nan).is_finite());
    assert!(!nan.mul(one).is_finite());
    assert!(!one.mul(nan).is_finite());
    assert!(!nan.div(one).is_finite());
    assert!(!one.div(nan).is_finite());
    assert!(!nan.abs().is_finite());
    assert_eq!(nan.floor(), None);
    assert_eq!(nan.round(), None);
    assert_eq!(nan.scaled_floor(10), None);
    assert_eq!(nan.scaled_round(10), None);
}

#[test]
fn results_that_cannot_be_stored_are_not_finite() {
    let max = Ratio::from_int(i64::MAX);
    assert!(!max.add(Ratio::from_int(1)).is_finite());
    assert!(!max.mul(Ratio::from_int(2)).is_finite());
    assert!(!Ratio::from_int(-i64::MAX).sub(Ratio::from_int(1)).is_finite());
    assert!(!Ratio::new(1, i64::MAX).div(Ratio::from_int(2)).is_finite());
    assert!(!Ratio::new(1, i64::MAX).add(Ratio::new(1, i64::MAX - 1)).is_finite());
    // A result is judged after it is reduced.
    assert_eq!(max.mul(Ratio::new(1, i64::MAX)), Ratio::from_int(1));
    assert_eq!(max.add(Ratio::from_int(-1)), Ratio::from_int(i64::MAX - 1));
    assert_eq!(Ratio::new(1, i64::MAX).add(Ratio::new(1, i64::MAX)), Ratio::new(2, i64::MAX));
}

#[test]
fn no_comparison_with_not_finite_holds() {
    let nan = Ratio::nan();
    let one = Ratio::from_int(1);
    assert!(!nan.lt(one));
    assert!(!one.lt(nan));
    assert!(!nan.le(nan));
    assert!(!nan.lt(nan));
    assert!(!nan.equals_fraction(0, 1));
}

#[test]
fn order_is_by_value() {
    assert!(Ratio::new(1, 3).lt(Ratio::new(1, 2)));
    assert!(!Ratio::new(1, 2).lt(Ratio::new(1, 3)));
    assert!(!Ratio::new(1, 2).lt(Ratio::new(2, 4)));
    assert!(Ratio::new(1, 2).le(Ratio::new(2, 4)));
    assert!(Ratio::new(-1, 2).lt(Ratio::new(-1, 3)));
    assert!(Ratio::from_int(-i64::MAX).lt(Ratio::from_int(i64::MAX)));
    assert!(Ratio::new(i64::MAX - 1, i64::MAX).lt(Ratio::from_int(1)));
}

#[test]
fn equals_fraction_compares_values() {
    assert!(Ratio::new(2997, 125).equals_fraction(23976, 1000));
    assert!(Ratio::new(1, 2).equals_fraction(-2, -4));
    assert!(!Ratio::new(1, 2).equals_fraction(1, 3));
    assert!(Ratio::from_int(0).equals_fraction(0, i64::MIN));
}

#[test]
fn floor_rounds_down() {
    assert_eq!(Ratio::new(7, 2).floor(), Some(3));
    assert_eq!(Ratio::new(-7, 2).floor(), Some(-4));
    assert_eq!(Ratio::from_int(-3).floor(), Some(-3));
    assert_eq!(Ratio::new(-1, 1000).floor(), Some(-1));
    assert_eq!(Ratio::new(1, 1000).floor(), Some(0));
    assert_eq!(Ratio::from_int(i64::MAX).floor(), Some(i64::MAX));
    assert_eq!(Ratio::from_int(-i64::MAX).floor(), Some(-i64::MAX));
}

#[test]
fn round_goes_to_the_nearest_with_ties_up() {
    assert_eq!(Ratio::new(7, 2).round(), Some(4));
    assert_eq!(Ratio::new(5, 2).round(), Some(3));
    assert_eq!(Ratio::new(-5, 2).round(), Some(-2));
    assert_eq!(Ratio::new(-7, 2).round(), Some(-3));
    assert_eq!(Ratio::new(10, 3).round(), Some(3));
    assert_eq!(Ratio::new(11, 3).round(), Some(4));
    assert_eq!(Ratio::new(-11, 3).round(), Some(-4));
    assert_eq!(Ratio::from_int(i64::MAX).round(), Some(i64::MAX));
    assert_eq!(Ratio::new(i64::MAX, 2).round(), Some(1 << 62));
}

#[test]
fn scaled_floor_and_round() {
    assert_eq!(Ratio::new(2997, 100).scaled_floor(-1), Some(-30));
    assert_eq!(Ratio::new(2997, 100).scaled_round(3600), Some(107892));
    assert_eq!(Ratio::new(30000, 1001).scaled_round(3600), Some(107892));
    assert_eq!(Ratio::new(2997, 125).scaled_round(3600), Some(86314));
    assert_eq!(Ratio::new(1, 3).scaled_floor(1_000_000), Some(333_333));
    assert_eq!(Ratio::new(-1, 3).scaled_floor(1_000_000), Some(-333_334));
    assert_eq!(Ratio::new(1, 2).scaled_round(1), Some(1));
    assert_eq!(Ratio::new(1, 2).scaled_round(-1), Some(0));
    assert_eq!(
        Ratio::from_int(i64::MAX).scaled_floor(i64::MIN),
        Some((i64::MAX as i128) * (i64::MIN as i128))
    );
}

#[test]
fn decimal_text_is_read_exactly() {
    assert_eq!(Ratio::parse("24"), Some(Ratio::from_int(24)));
    assert_eq!(Ratio::parse("-24"), Some(Ratio::from_int(-24)));
    assert_eq!(Ratio::parse("0.5"), Some(Ratio::new(1, 2)));
    assert_eq!(Ratio::parse("-0.5"), Some(Ratio::new(-1, 2)));
    assert_eq!(Ratio::parse("23.976"), Some(Ratio::new(2997, 125)));
    assert_eq!(Ratio::parse("29.97"), Some(Ratio::new(2997, 100)));
    assert_eq!(Ratio::parse("0.1"), Some(Ratio::new(1, 10)));
    assert_eq!(Ratio::parse("007.250"), Some(Ratio::new(29, 4)));
    assert_eq!(Ratio::parse("0"), Some(Ratio::from_int(0)));
    assert_eq!(Ratio::parse("-0"), Some(Ratio::from_int(0)));
    assert_eq!(Ratio::parse("0.000000000000000001"), Some(Ratio::new(1, 1_000_000_000_000_000_000)));
    assert_eq!(Ratio::parse("999999999999999999"), Some(Ratio::from_int(999_999_999_999_999_999)));
}

#[test]
fn text_that_is_no_decimal_number_is_refused() {
    for text in [
        "", "-", ".", "1.", ".5", "-.5", "+1", "1e3", "1,5", " 1", "1 ", "1.2.3", "--1", "NaN",
        "inf", "0x10", "1.5f", "1000000000000000000", "0.0000000000000000001", "١",
    ] {
        assert_eq!(Ratio::parse(text), None, "{:?}", text);
    }
}

#[test]
fn a_decimal_number_too_fine_to_store_is_not_finite() {
    // 18 digits on both sides read as a number, but the sum has a numerator
    // beyond 64 bits.
    let r = Ratio::parse("999999999999999999.000000000000000001");
    assert_eq!(r, Some(Ratio::nan()));
}

fn as_float(r: Ratio) -> f64 {
    r.numer() as f64 / r.denom() as f64
}

fn close(exact: Ratio, float: f64) -> bool {
    let shown = as_float(exact);
    (shown - float).abs() <= 1e-9 * (1.0 + float.abs())
}

#[test]
fn exact_arithmetic_agrees_with_floating_point() {
    // A small linear congruential generator gives the same operands on
    // every run.
    let mut state: u64 = 0x2545_f491_4f6c_dd1d;
    let mut next = move |limit: i64| -> i64 {
        state = state.wrapping_mul(6364136223846793005).wrapping_add(1442695040888963407);
        ((state >> 33) as i64 % (2 * limit + 1)) - limit
    };
    for _ in 0..2000 {
        let (an, ad, bn, bd) = (next(100_000), next(1000), next(100_000), next(1000));
        if ad == 0 || bd == 0 {
            continue;
        }
        let a = Ratio::new(an, ad);
        let b = Ratio::new(bn, bd);
        let (x, y) = (an as f64 / ad as f64, bn as f64 / bd as f64);
        assert!(close(a, x));
        assert!(close(a.add(b), x + y));
        assert!(close(a.sub(b), x - y));
        assert!(close(a.mul(b), x * y));
        if bn != 0 {
            assert!(close(a.div(b), x / y));
        } else {
            assert!(!a.div(b).is_finite());
        }
        assert!(close(a.abs(), x.abs()));
        let sign = (ad.signum() * bd.signum()) as i128;
        let left = (an as i128) * (bd as i128) * sign;
        let right = (bn as i128) * (ad as i128) * sign;
        assert_eq!(a.lt(b), left < right);
        assert_eq!(a.le(b), left <= right);
        // Whole numbers by integer division, which does not round.
        let floor = |n: i128, d: i128| if d < 0 { (-n).div_euclid(-d) } else { n.div_euclid(d) };
        assert_eq!(a.floor(), Some(floor(an as i128, ad as i128) as i64));
        assert_eq!(
            a.round(),
            Some(floor(2 * (an as i128) + (ad as i128), 2 * (ad as i128)) as i64)
        );
        assert_eq!(a.scaled_floor(1000), Some(floor(1000 * (an as i128), ad as i128)));
        assert_eq!(
            a.scaled_round(-7),
            Some(floor(-14 * (an as i128) + (ad as i128), 2 * (ad as i128)))
        );
    }
}
