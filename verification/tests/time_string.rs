use opentime::error_status::ErrorStatusOutcome;
use opentime::ratio::Ratio;
use opentime::rational_time::RationalTime;
use opentime::time_string::{parse_seconds, seconds_text};

fn num(x: f64) -> Ratio {
    Ratio::parse(&format!("{}", x)).unwrap()
}

fn time(value: f64, rate: f64) -> RationalTime {
    RationalTime::new(num(value), num(rate))
}

#[test]
fn time_strings_show_hours_minutes_and_seconds() {
    assert_eq!(time(0.0, 24.0).to_time_string(), "00:00:00.0");
    assert_eq!(time(1.0, 1.0).to_time_string(), "00:00:01.0");
    assert_eq!(time(59.0, 1.0).to_time_string(), "00:00:59.0");
    assert_eq!(time(60.0, 1.0).to_time_string(), "00:01:00.0");
    assert_eq!(time(3599.0, 1.0).to_time_string(), "00:59:59.0");
    assert_eq!(time(3600.0, 1.0).to_time_string(), "01:00:00.0");
    assert_eq!(time(86399.0, 1.0).to_time_string(), "23:59:59.0");
    assert_eq!(time(48.0, 24.0).to_time_string(), "00:00:02.0");
}

#[test]
fn time_strings_show_up_to_six_digits_of_a_second() {
    assert_eq!(time(0.5, 1.0).to_time_string(), "00:00:00.5");
    assert_eq!(time(1.25, 1.0).to_time_string(), "00:00:01.25");
    assert_eq!(time(1.0, 24.0).to_time_string(), "00:00:00.041666");
    assert_eq!(time(2.0, 3.0).to_time_string(), "00:00:00.666666");
    assert_eq!(time(1.000001, 1.0).to_time_string(), "00:00:01.000001");
    assert_eq!(time(1.0000001, 1.0).to_time_string(), "00:00:01.0");
    assert_eq!(time(1.100000, 1.0).to_time_string(), "00:00:01.1");
    assert_eq!(time(1.000100, 1.0).to_time_string(), "00:00:01.0001");
    assert_eq!(time(0.999999, 1.0).to_time_string(), "00:00:00.999999");
    assert_eq!(time(0.9999999, 1.0).to_time_string(), "00:00:00.999999");
    assert_eq!(time(1001.0, 24000.0).to_time_string(), "00:00:00.041708");
}

#[test]
fn hours_start_over_after_a_day() {
    assert_eq!(time(86400.0, 1.0).to_time_string(), "00:00:00.0");
    assert_eq!(time(90061.5, 1.0).to_time_string(), "01:01:01.5");
}

#[test]
fn negative_times_are_written_with_a_minus_sign() {
    assert_eq!(time(-1.5, 1.0).to_time_string(), "-00:00:01.5");
    assert_eq!(time(-3600.0, 1.0).to_time_string(), "-01:00:00.0");
    assert_eq!(time(-1.0, 24.0).to_time_string(), "-00:00:00.041666");
    assert_eq!(time(-0.0000001, 1.0).to_time_string(), "-00:00:00.0");
    assert_eq!(time(1.0, -1.0).to_time_string(), "-00:00:01.0");
}

#[test]
fn a_time_without_finite_seconds_is_written_as_nan() {
    assert_eq!(time(1.0, 0.0).to_time_string(), "NaN");
    assert_eq!(RationalTime::new(Ratio::nan(), num(24.0)).to_time_string(), "NaN");
    assert_eq!(seconds_text(Ratio::nan()), "NaN");
}

#[test]
fn the_largest_number_of_seconds_is_written() {
    // i64::MAX seconds are 2562047788015215 hours, 30 minutes and 7 seconds.
    assert_eq!(seconds_text(Ratio::from_int(i64::MAX)), "15:30:07.0");
    assert_eq!(seconds_text(Ratio::from_int(-i64::MAX)), "-15:30:07.0");
    assert_eq!(seconds_text(Ratio::new(1, i64::MAX)), "00:00:00.0");
}

#[test]
fn time_strings_are_read_at_the_rate_given() {
    let t = RationalTime::from_time_string("00:00:01.0", num(24.0)).unwrap();
    assert_eq!(t.value, num(24.0));
    assert_eq!(t.rate, num(24.0));
    let t = RationalTime::from_time_string("00:00:01", num(24.0)).unwrap();
    assert_eq!(t.value, num(24.0));
    let t = RationalTime::from_time_string("01:02:03.5", num(1.0)).unwrap();
    assert_eq!(t.value, num(3723.5));
    assert_eq!(t.rate, num(1.0));
    let t = RationalTime::from_time_string("00:00:00.041667", num(24.0)).unwrap();
    assert_eq!(t.value, num(1.000008));
    assert!(t.almost_equal(time(1.0, 24.0), num(0.00001)));
    assert!(!t.almost_equal(time(1.0, 24.0), num(0.000001)));
    let t = RationalTime::from_time_string("-00:00:01.5", num(2.0)).unwrap();
    assert_eq!(t.value, num(-3.0));
    let t = RationalTime::from_time_string("99:59:59.999999999", num(1.0)).unwrap();
    assert_eq!(t.value, Ratio::new(359_999_999_999_999, 1_000_000_000));
    let t = RationalTime::from_time_string("00:00:01.5", num(0.0)).unwrap();
    assert_eq!(t.value, num(0.0));
    assert_eq!(t.rate, num(0.0));
}

#[test]
fn text_that_is_no_time_string_is_refused() {
    for text in [
        "",
        "-",
        "nonsense",
        "00:00",
        "00:00:0",
        "0:00:00.0",
        "00:00:00.",
        "00:00:00:00",
        "00:00:00.0000000001",
        "00:00:00.5 ",
        " 00:00:00.5",
        "+00:00:00.5",
        "--00:00:00.5",
        "00:60:00.0",
        "00:00:60.0",
        "00.00.00.0",
        "00:00:00,5",
        "00:00:00.-5",
        "00:00:00.5a",
        "a0:00:00.5",
        "NaN",
    ] {
        let result = RationalTime::from_time_string(text, num(24.0));
        match result {
            Ok(t) => panic!("{:?} was read as {:?}", text, t),
            Err(status) => {
                assert_eq!(status.outcome, ErrorStatusOutcome::InvalidTimeString, "{:?}", text);
                assert!(status.details.is_none());
            }
        }
        assert_eq!(parse_seconds(text), None);
    }
}

#[test]
fn a_time_string_reads_back_as_the_time_it_was_written_from() {
    for t in [time(0.0, 24.0), time(1.5, 1.0), time(-7.25, 2.0), time(86399.999999, 1.0)] {
        let text = t.to_time_string();
        let back = RationalTime::from_time_string(&text, t.rate).unwrap();
        assert_eq!(back, t, "{}", text);
    }
}

#[test]
fn seconds_are_read_exactly() {
    assert_eq!(parse_seconds("00:00:00.1"), Some(Ratio::new(1, 10)));
    assert_eq!(parse_seconds("00:01:00.25"), Some(Ratio::new(241, 4)));
    assert_eq!(parse_seconds("-10:00:00"), Some(Ratio::from_int(-36000)));
    assert_eq!(parse_seconds("00:00:00.000000001"), Some(Ratio::new(1, 1_000_000_000)));
}

#[test]
fn from_time_string_refuses_a_nul_character_with_a_detail() {
    for text in ["00:00\0:00.5", "\0", "00:00:01.5\0", "\000:00:01.5"] {
        let status = RationalTime::from_time_string(text, num(24.0)).unwrap_err();
        assert_eq!(status.outcome, ErrorStatusOutcome::InvalidTimeString, "{:?}", text);
        assert_eq!(status.details.as_deref(), Some("nul byte found in provided data"));
        assert_eq!(status.to_string(), "invalid time string: nul byte found in provided data");
    }
    let status = RationalTime::from_time_string("00:00", num(24.0)).unwrap_err();
    assert!(status.details.is_none());
}
