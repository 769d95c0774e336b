use opentime::error_status::ErrorStatusOutcome;
use opentime::ratio::Ratio;
use opentime::rational_time::{IsDropFrameRate, RationalTime};
use opentime::timecode::{is_dropframe_rate, is_valid_timecode_rate, Timecode};

fn num(x: f64) -> Ratio {
    Ratio::parse(&format!("{}", x)).unwrap()
}

fn time(value: f64, rate: f64) -> RationalTime {
    RationalTime::new(num(value), num(rate))
}

fn ntsc(frames_per_second: i64) -> Ratio {
    Ratio::new(frames_per_second * 1000, 1001)
}

fn outcome_of<T>(result: Result<T, opentime::error_status::ErrorStatus>) -> ErrorStatusOutcome {
    match result {
        Ok(_) => ErrorStatusOutcome::Okay,
        Err(status) => {
            assert!(status.details.is_none());
            status.outcome
        }
    }
}

#[test]
fn the_legal_timecode_rates() {
    let legal = [
        num(1.0),
        num(12.0),
        num(23.97),
        num(23.976),
        num(23.98),
        ntsc(24),
        num(24.0),
        num(25.0),
        num(29.97),
        ntsc(30),
        num(30.0),
        num(48.0),
        num(50.0),
        num(59.94),
        ntsc(60),
        num(60.0),
    ];
    for rate in legal {
        assert!(is_valid_timecode_rate(rate), "{:?}", rate);
        assert!(RationalTime::is_valid_timecode_rate(rate), "{:?}", rate);
    }
    let illegal = [
        num(0.0),
        num(-24.0),
        num(2.0),
        num(23.9),
        num(23.9761),
        num(29.0),
        num(59.0),
        num(61.0),
        num(120.0),
        ntsc(48),
        Ratio::nan(),
    ];
    for rate in illegal {
        assert!(!is_valid_timecode_rate(rate), "{:?}", rate);
    }
}

#[test]
fn the_dropframe_rates() {
    for rate in [num(29.97), ntsc(30), num(59.94), ntsc(60)] {
        assert!(is_dropframe_rate(rate));
    }
    for rate in [num(23.976), ntsc(24), num(24.0), num(30.0), num(60.0), Ratio::nan()] {
        assert!(!is_dropframe_rate(rate));
    }
}

#[test]
fn timecode_counts_frames_seconds_minutes_and_hours() {
    let rate = num(24.0);
    let cases = [
        (0.0, "00:00:00:00"),
        (1.0, "00:00:00:01"),
        (23.0, "00:00:00:23"),
        (24.0, "00:00:01:00"),
        (25.0, "00:00:01:01"),
        (1440.0, "00:01:00:00"),
        (86400.0, "01:00:00:00"),
        (86400.0 + 1440.0 + 24.0 + 1.0, "01:01:01:01"),
        (2073599.0, "23:59:59:23"),
    ];
    for (frames, text) in cases {
        let t = RationalTime::new(num(frames), rate);
        assert_eq!(t.to_timecode(rate, IsDropFrameRate::ForceNo).unwrap(), text);
        assert_eq!(t.to_timecode_auto().unwrap(), text);
        let back = RationalTime::from_timecode(text, rate).unwrap();
        assert_eq!(back.value, t.value);
        assert_eq!(back.rate, rate);
    }
}

#[test]
fn timecode_starts_over_after_a_day() {
    let rate = num(24.0);
    let t = RationalTime::new(num(2073600.0), rate);
    assert_eq!(t.to_timecode_auto().unwrap(), "00:00:00:00");
    let t = RationalTime::new(num(2073600.0 * 3.0 + 25.0), rate);
    assert_eq!(t.to_timecode_auto().unwrap(), "00:00:01:01");
}

#[test]
fn timecode_is_written_at_the_rate_asked_for() {
    let t = time(48.0, 48.0);
    assert_eq!(t.to_timecode(num(24.0), IsDropFrameRate::ForceNo).unwrap(), "00:00:01:00");
    assert_eq!(t.to_timecode(num(25.0), IsDropFrameRate::InferFromRate).unwrap(), "00:00:01:00");
    let t = time(1.0, 1.0);
    assert_eq!(t.to_timecode(num(1.0), IsDropFrameRate::ForceNo).unwrap(), "00:00:01:00");
    assert_eq!(t.to_timecode_auto().unwrap(), "00:00:01:00");
}

#[test]
fn a_part_of_a_frame_is_left_off() {
    let t = time(25.75, 24.0);
    assert_eq!(t.to_timecode_auto().unwrap(), "00:00:01:01");
    let t = time(1.0, 48.0);
    assert_eq!(t.to_timecode(num(24.0), IsDropFrameRate::ForceNo).unwrap(), "00:00:00:00");
}

#[test]
fn drop_frame_timecode_skips_numbers_at_the_minute() {
    for rate in [num(29.97), ntsc(30)] {
        let cases = [
            (0.0, "00:00:00;00"),
            (29.0, "00:00:00;29"),
            (30.0, "00:00:01;00"),
            (1799.0, "00:00:59;29"),
            (1800.0, "00:01:00;02"),
            (1801.0, "00:01:00;03"),
            (3597.0, "00:01:59;29"),
            (3598.0, "00:02:00;02"),
            (17981.0, "00:09:59;29"),
            (17982.0, "00:10:00;00"),
            (17983.0, "00:10:00;01"),
            (19782.0, "00:11:00;02"),
            (107892.0, "01:00:00;00"),
            (2589407.0, "23:59:59;29"),
            (2589408.0, "00:00:00;00"),
        ];
        for (frames, text) in cases {
            let t = RationalTime::new(num(frames), rate);
            assert_eq!(t.to_timecode_auto().unwrap(), text);
            assert_eq!(t.to_timecode(rate, IsDropFrameRate::ForceYes).unwrap(), text);
            if frames < 2589408.0 {
                let back = RationalTime::from_timecode(text, rate).unwrap();
                assert_eq!(back.value, t.value);
                assert_eq!(back.rate, rate);
            }
        }
    }
}

#[test]
fn drop_frame_timecode_at_sixty_frames_skips_four() {
    for rate in [num(59.94), ntsc(60)] {
        let cases = [
            (3599.0, "00:00:59;59"),
            (3600.0, "00:01:00;04"),
            (35963.0, "00:09:59;59"),
            (35964.0, "00:10:00;00"),
            (215784.0, "01:00:00;00"),
            (5178815.0, "23:59:59;59"),
        ];
        for (frames, text) in cases {
            let t = RationalTime::new(num(frames), rate);
            assert_eq!(t.to_timecode_auto().unwrap(), text);
            let back = RationalTime::from_timecode(text, rate).unwrap();
            assert_eq!(back.value, t.value);
        }
    }
}

#[test]
fn drop_frame_can_be_switched_off() {
    let rate = num(29.97);
    let t = RationalTime::new(num(1800.0), rate);
    assert_eq!(t.to_timecode(rate, IsDropFrameRate::ForceNo).unwrap(), "00:01:00:00");
    let back = RationalTime::from_timecode("00:01:00:00", rate).unwrap();
    assert_eq!(back.value, num(1800.0));
    // Without drop-frame the day still ends after a day of real time.
    let t = RationalTime::new(num(2589408.0 + 5.0), rate);
    assert_eq!(t.to_timecode(rate, IsDropFrameRate::ForceNo).unwrap(), "00:00:00:05");
}

#[test]
fn fractional_rates_count_at_the_next_whole_rate() {
    let rate = num(23.976);
    let t = RationalTime::new(num(24.0), rate);
    assert_eq!(t.to_timecode_auto().unwrap(), "00:00:01:00");
    let t = RationalTime::new(num(23.0), rate);
    assert_eq!(t.to_timecode_auto().unwrap(), "00:00:00:23");
    assert_eq!(RationalTime::from_timecode("00:00:01:00", rate).unwrap().value, num(24.0));
    // A day of 23.976 frames a second holds 2071536 frames.
    let t = RationalTime::new(num(2071536.0), rate);
    assert_eq!(t.to_timecode_auto().unwrap(), "00:00:00:00");
    let t = RationalTime::new(num(2071535.0), rate);
    assert_eq!(t.to_timecode_auto().unwrap(), "23:58:33:23");
}

#[test]
fn timecode_round_trip_at_every_legal_rate() {
    let rates = [
        num(1.0),
        num(12.0),
        num(23.97),
        num(23.976),
        num(23.98),
        ntsc(24),
        num(24.0),
        num(25.0),
        num(29.97),
        ntsc(30),
        num(30.0),
        num(48.0),
        num(50.0),
        num(59.94),
        ntsc(60),
        num(60.0),
    ];
    for rate in rates {
        let per_day = rate.scaled_round(3600).unwrap() as i64 * 24;
        let mut frames: i64 = 0;
        while frames < per_day {
            let t = RationalTime::new(Ratio::from_int(frames), rate);
            let text = t.to_timecode_auto().unwrap();
            let back = RationalTime::from_timecode(&text, rate).unwrap();
            assert_eq!(back.value, t.value, "{} at {:?}", text, rate);
            assert_eq!(back.rate, t.rate);
            assert!(back.almost_equal(t, num(0.0)));
            frames += 7919;
        }
        let last = RationalTime::new(Ratio::from_int(per_day - 1), rate);
        let text = last.to_timecode_auto().unwrap();
        assert_eq!(RationalTime::from_timecode(&text, rate).unwrap().value, last.value);
    }
}

#[test]
fn to_timecode_refuses_an_illegal_rate() {
    let result = time(1.0, 1.0).to_timecode(num(0.0), IsDropFrameRate::ForceNo);
    assert_eq!(outcome_of(result), ErrorStatusOutcome::InvalidTimecodeRate);
    let result = time(1.0, 24.0).to_timecode(num(23.0), IsDropFrameRate::InferFromRate);
    assert_eq!(outcome_of(result), ErrorStatusOutcome::InvalidTimecodeRate);
    let result = time(-1.0, 24.0).to_timecode(num(23.0), IsDropFrameRate::ForceYes);
    assert_eq!(outcome_of(result), ErrorStatusOutcome::InvalidTimecodeRate);
    let result = time(1.0, 0.0).to_timecode_auto();
    assert_eq!(outcome_of(result), ErrorStatusOutcome::InvalidTimecodeRate);
    let result = RationalTime::default().to_timecode_auto();
    assert_eq!(outcome_of(result), ErrorStatusOutcome::InvalidTimecodeRate);
}

#[test]
fn to_timecode_refuses_drop_frame_at_a_rate_without_it() {
    let result = time(1.0, 24.0).to_timecode(num(24.0), IsDropFrameRate::ForceYes);
    assert_eq!(outcome_of(result), ErrorStatusOutcome::InvalidRateForDropFrameTimecode);
    let result = time(-1.0, 24.0).to_timecode(num(30.0), IsDropFrameRate::ForceYes);
    assert_eq!(outcome_of(result), ErrorStatusOutcome::InvalidRateForDropFrameTimecode);
}

#[test]
fn to_timecode_refuses_a_negative_value() {
    let result = time(-1.0, 24.0).to_timecode_auto();
    assert_eq!(outcome_of(result), ErrorStatusOutcome::NegativeValue);
    let result = time(-0.001, 24.0).to_timecode(num(30.0), IsDropFrameRate::ForceNo);
    assert_eq!(outcome_of(result), ErrorStatusOutcome::NegativeValue);
}

#[test]
fn to_timecode_refuses_a_value_that_is_not_finite() {
    let result = RationalTime::new(Ratio::nan(), num(24.0)).to_timecode_auto();
    assert_eq!(outcome_of(result), ErrorStatusOutcome::NegativeValue);
    let result = time(1.0, 0.0).to_timecode(num(24.0), IsDropFrameRate::ForceNo);
    assert_eq!(outcome_of(result), ErrorStatusOutcome::NegativeValue);
}

#[test]
fn from_timecode_refuses_an_illegal_rate() {
    let result = RationalTime::from_timecode("00:00:00:01", num(23.0));
    assert_eq!(outcome_of(result), ErrorStatusOutcome::InvalidTimecodeRate);
    let result = RationalTime::from_timecode("nonsense", num(0.0));
    assert_eq!(outcome_of(result), ErrorStatusOutcome::InvalidTimecodeRate);
}

#[test]
fn from_timecode_refuses_text_that_is_no_timecode() {
    for text in [
        "",
        "nonsense",
        "00:00:00",
        "0:00:00:01",
        "00:00:00:1",
        "00:00:00:001",
        "00:00:00:01 ",
        " 00:00:00:01",
        "00-00-00-01",
        "00:00:00.01",
        "00;00:00:01",
        "00:00;00:01",
        "0a:00:00:01",
        "00:0a:00:01",
        "00:00:a0:01",
        "00:00:00:0a",
        "-1:00:00:01",
        "00:60:00:01",
        "00:00:60:01",
        "００:００:００:０１",
    ] {
        let result = RationalTime::from_timecode(text, num(24.0));
        assert_eq!(outcome_of(result), ErrorStatusOutcome::InvalidTimecodeString, "{:?}", text);
    }
}

#[test]
fn from_timecode_refuses_a_frame_that_the_rate_does_not_have() {
    let result = RationalTime::from_timecode("00:00:00:24", num(24.0));
    assert_eq!(outcome_of(result), ErrorStatusOutcome::InvalidTimecodeString);
    let result = RationalTime::from_timecode("00:00:00:24", num(23.976));
    assert_eq!(outcome_of(result), ErrorStatusOutcome::InvalidTimecodeString);
    let result = RationalTime::from_timecode("00:00:00:30", num(29.97));
    assert_eq!(outcome_of(result), ErrorStatusOutcome::InvalidTimecodeString);
    assert!(RationalTime::from_timecode("00:00:00:23", num(24.0)).is_ok());
    assert!(RationalTime::from_timecode("00:00:00:24", num(25.0)).is_ok());
    assert!(RationalTime::from_timecode("00:00:00:01", num(1.0)).is_err());
    assert!(RationalTime::from_timecode("00:00:01:00", num(1.0)).is_ok());
}

#[test]
fn from_timecode_refuses_the_drop_frame_mark_at_a_rate_without_it() {
    let result = RationalTime::from_timecode("00:00:00;01", num(24.0));
    assert_eq!(outcome_of(result), ErrorStatusOutcome::NonDropframeRate);
    let result = RationalTime::from_timecode("00:00:00;99", num(30.0));
    assert_eq!(outcome_of(result), ErrorStatusOutcome::NonDropframeRate);
    let result = RationalTime::from_timecode("00:00:00;30", num(29.97));
    assert_eq!(outcome_of(result), ErrorStatusOutcome::InvalidTimecodeString);
}

#[test]
fn from_timecode_reads_hours_up_to_ninety_nine() {
    let t = RationalTime::from_timecode("99:59:59:23", num(24.0)).unwrap();
    assert_eq!(t.value, Ratio::from_int(((99 * 60 + 59) * 60 + 59) * 24 + 23));
    let t = RationalTime::from_timecode("99:59:59;29", num(29.97)).unwrap();
    let minutes = 99 * 60 + 59;
    assert_eq!(
        t.value,
        Ratio::from_int((minutes * 60 + 59) * 30 + 29 - 2 * (minutes - minutes / 10))
    );
}

#[test]
fn timecode_fields_and_text() {
    let tc = Timecode { hours: 1, minutes: 2, seconds: 3, frames: 4, drop_frame: false };
    assert_eq!(tc.to_string(), "01:02:03:04");
    assert_eq!(Timecode::parse("01:02:03:04"), Some(tc));
    let tc = Timecode { hours: 99, minutes: 59, seconds: 59, frames: 99, drop_frame: true };
    assert_eq!(tc.to_string(), "99:59:59;99");
    assert_eq!(Timecode::parse("99:59:59;99"), Some(tc));
    assert_eq!(Timecode::parse("99:60:59;99"), None);
    assert_eq!(Timecode::parse("99:59:60;99"), None);
    assert_eq!(Timecode::parse("99:59:59,99"), None);
}

#[test]
fn from_timecode_refuses_a_nul_character_with_a_detail() {
    let status = RationalTime::from_timecode("00:00\0:00:01", num(24.0)).unwrap_err();
    assert_eq!(status.outcome, ErrorStatusOutcome::InvalidTimecodeString);
    assert_eq!(status.details.as_deref(), Some("nul byte found in provided data"));
    assert!(status.is_error());
    assert_eq!(
        status.to_string(),
        "string is not a valid timecode string: nul byte found in provided data"
    );
    for text in ["\0", "00:00:00:0\0", "\000:00:00:01", "00:00:00:01\0", "a long text\0 inside"] {
        let status = RationalTime::from_timecode(text, num(24.0)).unwrap_err();
        assert_eq!(status.outcome, ErrorStatusOutcome::InvalidTimecodeString, "{:?}", text);
        assert!(status.details.is_some(), "{:?}", text);
    }
}

#[test]
fn from_timecode_looks_for_a_nul_character_before_the_rate() {
    for rate in [num(0.0), num(23.0), Ratio::nan()] {
        let status = RationalTime::from_timecode("00:00\0:00:01", rate).unwrap_err();
        assert_eq!(status.outcome, ErrorStatusOutcome::InvalidTimecodeString);
        assert!(status.details.is_some());
    }
    let status = RationalTime::from_timecode("00:00:00:01", num(0.0)).unwrap_err();
    assert_eq!(status.outcome, ErrorStatusOutcome::InvalidTimecodeRate);
    assert!(status.details.is_none());
}

fn from_float(x: f64) -> Ratio {
    let thousands = (x * 1.001).round();
    if (1.0..=1000.0).contains(&thousands) && thousands * 1000.0 / 1001.0 == x {
        return Ratio::new(thousands as i64 * 1000, 1001);
    }
    num(x)
}

#[test]
fn broadcast_rates_computed_in_floating_point_are_legal_rates() {
    for (float, thousands) in
        [(24000.0 / 1001.0, 24000), (30000.0 / 1001.0, 30000), (60000.0 / 1001.0, 60000)]
    {
        let rate = from_float(float);
        assert_eq!(rate, Ratio::new(thousands, 1001));
        assert!(is_valid_timecode_rate(rate));
        // The shortest decimal text of the float is another number.
        assert!(!is_valid_timecode_rate(num(float)));
    }
    assert!(is_dropframe_rate(from_float(30000.0 / 1001.0)));
    assert!(is_dropframe_rate(from_float(60000.0 / 1001.0)));
    assert!(!is_dropframe_rate(from_float(24000.0 / 1001.0)));
    for float in [1.0, 12.0, 23.97, 23.976, 23.98, 24.0, 25.0, 29.97, 30.0, 48.0, 50.0, 59.94, 60.0] {
        assert_eq!(from_float(float), num(float));
        assert!(is_valid_timecode_rate(from_float(float)));
    }
    assert_eq!(from_float(0.0), num(0.0));
    assert_eq!(from_float(-1.0), num(-1.0));
    assert_eq!(from_float(1.5), Ratio::new(3, 2));
}
