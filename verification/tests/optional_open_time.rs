use opentime::optional_open_time::{OptionalRationalTime, OptionalTimeRange};
use opentime::ratio::Ratio;
use opentime::rational_time::RationalTime;
use opentime::time_range::TimeRange;

fn num(x: f64) -> Ratio {
    Ratio::parse(&format!("{}", x)).unwrap()
}

fn time(value: f64, rate: f64) -> RationalTime {
    RationalTime::new(num(value), num(rate))
}

#[test]
fn test_optional_rational_time_new_success() {
    let optional_rational_time = OptionalRationalTime::new(time(0.0, 1.0));
    assert_eq!(optional_rational_time, OptionalRationalTime::Valid(time(0.0, 1.0)));
    assert!(optional_rational_time.is_valid());

    let optional_rational_time = OptionalRationalTime::default();
    assert_eq!(optional_rational_time, OptionalRationalTime::Invalid);
    assert!(!optional_rational_time.is_valid());
}

#[test]
fn test_optional_time_range_new_success() {
    let optional_time_range =
        OptionalTimeRange::new(TimeRange::new(time(0.0, 1.0), time(1.0, 1.0)));
    assert_eq!(
        optional_time_range,
        OptionalTimeRange::Valid(TimeRange::new(time(0.0, 1.0), time(1.0, 1.0),))
    );
    assert!(optional_time_range.is_valid());

    let optional_time_range = OptionalTimeRange::default();
    assert_eq!(optional_time_range, OptionalTimeRange::Invalid);
    assert!(!optional_time_range.is_valid());
}

#[test]
fn optional_times_compare_as_instants() {
    assert_eq!(
        OptionalRationalTime::new(time(1.0, 24.0)),
        OptionalRationalTime::new(time(2.0, 48.0))
    );
    assert_ne!(
        OptionalRationalTime::new(time(1.0, 24.0)),
        OptionalRationalTime::new(time(1.0, 48.0))
    );
    assert_ne!(OptionalRationalTime::new(time(0.0, 1.0)), OptionalRationalTime::Invalid);
    assert_ne!(OptionalRationalTime::Invalid, OptionalRationalTime::new(time(0.0, 1.0)));
}

#[test]
fn optional_ranges_compare_by_their_spans() {
    let a = TimeRange::new(time(1.0, 24.0), time(24.0, 24.0));
    let b = TimeRange::new(time(2.0, 48.0), time(1.0, 1.0));
    let c = TimeRange::new(time(2.0, 48.0), time(2.0, 1.0));
    assert_eq!(OptionalTimeRange::new(a), OptionalTimeRange::new(b));
    assert_ne!(OptionalTimeRange::new(a), OptionalTimeRange::new(c));
    assert_ne!(OptionalTimeRange::new(a), OptionalTimeRange::Invalid);
}
