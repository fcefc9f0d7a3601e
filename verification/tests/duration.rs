use feedgen::config::types::{DateTimeFormat, Duration, DurationError, DurationUnit};

#[test]
fn parses_all_four_parts() {
    let d = Duration::parse("1d 2h 3m 4s").unwrap();
    assert_eq!(d.as_secs(), 93_784);
    assert_eq!(d.subsec_nanos(), 0);
}

#[test]
fn parses_single_parts() {
    assert_eq!(Duration::parse("2d").unwrap().as_secs(), 172_800);
    assert_eq!(Duration::parse("5h").unwrap().as_secs(), 18_000);
    assert_eq!(Duration::parse("7m").unwrap().as_secs(), 420);
    assert_eq!(Duration::parse("9s").unwrap().as_secs(), 9);
    assert_eq!(Duration::parse("0s").unwrap().as_secs(), 0);
}

#[test]
fn white_space_is_allowed_between_parts_only_where_the_form_has_it() {
    assert_eq!(Duration::parse("5d3s").unwrap().as_secs(), 432_003);
    assert_eq!(Duration::parse("5d \t\n 3s").unwrap().as_secs(), 432_003);
    assert_eq!(Duration::parse(" 5h").unwrap().as_secs(), 18_000);
    assert_eq!(Duration::parse("5m ").unwrap().as_secs(), 300);
    assert_eq!(Duration::parse(" 5d"), Err(DurationError::Invalid));
    assert_eq!(Duration::parse("5s "), Err(DurationError::Invalid));
    assert_eq!(Duration::parse("5 s"), Err(DurationError::Invalid));
}

#[test]
fn parts_must_come_in_order() {
    assert_eq!(Duration::parse("3s 5m"), Err(DurationError::Invalid));
    assert_eq!(Duration::parse("1h 1d"), Err(DurationError::Invalid));
    assert_eq!(Duration::parse("1h 1h"), Err(DurationError::Invalid));
}

#[test]
fn rejects_text_without_parts() {
    assert_eq!(Duration::parse(""), Err(DurationError::Invalid));
    assert_eq!(Duration::parse("   "), Err(DurationError::Invalid));
    assert_eq!(Duration::parse("h"), Err(DurationError::Invalid));
    assert_eq!(Duration::parse("5"), Err(DurationError::Invalid));
    assert_eq!(Duration::parse("5x"), Err(DurationError::Invalid));
    assert_eq!(Duration::parse("-5s"), Err(DurationError::Invalid));
    assert_eq!(Duration::parse("٥s"), Err(DurationError::Invalid));
}

#[test]
fn reports_the_part_that_overflows() {
    assert_eq!(
        Duration::parse("1d 99999999999999999999h"),
        Err(DurationError::PartTooLarge(DurationUnit::Hours))
    );
    assert_eq!(
        Duration::parse("18446744073709551616d"),
        Err(DurationError::PartTooLarge(DurationUnit::Days))
    );
    assert_eq!(
        Duration::parse("18446744073709551616m"),
        Err(DurationError::PartTooLarge(DurationUnit::Minutes))
    );
    assert_eq!(
        Duration::parse("18446744073709551616s"),
        Err(DurationError::PartTooLarge(DurationUnit::Seconds))
    );
}

#[test]
fn the_largest_number_of_seconds_is_accepted() {
    assert_eq!(Duration::parse("18446744073709551615s").unwrap().as_secs(), u64::MAX);
    assert_eq!(Duration::parse("213503982334601d").unwrap().as_secs(), 213503982334601 * 86_400);
}

#[test]
fn reports_a_sum_that_overflows() {
    assert_eq!(Duration::parse("213503982334602d"), Err(DurationError::TooLarge));
    assert_eq!(Duration::parse("1h 18446744073709551615s"), Err(DurationError::TooLarge));
    assert_eq!(Duration::parse("1m 18446744073709551615s"), Err(DurationError::TooLarge));
}

#[test]
fn integers_are_seconds() {
    assert_eq!(Duration::from_integer(0).unwrap().as_secs(), 0);
    assert_eq!(Duration::from_integer(7200).unwrap().as_secs(), 7200);
    assert_eq!(Duration::from_integer(-1), Err(DurationError::Negative));
    assert_eq!(Duration::from_integer(i64::MIN), Err(DurationError::Negative));
}

#[test]
fn durations_count_nanoseconds() {
    let d = Duration::new(3, 500_000_000).unwrap();
    assert_eq!(d.as_nanos(), 3_500_000_000);
    assert_eq!(Duration::new(0, 1_000_000_000), None);
    assert_eq!(Duration::from_nanos(3_500_000_000), Some(d));
    assert_eq!(Duration::from_nanos(u128::MAX), None);
    assert!(Duration::from_secs(0).is_zero());
    assert!(!d.is_zero());
    assert_eq!(Duration::from_secs(5).as_nanos(), 5_000_000_000);
}

#[test]
fn date_time_formats_are_checked_by_the_time_crate() {
    let format = DateTimeFormat::parse("[year]-[month]-[day]").unwrap();
    assert_eq!(format.as_str(), "[year]-[month]-[day]");
    assert_eq!(format.duplicate().into_inner(), "[year]-[month]-[day]");
    assert!(DateTimeFormat::parse("[nonsense]").is_none());
    assert!(DateTimeFormat::parse("[year").is_none());
}
