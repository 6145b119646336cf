use taran::{format_duration, parse_duration, DurationNanos};

#[test]
fn test_parse_duration() {
    assert_eq!(parse_duration("100ms").unwrap(), DurationNanos::from_millis(100));
    assert_eq!(parse_duration("5s").unwrap(), DurationNanos::from_secs(5));
    assert_eq!(parse_duration("2m").unwrap(), DurationNanos::from_secs(120));
    assert_eq!(parse_duration("1h").unwrap(), DurationNanos::from_secs(3600));
}

#[test]
fn parse_duration_small_units() {
    assert_eq!(parse_duration("250ns").unwrap(), DurationNanos::from_nanos(250));
    assert_eq!(parse_duration("7us").unwrap(), DurationNanos::from_nanos(7_000));
}

#[test]
fn parse_duration_fraction() {
    assert_eq!(parse_duration("1.5s").unwrap(), DurationNanos::from_millis(1500));
    assert_eq!(parse_duration("0.25s").unwrap(), DurationNanos::from_millis(250));
    assert_eq!(parse_duration("2.5m").unwrap(), DurationNanos::from_secs(150));
}

#[test]
fn parse_duration_trims_whitespace() {
    assert_eq!(parse_duration("  100ms  ").unwrap(), DurationNanos::from_millis(100));
    assert_eq!(parse_duration("5 s").unwrap(), DurationNanos::from_secs(5));
}

#[test]
fn parse_duration_empty_is_rejected() {
    assert_eq!(parse_duration("").unwrap_err(), "Empty duration string");
    assert_eq!(parse_duration("   ").unwrap_err(), "Empty duration string");
}

#[test]
fn parse_duration_missing_unit_is_rejected() {
    assert_eq!(parse_duration("100").unwrap_err(), "Missing time unit in '100'");
}

#[test]
fn parse_duration_bad_number_is_rejected() {
    assert_eq!(parse_duration("1.2.3s").unwrap_err(), "Invalid number: '1.2.3'");
    assert_eq!(parse_duration(".s").unwrap_err(), "Invalid number: '.'");
    assert_eq!(parse_duration("s").unwrap_err(), "Invalid number: ''");
}

#[test]
fn parse_duration_unknown_unit_is_rejected() {
    assert_eq!(parse_duration("5x").unwrap_err(), "Unknown time unit: 'x'");
    assert_eq!(parse_duration("5 days").unwrap_err(), "Unknown time unit: ' days'");
}

#[test]
fn parse_duration_overflow_is_rejected() {
    assert_eq!(
        parse_duration("99999999999999999999h").unwrap_err(),
        "Invalid number: '99999999999999999999'"
    );
}

#[test]
fn format_duration_cases() {
    assert_eq!(format_duration(DurationNanos::from_millis(100)), "100ms");
    assert_eq!(format_duration(DurationNanos::from_secs(5)), "5s");
    assert_eq!(format_duration(DurationNanos::from_secs(120)), "2m");
    assert_eq!(format_duration(DurationNanos::from_secs(3600)), "60m");
    assert_eq!(format_duration(DurationNanos::from_millis(1500)), "1.500s");
    assert_eq!(format_duration(DurationNanos::from_millis(61_005)), "61.005s");
}

#[test]
fn parse_format_round_trip() {
    for text in ["100ms", "5s", "2m", "1.500s"] {
        let d = parse_duration(text).unwrap();
        assert_eq!(format_duration(d), text);
    }
}
