use editoast::duration::{Duration, DurationParseError};

#[test]
fn test_deserialize() {
    // One hour.
    let duration = Duration::parse("PT1H").unwrap();
    assert_eq!(duration.num_seconds(), 3600);
}

#[test]
fn test_serialize() {
    // One hour prints as its total seconds.
    let duration = Duration::from_milliseconds(3600 * 1000);
    assert_eq!(duration.to_iso_string(), "PT3600S");
}

#[test]
fn test_invalid_deserialize() {
    // One month: years and months are not supported.
    let r = Duration::parse("P1M");
    assert!(matches!(r, Err(DurationParseError::UnsupportedYearsAndMonths)));
}

#[test]
fn garbage_is_unparsable() {
    assert!(matches!(
        Duration::parse("not a duration"),
        Err(DurationParseError::Unparsable)
    ));
    assert!(matches!(Duration::parse(""), Err(DurationParseError::Unparsable)));
}

#[test]
fn full_duration_sums_every_unit() {
    // 1 day, 2 hours, 3 minutes, 4 seconds.
    let d = Duration::parse("P1DT2H3M4S").unwrap();
    assert_eq!(d.num_seconds(), 86400 + 2 * 3600 + 3 * 60 + 4);
}

#[test]
fn weeks_are_supported() {
    let d = Duration::parse("P2W").unwrap();
    assert_eq!(d.num_seconds(), 2 * 7 * 86400);
}

#[test]
fn years_are_rejected() {
    assert!(matches!(
        Duration::parse("P1Y"),
        Err(DurationParseError::UnsupportedYearsAndMonths)
    ));
}

#[test]
fn fractional_seconds_parse_to_milliseconds() {
    let d = Duration::parse("PT1.5S").unwrap();
    assert_eq!(d.milliseconds(), 1500);
}

#[test]
fn formatting_matches_iso_8601() {
    assert_eq!(Duration::from_milliseconds(0).to_iso_string(), "P0D");
    assert_eq!(Duration::from_milliseconds(1500).to_iso_string(), "PT1.5S");
    assert_eq!(Duration::from_milliseconds(1005).to_iso_string(), "PT1.005S");
    assert_eq!(Duration::from_milliseconds(1120).to_iso_string(), "PT1.12S");
    assert_eq!(Duration::from_milliseconds(1100).to_iso_string(), "PT1.1S");
    assert_eq!(Duration::from_milliseconds(-1500).to_iso_string(), "-PT1.5S");
    assert_eq!(Duration::from_milliseconds(61_000).to_iso_string(), "PT61S");
}

#[test]
fn negative_durations_round_seconds_towards_zero() {
    assert_eq!(Duration::from_milliseconds(-1500).num_seconds(), -1);
    assert_eq!(Duration::from_milliseconds(1500).num_seconds(), 1);
}
