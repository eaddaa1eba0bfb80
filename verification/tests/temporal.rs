use jasmine::temporal::{
    parse_date, parse_datetime, parse_duration, parse_time, parse_timestamp, NS_IN_DAY,
    UNIX_EPOCH_DAY,
};

#[test]
fn test_parse_time() {
    assert_eq!(parse_time("23:59:59").unwrap(), 86399000000000);
    assert_eq!(parse_time("07:59:59").unwrap(), 28799000000000);
    assert_eq!(parse_time("23:59:59.").unwrap(), 86399000000000);
    assert_eq!(parse_time("23:59:59.123456789").unwrap(), 86399123456789);
    assert_eq!(parse_time("23:59:59.123").unwrap(), 86399123000000);
    assert_eq!(parse_time("23:59:59.000123").unwrap(), 86399000123000);
    assert!(parse_time("24:59:59.123456789").is_err())
}

#[test]
fn test_parse_duration() {
    assert_eq!(parse_duration("0D23:59:59").unwrap(), 86399000000000);
    assert_eq!(parse_duration("1D23:59:59").unwrap(), 172799000000000);
    assert_eq!(parse_duration("100D23:59:59").unwrap(), 8726399000000000);
    assert!(parse_duration("100D23:60:59.123456789").is_err())
}

#[test]
fn parse_time_rejects_bad_components() {
    assert!(parse_time("23:60:00").is_err());
    assert!(parse_time("23:00:60").is_err());
    assert!(parse_time("2:00:00").is_err());
    assert!(parse_time("23:59:59.1234567890").is_err());
    assert!(parse_time("").is_err());
    let e = parse_time("25:00:00").unwrap_err();
    assert_eq!(e, "Not a valid time, 25:00:00");
}

#[test]
fn parse_date_epoch_and_leap() {
    assert_eq!(parse_date("1970-01-01").unwrap(), 0);
    assert_eq!(parse_date("1970-01-02").unwrap(), 1);
    assert_eq!(parse_date("1969-12-31").unwrap(), -1);
    assert_eq!(parse_date("2000-02-29").unwrap(), 11016);
    assert_eq!(parse_date("2024-04-01").unwrap(), 19814);
    assert_eq!(parse_date("0000-01-01").unwrap(), -719528);
    assert_eq!(parse_date("9999-12-31").unwrap(), 2932896);
    assert_eq!(UNIX_EPOCH_DAY, 719163);
}

#[test]
fn parse_date_rejects_bad_dates() {
    assert!(parse_date("2023-02-29").is_err());
    assert!(parse_date("2023-13-01").is_err());
    assert!(parse_date("2023-00-01").is_err());
    assert!(parse_date("2023-01-00").is_err());
    assert!(parse_date("2023-01-32").is_err());
    assert!(parse_date("2023-1-01").is_err());
    assert!(parse_date("20230101").is_err());
    let e = parse_date("oops").unwrap_err();
    assert_eq!(e, "Not a valid date, oops");
}

#[test]
fn parse_date_is_injective_on_samples() {
    let mut seen = std::collections::HashSet::new();
    for text in [
        "1999-12-31",
        "2000-01-01",
        "2000-01-31",
        "2000-02-01",
        "2000-02-29",
        "2000-03-01",
        "2001-02-28",
        "2100-02-28",
        "2100-03-01",
    ] {
        let d = parse_date(text).unwrap();
        assert!(seen.insert(d), "duplicate day count for {}", text);
    }
}

#[test]
fn parse_datetime_values() {
    assert_eq!(parse_datetime("1970-01-01T00:00:00").unwrap(), 0);
    assert_eq!(parse_datetime("1970-01-02T03:04:05.006").unwrap(), 97445006);
    assert_eq!(parse_datetime("1969-12-31T23:59:59").unwrap(), -1000);
    assert!(parse_datetime("1970-01-01").is_err());
    assert!(parse_datetime("1970-01-01D00:00:00").is_err());
}

#[test]
fn parse_timestamp_values_and_overflow() {
    assert_eq!(
        parse_timestamp("1970-01-01D00:00:00.000000001").unwrap(),
        1
    );
    assert_eq!(
        parse_timestamp("2020-01-01D00:00:00").unwrap(),
        1577836800000000000
    );
    // far past the signed 64-bit nanosecond range: collapses to 0
    assert_eq!(parse_timestamp("9999-01-01D00:00:00").unwrap(), 0);
    assert!(parse_timestamp("1970-01-01T00:00:00").is_err());
}

#[test]
fn parse_duration_suffix_forms() {
    assert_eq!(parse_duration("100ns").unwrap(), 100);
    assert_eq!(parse_duration("-100ns").unwrap(), -100);
    assert_eq!(parse_duration("5s").unwrap(), 5_000_000_000);
    assert_eq!(parse_duration("-5s").unwrap(), -5_000_000_000);
    assert_eq!(parse_duration("3m").unwrap(), 180_000_000_000);
    assert_eq!(parse_duration("2h").unwrap(), 7_200_000_000_000);
    assert_eq!(parse_duration("0D").unwrap(), 0);
    assert_eq!(parse_duration("-1D").unwrap(), -NS_IN_DAY);
    assert!(parse_duration("5x").is_err());
    assert!(parse_duration("s").is_err());
    assert!(parse_duration("").is_err());
    let e = parse_duration("oops").unwrap_err();
    assert_eq!(e, "Not a valid duration, oops");
}
