use ai_proxy::timestamps::{is_expired_at, is_expired_rfc3339, parse_rfc3339_epoch};

#[test]
fn parse_rfc3339_utc() {
    let epoch = parse_rfc3339_epoch("2025-03-10T12:00:00Z").unwrap();
    assert!(epoch > 1_700_000_000);
    assert!(epoch < 1_800_000_000);
}

#[test]
fn parse_rfc3339_with_offset() {
    let utc = parse_rfc3339_epoch("2025-03-10T12:00:00Z").unwrap();
    let plus5 = parse_rfc3339_epoch("2025-03-10T17:00:00+05:00").unwrap();
    assert_eq!(utc, plus5);
}

#[test]
fn parse_rfc3339_with_fractional() {
    let a = parse_rfc3339_epoch("2025-03-10T12:00:00Z").unwrap();
    let b = parse_rfc3339_epoch("2025-03-10T12:00:00.123Z").unwrap();
    assert_eq!(a, b);
}

#[test]
fn expired_past_date() {
    assert!(is_expired_rfc3339("2020-01-01T00:00:00Z"));
}

#[test]
fn not_expired_future_date() {
    assert!(!is_expired_rfc3339("2099-01-01T00:00:00Z"));
}

#[test]
fn invalid_input_not_expired() {
    assert!(!is_expired_rfc3339("not-a-date"));
    assert!(!is_expired_rfc3339(""));
}

#[test]
fn known_moments() {
    assert_eq!(parse_rfc3339_epoch("1970-01-01T00:00:00Z"), Some(0));
    assert_eq!(parse_rfc3339_epoch("2000-02-29T23:59:59Z"), Some(951_868_799));
    assert_eq!(parse_rfc3339_epoch("2025-03-10T12:00:00Z"), Some(1_741_608_000));
    assert_eq!(parse_rfc3339_epoch("1969-12-31T23:59:59Z"), Some(-1));
    assert_eq!(parse_rfc3339_epoch("  2025-03-10T12:00:00z  "), Some(1_741_608_000));
}

#[test]
fn consecutive_days_are_a_day_apart() {
    let a = parse_rfc3339_epoch("2024-02-28T00:00:00Z").unwrap();
    let b = parse_rfc3339_epoch("2024-02-29T00:00:00Z").unwrap();
    let c = parse_rfc3339_epoch("2024-03-01T00:00:00Z").unwrap();
    assert_eq!(b - a, 86_400);
    assert_eq!(c - b, 86_400);
    let d = parse_rfc3339_epoch("2023-12-31T00:00:00Z").unwrap();
    let e = parse_rfc3339_epoch("2024-01-01T00:00:00Z").unwrap();
    assert_eq!(e - d, 86_400);
}

#[test]
fn zones_and_leftovers() {
    let utc = parse_rfc3339_epoch("2025-03-10T12:00:00Z").unwrap();
    assert_eq!(parse_rfc3339_epoch("2025-03-10T12:00:00-01:30"), Some(utc + 5400));
    assert_eq!(parse_rfc3339_epoch("2025-03-10T12:00:00"), Some(utc));
    assert_eq!(parse_rfc3339_epoch("2025-03-10T12:00:00 CET"), Some(utc));
    assert_eq!(parse_rfc3339_epoch("2025-03-10T12:00:00+0530"), None);
    assert_eq!(parse_rfc3339_epoch("2025-03-10T12:00:00+xx:00"), None);
}

#[test]
fn bad_fields_are_refused() {
    assert_eq!(parse_rfc3339_epoch("2025-13-10T12:00:00Z"), None);
    assert_eq!(parse_rfc3339_epoch("2025-00-10T12:00:00Z"), None);
    assert_eq!(parse_rfc3339_epoch("20x5-03-10T12:00:00Z"), None);
    assert_eq!(parse_rfc3339_epoch("2025-03-10T12:00"), None);
}

#[test]
fn expiry_is_before_now() {
    assert!(is_expired_at("1970-01-01T00:00:09Z", 10));
    assert!(!is_expired_at("1970-01-01T00:00:10Z", 10));
    assert!(!is_expired_at("nonsense", 10));
}
