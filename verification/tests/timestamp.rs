use tuilog::timestamp::{parse_timestamp, Timestamp};

fn ts(year: u32, month: u32, day: u32, hour: u32, minute: u32, second: u32) -> Timestamp {
    Timestamp { year, month, day, hour, minute, second }
}

#[test]
fn parse_canonical_text() {
    let t = parse_timestamp("2024-01-01 12:00:00").unwrap();
    assert_eq!(t, ts(2024, 1, 1, 12, 0, 0));
}

#[test]
fn parse_leap_day() {
    assert!(parse_timestamp("2024-02-29 23:59:59").is_some());
    assert!(parse_timestamp("2023-02-29 00:00:00").is_none());
    assert!(parse_timestamp("2000-02-29 00:00:00").is_some());
    assert!(parse_timestamp("1900-02-29 00:00:00").is_none());
}

#[test]
fn parse_rejects_bad_fields() {
    assert!(parse_timestamp("2024-13-01 00:00:00").is_none());
    assert!(parse_timestamp("2024-00-01 00:00:00").is_none());
    assert!(parse_timestamp("2024-04-31 00:00:00").is_none());
    assert!(parse_timestamp("2024-01-01 24:00:00").is_none());
    assert!(parse_timestamp("2024-01-01 00:60:00").is_none());
    assert!(parse_timestamp("2024-01-01 00:00:60").is_none());
}

#[test]
fn parse_rejects_bad_shape() {
    assert!(parse_timestamp("not-a-date").is_none());
    assert!(parse_timestamp("").is_none());
    assert!(parse_timestamp("2024-01-01 12:00:0").is_none());
    assert!(parse_timestamp("2024-01-01 12:00:000").is_none());
    assert!(parse_timestamp("2024/01/01 12:00:00").is_none());
    assert!(parse_timestamp("2024-01-01T12:00:00").is_none());
    assert!(parse_timestamp("2o24-01-01 12:00:00").is_none());
}

#[test]
fn render_canonical_text() {
    let t = ts(2024, 1, 1, 12, 0, 0);
    assert_eq!(t.to_text(), "2024-01-01 12:00:00");
    let t = ts(987, 12, 31, 1, 2, 3);
    assert_eq!(t.to_text(), "0987-12-31 01:02:03");
}

#[test]
fn render_round_trip() {
    for text in ["2024-01-01 12:00:00", "0001-02-03 04:05:06", "9999-12-31 23:59:59"] {
        let t = parse_timestamp(text).unwrap();
        assert_eq!(t.to_text(), text);
    }
}

#[test]
fn export_digit_forms() {
    let t = parse_timestamp("2024-01-01 12:00:00").unwrap();
    assert_eq!(t.date_digits(), "20240101");
    assert_eq!(t.time_digits(), "120000");
}

#[test]
fn chronological_comparison() {
    let a = parse_timestamp("2024-01-01 12:00:00").unwrap();
    let b = parse_timestamp("2024-01-01 12:00:01").unwrap();
    let c = parse_timestamp("2023-12-31 23:59:59").unwrap();
    assert_eq!(a.compare(&b), std::cmp::Ordering::Less);
    assert_eq!(b.compare(&a), std::cmp::Ordering::Greater);
    assert_eq!(a.compare(&a), std::cmp::Ordering::Equal);
    assert_eq!(c.compare(&a), std::cmp::Ordering::Less);
    assert!(a.key_u64() < b.key_u64());
}

#[test]
fn validity_checks() {
    assert!(ts(2024, 2, 29, 0, 0, 0).is_valid());
    assert!(!ts(2023, 2, 29, 0, 0, 0).is_valid());
    assert!(!ts(10000, 1, 1, 0, 0, 0).is_valid());
    assert!(!ts(2024, 1, 32, 0, 0, 0).is_valid());
    assert!(ts(0, 1, 1, 0, 0, 0).is_valid());
}
