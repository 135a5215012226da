use updatekit::clock::{format_pretty, format_rfc3339, format_stamp, parse_stamp, UtcDateTime};

fn sample_time() -> UtcDateTime {
    UtcDateTime { year: 2024, month: 1, day: 2, hour: 3, minute: 4, second: 5 }
}

#[test]
fn format_stamp_is_fixed_width() {
    assert_eq!(format_stamp(&sample_time()), "20240102_030405");
}

#[test]
fn format_pretty_is_human_readable() {
    assert_eq!(format_pretty(&sample_time()), "2024-01-02 03:04:05");
}

#[test]
fn format_rfc3339_has_utc_offset() {
    assert_eq!(format_rfc3339(&sample_time()), "2024-01-02T03:04:05+00:00");
}

#[test]
fn parse_stamp_round_trips() {
    let t = parse_stamp("20240102_030405").expect("well-formed stamp");
    assert_eq!(t.year, 2024);
    assert_eq!(t.month, 1);
    assert_eq!(t.day, 2);
    assert_eq!(t.hour, 3);
    assert_eq!(t.minute, 4);
    assert_eq!(t.second, 5);
    assert_eq!(format_stamp(&t), "20240102_030405");
}

#[test]
fn parse_stamp_rejects_malformed_text() {
    assert!(parse_stamp("").is_none());
    assert!(parse_stamp("20240102").is_none());
    assert!(parse_stamp("20240102-030405").is_none());
    assert!(parse_stamp("2024010a_030405").is_none());
    assert!(parse_stamp("20241302_030405").is_none());
    assert!(parse_stamp("20240100_030405").is_none());
    assert!(parse_stamp("20240102_240405").is_none());
    assert!(parse_stamp("20240102_036005").is_none());
    assert!(parse_stamp("20240102_0304056").is_none());
}
