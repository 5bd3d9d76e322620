use pop_launcher_toggl::dateutil::{
    elapsed_str, elapsed_text, format_timestamp, now_rfc3339, UtcFields,
};
use time::format_description::well_known::Rfc3339;
use time::{Duration, OffsetDateTime};

fn ago(d: Duration) -> String {
    (OffsetDateTime::now_utc() - d).format(&Rfc3339).unwrap()
}

#[test]
fn now_rfc3339_shape() {
    let s = now_rfc3339();
    assert_eq!(s.len(), 20, "got {s}");
    assert!(s.ends_with('Z'), "got {s}");
    // Round-trips through the parser.
    assert!(OffsetDateTime::parse(&s, &Rfc3339).is_ok(), "got {s}");
}

#[test]
fn elapsed_minutes_and_hours() {
    assert_eq!(elapsed_str(&ago(Duration::seconds(0))), "0m");
    assert_eq!(elapsed_str(&ago(Duration::minutes(42))), "42m");
    assert_eq!(
        elapsed_str(&ago(Duration::minutes(125))), // 2h05m
        "2h 05m"
    );
}

#[test]
fn elapsed_handles_offset_and_z_equivalently() {
    // Same instant expressed with a +02:00 offset and as UTC.
    let with_offset = "2020-01-01T02:00:00+02:00";
    let as_utc = "2020-01-01T00:00:00Z";
    assert_eq!(elapsed_str(with_offset), elapsed_str(as_utc));
}

#[test]
fn elapsed_bad_input() {
    assert_eq!(elapsed_str("not a date"), "?");
    assert_eq!(elapsed_str(""), "?");
}

const NS: i128 = 1_000_000_000;

#[test]
fn elapsed_text_formats_hours_and_minutes() {
    assert_eq!(elapsed_text(None, 0), "?");
    assert_eq!(elapsed_text(Some(0), 59 * NS), "0m");
    assert_eq!(elapsed_text(Some(0), 60 * NS), "1m");
    assert_eq!(elapsed_text(Some(0), 3600 * NS), "1h 00m");
    assert_eq!(elapsed_text(Some(0), (3600 * 27 + 9 * 60) * NS + 5), "27h 09m");
    // Whole seconds are counted toward zero.
    assert_eq!(elapsed_text(Some(1), 60 * NS), "0m");
}

#[test]
fn elapsed_text_of_a_future_start_is_negative() {
    assert_eq!(elapsed_text(Some(5 * 60 * NS), 0), "-5m");
    assert_eq!(elapsed_text(Some((2 * 3600 + 5 * 60) * NS), 0), "-2h -5m");
    assert_eq!(elapsed_text(Some((3600 + 15 * 60) * NS), 0), "-1h -15m");
}

#[test]
fn format_timestamp_pads_fields() {
    let f = UtcFields { year: 2024, month: 3, day: 7, hour: 9, minute: 5, second: 1 };
    assert_eq!(format_timestamp(&f), "2024-03-07T09:05:01Z");
    let f = UtcFields { year: 987, month: 12, day: 31, hour: 23, minute: 59, second: 59 };
    assert_eq!(format_timestamp(&f), "0987-12-31T23:59:59Z");
    let f = UtcFields { year: -44, month: 1, day: 1, hour: 0, minute: 0, second: 0 };
    assert_eq!(format_timestamp(&f), "-0044-01-01T00:00:00Z");
}

#[test]
fn format_timestamp_matches_time() {
    let t = OffsetDateTime::now_utc();
    let f = UtcFields {
        year: t.year(),
        month: u8::from(t.month()),
        day: t.day(),
        hour: t.hour(),
        minute: t.minute(),
        second: t.second(),
    };
    let fmt = time::format_description::parse(
        "[year]-[month]-[day]T[hour]:[minute]:[second]Z",
    )
    .unwrap();
    assert_eq!(format_timestamp(&f), t.format(&fmt).unwrap());
}
