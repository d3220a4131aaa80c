use taskstore::datetime::{format_datetime, parse_datetime, DateTime};
use taskstore::task::{decode_priority, encode_priority, Priority};
use taskstore::store::{decode_task, encode_task, StoreError};
use taskstore::task::Task;

fn dt(year: u16, month: u8, day: u8, hour: u8, minute: u8, second: u8) -> DateTime {
    DateTime { year, month, day, hour, minute, second }
}

#[test]
fn timestamp_formats_exactly() {
    let d = dt(2023, 4, 20, 10, 30, 0);
    assert_eq!(format_datetime(&d), "2023-04-20T10:30:00Z");
}

#[test]
fn timestamp_round_trips_without_drift() {
    let d = dt(2023, 4, 20, 10, 30, 0);
    let text = format_datetime(&d);
    assert_eq!(parse_datetime(&text), Some(d));
}

#[test]
fn timestamp_round_trips_at_edges() {
    for d in [
        dt(0, 1, 1, 0, 0, 0),
        dt(9999, 12, 31, 23, 59, 59),
        dt(2024, 2, 29, 12, 1, 2),
        dt(1970, 1, 1, 0, 0, 1),
    ] {
        let text = format_datetime(&d);
        assert_eq!(parse_datetime(&text), Some(d), "failed for {}", text);
    }
}

#[test]
fn parse_accepts_zero_offset_spelling() {
    assert_eq!(
        parse_datetime("2023-04-20T10:30:00+00:00"),
        Some(dt(2023, 4, 20, 10, 30, 0))
    );
}

#[test]
fn parse_rejects_ill_formed_text() {
    for bad in [
        "",
        "garbage",
        "2023-04-20",
        "2023-04-20 10:30:00Z",
        "2023-04-20T10:30:00",
        "2023-04-20T10:30:00+01:00",
        "2023-02-30T00:00:00Z",
        "2023-13-01T00:00:00Z",
        "2023-00-01T00:00:00Z",
        "2023-04-00T00:00:00Z",
        "2023-04-20T24:00:00Z",
        "2023-04-20T10:60:00Z",
        "2023-04-20T10:30:60Z",
        "2100-02-29T00:00:00Z",
        "20a3-04-20T10:30:00Z",
    ] {
        assert_eq!(parse_datetime(bad), None, "accepted {:?}", bad);
    }
}

#[test]
fn leap_day_only_in_leap_years() {
    assert!(parse_datetime("2000-02-29T00:00:00Z").is_some());
    assert!(parse_datetime("1900-02-29T00:00:00Z").is_none());
    assert!(parse_datetime("2024-02-29T00:00:00Z").is_some());
    assert!(parse_datetime("2023-02-29T00:00:00Z").is_none());
}

#[test]
fn priority_codes_round_trip() {
    assert_eq!(encode_priority(Priority::Low), 0);
    assert_eq!(encode_priority(Priority::Medium), 1);
    assert_eq!(encode_priority(Priority::High), 2);
    assert_eq!(decode_priority(0), Priority::Low);
    assert_eq!(decode_priority(1), Priority::Medium);
    assert_eq!(decode_priority(2), Priority::High);
}

#[test]
fn priority_decode_falls_back_to_low() {
    assert_eq!(decode_priority(99), Priority::Low);
    assert_eq!(decode_priority(-1), Priority::Low);
    assert_eq!(decode_priority(3), Priority::Low);
}

#[test]
fn task_row_round_trips() {
    let task = Task::new(
        "Water plants",
        "the ones on the balcony",
        dt(2024, 6, 1, 8, 0, 0),
        Priority::High,
    );
    let row = encode_task(&task);
    assert_eq!(row.title, "Water plants");
    assert_eq!(row.description, "the ones on the balcony");
    assert_eq!(row.due_date, "2024-06-01T08:00:00Z");
    assert_eq!(row.priority, 2);
    assert_eq!(row.status, 0);
    let back = decode_task(&row).unwrap();
    assert!(back == task);
}

#[test]
fn task_row_with_bad_due_date_fails_to_decode() {
    let task = Task::new("a", "b", dt(2024, 6, 1, 8, 0, 0), Priority::Low);
    let mut row = encode_task(&task);
    row.due_date = String::from("not a timestamp");
    assert_eq!(decode_task(&row).unwrap_err(), StoreError::Decode);
}
