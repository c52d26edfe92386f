//! Tests of the iCalendar reading.

use chrono::{TimeZone, Utc};
use davd::ical::{extract_property, parse_datetime, parse_event, IcalError};
use davd::time::Timestamp;

/// The instant of a UTC date and time of day.
fn at(year: i32, month: u32, day: u32, hour: u32, minute: u32, second: u32) -> Timestamp {
    let dt = Utc.with_ymd_and_hms(year, month, day, hour, minute, second).unwrap();
    Timestamp { seconds: dt.timestamp(), nanos: dt.timestamp_subsec_nanos() }
}

#[test]
fn test_parse_simple_event() {
    let ical = r#"BEGIN:VCALENDAR
VERSION:2.0
PRODID:-//Test//Test//EN
BEGIN:VEVENT
UID:test-event-123
DTSTART:20240101T120000Z
DTEND:20240101T130000Z
SUMMARY:Test Event
DESCRIPTION:This is a test event
LOCATION:Test Location
END:VEVENT
END:VCALENDAR"#;

    let event = parse_event(ical).unwrap();
    assert_eq!(event.uid, "test-event-123");
    assert_eq!(event.summary, Some("Test Event".to_string()));
}

// --- Further cases ---

#[test]
fn simple_event_has_all_properties() {
    let ical = "BEGIN:VCALENDAR\r\nBEGIN:VEVENT\r\nUID:u1\r\nDTSTART:20240101T120000Z\r\nDTEND:20240101T130000Z\r\nDESCRIPTION:This is a test event\r\nLOCATION:Test Location\r\nRRULE:FREQ=WEEKLY\r\nEND:VEVENT\r\nEND:VCALENDAR\r\n";
    let event = parse_event(ical).unwrap();
    assert_eq!(event.start_time, at(2024, 1, 1, 12, 0, 0));
    assert_eq!(event.start_time.seconds, 1704110400);
    assert_eq!(event.end_time, Some(at(2024, 1, 1, 13, 0, 0)));
    assert_eq!(event.description, Some("This is a test event".to_string()));
    assert_eq!(event.location, Some("Test Location".to_string()));
    assert_eq!(event.rrule, Some("FREQ=WEEKLY".to_string()));
    assert_eq!(event.summary, None);
}

#[test]
fn missing_event_is_refused() {
    assert_eq!(parse_event("BEGIN:VCALENDAR\nEND:VCALENDAR").unwrap_err(), IcalError::NoEvent);
}

#[test]
fn unterminated_event_is_refused() {
    assert_eq!(
        parse_event("BEGIN:VEVENT\nUID:a\nDTSTART:20240101").unwrap_err(),
        IcalError::UnterminatedEvent
    );
}

#[test]
fn missing_uid_is_refused() {
    assert_eq!(
        parse_event("BEGIN:VEVENT\nDTSTART:20240101\nEND:VEVENT").unwrap_err(),
        IcalError::MissingUid
    );
}

#[test]
fn missing_start_is_refused() {
    assert_eq!(parse_event("BEGIN:VEVENT\nUID:a\nEND:VEVENT").unwrap_err(), IcalError::MissingStart);
}

#[test]
fn invalid_start_is_refused() {
    assert_eq!(
        parse_event("BEGIN:VEVENT\nUID:a\nDTSTART:2024-01-01\nEND:VEVENT").unwrap_err(),
        IcalError::InvalidStart
    );
}

#[test]
fn invalid_end_is_refused() {
    let e = parse_event("BEGIN:VEVENT\nUID:a\nDTSTART:20240101\nDTEND:20240230\nEND:VEVENT").unwrap_err();
    assert_eq!(e, IcalError::InvalidEnd);
    assert_eq!(e.message(), "Invalid DTEND value");
}

#[test]
fn nested_alarm_does_not_end_event() {
    let ical = "BEGIN:VEVENT\nUID:a\nBEGIN:VALARM\nTRIGGER:-PT15M\nEND:VALARM\nDTSTART:20240301\nEND:VEVENT";
    let event = parse_event(ical).unwrap();
    assert_eq!(event.start_time, at(2024, 3, 1, 0, 0, 0));
}

#[test]
fn properties_outside_the_event_are_ignored() {
    let ical = "BEGIN:VCALENDAR\nSUMMARY:calendar level\nBEGIN:VEVENT\nUID:a\nDTSTART:20240101\nEND:VEVENT\nEND:VCALENDAR";
    assert_eq!(parse_event(ical).unwrap().summary, None);
}

#[test]
fn extract_property_unfolds_and_unescapes() {
    let data = "BEGIN:VEVENT\nSUMMARY:Team\n  meeting\\, room 4\\nsecond line\nEND:VEVENT";
    assert_eq!(
        extract_property(data, "SUMMARY"),
        Some("Team meeting, room 4\nsecond line".to_string())
    );
}

#[test]
fn extract_property_skips_parameters() {
    let data = "DTSTART;TZID=\"Europe/Amsterdam:x\":20240101T090000\nUID:x";
    assert_eq!(extract_property(data, "DTSTART"), Some("20240101T090000".to_string()));
    assert_eq!(extract_property(data, "DTEND"), None);
    // A name that only starts the property's name does not match
    assert_eq!(extract_property("UIDX:1\nUID:2", "UID"), Some("2".to_string()));
}

#[test]
fn parse_datetime_forms() {
    assert_eq!(parse_datetime("20240101T120000Z").unwrap(), at(2024, 1, 1, 12, 0, 0));
    assert_eq!(parse_datetime("20240101T120000").unwrap(), at(2024, 1, 1, 12, 0, 0));
    assert_eq!(parse_datetime("20240229").unwrap(), at(2024, 2, 29, 0, 0, 0));
    assert_eq!(parse_datetime("19700101").unwrap().seconds, 0);
    assert_eq!(parse_datetime("19691231T235959Z").unwrap().seconds, -1);
}

#[test]
fn parse_datetime_refusals() {
    assert_eq!(parse_datetime("20230229"), Err(IcalError::InvalidDateTime));
    assert_eq!(parse_datetime("20240101T246000Z"), Err(IcalError::InvalidDateTime));
    assert_eq!(parse_datetime("20240101T120060Z"), Err(IcalError::InvalidDateTime));
    assert_eq!(parse_datetime("2024010"), Err(IcalError::InvalidDateTime));
    assert_eq!(parse_datetime(""), Err(IcalError::InvalidDateTime));
    assert_eq!(IcalError::InvalidDateTime.message(), "Invalid date-time value");
}

#[test]
fn start_with_time_zone_is_refused() {
    let ical = "BEGIN:VEVENT\nUID:a\nDTSTART;TZID=Europe/Amsterdam:20240101T090000\nEND:VEVENT";
    assert_eq!(parse_event(ical).unwrap_err(), IcalError::InvalidStart);
}

#[test]
fn end_with_time_zone_is_refused() {
    let ical = "BEGIN:VEVENT\nUID:a\nDTSTART:20240101T090000Z\nDTEND;X-A=1;TZID=\"America/New_York\":20240101T100000\nEND:VEVENT";
    assert_eq!(parse_event(ical).unwrap_err(), IcalError::InvalidEnd);
}

#[test]
fn other_parameters_and_floating_times_are_read() {
    let ical = "BEGIN:VEVENT\nUID:a\nDTSTART;VALUE=DATE:20240101\nDTEND:20240102T000000\nEND:VEVENT";
    let event = parse_event(ical).unwrap();
    assert_eq!(event.start_time, at(2024, 1, 1, 0, 0, 0));
    assert_eq!(event.end_time, Some(at(2024, 1, 2, 0, 0, 0)));
}
