//! Tests of the calendar service offered on the session bus.

use chrono::{TimeZone, Utc};
use davd::db::{Database, DbError};
use davd::dbus::CalendarService;
use davd::models::{Account, Calendar, Event};
use davd::time::Timestamp;
use std::sync::Arc;

/// The instant of a UTC date and time of day.
fn at(year: i32, month: u32, day: u32, hour: u32, minute: u32, second: u32) -> Timestamp {
    let dt = Utc.with_ymd_and_hms(year, month, day, hour, minute, second).unwrap();
    Timestamp { seconds: dt.timestamp(), nanos: dt.timestamp_subsec_nanos() }
}

/// Create a test account in the database
fn create_test_account(db: &mut Database) -> Result<i64, DbError> {
    let account = Account::new(
        "Test Account".to_string(),
        "https://caldav.example.com".to_string(),
        "testuser".to_string(),
        "testpass".to_string(),
    );
    db.insert_account(&account)
}

#[test]
fn calendar_test_list_events() {
    let mut db = Database::in_memory().unwrap();
    let account_id = create_test_account(&mut db).unwrap();

    // Create calendar
    let calendar = Calendar::new(
        account_id,
        "Test Calendar".to_string(),
        "/calendars/test/".to_string(),
    );
    let calendar_id = db.insert_calendar(&calendar).unwrap();

    // Create test events
    let mut event1 = Event::new(
        calendar_id,
        "event-1".to_string(),
        "BEGIN:VCALENDAR\nEND:VCALENDAR".to_string(),
    );
    event1.summary = Some("Event 1".to_string());
    event1.description = Some("Description 1".to_string());
    event1.location = Some("Location 1".to_string());
    event1.start_time = at(2024, 1, 15, 10, 0, 0);
    event1.end_time = Some(at(2024, 1, 15, 11, 0, 0));
    db.upsert_event(&event1).unwrap();

    let mut event2 = Event::new(
        calendar_id,
        "event-2".to_string(),
        "BEGIN:VCALENDAR\nEND:VCALENDAR".to_string(),
    );
    event2.summary = Some("Event 2".to_string());
    event2.start_time = at(2024, 1, 20, 14, 0, 0);
    event2.end_time = Some(at(2024, 1, 20, 15, 0, 0));
    db.upsert_event(&event2).unwrap();

    // Create service
    let service = CalendarService::new(Arc::new(db));

    // Test list_events
    let events = service.list_events(
        "2024-01-01T00:00:00Z".to_string(),
        "2024-02-01T00:00:00Z".to_string(),
    );

    assert_eq!(events.len(), 2);
    assert_eq!(events[0].uid, "event-1");
    assert_eq!(events[0].summary, "Event 1");
    assert_eq!(events[0].description, "Description 1");
    assert_eq!(events[0].location, "Location 1");
    assert_eq!(events[1].uid, "event-2");
    assert_eq!(events[1].summary, "Event 2");
}

#[test]
fn test_list_events_with_filter() {
    let mut db = Database::in_memory().unwrap();
    let account_id = create_test_account(&mut db).unwrap();

    // Create calendar
    let calendar = Calendar::new(
        account_id,
        "Test Calendar".to_string(),
        "/calendars/test/".to_string(),
    );
    let calendar_id = db.insert_calendar(&calendar).unwrap();

    // Create events with different dates
    let mut event1 = Event::new(
        calendar_id,
        "event-1".to_string(),
        "BEGIN:VCALENDAR\nEND:VCALENDAR".to_string(),
    );
    event1.summary = Some("January Event".to_string());
    event1.start_time = at(2024, 1, 15, 10, 0, 0);
    db.upsert_event(&event1).unwrap();

    let mut event2 = Event::new(
        calendar_id,
        "event-2".to_string(),
        "BEGIN:VCALENDAR\nEND:VCALENDAR".to_string(),
    );
    event2.summary = Some("February Event".to_string());
    event2.start_time = at(2024, 2, 15, 10, 0, 0);
    db.upsert_event(&event2).unwrap();

    // Create service
    let service = CalendarService::new(Arc::new(db));

    // Query only January events
    let events = service.list_events(
        "2024-01-01T00:00:00Z".to_string(),
        "2024-02-01T00:00:00Z".to_string(),
    );

    assert_eq!(events.len(), 1);
    assert_eq!(events[0].summary, "January Event");
}

#[test]
fn test_list_events_invalid_dates() {
    let mut db = Database::in_memory().unwrap();
    let service = CalendarService::new(Arc::new(db));

    // Test with invalid date format
    let events = service.list_events(
        "not-a-date".to_string(),
        "2024-02-01T00:00:00Z".to_string(),
    );

    // Should return empty vec on error
    assert_eq!(events.len(), 0);
}

#[test]
fn calendar_test_get_event() {
    let mut db = Database::in_memory().unwrap();
    let account_id = create_test_account(&mut db).unwrap();

    // Create calendar and event
    let calendar = Calendar::new(
        account_id,
        "Test Calendar".to_string(),
        "/calendars/test/".to_string(),
    );
    let calendar_id = db.insert_calendar(&calendar).unwrap();

    let mut event = Event::new(
        calendar_id,
        "test-event".to_string(),
        "BEGIN:VCALENDAR\nEND:VCALENDAR".to_string(),
    );
    event.summary = Some("Test Event".to_string());
    event.description = Some("Test Description".to_string());
    event.location = Some("Test Location".to_string());
    event.start_time = at(2024, 1, 15, 10, 0, 0);
    event.end_time = Some(at(2024, 1, 15, 11, 0, 0));
    let event_id = db.upsert_event(&event).unwrap();

    // Create service
    let service = CalendarService::new(Arc::new(db));

    // Test get_event
    let dbus_event = service.get_event(event_id);

    assert_eq!(dbus_event.id, event_id);
    assert_eq!(dbus_event.uid, "test-event");
    assert_eq!(dbus_event.summary, "Test Event");
    assert_eq!(dbus_event.description, "Test Description");
    assert_eq!(dbus_event.location, "Test Location");
    assert!(!dbus_event.start_time.is_empty());
    assert!(!dbus_event.end_time.is_empty());
}

#[test]
fn test_get_event_not_found() {
    let mut db = Database::in_memory().unwrap();
    let service = CalendarService::new(Arc::new(db));

    // Test with non-existent event ID
    let dbus_event = service.get_event(99999);

    // Should return empty event
    assert_eq!(dbus_event.id, 0);
    assert_eq!(dbus_event.uid, "");
    assert_eq!(dbus_event.summary, "");
}

#[test]
fn test_get_event_ical() {
    let mut db = Database::in_memory().unwrap();
    let account_id = create_test_account(&mut db).unwrap();

    // Create calendar and event
    let calendar = Calendar::new(
        account_id,
        "Test Calendar".to_string(),
        "/calendars/test/".to_string(),
    );
    let calendar_id = db.insert_calendar(&calendar).unwrap();

    let ical_data = r#"BEGIN:VCALENDAR
VERSION:2.0
BEGIN:VEVENT
UID:test-event
DTSTART:20240115T100000Z
SUMMARY:Test Event
END:VEVENT
END:VCALENDAR"#;

    let mut event = Event::new(
        calendar_id,
        "test-event".to_string(),
        ical_data.to_string(),
    );
    event.start_time = at(2024, 1, 15, 10, 0, 0);
    let event_id = db.upsert_event(&event).unwrap();

    // Create service
    let service = CalendarService::new(Arc::new(db));

    // Test get_event_ical
    let returned_ical = service.get_event_ical(event_id);

    assert_eq!(returned_ical, ical_data);
    assert!(returned_ical.contains("UID:test-event"));
    assert!(returned_ical.contains("SUMMARY:Test Event"));
}

#[test]
fn test_get_event_ical_not_found() {
    let mut db = Database::in_memory().unwrap();
    let service = CalendarService::new(Arc::new(db));

    // Test with non-existent event ID
    let ical_data = service.get_event_ical(99999);

    // Should return empty string
    assert_eq!(ical_data, "");
}

// --- Further cases ---

#[test]
fn bus_event_times_are_rfc3339() {
    let mut db = Database::in_memory().unwrap();
    let account_id = create_test_account(&mut db).unwrap();
    let calendar_id = db
        .insert_calendar(&Calendar::new(account_id, "C".to_string(), "/c/".to_string()))
        .unwrap();
    let mut event = Event::new(calendar_id, "e".to_string(), "X".to_string());
    event.start_time = at(2024, 1, 15, 10, 0, 0);
    let id = db.upsert_event(&event).unwrap();
    let service = CalendarService::new(Arc::new(db));
    let bus = service.get_event(id);
    assert_eq!(bus.start_time, "2024-01-15T10:00:00+00:00");
    assert_eq!(bus.end_time, "");
    assert_eq!(bus.summary, "");
    assert_eq!(service.get_event_ical(id), "X");
}

#[test]
fn list_events_bounds_are_inclusive_and_offsets_apply() {
    let mut db = Database::in_memory().unwrap();
    let account_id = create_test_account(&mut db).unwrap();
    let calendar_id = db
        .insert_calendar(&Calendar::new(account_id, "C".to_string(), "/c/".to_string()))
        .unwrap();
    let mut event = Event::new(calendar_id, "e".to_string(), "X".to_string());
    event.start_time = at(2024, 1, 15, 10, 0, 0);
    db.upsert_event(&event).unwrap();
    let service = CalendarService::new(Arc::new(db));
    // 12:00+02:00 is 10:00 UTC, the event's start
    let events = service.list_events(
        "2024-01-15T12:00:00+02:00".to_string(),
        "2024-01-15T10:00:00Z".to_string(),
    );
    assert_eq!(events.len(), 1);
    let none = service.list_events("2024-01-15T10:00:01Z".to_string(), "2024-02-01T00:00:00Z".to_string());
    assert_eq!(none.len(), 0);
    let bad_end = service.list_events("2024-01-01T00:00:00Z".to_string(), "tomorrow".to_string());
    assert_eq!(bad_end.len(), 0);
}
