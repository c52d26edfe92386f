//! Tests of the sync engine, driven with scripted server responses.

use chrono::{TimeZone, Utc};
use davd::caldav::{CalDavClient, CalendarInfo, DavMethod, DavRequest};
use davd::db::{Database, DbError};
use davd::engine::{
    accounts_to_sync, unreadable_body, DavOutcome, SyncAction, SyncEngine, SyncPhase, SyncReply,
    SyncResult,
};
use davd::ical::parse_event;
use davd::models::{Account, Calendar, Event};
use davd::time::Timestamp;

const SERVER: &str = "http://127.0.0.1:1234";

const HOME_BODY: &str = r#"<?xml version="1.0"?>
<multistatus xmlns="DAV:" xmlns:C="urn:ietf:params:xml:ns:caldav">
  <response>
    <propstat>
      <prop>
        <C:calendar-home-set>
          <href>/calendars/testuser/</href>
        </C:calendar-home-set>
      </prop>
    </propstat>
  </response>
</multistatus>"#;

const CALENDARS_BODY: &str = r#"<?xml version="1.0"?>
<multistatus xmlns="DAV:" xmlns:C="urn:ietf:params:xml:ns:caldav">
  <response>
    <href>/calendars/testuser/default/</href>
    <propstat>
      <prop>
        <resourcetype>
          <collection/>
          <C:calendar/>
        </resourcetype>
        <displayname>My Calendar</displayname>
      </prop>
    </propstat>
  </response>
</multistatus>"#;

fn events_body(etag: &str) -> String {
    format!(
        r#"<?xml version="1.0"?>
<multistatus xmlns="DAV:" xmlns:C="urn:ietf:params:xml:ns:caldav">
  <response>
    <href>/calendars/testuser/default/event1.ics</href>
    <propstat>
      <prop>
        <getetag>"{}"</getetag>
        <C:calendar-data>
          <C:comp name="VCALENDAR">
            <C:comp name="VEVENT">
              <C:prop name="UID">event-1</C:prop>
            </C:comp>
          </C:comp>
        </C:calendar-data>
      </prop>
    </propstat>
  </response>
</multistatus>"#,
        etag
    )
}

fn event_data(summary: &str) -> String {
    format!(
        "BEGIN:VCALENDAR\nVERSION:2.0\nBEGIN:VEVENT\nUID:event-1\nDTSTART:20240101T120000Z\nDTEND:20240101T130000Z\nSUMMARY:{}\nEND:VEVENT\nEND:VCALENDAR",
        summary
    )
}

/// The instant of a UTC date and time of day.
fn at(year: i32, month: u32, day: u32, hour: u32, minute: u32, second: u32) -> Timestamp {
    let dt = Utc.with_ymd_and_hms(year, month, day, hour, minute, second).unwrap();
    Timestamp { seconds: dt.timestamp(), nanos: dt.timestamp_subsec_nanos() }
}

/// Create a test account in the database
fn create_test_account(db: &mut Database) -> Result<i64, DbError> {
    let account = Account::new(
        "Test Account".to_string(),
        "https://caldav.example.com".to_string(),
        "testuser".to_string(),
        "testpass".to_string(),
    );
    db.insert_account(&account)
}

fn client() -> CalDavClient {
    CalDavClient::new(SERVER.to_string(), "testuser".to_string(), "testpass".to_string()).unwrap()
}

fn response(status: u16, body: &str) -> DavOutcome {
    DavOutcome::Response { status, body: body.to_string() }
}

/// A server answering as scripted: the discovery, the calendar list, the
/// event list (with the given ETag) and, where given, the event data; any
/// other request gets 501, as from a mock server without a matching mock.
fn scripted(request: &DavRequest, etag: &str, data: Option<&str>) -> DavOutcome {
    let path = request.url.strip_prefix(SERVER).unwrap_or("");
    assert_eq!(request.username, "testuser");
    assert_eq!(request.password, "testpass");
    match (request.method, path) {
        (DavMethod::Propfind, "/.well-known/caldav") => response(207, HOME_BODY),
        (DavMethod::Propfind, "/calendars/testuser/") => response(207, CALENDARS_BODY),
        (DavMethod::Report, "/calendars/testuser/default/") => response(207, &events_body(etag)),
        (DavMethod::Get, "/calendars/testuser/default/event1.ics") => match data {
            Some(d) => response(200, d),
            None => panic!("the event should not be downloaded"),
        },
        _ => response(501, ""),
    }
}

/// Run a whole sync against a server.
fn run_sync(
    db: &mut Database,
    account_id: i64,
    server: impl Fn(&DavRequest) -> DavOutcome,
) -> SyncResult {
    let mut engine = SyncEngine::new(client(), account_id);
    let mut action = engine.start();
    loop {
        match action {
            SyncAction::Send(request) => {
                let outcome = server(&request);
                action = engine.receive(db, outcome);
            }
            SyncAction::Done => break,
        }
    }
    assert_eq!(engine.phase(), SyncPhase::Done);
    engine.into_result()
}

#[test]
fn test_sync_engine_new_events() {
    let mut db = Database::in_memory().unwrap();
    let account_id = create_test_account(&mut db).unwrap();
    let data = event_data("Test Event");

    let result = run_sync(&mut db, account_id, |q| scripted(q, "etag-123", Some(&data)));

    assert_eq!(result.calendars_synced, 1);
    assert_eq!(result.events_synced, 1);
    assert_eq!(result.events_failed, 0);
    assert!(result.errors.is_empty());

    // Verify calendar was created
    let calendars = db.list_calendars(account_id).unwrap();
    assert_eq!(calendars.len(), 1);
    assert_eq!(calendars[0].name, "My Calendar");

    // Verify event was created
    let events = db
        .list_events(Some(calendars[0].id), at(2024, 1, 1, 0, 0, 0), at(2024, 1, 2, 0, 0, 0))
        .unwrap();
    assert_eq!(events.len(), 1);
    assert_eq!(events[0].uid, "event-1");
    assert_eq!(events[0].summary, Some("Test Event".to_string()));
    assert_eq!(events[0].etag, Some("etag-123".to_string()));
}

#[test]
fn test_sync_engine_update_changed_etag() {
    let mut db = Database::in_memory().unwrap();
    let account_id = create_test_account(&mut db).unwrap();

    // Create calendar and existing event
    let calendar = Calendar::new(
        account_id,
        "My Calendar".to_string(),
        "/calendars/testuser/default/".to_string(),
    );
    let calendar_id = db.insert_calendar(&calendar).unwrap();

    let mut event = Event::new(
        calendar_id,
        "event-1".to_string(),
        "BEGIN:VCALENDAR\nEND:VCALENDAR".to_string(),
    );
    event.summary = Some("Old Summary".to_string());
    event.etag = Some("old-etag".to_string());
    event.start_time = at(2024, 1, 1, 12, 0, 0);
    db.upsert_event(&event).unwrap();

    let data = event_data("Updated Summary");
    let result = run_sync(&mut db, account_id, |q| scripted(q, "new-etag", Some(&data)));

    assert_eq!(result.calendars_synced, 1);
    assert_eq!(result.events_synced, 1); // Event was updated
    assert_eq!(result.events_failed, 0);

    // Verify event was updated
    let updated_event = db.get_event_by_uid(calendar_id, "event-1").unwrap().unwrap();
    assert_eq!(updated_event.summary, Some("Updated Summary".to_string()));
    assert_eq!(updated_event.etag, Some("new-etag".to_string()));
}

#[test]
fn test_sync_engine_skip_unchanged_etag() {
    let mut db = Database::in_memory().unwrap();
    let account_id = create_test_account(&mut db).unwrap();

    // Create calendar and existing event with matching ETag
    let calendar = Calendar::new(
        account_id,
        "My Calendar".to_string(),
        "/calendars/testuser/default/".to_string(),
    );
    let calendar_id = db.insert_calendar(&calendar).unwrap();

    let mut event = Event::new(
        calendar_id,
        "event-1".to_string(),
        "BEGIN:VCALENDAR\nEND:VCALENDAR".to_string(),
    );
    event.summary = Some("Existing Event".to_string());
    event.etag = Some("same-etag".to_string());
    event.start_time = at(2024, 1, 1, 12, 0, 0);
    db.upsert_event(&event).unwrap();

    // No event data: the event must not be downloaded
    let result = run_sync(&mut db, account_id, |q| scripted(q, "same-etag", None));

    assert_eq!(result.calendars_synced, 1);
    assert_eq!(result.events_synced, 0); // Event was skipped
    assert_eq!(result.events_failed, 0);

    // Verify event was not changed
    let unchanged_event = db.get_event_by_uid(calendar_id, "event-1").unwrap().unwrap();
    assert_eq!(unchanged_event.summary, Some("Existing Event".to_string()));
}

#[test]
fn test_sync_engine_handles_errors() {
    let mut db = Database::in_memory().unwrap();
    let account_id = create_test_account(&mut db).unwrap();

    // Calendar discovery fails with status 500
    let result = run_sync(&mut db, account_id, |q| {
        assert_eq!(q.method, DavMethod::Propfind);
        response(500, "")
    });

    // Sync should complete but with errors
    assert_eq!(result.calendars_synced, 0);
    assert_eq!(result.events_synced, 0);
    assert!(!result.errors.is_empty());
    assert!(result.errors[0].contains("calendar home"));
}

// --- Further cases ---

#[test]
fn completed_sync_stamps_last_sync() {
    let mut db = Database::in_memory().unwrap();
    let account_id = create_test_account(&mut db).unwrap();
    let data = event_data("Test Event");
    run_sync(&mut db, account_id, |q| scripted(q, "etag-123", Some(&data)));
    let account = db.get_account(account_id).unwrap().unwrap();
    assert!(account.last_sync.is_some());
}

#[test]
fn failed_discovery_stamps_nothing() {
    let mut db = Database::in_memory().unwrap();
    let account_id = create_test_account(&mut db).unwrap();
    let result = run_sync(&mut db, account_id, |_| DavOutcome::Failed("connection refused".to_string()));
    assert_eq!(result.errors, vec!["Failed to discover calendar home: connection refused".to_string()]);
    let account = db.get_account(account_id).unwrap().unwrap();
    assert!(account.last_sync.is_none());
    assert_eq!(db.list_calendars(account_id).unwrap().len(), 0);
}

#[test]
fn failed_calendar_listing_ends_sync() {
    let mut db = Database::in_memory().unwrap();
    let account_id = create_test_account(&mut db).unwrap();
    let result = run_sync(&mut db, account_id, |q| {
        if q.url.ends_with("/.well-known/caldav") {
            response(207, HOME_BODY)
        } else {
            response(403, "")
        }
    });
    assert_eq!(result.errors, vec!["Failed to list calendars: List calendars failed: 403 Forbidden".to_string()]);
    assert_eq!(result.calendars_synced, 0);
}

#[test]
fn failed_event_listing_is_recorded_against_calendar() {
    let mut db = Database::in_memory().unwrap();
    let account_id = create_test_account(&mut db).unwrap();
    let result = run_sync(&mut db, account_id, |q| match q.method {
        DavMethod::Report => response(404, ""),
        _ => scripted(q, "x", None),
    });
    assert_eq!(result.calendars_synced, 0);
    assert_eq!(
        result.errors,
        vec!["Failed to sync calendar 'My Calendar': List events failed: 404 Not Found".to_string()]
    );
    // The calendar itself was stored before its events were asked for
    assert_eq!(db.list_calendars(account_id).unwrap().len(), 1);
    // The sync got through its calendar list
    assert!(db.get_account(account_id).unwrap().unwrap().last_sync.is_some());
}

#[test]
fn unparsable_event_is_counted_as_failed() {
    let mut db = Database::in_memory().unwrap();
    let account_id = create_test_account(&mut db).unwrap();
    let bad = "BEGIN:VCALENDAR\nBEGIN:VEVENT\nSUMMARY:no uid\nEND:VEVENT\nEND:VCALENDAR";
    let result = run_sync(&mut db, account_id, |q| scripted(q, "e1", Some(bad)));
    assert_eq!(result.calendars_synced, 1);
    assert_eq!(result.events_synced, 0);
    assert_eq!(result.events_failed, 1);
    assert_eq!(
        result.errors,
        vec!["Failed to sync event 'event-1' in calendar 'My Calendar': Missing required property: UID".to_string()]
    );
    // Nothing was stored for the event
    let calendars = db.list_calendars(account_id).unwrap();
    assert!(db.get_event_by_uid(calendars[0].id, "event-1").unwrap().is_none());
}

#[test]
fn second_sync_downloads_nothing() {
    let mut db = Database::in_memory().unwrap();
    let account_id = create_test_account(&mut db).unwrap();
    let data = event_data("Test Event");
    let first = run_sync(&mut db, account_id, |q| scripted(q, "etag-1", Some(&data)));
    assert_eq!(first.events_synced, 1);
    let second = run_sync(&mut db, account_id, |q| scripted(q, "etag-1", None));
    assert_eq!(second.calendars_synced, 1);
    assert_eq!(second.events_synced, 0);
    // The calendar is stored once
    assert_eq!(db.list_calendars(account_id).unwrap().len(), 1);
}

#[test]
fn listed_uid_and_etag_are_stored() {
    let mut db = Database::in_memory().unwrap();
    let account_id = create_test_account(&mut db).unwrap();
    // The data's own UID differs from the listing's: the listing's is kept
    let data = "BEGIN:VEVENT\nUID:other-uid\nDTSTART:20240101\nLOCATION:Room 1\nEND:VEVENT";
    let result = run_sync(&mut db, account_id, |q| scripted(q, "etag-9", Some(data)));
    assert_eq!(result.events_synced, 1);
    let calendars = db.list_calendars(account_id).unwrap();
    let stored = db.get_event_by_uid(calendars[0].id, "event-1").unwrap().unwrap();
    assert_eq!(stored.etag, Some("etag-9".to_string()));
    assert_eq!(stored.location, Some("Room 1".to_string()));
    assert_eq!(stored.ical_data, data);
    assert_eq!(stored.start_time, at(2024, 1, 1, 0, 0, 0));
    assert!(db.get_event_by_uid(calendars[0].id, "other-uid").unwrap().is_none());
}

#[test]
fn upsert_calendar_updates_name_and_color() {
    let mut db = Database::in_memory().unwrap();
    let account_id = create_test_account(&mut db).unwrap();
    let engine = SyncEngine::new(client(), account_id);
    let info = CalendarInfo {
        name: "Work".to_string(),
        url: "/calendars/testuser/work/".to_string(),
        color: Some("#00FF00".to_string()),
    };
    let id1 = engine.upsert_calendar(&mut db, &info).unwrap();
    let renamed = CalendarInfo { name: "Work (renamed)".to_string(), color: None, ..info.clone() };
    let id2 = engine.upsert_calendar(&mut db, &renamed).unwrap();
    assert_eq!(id1, id2);
    let stored = db.get_calendar(id1).unwrap().unwrap();
    assert_eq!(stored.name, "Work (renamed)");
    assert_eq!(stored.color, None);
    assert!(stored.enabled);
    assert_eq!(db.list_calendars(account_id).unwrap().len(), 1);
}

#[test]
fn upsert_calendar_for_missing_account_fails() {
    let mut db = Database::in_memory().unwrap();
    let engine = SyncEngine::new(client(), 42);
    let info = CalendarInfo { name: "W".to_string(), url: "/w/".to_string(), color: None };
    assert_eq!(engine.upsert_calendar(&mut db, &info), Err(DbError::UnknownAccount));
}

#[test]
fn ical_to_event_keeps_parsed_properties() {
    let engine = SyncEngine::new(client(), 1);
    let data = event_data("Party");
    let parsed = parse_event(&data).unwrap();
    let event = engine.ical_to_event(7, parsed, data.clone());
    assert_eq!(event.id, 0);
    assert_eq!(event.calendar_id, 7);
    assert_eq!(event.uid, "event-1");
    assert_eq!(event.summary, Some("Party".to_string()));
    assert_eq!(event.start_time, at(2024, 1, 1, 12, 0, 0));
    assert_eq!(event.end_time, Some(at(2024, 1, 1, 13, 0, 0)));
    assert_eq!(event.etag, None);
    assert_eq!(event.ical_data, data);
}

#[test]
fn transport_failure_of_event_download_is_recorded() {
    let mut db = Database::in_memory().unwrap();
    let account_id = create_test_account(&mut db).unwrap();
    let result = run_sync(&mut db, account_id, |q| match q.method {
        DavMethod::Get => DavOutcome::Failed("timed out".to_string()),
        _ => scripted(q, "e", None),
    });
    assert_eq!(result.events_failed, 1);
    assert_eq!(
        result.errors,
        vec!["Failed to sync event 'event-1' in calendar 'My Calendar': timed out".to_string()]
    );
}

#[test]
fn interpret_reads_reply_of_the_awaited_kind() {
    let mut engine = SyncEngine::new(client(), 1);
    match engine.start() {
        SyncAction::Send(q) => assert_eq!(q.url, "http://127.0.0.1:1234/.well-known/caldav"),
        SyncAction::Done => panic!("discovery request expected"),
    }
    assert_eq!(engine.phase(), SyncPhase::AwaitHome);
    match engine.interpret(response(207, HOME_BODY)) {
        SyncReply::CalendarHome(Ok(home)) => assert_eq!(home, "/calendars/testuser/"),
        _ => panic!("calendar home expected"),
    }
}

#[test]
fn accounts_to_sync_by_name_or_all() {
    let mut a = Account::new("a".to_string(), "s".to_string(), "u".to_string(), "p".to_string());
    a.id = 3;
    let mut b = Account::new("b".to_string(), "s".to_string(), "u".to_string(), "p".to_string());
    b.id = 5;
    let accounts = vec![a, b];
    assert_eq!(accounts_to_sync(&accounts, &None), vec![3, 5]);
    assert_eq!(accounts_to_sync(&accounts, &Some("b".to_string())), vec![5]);
    assert_eq!(accounts_to_sync(&accounts, &Some("c".to_string())), Vec::<i64>::new());
}

#[test]
fn unreadable_body_keeps_a_failed_status() {
    match unreadable_body(500, "broken".to_string()) {
        DavOutcome::Response { status, body } => {
            assert_eq!(status, 500);
            assert_eq!(body, "");
        }
        DavOutcome::Failed(_) => panic!("the status decides"),
    }
    match unreadable_body(207, "broken".to_string()) {
        DavOutcome::Failed(m) => assert_eq!(m, "broken"),
        DavOutcome::Response { .. } => panic!("the read error decides"),
    }
}

#[test]
fn step_stamps_stored_events_with_the_given_time() {
    let mut db = Database::in_memory().unwrap();
    let account_id = create_test_account(&mut db).unwrap();
    let mut engine = SyncEngine::new(client(), account_id);
    let stamp = at(2030, 6, 1, 8, 30, 0);
    let data = event_data("Stamped");
    let mut action = engine.start();
    while let SyncAction::Send(request) = action {
        let reply = engine.interpret(scripted(&request, "etag-s", Some(&data)));
        action = engine.step(&mut db, reply, stamp);
    }
    let calendars = db.list_calendars(account_id).unwrap();
    let stored = db.get_event_by_uid(calendars[0].id, "event-1").unwrap().unwrap();
    assert_eq!(stored.last_modified, stamp);
    assert_eq!(db.get_account(account_id).unwrap().unwrap().last_sync, Some(stamp));
}

#[test]
fn whole_sync_counts_add_up() {
    let two_calendars = r#"<?xml version="1.0"?>
<multistatus xmlns="DAV:" xmlns:C="urn:ietf:params:xml:ns:caldav">
  <response>
    <href>/calendars/testuser/default/</href>
    <propstat><prop><resourcetype><collection/><C:calendar/></resourcetype><displayname>My Calendar</displayname></prop></propstat>
  </response>
  <response>
    <href>/calendars/testuser/work/</href>
    <propstat><prop><resourcetype><collection/><C:calendar/></resourcetype><displayname>Work</displayname></prop></propstat>
  </response>
</multistatus>"#;
    let mut db = Database::in_memory().unwrap();
    let account_id = create_test_account(&mut db).unwrap();
    let bad = "BEGIN:VEVENT\nUID:x\nEND:VEVENT";
    let result = run_sync(&mut db, account_id, |q| {
        let path = q.url.strip_prefix(SERVER).unwrap_or("");
        match (q.method, path) {
            (DavMethod::Propfind, "/calendars/testuser/") => response(207, two_calendars),
            (DavMethod::Report, "/calendars/testuser/work/") => response(404, ""),
            _ => scripted(q, "e", Some(bad)),
        }
    });
    // n = 2 calendars listed, k = 1 failed (its event listing)
    assert_eq!(result.calendars_synced, 1);
    assert_eq!(result.events_synced, 0);
    assert_eq!(result.events_failed, 1);
    assert_eq!(result.errors.len(), 1 + result.events_failed);
    assert_eq!(db.list_calendars(account_id).unwrap().len(), 2);
}
