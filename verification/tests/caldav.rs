//! Tests of the CalDAV requests and of the reading of server responses.

use davd::caldav::{
    finish_discover, finish_get_event, finish_list_calendars, finish_list_events,
    parse_calendar_home, parse_calendars, parse_events, CalDavClient, CalDavError, DavMethod,
    DavOperation, DISCOVERY_BODY, LIST_CALENDARS_BODY, LIST_EVENTS_BODY,
};

const SERVER: &str = "http://127.0.0.1:1234";

const HOME_BODY: &str = r#"<?xml version="1.0" encoding="utf-8" ?>
<multistatus xmlns="DAV:" xmlns:C="urn:ietf:params:xml:ns:caldav">
  <response>
    <href>/.well-known/caldav</href>
    <propstat>
      <prop>
        <C:calendar-home-set>
          <href>/calendars/testuser/</href>
        </C:calendar-home-set>
      </prop>
      <status>HTTP/1.1 200 OK</status>
    </propstat>
  </response>
</multistatus>"#;

const CALENDARS_BODY: &str = r#"<?xml version="1.0" encoding="utf-8" ?>
<multistatus xmlns="DAV:" xmlns:C="urn:ietf:params:xml:ns:caldav" xmlns:CS="http://calendarserver.org/ns/">
  <response>
    <href>/calendars/testuser/default/</href>
    <propstat>
      <prop>
        <resourcetype>
          <collection/>
          <C:calendar/>
        </resourcetype>
        <displayname>My Calendar</displayname>
        <CS:calendar-color>#FF0000FF</CS:calendar-color>
      </prop>
      <status>HTTP/1.1 200 OK</status>
    </propstat>
  </response>
  <response>
    <href>/calendars/testuser/work/</href>
    <propstat>
      <prop>
        <resourcetype>
          <collection/>
          <C:calendar/>
        </resourcetype>
        <displayname>Work Calendar</displayname>
      </prop>
      <status>HTTP/1.1 200 OK</status>
    </propstat>
  </response>
</multistatus>"#;

const EVENTS_BODY: &str = r#"<?xml version="1.0" encoding="utf-8" ?>
<multistatus xmlns="DAV:" xmlns:C="urn:ietf:params:xml:ns:caldav">
  <response>
    <href>/calendars/testuser/default/event1.ics</href>
    <propstat>
      <prop>
        <getetag>"abc123"</getetag>
        <C:calendar-data>
          <C:comp name="VCALENDAR">
            <C:comp name="VEVENT">
              <C:prop name="UID">event-uid-1</C:prop>
            </C:comp>
          </C:comp>
        </C:calendar-data>
      </prop>
      <status>HTTP/1.1 200 OK</status>
    </propstat>
  </response>
  <response>
    <href>/calendars/testuser/default/event2.ics</href>
    <propstat>
      <prop>
        <getetag>"def456"</getetag>
        <C:calendar-data>
          <C:comp name="VCALENDAR">
            <C:comp name="VEVENT">
              <C:prop name="UID">event-uid-2</C:prop>
            </C:comp>
          </C:comp>
        </C:calendar-data>
      </prop>
      <status>HTTP/1.1 200 OK</status>
    </propstat>
  </response>
</multistatus>"#;

const EVENT_DATA: &str = r#"BEGIN:VCALENDAR
VERSION:2.0
PRODID:-//Test//Test//EN
BEGIN:VEVENT
UID:event-uid-1
DTSTART:20240101T120000Z
DTEND:20240101T130000Z
SUMMARY:Test Event
END:VEVENT
END:VCALENDAR"#;

fn client() -> CalDavClient {
    CalDavClient::new(SERVER.to_string(), "testuser".to_string(), "testpass".to_string()).unwrap()
}

#[test]
fn test_new_client() {
    let result = CalDavClient::new(
        "https://caldav.example.com".to_string(),
        "testuser".to_string(),
        "testpass".to_string(),
    );
    assert!(result.is_ok());
}

#[test]
fn test_discover_calendar_home() {
    let request = client().discover_request().unwrap();
    assert_eq!(request.method, DavMethod::Propfind);
    assert_eq!(request.url, "http://127.0.0.1:1234/.well-known/caldav");
    assert_eq!(request.depth, Some("0".to_string()));
    assert_eq!(request.body, Some(DISCOVERY_BODY.to_string()));
    assert_eq!(request.username, "testuser");
    assert_eq!(request.password, "testpass");

    let calendar_home = finish_discover(207, HOME_BODY).unwrap();
    assert!(calendar_home.contains("/calendars/testuser"));
}

#[test]
fn caldav_test_list_calendars() {
    let request = client().list_calendars_request("/calendars/testuser/").unwrap();
    assert_eq!(request.method, DavMethod::Propfind);
    assert_eq!(request.url, "http://127.0.0.1:1234/calendars/testuser/");
    assert_eq!(request.depth, Some("1".to_string()));
    assert_eq!(request.body, Some(LIST_CALENDARS_BODY.to_string()));

    let calendars = finish_list_calendars(207, CALENDARS_BODY).unwrap();
    assert_eq!(calendars.len(), 2);
    assert_eq!(calendars[0].name, "My Calendar");
    assert!(calendars[0].url.contains("/calendars/testuser/default/"));
    assert_eq!(calendars[0].color, Some("#FF0000FF".to_string()));
    assert_eq!(calendars[1].name, "Work Calendar");
}

#[test]
fn caldav_test_list_events() {
    let request = client().list_events_request("/calendars/testuser/default/").unwrap();
    assert_eq!(request.method, DavMethod::Report);
    assert_eq!(request.url, "http://127.0.0.1:1234/calendars/testuser/default/");
    assert_eq!(request.depth, Some("1".to_string()));
    assert_eq!(request.body, Some(LIST_EVENTS_BODY.to_string()));

    let events = finish_list_events(207, EVENTS_BODY).unwrap();
    assert_eq!(events.len(), 2);
    assert_eq!(events[0].uid, "event-uid-1");
    assert!(events[0].url.contains("/event1.ics"));
    assert_eq!(events[0].etag, "abc123");
    assert_eq!(events[1].uid, "event-uid-2");
}

#[test]
fn caldav_test_get_event() {
    let request = client().get_event_request("/calendars/testuser/default/event1.ics").unwrap();
    assert_eq!(request.method, DavMethod::Get);
    assert_eq!(request.url, "http://127.0.0.1:1234/calendars/testuser/default/event1.ics");
    assert_eq!(request.depth, None);
    assert_eq!(request.body, None);

    let ical_data = finish_get_event(200, EVENT_DATA.to_string()).unwrap();
    assert!(ical_data.contains("UID:event-uid-1"));
    assert!(ical_data.contains("SUMMARY:Test Event"));
}

// --- Further cases ---

#[test]
fn invalid_server_url_is_refused() {
    let result = CalDavClient::new("not a url".to_string(), "u".to_string(), "p".to_string());
    match result {
        Err(CalDavError::InvalidUrl(m)) => assert!(m.starts_with("Invalid server URL: ")),
        _ => panic!("a relative text is not a server URL"),
    }
}

#[test]
fn absolute_reference_replaces_server() {
    let request = client().get_event_request("https://other.example.com/e.ics").unwrap();
    assert_eq!(request.url, "https://other.example.com/e.ics");
}

#[test]
fn relative_reference_resolves_against_server_path() {
    let c = CalDavClient::new(
        "https://dav.example.com/base/".to_string(),
        "u".to_string(),
        "p".to_string(),
    )
    .unwrap();
    let request = c.get_event_request("cal/e.ics").unwrap();
    assert_eq!(request.url, "https://dav.example.com/base/cal/e.ics");
}

#[test]
fn failed_status_is_reported_per_exchange() {
    match finish_discover(500, HOME_BODY) {
        Err(e) => {
            assert!(matches!(e, CalDavError::Status { operation: DavOperation::Discovery, code: 500 }));
            assert_eq!(e.message(), "Calendar discovery failed: 500 Internal Server Error");
        }
        Ok(_) => panic!("status 500 is a failure"),
    }
    match finish_list_calendars(404, CALENDARS_BODY) {
        Err(e) => assert_eq!(e.message(), "List calendars failed: 404 Not Found"),
        Ok(_) => panic!("status 404 is a failure"),
    }
    match finish_list_events(199, EVENTS_BODY) {
        Err(e) => assert_eq!(e.message(), "List events failed: 199 <unknown status code>"),
        Ok(_) => panic!("status 199 is not a success"),
    }
    match finish_get_event(300, EVENT_DATA.to_string()) {
        Err(e) => assert_eq!(e.message(), "Get event failed: 300 Multiple Choices"),
        Ok(_) => panic!("status 300 is not a success"),
    }
    assert!(finish_get_event(299, EVENT_DATA.to_string()).is_ok());
}

#[test]
fn discovery_without_home_is_refused() {
    let body = r#"<?xml version="1.0"?><multistatus xmlns="DAV:"><response><href>/x/</href></response></multistatus>"#;
    match parse_calendar_home(body) {
        Err(e) => {
            assert!(matches!(e, CalDavError::NoCalendarHome));
            assert_eq!(e.message(), "No calendar home found in response");
        }
        Ok(_) => panic!("no calendar-home-set in the body"),
    }
}

#[test]
fn malformed_xml_is_an_xml_error() {
    match parse_calendars("<multistatus><response></multistatus>") {
        Err(CalDavError::Xml(m)) => assert!(!m.is_empty()),
        other => panic!("expected an XML error, got {:?}", other),
    }
}

#[test]
fn collection_without_calendar_type_is_skipped() {
    let body = r#"<?xml version="1.0"?>
<multistatus xmlns="DAV:" xmlns:C="urn:ietf:params:xml:ns:caldav">
  <response>
    <href>/calendars/testuser/</href>
    <propstat><prop><resourcetype><collection/></resourcetype><displayname>Home</displayname></prop></propstat>
  </response>
  <response>
    <href>/calendars/testuser/x/</href>
    <propstat><prop><resourcetype><collection/><C:calendar/></resourcetype></prop></propstat>
  </response>
</multistatus>"#;
    let calendars = parse_calendars(body).unwrap();
    assert_eq!(calendars.len(), 1);
    assert_eq!(calendars[0].name, "Unnamed Calendar");
    assert_eq!(calendars[0].url, "/calendars/testuser/x/");
    assert_eq!(calendars[0].color, None);
}

#[test]
fn event_listing_reads_home_and_etags() {
    let home = parse_calendar_home(HOME_BODY).unwrap();
    assert_eq!(home, "/calendars/testuser/");
    let events = parse_events(EVENTS_BODY).unwrap();
    assert_eq!(events[0].url, "/calendars/testuser/default/event1.ics");
    assert_eq!(events[1].etag, "def456");
}

#[test]
fn transport_error_message_is_the_client_message() {
    let e = CalDavError::Transport("connection refused".to_string());
    assert_eq!(e.message(), "connection refused");
}

#[test]
fn undecodable_text_reports_the_reader_message() {
    let body = r#"<multistatus xmlns="DAV:" xmlns:C="urn:ietf:params:xml:ns:caldav"><response><propstat><prop><C:calendar-home-set><href>&bogus;</href></C:calendar-home-set></prop></propstat></response></multistatus>"#;
    match parse_calendar_home(body) {
        Err(e) => {
            assert!(matches!(e, CalDavError::Unescape(_)));
            assert!(!e.message().starts_with("XML parse error"));
        }
        Ok(h) => panic!("an unknown entity is not text: {}", h),
    }
}
