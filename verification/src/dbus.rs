//! The calendar service offered on the session bus: what its methods
//! answer, read from the event store.

use crate::db::{events_view, Database};
use crate::ical::opt_view;
use crate::models::{Event, EventView, Identified};
use crate::time::{parse_rfc3339, rfc3339_instant, rfc3339_text, to_rfc3339, Timestamp};
use std::sync::Arc;
use vstd::prelude::*;

verus! {

/// D-Bus representation of a calendar event
#[derive(Clone, Debug)]
pub struct DbusEvent {
    /// Event ID
    pub id: i64,
    /// Event UID
    pub uid: String,
    /// Event summary/title
    pub summary: String,
    /// Event description
    pub description: String,
    /// Event location
    pub location: String,
    /// Start time (RFC 3339 text)
    pub start_time: String,
    /// End time (RFC 3339 text)
    pub end_time: String,
}

/// A bus event with its text as character sequences.
pub struct DbusEventView {
    pub id: i64,
    pub uid: Seq<char>,
    pub summary: Seq<char>,
    pub description: Seq<char>,
    pub location: Seq<char>,
    pub start_time: Seq<char>,
    pub end_time: Seq<char>,
}

impl View for DbusEvent {
    type V = DbusEventView;

    open spec fn view(&self) -> DbusEventView {
        DbusEventView {
            id: self.id,
            uid: self.uid@,
            summary: self.summary@,
            description: self.description@,
            location: self.location@,
            start_time: self.start_time@,
            end_time: self.end_time@,
        }
    }
}

/// The text, or the empty text.
pub open spec fn or_empty(o: Option<Seq<char>>) -> Seq<char> {
    match o {
        Some(s) => s,
        None => Seq::empty(),
    }
}

/// The RFC 3339 text of an instant (empty where chrono cannot represent it).
pub open spec fn instant_text(t: Timestamp) -> Seq<char> {
    or_empty(rfc3339_text(t.seconds, t.nanos))
}

/// How an event is shown on the bus: absent texts are empty, times are
/// RFC 3339 text, an absent end is empty.
pub open spec fn spec_event_to_dbus(e: EventView) -> DbusEventView {
    DbusEventView {
        id: e.id,
        uid: e.uid,
        summary: or_empty(e.summary),
        description: or_empty(e.description),
        location: or_empty(e.location),
        start_time: instant_text(e.start_time),
        end_time: match e.end_time {
            Some(t) => instant_text(t),
            None => Seq::empty(),
        },
    }
}

/// The bus answer for an event that is not there: id 0, every text empty.
pub open spec fn empty_dbus_event() -> DbusEventView {
    DbusEventView {
        id: 0,
        uid: Seq::empty(),
        summary: Seq::empty(),
        description: Seq::empty(),
        location: Seq::empty(),
        start_time: Seq::empty(),
        end_time: Seq::empty(),
    }
}

/// The views of a list of bus events.
pub open spec fn dbus_events_view(v: Seq<DbusEvent>) -> Seq<DbusEventView> {
    v.map_values(|e: DbusEvent| e@)
}

/// A copy of the optional text, or the empty string.
fn text_or_empty(o: &Option<String>) -> (r: String)
    ensures
        r@ == or_empty(opt_view(*o)),
{
    match o {
        Some(s) => s.clone(),
        None => String::new(),
    }
}

/// The RFC 3339 text of an instant, or the empty string.
fn instant_string(t: Timestamp) -> (r: String)
    ensures
        r@ == instant_text(t),
{
    match to_rfc3339(t) {
        Some(s) => s,
        None => String::new(),
    }
}

/// D-Bus service for calendar access
pub struct CalendarService {
    /// Database connection (shared)
    db: Arc<Database>,
}

impl CalendarService {
    /// Create a new calendar service
    pub fn new(db: Arc<Database>) -> (s: Self)
        ensures
            s.store() == (*db)@,
    {
        Self { db }
    }

    /// The contents of the store the service reads.
    pub closed spec fn store(&self) -> crate::db::DbModel {
        (*self.db)@
    }

    /// Convert a database Event to DbusEvent
    pub fn event_to_dbus(event: &Event) -> (r: DbusEvent)
        ensures
            r@ == spec_event_to_dbus(event@),
    {
        DbusEvent {
            id: event.id,
            uid: event.uid.clone(),
            summary: text_or_empty(&event.summary),
            description: text_or_empty(&event.description),
            location: text_or_empty(&event.location),
            start_time: instant_string(event.start_time),
            end_time: match event.end_time {
                Some(t) => instant_string(t),
                None => String::new(),
            },
        }
    }

    /// List events within a time range: the events of all calendars whose
    /// start lies within the two RFC 3339 instants; no events when either
    /// text is not an RFC 3339 instant.
    pub fn list_events(&self, start: String, end: String) -> (r: Vec<DbusEvent>)
        ensures
            match (rfc3339_instant(start@), rfc3339_instant(end@)) {
                (Some(s), Some(e)) => dbus_events_view(r@) == self.store().list_events(
                    None,
                    Timestamp { seconds: s.0, nanos: s.1 },
                    Timestamp { seconds: e.0, nanos: e.1 },
                ).map_values(|x: EventView| spec_event_to_dbus(x)),
                _ => r@.len() == 0,
            },
    {
        let start_time = match parse_rfc3339(start.as_str()) {
            Some(t) => t,
            None => {
                return Vec::new();
            },
        };
        let end_time = match parse_rfc3339(end.as_str()) {
            Some(t) => t,
            None => {
                return Vec::new();
            },
        };
        let events = match self.db.list_events(None, start_time, end_time) {
            Ok(v) => v,
            Err(_) => {
                return Vec::new();
            },
        };
        let ghost listed = events_view(events@);
        let mut out: Vec<DbusEvent> = Vec::new();
        let mut i: usize = 0;
        while i < events.len()
            invariant
                i <= events.len(),
                listed == events_view(events@),
                dbus_events_view(out@) == listed.take(i as int).map_values(
                    |x: EventView| spec_event_to_dbus(x),
                ),
            decreases events.len() - i,
        {
            let ghost before = out@;
            out.push(Self::event_to_dbus(&events[i]));
            assert(listed[i as int] == events@[i as int]@);
            assert(dbus_events_view(out@) =~= dbus_events_view(before).push(
                spec_event_to_dbus(listed[i as int]),
            ));
            assert(listed.take(i + 1).map_values(|x: EventView| spec_event_to_dbus(x))
                =~= listed.take(i as int).map_values(|x: EventView| spec_event_to_dbus(x)).push(
                spec_event_to_dbus(listed[i as int]),
            ));
            i = i + 1;
        }
        assert(listed.take(i as int) =~= listed);
        out
    }

    /// Get a single event by ID: its bus form, or an event with id 0 and
    /// every text empty when there is no such event.
    pub fn get_event(&self, id: i64) -> (r: DbusEvent)
        requires
            self.store().wf(),
        ensures
            r@ == match self.store().get_event(id) {
                Some(e) => spec_event_to_dbus(e),
                None => empty_dbus_event(),
            },
    {
        match self.db.get_event(id) {
            Ok(Some(event)) => Self::event_to_dbus(&event),
            _ => DbusEvent {
                id: 0,
                uid: String::new(),
                summary: String::new(),
                description: String::new(),
                location: String::new(),
                start_time: String::new(),
                end_time: String::new(),
            },
        }
    }

    /// Get the full iCalendar data for an event (empty if not found).
    pub fn get_event_ical(&self, id: i64) -> (r: String)
        requires
            self.store().wf(),
        ensures
            r@ == match self.store().get_event(id) {
                Some(e) => e.ical_data,
                None => Seq::empty(),
            },
    {
        match self.db.get_event(id) {
            Ok(Some(event)) => event.ical_data,
            _ => String::new(),
        }
    }
}

/// The answer for a missing event is told from any stored event by its id:
/// stored events have positive ids, the answer for a missing one has id 0.
pub proof fn law_missing_event_told_by_id(m: crate::db::DbModel, id: i64)
    requires
        m.wf(),
    ensures
        (match m.get_event(id) {
            Some(e) => spec_event_to_dbus(e),
            None => empty_dbus_event(),
        }).id == 0 <==> m.get_event(id) is None,
{
    if crate::db::has_id(m.events, id) {
        let i = choose|i: int| 0 <= i < m.events.len() && #[trigger] m.events[i].ident() == id;
        assert(0 < m.events[i].ident());
    }
}

/// The text of an optional text, or the empty text.
pub open spec fn shown_text(o: Option<Seq<char>>) -> Seq<char> {
    match o {
        Some(x) => x,
        None => Seq::empty(),
    }
}

/// The bus form of an event shows that event's own fields: its id and UID;
/// its summary, description and location, or the empty text; its start as
/// the RFC 3339 text of its start instant and its end as the RFC 3339 text
/// of its own end instant, or the empty text when it has no end.
pub proof fn law_bus_event_fields(e: EventView)
    ensures
        spec_event_to_dbus(e).id == e.id,
        spec_event_to_dbus(e).uid == e.uid,
        spec_event_to_dbus(e).summary == shown_text(e.summary),
        spec_event_to_dbus(e).description == shown_text(e.description),
        spec_event_to_dbus(e).location == shown_text(e.location),
        spec_event_to_dbus(e).start_time == shown_text(
            rfc3339_text(e.start_time.seconds, e.start_time.nanos),
        ),
        e.end_time is None ==> spec_event_to_dbus(e).end_time == Seq::<char>::empty(),
        e.end_time matches Some(t) ==> spec_event_to_dbus(e).end_time == shown_text(
            rfc3339_text(t.seconds, t.nanos),
        ),
{
}

} // verus!
