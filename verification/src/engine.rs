//! The sync engine: the decisions of a pull-based CalDAV sync, as a state
//! machine that names the next request to send and takes its reply.
//!
//! A sync discovers the calendar home, lists its calendars, stores each
//! calendar's metadata, lists each calendar's events and downloads, parses
//! and stores only the events whose ETag differs from the stored one. A
//! failure of one calendar or one event is recorded and the sync goes on;
//! a failure to discover the calendar home or to list the calendars ends
//! it. A sync that gets through its calendar list stamps the account's
//! `last_sync`.

use crate::caldav::{
    caldav_message, calendars_view, events_view, is_success, spec_calendar_home,
    spec_calendars, spec_events, url_join_result, CalDavClient, CalDavError, CalDavErrorView,
    CalDavEvent, CalDavEventView, CalendarInfo, CalendarInfoView, DavMethod, DavOperation,
    DavRequest, DISCOVERY_BODY, LIST_CALENDARS_BODY, LIST_EVENTS_BODY,
};
use crate::db::{calendars_view as stored_calendars_view, db_message, Database, DbError, DbModel};
use crate::ical::{ical_message, opt_view, parse_event, spec_parse_event, ICalEvent, ICalEventView, IcalError};
use crate::models::{copy_opt, Account, AccountView, Calendar, CalendarView, Event, EventView, Identified};
use crate::text::concat;
use crate::xml::xml_stream;
use crate::time::{now, Timestamp};
use vstd::prelude::*;

verus! {

broadcast use vstd::string::group_string_axioms;

// ---------------------------------------------------------------------------
// Results and errors
// ---------------------------------------------------------------------------

/// Result of a sync operation
#[derive(Debug, Clone)]
pub struct SyncResult {
    /// Number of calendars synced
    pub calendars_synced: usize,
    /// Number of events synced (new or updated)
    pub events_synced: usize,
    /// Number of events that failed to sync
    pub events_failed: usize,
    /// Errors encountered during sync
    pub errors: Vec<String>,
}

/// A sync result with its messages as character sequences.
pub struct SyncResultView {
    pub calendars_synced: usize,
    pub events_synced: usize,
    pub events_failed: usize,
    pub errors: Seq<Seq<char>>,
}

/// The views of a list of messages.
pub open spec fn texts_view(v: Seq<String>) -> Seq<Seq<char>> {
    v.map_values(|s: String| s@)
}

impl View for SyncResult {
    type V = SyncResultView;

    open spec fn view(&self) -> SyncResultView {
        SyncResultView {
            calendars_synced: self.calendars_synced,
            events_synced: self.events_synced,
            events_failed: self.events_failed,
            errors: texts_view(self.errors@),
        }
    }
}

/// One more, unless the count is at its largest value.
pub open spec fn bump(n: usize) -> usize {
    if n < usize::MAX {
        (n + 1) as usize
    } else {
        n
    }
}

/// The result with one more error message.
pub open spec fn with_error(r: SyncResultView, msg: Seq<char>) -> SyncResultView {
    SyncResultView { errors: r.errors.push(msg), ..r }
}

/// The result with one more failed event and its message.
pub open spec fn with_failed_event(r: SyncResultView, msg: Seq<char>) -> SyncResultView {
    SyncResultView { events_failed: bump(r.events_failed), errors: r.errors.push(msg), ..r }
}

/// The result with one more synced event.
pub open spec fn with_synced_event(r: SyncResultView) -> SyncResultView {
    SyncResultView { events_synced: bump(r.events_synced), ..r }
}

/// The result with one more synced calendar.
pub open spec fn with_synced_calendar(r: SyncResultView) -> SyncResultView {
    SyncResultView { calendars_synced: bump(r.calendars_synced), ..r }
}

/// The count plus one, saturating.
fn bump_count(n: usize) -> (r: usize)
    ensures
        r == bump(n),
{
    if n < usize::MAX {
        n + 1
    } else {
        n
    }
}

impl SyncResult {
    /// An empty result: nothing synced, no error.
    pub fn empty() -> (r: SyncResult)
        ensures
            r@ == empty_result(),
    {
        let r = SyncResult { calendars_synced: 0, events_synced: 0, events_failed: 0, errors: Vec::new() };
        assert(texts_view(r.errors@) =~= Seq::<Seq<char>>::empty());
        r
    }

    /// Record an error message.
    fn push_error(&mut self, msg: String)
        ensures
            final(self)@ == with_error(old(self)@, msg@),
    {
        let ghost before = self.errors@;
        self.errors.push(msg);
        assert(texts_view(self.errors@) =~= texts_view(before).push(msg@));
    }

    /// Record a failed event and its message.
    fn record_failed_event(&mut self, msg: String)
        ensures
            final(self)@ == with_failed_event(old(self)@, msg@),
    {
        self.push_error(msg);
        self.events_failed = bump_count(self.events_failed);
    }
}

/// The result of a sync that has not done anything yet.
pub open spec fn empty_result() -> SyncResultView {
    SyncResultView { calendars_synced: 0, events_synced: 0, events_failed: 0, errors: Seq::empty() }
}

/// Why a calendar or an event could not be synced.
#[derive(Debug)]
pub enum SyncError {
    /// The server exchange failed.
    CalDav(CalDavError),
    /// The event data is not a readable VEVENT.
    Ical(IcalError),
    /// The store refused the write.
    Db(DbError),
}

/// A `SyncError` with its messages as character sequences.
pub enum SyncErrorView {
    CalDav(CalDavErrorView),
    Ical(IcalError),
    Db(DbError),
}

impl View for SyncError {
    type V = SyncErrorView;

    open spec fn view(&self) -> SyncErrorView {
        match self {
            SyncError::CalDav(e) => SyncErrorView::CalDav(e@),
            SyncError::Ical(e) => SyncErrorView::Ical(*e),
            SyncError::Db(e) => SyncErrorView::Db(*e),
        }
    }
}

/// The message of a sync error.
pub open spec fn sync_message(e: SyncErrorView) -> Seq<char> {
    match e {
        SyncErrorView::CalDav(c) => caldav_message(c),
        SyncErrorView::Ical(i) => ical_message(i),
        SyncErrorView::Db(d) => db_message(d),
    }
}

impl SyncError {
    /// The message of this error.
    pub fn message(&self) -> (r: String)
        ensures
            r@ == sync_message(self@),
    {
        match self {
            SyncError::CalDav(e) => e.message(),
            SyncError::Ical(e) => e.message(),
            SyncError::Db(e) => e.message(),
        }
    }
}

/// The message recorded when the calendar home cannot be discovered.
pub open spec fn home_failure(msg: Seq<char>) -> Seq<char> {
    "Failed to discover calendar home: "@ + msg
}

/// The message recorded when the calendars cannot be listed.
pub open spec fn listing_failure(msg: Seq<char>) -> Seq<char> {
    "Failed to list calendars: "@ + msg
}

/// The message recorded when a calendar cannot be synced.
pub open spec fn calendar_failure(name: Seq<char>, msg: Seq<char>) -> Seq<char> {
    "Failed to sync calendar '"@ + name + "': "@ + msg
}

/// The message recorded when an event cannot be synced.
pub open spec fn event_failure(uid: Seq<char>, name: Seq<char>, msg: Seq<char>) -> Seq<char> {
    "Failed to sync event '"@ + uid + "' in calendar '"@ + name + "': "@ + msg
}

/// The message of `home_failure`.
fn home_failure_text(msg: &str) -> (r: String)
    ensures
        r@ == home_failure(msg@),
{
    concat("Failed to discover calendar home: ", msg)
}

/// The message of `listing_failure`.
fn listing_failure_text(msg: &str) -> (r: String)
    ensures
        r@ == listing_failure(msg@),
{
    concat("Failed to list calendars: ", msg)
}

/// The message of `calendar_failure`.
fn calendar_failure_text(name: &str, msg: &str) -> (r: String)
    ensures
        r@ == calendar_failure(name@, msg@),
{
    let a = concat("Failed to sync calendar '", name);
    let b = concat(a.as_str(), "': ");
    concat(b.as_str(), msg)
}

/// The message of `event_failure`.
fn event_failure_text(uid: &str, name: &str, msg: &str) -> (r: String)
    ensures
        r@ == event_failure(uid@, name@, msg@),
{
    let a = concat("Failed to sync event '", uid);
    let b = concat(a.as_str(), "' in calendar '");
    let c = concat(b.as_str(), name);
    let d = concat(c.as_str(), "': ");
    concat(d.as_str(), msg)
}

// ---------------------------------------------------------------------------
// Calendars and events in the store
// ---------------------------------------------------------------------------

/// The position, from `i` on, of the first calendar with URL `url`.
pub open spec fn url_match_from(s: Seq<CalendarView>, url: Seq<char>, i: int) -> Option<int>
    decreases s.len() - i,
{
    if i < 0 || i >= s.len() {
        None
    } else if s[i].url == url {
        Some(i)
    } else {
        url_match_from(s, url, i + 1)
    }
}

/// A new calendar of the account for a listed collection: its name, URL and
/// color, enabled, no sync token.
pub open spec fn new_calendar_view(account_id: i64, info: CalendarInfoView) -> CalendarView {
    CalendarView {
        id: 0,
        account_id,
        name: info.name,
        url: info.url,
        sync_token: None,
        color: info.color,
        enabled: true,
    }
}

/// Storing a listed calendar: the account's first calendar with its URL
/// takes its name and color and keeps its id; without one, a new calendar
/// is inserted. The calendar's id is returned.
pub open spec fn spec_upsert_calendar(m: DbModel, account_id: i64, info: CalendarInfoView) -> (
    DbModel,
    Result<i64, DbError>,
) {
    let cals = m.list_calendars(account_id);
    match url_match_from(cals, info.url, 0) {
        Some(k) => {
            let c = cals[k];
            let (m1, r) = m.update_calendar(CalendarView { name: info.name, color: info.color, ..c });
            (
                m1,
                match r {
                    Ok(_) => Ok(c.id),
                    Err(e) => Err(e),
                },
            )
        },
        None => m.insert_calendar(new_calendar_view(account_id, info)),
    }
}

/// The stored form of a parsed event of a calendar: its properties, the
/// iCalendar text it was read from and the modification time; id 0 (the
/// store assigns one) and no ETag.
pub open spec fn event_record(calendar_id: i64, p: ICalEventView, ical_data: Seq<char>, modified: Timestamp) -> EventView {
    EventView {
        id: 0,
        calendar_id,
        uid: p.uid,
        summary: p.summary,
        description: p.description,
        location: p.location,
        start_time: p.start_time,
        end_time: p.end_time,
        etag: None,
        ical_data,
        last_modified: modified,
    }
}

/// The stored event already carries the ETag of the listed event.
pub open spec fn event_unchanged(m: DbModel, calendar_id: i64, ev: CalDavEventView) -> bool {
    match m.get_event_by_uid(calendar_id, ev.uid) {
        Some(e) => e.etag == Some(ev.etag),
        None => false,
    }
}

/// The views of a downloaded text or its error.
pub open spec fn data_view(r: Result<String, CalDavError>) -> Result<Seq<char>, CalDavErrorView> {
    match r {
        Ok(s) => Ok(s@),
        Err(e) => Err(e@),
    }
}

/// The view of the outcome of storing an event.
pub open spec fn outcome_view(r: Result<(), SyncError>) -> Result<(), SyncErrorView> {
    match r {
        Ok(()) => Ok(()),
        Err(e) => Err(e@),
    }
}

/// Storing a downloaded event: the download must have succeeded and its
/// text must parse; the event is then upserted with the UID and ETag of the
/// listing, the text and the modification time `now`.
pub open spec fn spec_store_event(
    m: DbModel,
    calendar_id: i64,
    ev: CalDavEventView,
    data: Result<Seq<char>, CalDavErrorView>,
    now: Timestamp,
) -> (DbModel, Result<(), SyncErrorView>) {
    match data {
        Err(e) => (m, Err(SyncErrorView::CalDav(e))),
        Ok(text) => match spec_parse_event(text) {
            Err(e) => (m, Err(SyncErrorView::Ical(e))),
            Ok(p) => {
                let (m1, r) = m.upsert_event(
                    EventView { uid: ev.uid, etag: Some(ev.etag), ..event_record(calendar_id, p, text, now) },
                );
                (
                    m1,
                    match r {
                        Ok(_) => Ok(()),
                        Err(e) => Err(SyncErrorView::Db(e)),
                    },
                )
            },
        },
    }
}

/// The position of the first calendar of `v` with URL `url`.
fn find_url(v: &Vec<Calendar>, url: &String) -> (r: Option<usize>)
    ensures
        match r {
            Some(k) => k < v.len() && url_match_from(stored_calendars_view(v@), url@, 0) == Some(k as int),
            None => url_match_from(stored_calendars_view(v@), url@, 0) is None,
        },
{
    let ghost s = stored_calendars_view(v@);
    let mut i: usize = 0;
    while i < v.len()
        invariant
            s == stored_calendars_view(v@),
            i <= v.len(),
            url_match_from(s, url@, 0) == url_match_from(s, url@, i as int),
        decreases v.len() - i,
    {
        assert(s[i as int] == v@[i as int]@);
        if v[i].url == *url {
            return Some(i);
        }
        i = i + 1;
    }
    None
}

/// The stored form of a parsed event, modified at `modified`.
fn event_record_of(calendar_id: i64, ical_event: ICalEvent, ical_data: String, modified: Timestamp) -> (r: Event)
    ensures
        r@ == event_record(calendar_id, ical_event@, ical_data@, modified),
{
    Event {
        id: 0,
        calendar_id,
        uid: ical_event.uid,
        summary: ical_event.summary,
        description: ical_event.description,
        location: ical_event.location,
        start_time: ical_event.start_time,
        end_time: ical_event.end_time,
        etag: None,
        ical_data,
        last_modified: modified,
    }
}

/// Store a downloaded event (see `spec_store_event`).
fn store_event(
    db: &mut Database,
    calendar_id: i64,
    ev: &CalDavEvent,
    data: Result<String, CalDavError>,
    now: Timestamp,
) -> (r: Result<(), SyncError>)
    requires
        old(db)@.wf(),
    ensures
        final(db)@.wf(),
        (final(db)@, outcome_view(r)) == spec_store_event(old(db)@, calendar_id, ev@, data_view(data), now),
{
    let text = match data {
        Ok(t) => t,
        Err(e) => {
            return Err(SyncError::CalDav(e));
        },
    };
    let parsed = match parse_event(text.as_str()) {
        Ok(p) => p,
        Err(e) => {
            return Err(SyncError::Ical(e));
        },
    };
    let mut event = event_record_of(calendar_id, parsed, text, now);
    event.etag = Some(ev.etag.clone());
    event.uid = ev.uid.clone();
    match db.upsert_event(&event) {
        Ok(_) => Ok(()),
        Err(e) => Err(SyncError::Db(e)),
    }
}

// ---------------------------------------------------------------------------
// The state machine
// ---------------------------------------------------------------------------

/// Where a sync stands. The engine rests only in `Start`, the `Await…`
/// phases and `Done`; `NextCalendar` and `NextEvent` are passed through
/// while it works out its next request.
#[derive(Clone, Copy, Debug, PartialEq, Eq, Structural)]
pub enum SyncPhase {
    /// Nothing sent yet.
    Start,
    /// Waiting for the calendar home.
    AwaitHome,
    /// Waiting for the list of calendars.
    AwaitCalendars,
    /// About to store the calendar at the current position.
    NextCalendar,
    /// Waiting for the events of the current calendar.
    AwaitEvents,
    /// About to look at the event at the current position.
    NextEvent,
    /// Waiting for the data of the current event.
    AwaitEventData,
    /// The sync is over.
    Done,
}

/// The phase is one in which the engine waits for a reply.
pub open spec fn awaiting(p: SyncPhase) -> bool {
    p is AwaitHome || p is AwaitCalendars || p is AwaitEvents || p is AwaitEventData
}

/// The phase is one the engine passes through.
pub open spec fn passing(p: SyncPhase) -> bool {
    p is NextCalendar || p is NextEvent
}

/// The state of a sync.
pub struct SyncState {
    /// The account being synced.
    pub account_id: i64,
    pub phase: SyncPhase,
    /// The URL reference of the request waited for.
    pub target: Seq<char>,
    pub result: SyncResultView,
    /// The calendars listed by the server.
    pub calendars: Seq<CalendarInfoView>,
    /// The position of the current calendar.
    pub cal_pos: int,
    /// The store's id of the current calendar.
    pub calendar_id: i64,
    /// The events listed for the current calendar.
    pub events: Seq<CalDavEventView>,
    /// The position of the current event.
    pub ev_pos: int,
}

impl SyncState {
    /// Positions within their lists, the current calendar and event present
    /// where the phase needs them, and every failed event reported.
    pub open spec fn inv(self) -> bool {
        &&& 0 <= self.cal_pos <= self.calendars.len()
        &&& 0 <= self.ev_pos <= self.events.len()
        &&& (self.phase is AwaitEvents || self.phase is NextEvent || self.phase is AwaitEventData)
            ==> self.cal_pos < self.calendars.len()
        &&& self.phase is AwaitEventData ==> self.ev_pos < self.events.len()
        &&& self.result.events_failed <= self.result.errors.len()
    }
}

/// The state of a new sync of the account.
pub open spec fn initial_state(account_id: i64) -> SyncState {
    SyncState {
        account_id,
        phase: SyncPhase::Start,
        target: Seq::empty(),
        result: empty_result(),
        calendars: Seq::empty(),
        cal_pos: 0,
        calendar_id: 0,
        events: Seq::empty(),
        ev_pos: 0,
    }
}

/// The store once the sync is over: the account, if it still exists, has
/// `last_sync` set to `now`.
pub open spec fn mark_synced(m: DbModel, account_id: i64, now: Timestamp) -> DbModel {
    match m.get_account(account_id) {
        Some(a) => m.update_account(AccountView { last_sync: Some(now), ..a }).0,
        None => m,
    }
}

/// The reference of the discovery request.
pub open spec fn discovery_path() -> Seq<char> {
    "/.well-known/caldav"@
}

/// From a phase the engine passes through to the next phase in which it
/// rests, with the store as it is then. `server` is the client's server URL
/// and `now` the time written into what is stored.
///
/// At the next calendar: past the last one the sync is over; otherwise the
/// calendar is stored and its events are asked for, and a failure of
/// either is recorded against the calendar. At the next event: past the
/// last one the calendar counts as synced; an event whose stored ETag
/// matches is passed over; otherwise its data is asked for, and a request
/// that cannot be made is recorded against the event.
pub open spec fn settle(s: SyncState, m: DbModel, server: Seq<char>, now: Timestamp) -> (SyncState, DbModel)
    decreases s.calendars.len() - s.cal_pos, s.events.len() - s.ev_pos,
{
    if !passing(s.phase) {
        (s, m)
    } else if s.cal_pos < 0 || s.cal_pos >= s.calendars.len() {
        (SyncState { phase: SyncPhase::Done, ..s }, mark_synced(m, s.account_id, now))
    } else if s.phase is NextCalendar {
        let info = s.calendars[s.cal_pos];
        let (m1, r) = spec_upsert_calendar(m, s.account_id, info);
        match r {
            Err(e) => settle(
                SyncState {
                    cal_pos: s.cal_pos + 1,
                    result: with_error(s.result, calendar_failure(info.name, db_message(e))),
                    ..s
                },
                m1,
                server,
                now,
            ),
            Ok(id) => match url_join_result(server, info.url) {
                Err(msg) => settle(
                    SyncState {
                        cal_pos: s.cal_pos + 1,
                        calendar_id: id,
                        result: with_error(s.result, calendar_failure(info.name, msg)),
                        ..s
                    },
                    m1,
                    server,
                    now,
                ),
                Ok(_) => (
                    SyncState { phase: SyncPhase::AwaitEvents, calendar_id: id, target: info.url, ..s },
                    m1,
                ),
            },
        }
    } else if s.ev_pos < 0 || s.ev_pos >= s.events.len() {
        settle(
            SyncState {
                phase: SyncPhase::NextCalendar,
                cal_pos: s.cal_pos + 1,
                result: with_synced_calendar(s.result),
                ..s
            },
            m,
            server,
            now,
        )
    } else {
        let ev = s.events[s.ev_pos];
        if event_unchanged(m, s.calendar_id, ev) {
            settle(SyncState { ev_pos: s.ev_pos + 1, ..s }, m, server, now)
        } else {
            match url_join_result(server, ev.url) {
                Err(msg) => settle(
                    SyncState {
                        ev_pos: s.ev_pos + 1,
                        result: with_failed_event(
                            s.result,
                            event_failure(ev.uid, s.calendars[s.cal_pos].name, msg),
                        ),
                        ..s
                    },
                    m,
                    server,
                    now,
                ),
                Ok(_) => (SyncState { phase: SyncPhase::AwaitEventData, target: ev.url, ..s }, m),
            }
        }
    }
}

/// The first move of a sync: ask for the calendar home, unless that request
/// cannot be made, which ends the sync with its message.
pub open spec fn spec_start(s: SyncState, server: Seq<char>) -> SyncState {
    match url_join_result(server, discovery_path()) {
        Err(msg) => SyncState { phase: SyncPhase::Done, result: with_error(s.result, home_failure(msg)), ..s },
        Ok(_) => SyncState { phase: SyncPhase::AwaitHome, target: discovery_path(), ..s },
    }
}

/// What the server answered to the request waited for.
pub enum SyncReply {
    /// The calendar home, or why discovery failed.
    CalendarHome(Result<String, CalDavError>),
    /// The calendars of the home, or why listing failed.
    Calendars(Result<Vec<CalendarInfo>, CalDavError>),
    /// The events of the current calendar, or why listing failed.
    Events(Result<Vec<CalDavEvent>, CalDavError>),
    /// The iCalendar data of the current event, or why the download failed.
    EventData(Result<String, CalDavError>),
}

/// A reply with its contents as plain values.
pub enum SyncReplyView {
    CalendarHome(Result<Seq<char>, CalDavErrorView>),
    Calendars(Result<Seq<CalendarInfoView>, CalDavErrorView>),
    Events(Result<Seq<CalDavEventView>, CalDavErrorView>),
    EventData(Result<Seq<char>, CalDavErrorView>),
}

/// The views of a calendar listing or its error.
pub open spec fn calendars_result_view(r: Result<Vec<CalendarInfo>, CalDavError>) -> Result<
    Seq<CalendarInfoView>,
    CalDavErrorView,
> {
    match r {
        Ok(v) => Ok(calendars_view(v@)),
        Err(e) => Err(e@),
    }
}

/// The views of an event listing or its error.
pub open spec fn events_result_view(r: Result<Vec<CalDavEvent>, CalDavError>) -> Result<
    Seq<CalDavEventView>,
    CalDavErrorView,
> {
    match r {
        Ok(v) => Ok(events_view(v@)),
        Err(e) => Err(e@),
    }
}

impl View for SyncReply {
    type V = SyncReplyView;

    open spec fn view(&self) -> SyncReplyView {
        match self {
            SyncReply::CalendarHome(r) => SyncReplyView::CalendarHome(data_view(*r)),
            SyncReply::Calendars(r) => SyncReplyView::Calendars(calendars_result_view(*r)),
            SyncReply::Events(r) => SyncReplyView::Events(events_result_view(*r)),
            SyncReply::EventData(r) => SyncReplyView::EventData(data_view(*r)),
        }
    }
}

/// The reply is of the kind the phase waits for.
pub open spec fn reply_answers(p: SyncPhase, r: SyncReplyView) -> bool {
    match r {
        SyncReplyView::CalendarHome(_) => p is AwaitHome,
        SyncReplyView::Calendars(_) => p is AwaitCalendars,
        SyncReplyView::Events(_) => p is AwaitEvents,
        SyncReplyView::EventData(_) => p is AwaitEventData,
    }
}

/// One move of a sync: the reply to the request waited for is taken in,
/// then the engine goes on to the next phase in which it rests.
///
/// A failed discovery, or a calendar listing that fails or cannot be asked
/// for, ends the sync with its message. A failed event listing is recorded
/// against the calendar. Downloaded data is parsed and stored (see
/// `spec_store_event`), and counted as a synced or a failed event.
pub open spec fn spec_step(s: SyncState, m: DbModel, reply: SyncReplyView, server: Seq<char>, now: Timestamp) -> (
    SyncState,
    DbModel,
) {
    match reply {
        SyncReplyView::CalendarHome(r) => match r {
            Err(e) => (
                SyncState {
                    phase: SyncPhase::Done,
                    result: with_error(s.result, home_failure(caldav_message(e))),
                    ..s
                },
                m,
            ),
            Ok(home) => match url_join_result(server, home) {
                Err(msg) => (
                    SyncState { phase: SyncPhase::Done, result: with_error(s.result, listing_failure(msg)), ..s },
                    m,
                ),
                Ok(_) => (SyncState { phase: SyncPhase::AwaitCalendars, target: home, ..s }, m),
            },
        },
        SyncReplyView::Calendars(r) => match r {
            Err(e) => (
                SyncState {
                    phase: SyncPhase::Done,
                    result: with_error(s.result, listing_failure(caldav_message(e))),
                    ..s
                },
                m,
            ),
            Ok(cals) => settle(
                SyncState { phase: SyncPhase::NextCalendar, calendars: cals, cal_pos: 0, ..s },
                m,
                server,
                now,
            ),
        },
        SyncReplyView::Events(r) => match r {
            Err(e) => settle(
                SyncState {
                    phase: SyncPhase::NextCalendar,
                    cal_pos: s.cal_pos + 1,
                    result: with_error(
                        s.result,
                        calendar_failure(s.calendars[s.cal_pos].name, caldav_message(e)),
                    ),
                    ..s
                },
                m,
                server,
                now,
            ),
            Ok(evs) => settle(
                SyncState { phase: SyncPhase::NextEvent, events: evs, ev_pos: 0, ..s },
                m,
                server,
                now,
            ),
        },
        SyncReplyView::EventData(r) => {
            let ev = s.events[s.ev_pos];
            let (m1, out) = spec_store_event(m, s.calendar_id, ev, r, now);
            let res = match out {
                Ok(_) => with_synced_event(s.result),
                Err(e) => with_failed_event(
                    s.result,
                    event_failure(ev.uid, s.calendars[s.cal_pos].name, sync_message(e)),
                ),
            };
            settle(SyncState { phase: SyncPhase::NextEvent, ev_pos: s.ev_pos + 1, result: res, ..s }, m1, server, now)
        },
    }
}

/// What the engine asks of the outside after a move.
pub enum SyncAction {
    /// Send this request and hand its outcome back.
    Send(DavRequest),
    /// The sync is over.
    Done,
}

/// The request is the one the phase waits for, to the URL of `target`
/// resolved against the client's server URL, with the client's credentials.
pub open spec fn request_fits(q: DavRequest, phase: SyncPhase, target: Seq<char>, c: CalDavClient) -> bool {
    &&& url_join_result(c.server(), target) == Ok::<Seq<char>, Seq<char>>(q.url@)
    &&& q.username@ == c.user()
    &&& q.password@ == c.secret()
    &&& match phase {
        SyncPhase::AwaitHome => q.method == DavMethod::Propfind && opt_view(q.depth) == Some("0"@)
            && opt_view(q.body) == Some(DISCOVERY_BODY@),
        SyncPhase::AwaitCalendars => q.method == DavMethod::Propfind && opt_view(q.depth) == Some("1"@)
            && opt_view(q.body) == Some(LIST_CALENDARS_BODY@),
        SyncPhase::AwaitEvents => q.method == DavMethod::Report && opt_view(q.depth) == Some("1"@)
            && opt_view(q.body) == Some(LIST_EVENTS_BODY@),
        SyncPhase::AwaitEventData => q.method == DavMethod::Get && q.depth is None && q.body is None,
        _ => false,
    }
}

/// The action fits the state: the request waited for, or the end.
pub open spec fn action_fits(a: SyncAction, s: SyncState, c: CalDavClient) -> bool {
    match a {
        SyncAction::Send(q) => request_fits(q, s.phase, s.target, c),
        SyncAction::Done => s.phase is Done,
    }
}

/// How an HTTP exchange ended.
pub enum DavOutcome {
    /// The server answered with this status and body.
    Response { status: u16, body: String },
    /// The request could not be sent or the response not received.
    Failed(String),
}

/// The reply a phase reads from the outcome of its exchange: an exchange
/// that failed is a transport error; a response is an error naming the
/// exchange unless its status is a success, and otherwise, for the XML
/// answers, what the events quick-xml reads from the body give, and for
/// event data, the body itself.
pub open spec fn spec_interpret(p: SyncPhase, o: DavOutcome) -> SyncReplyView {
    match o {
        DavOutcome::Failed(m) => {
            let e = CalDavErrorView::Transport(m@);
            match p {
                SyncPhase::AwaitHome => SyncReplyView::CalendarHome(Err(e)),
                SyncPhase::AwaitCalendars => SyncReplyView::Calendars(Err(e)),
                SyncPhase::AwaitEvents => SyncReplyView::Events(Err(e)),
                _ => SyncReplyView::EventData(Err(e)),
            }
        },
        DavOutcome::Response { status, body } => match p {
            SyncPhase::AwaitHome => SyncReplyView::CalendarHome(
                if !is_success(status) {
                    Err(CalDavErrorView::Status { operation: DavOperation::Discovery, code: status })
                } else {
                    spec_calendar_home(xml_stream(body@))
                },
            ),
            SyncPhase::AwaitCalendars => SyncReplyView::Calendars(
                if !is_success(status) {
                    Err(CalDavErrorView::Status { operation: DavOperation::ListCalendars, code: status })
                } else {
                    spec_calendars(xml_stream(body@))
                },
            ),
            SyncPhase::AwaitEvents => SyncReplyView::Events(
                if !is_success(status) {
                    Err(CalDavErrorView::Status { operation: DavOperation::ListEvents, code: status })
                } else {
                    spec_events(xml_stream(body@))
                },
            ),
            _ => SyncReplyView::EventData(
                if !is_success(status) {
                    Err(CalDavErrorView::Status { operation: DavOperation::GetEvent, code: status })
                } else {
                    Ok(body@)
                },
            ),
        },
    }
}

/// Orchestrates the complete CalDAV sync flow for one account.
pub struct SyncEngine {
    /// CalDAV client for server communication
    client: CalDavClient,
    /// ID of the account to sync
    account_id: i64,
    phase: SyncPhase,
    target: String,
    result: SyncResult,
    calendars: Vec<CalendarInfo>,
    cal_pos: usize,
    calendar_id: i64,
    events: Vec<CalDavEvent>,
    ev_pos: usize,
}

impl View for SyncEngine {
    type V = SyncState;

    closed spec fn view(&self) -> SyncState {
        SyncState {
            account_id: self.account_id,
            phase: self.phase,
            target: self.target@,
            result: self.result@,
            calendars: calendars_view(self.calendars@),
            cal_pos: self.cal_pos as int,
            calendar_id: self.calendar_id,
            events: events_view(self.events@),
            ev_pos: self.ev_pos as int,
        }
    }
}

impl SyncEngine {
    /// The client the engine sends its requests with.
    pub closed spec fn client(&self) -> CalDavClient {
        self.client
    }

    /// Create a new sync engine for the account, sending with `client`.
    pub fn new(client: CalDavClient, account_id: i64) -> (e: Self)
        ensures
            e@ == initial_state(account_id),
            e.client() == client,
    {
        let e = SyncEngine {
            client,
            account_id,
            phase: SyncPhase::Start,
            target: String::new(),
            result: SyncResult::empty(),
            calendars: Vec::new(),
            cal_pos: 0,
            calendar_id: 0,
            events: Vec::new(),
            ev_pos: 0,
        };
        assert(calendars_view(e.calendars@) =~= Seq::<CalendarInfoView>::empty());
        assert(events_view(e.events@) =~= Seq::<CalDavEventView>::empty());
        e
    }

    /// The phase the sync is in.
    pub fn phase(&self) -> (p: SyncPhase)
        ensures
            p == self@.phase,
    {
        self.phase
    }

    /// The result so far.
    pub fn result(&self) -> (r: &SyncResult)
        ensures
            r@ == self@.result,
    {
        &self.result
    }

    /// The result, the engine given up.
    pub fn into_result(self) -> (r: SyncResult)
        ensures
            r@ == self@.result,
    {
        self.result
    }

    /// Convert a parsed event to a stored event of the calendar, with the
    /// raw iCalendar data kept for round trips, modified now.
    pub fn ical_to_event(&self, calendar_id: i64, ical_event: ICalEvent, ical_data: String) -> (r: Event)
        ensures
            r@ == event_record(calendar_id, ical_event@, ical_data@, r.last_modified),
    {
        event_record_of(calendar_id, ical_event, ical_data, now())
    }

    /// Store a listed calendar of the account (see `spec_upsert_calendar`);
    /// returns its id.
    pub fn upsert_calendar(&self, db: &mut Database, calendar_info: &CalendarInfo) -> (r: Result<i64, DbError>)
        requires
            old(db)@.wf(),
        ensures
            final(db)@.wf(),
            (final(db)@, r) == spec_upsert_calendar(old(db)@, self@.account_id, calendar_info@),
    {
        let existing = match db.list_calendars(self.account_id) {
            Ok(v) => v,
            Err(e) => {
                return Err(e);
            },
        };
        match find_url(&existing, &calendar_info.url) {
            Some(k) => {
                let mut calendar = existing[k].duplicate();
                calendar.name = calendar_info.name.clone();
                calendar.color = copy_opt(&calendar_info.color);
                assert(stored_calendars_view(existing@)[k as int] == existing@[k as int]@);
                match db.update_calendar(&calendar) {
                    Ok(()) => Ok(calendar.id),
                    Err(e) => Err(e),
                }
            },
            None => {
                let mut calendar = Calendar::new(
                    self.account_id,
                    calendar_info.name.clone(),
                    calendar_info.url.clone(),
                );
                calendar.color = copy_opt(&calendar_info.color);
                db.insert_calendar(&calendar)
            },
        }
    }

    /// Stamp the account's `last_sync` with `now`, if the account exists.
    fn mark_synced(&self, db: &mut Database, now: Timestamp)
        requires
            old(db)@.wf(),
        ensures
            final(db)@.wf(),
            final(db)@ == mark_synced(old(db)@, self@.account_id, now),
    {
        match db.get_account(self.account_id) {
            Ok(Some(account)) => {
                let mut account = account;
                account.last_sync = Some(now);
                let _ = db.update_account(&account);
            },
            _ => {},
        }
    }

    /// Start the sync: the request for the calendar home, or the end of
    /// the sync when that request cannot be made.
    pub fn start(&mut self) -> (a: SyncAction)
        requires
            old(self)@.phase is Start,
            old(self)@.inv(),
        ensures
            final(self)@ == spec_start(old(self)@, old(self).client().server()),
            final(self).client() == old(self).client(),
            final(self)@.inv(),
            action_fits(a, final(self)@, final(self).client()),
    {
        match self.client.discover_request() {
            Ok(q) => {
                self.target = crate::text::owned("/.well-known/caldav");
                self.phase = SyncPhase::AwaitHome;
                SyncAction::Send(q)
            },
            Err(e) => {
                let m = e.message();
                let msg = home_failure_text(m.as_str());
                self.result.push_error(msg);
                self.phase = SyncPhase::Done;
                SyncAction::Done
            },
        }
    }

    /// Go on from a phase passed through to the next phase in which the
    /// engine rests (see `settle`); the request it then waits for.
    fn settle(&mut self, db: &mut Database, now: Timestamp) -> (q: Option<DavRequest>)
        requires
            old(self)@.inv(),
            old(db)@.wf(),
            passing(old(self)@.phase),
        ensures
            final(self)@.inv(),
            final(db)@.wf(),
            (final(self)@, final(db)@) == settle(old(self)@, old(db)@, old(self).client().server(), now),
            final(self).client() == old(self).client(),
            !passing(final(self)@.phase),
            match q {
                Some(q) => request_fits(q, final(self)@.phase, final(self)@.target, final(self).client()),
                None => final(self)@.phase is Done,
            },
    {
        let ghost server = self.client.server();
        let ghost c0 = self.client;
        let ghost goal = settle(self@, db@, server, now);
        loop
            invariant
                self@.inv(),
                db@.wf(),
                passing(self@.phase),
                self.client == c0,
                c0 == old(self).client(),
                server == c0.server(),
                goal == settle(old(self)@, old(db)@, old(self).client().server(), now),
                settle(self@, db@, server, now) == goal,
            decreases self.calendars.len() - self.cal_pos, self.events.len() - self.ev_pos,
        {
            let ghost s = self@;
            let ghost m = db@;
            if self.cal_pos >= self.calendars.len() {
                self.mark_synced(db, now);
                self.phase = SyncPhase::Done;
                assert(self@ == SyncState { phase: SyncPhase::Done, ..s });
                return None;
            }
            let k = self.cal_pos;
            assert(s.calendars[k as int] == self.calendars@[k as int]@);
            match self.phase {
                SyncPhase::NextCalendar => {
                    let r = self.upsert_calendar(db, &self.calendars[k]);
                    match r {
                        Err(e) => {
                            let em = e.message();
                            let msg = calendar_failure_text(self.calendars[k].name.as_str(), em.as_str());
                            self.result.push_error(msg);
                            self.cal_pos = k + 1;
                        },
                        Ok(id) => {
                            self.calendar_id = id;
                            match self.client.list_events_request(self.calendars[k].url.as_str()) {
                                Ok(q) => {
                                    self.target = self.calendars[k].url.clone();
                                    self.phase = SyncPhase::AwaitEvents;
                                    assert(self@ == SyncState {
                                        phase: SyncPhase::AwaitEvents,
                                        calendar_id: id,
                                        target: s.calendars[k as int].url,
                                        ..s
                                    });
                                    return Some(q);
                                },
                                Err(e) => {
                                    let em = e.message();
                                    let msg = calendar_failure_text(self.calendars[k].name.as_str(), em.as_str());
                                    self.result.push_error(msg);
                                    self.cal_pos = k + 1;
                                },
                            }
                        },
                    }
                },
                _ => {
                    let j = self.ev_pos;
                    if j >= self.events.len() {
                        self.result.calendars_synced = bump_count(self.result.calendars_synced);
                        self.phase = SyncPhase::NextCalendar;
                        self.cal_pos = k + 1;
                    } else {
                        assert(s.events[j as int] == self.events@[j as int]@);
                        let unchanged = match db.get_event_by_uid(self.calendar_id, self.events[j].uid.as_str()) {
                            Ok(Some(existing)) => match &existing.etag {
                                Some(t) => crate::text::str_eq(t.as_str(), self.events[j].etag.as_str()),
                                None => false,
                            },
                            _ => false,
                        };
                        if unchanged {
                            self.ev_pos = j + 1;
                        } else {
                            match self.client.get_event_request(self.events[j].url.as_str()) {
                                Ok(q) => {
                                    self.target = self.events[j].url.clone();
                                    self.phase = SyncPhase::AwaitEventData;
                                    assert(self@ == SyncState {
                                        phase: SyncPhase::AwaitEventData,
                                        target: s.events[j as int].url,
                                        ..s
                                    });
                                    return Some(q);
                                },
                                Err(e) => {
                                    let em = e.message();
                                    let msg = event_failure_text(
                                        self.events[j].uid.as_str(),
                                        self.calendars[k].name.as_str(),
                                        em.as_str(),
                                    );
                                    self.result.record_failed_event(msg);
                                    self.ev_pos = j + 1;
                                },
                            }
                        }
                    }
                },
            }
        }
    }

    /// Take in the reply to the request waited for and go on (see
    /// `spec_step`); what to do next.
    pub fn step(&mut self, db: &mut Database, reply: SyncReply, now: Timestamp) -> (a: SyncAction)
        requires
            old(self)@.inv(),
            old(db)@.wf(),
            reply_answers(old(self)@.phase, reply@),
        ensures
            final(self)@.inv(),
            final(db)@.wf(),
            (final(self)@, final(db)@) == spec_step(old(self)@, old(db)@, reply@, old(self).client().server(), now),
            final(self).client() == old(self).client(),
            action_fits(a, final(self)@, final(self).client()),
    {
        let ghost s = self@;
        match reply {
            SyncReply::CalendarHome(r) => match r {
                Err(e) => {
                    let em = e.message();
                    self.result.push_error(home_failure_text(em.as_str()));
                    self.phase = SyncPhase::Done;
                    SyncAction::Done
                },
                Ok(home) => match self.client.list_calendars_request(home.as_str()) {
                    Ok(q) => {
                        self.target = home;
                        self.phase = SyncPhase::AwaitCalendars;
                        SyncAction::Send(q)
                    },
                    Err(e) => {
                        let em = e.message();
                        self.result.push_error(listing_failure_text(em.as_str()));
                        self.phase = SyncPhase::Done;
                        SyncAction::Done
                    },
                },
            },
            SyncReply::Calendars(r) => match r {
                Err(e) => {
                    let em = e.message();
                    self.result.push_error(listing_failure_text(em.as_str()));
                    self.phase = SyncPhase::Done;
                    SyncAction::Done
                },
                Ok(cals) => {
                    self.calendars = cals;
                    self.cal_pos = 0;
                    self.phase = SyncPhase::NextCalendar;
                    self.finish_move(db, now)
                },
            },
            SyncReply::Events(r) => match r {
                Err(e) => {
                    assert(s.phase is AwaitEvents);
                    assert(s.calendars.len() == self.calendars@.len());
                    assert(s.inv());
                    assert(s.cal_pos == self.cal_pos);
                    assert(self.cal_pos < self.calendars.len());
                    let k = self.cal_pos;
                    let em = e.message();
                    let msg = calendar_failure_text(self.calendars[k].name.as_str(), em.as_str());
                    self.result.push_error(msg);
                    self.cal_pos = k + 1;
                    self.phase = SyncPhase::NextCalendar;
                    self.finish_move(db, now)
                },
                Ok(evs) => {
                    self.events = evs;
                    self.ev_pos = 0;
                    self.phase = SyncPhase::NextEvent;
                    self.finish_move(db, now)
                },
            },
            SyncReply::EventData(r) => {
                assert(s.phase is AwaitEventData);
                assert(s.calendars.len() == self.calendars@.len());
                assert(s.events.len() == self.events@.len());
                assert(s.inv());
                assert(self.cal_pos < self.calendars.len());
                assert(self.ev_pos < self.events.len());
                let k = self.cal_pos;
                let j = self.ev_pos;
                assert(s.events[j as int] == self.events@[j as int]@);
                assert(s.calendars[k as int] == self.calendars@[k as int]@);
                let out = store_event(db, self.calendar_id, &self.events[j], r, now);
                match out {
                    Ok(()) => {
                        self.result.events_synced = bump_count(self.result.events_synced);
                    },
                    Err(e) => {
                        let em = e.message();
                        let msg = event_failure_text(
                            self.events[j].uid.as_str(),
                            self.calendars[k].name.as_str(),
                            em.as_str(),
                        );
                        self.result.record_failed_event(msg);
                    },
                }
                self.ev_pos = j + 1;
                self.phase = SyncPhase::NextEvent;
                self.finish_move(db, now)
            },
        }
    }

    /// Settle and turn the request waited for into an action.
    fn finish_move(&mut self, db: &mut Database, now: Timestamp) -> (a: SyncAction)
        requires
            old(self)@.inv(),
            old(db)@.wf(),
            passing(old(self)@.phase),
        ensures
            final(self)@.inv(),
            final(db)@.wf(),
            (final(self)@, final(db)@) == settle(old(self)@, old(db)@, old(self).client().server(), now),
            final(self).client() == old(self).client(),
            action_fits(a, final(self)@, final(self).client()),
    {
        match self.settle(db, now) {
            Some(q) => SyncAction::Send(q),
            None => SyncAction::Done,
        }
    }

    /// Read the outcome of the request waited for as the reply the phase
    /// expects (see `spec_interpret`).
    pub fn interpret(&self, outcome: DavOutcome) -> (r: SyncReply)
        requires
            awaiting(self@.phase),
        ensures
            r@ == spec_interpret(self@.phase, outcome),
            reply_answers(self@.phase, r@),
    {
        match outcome {
            DavOutcome::Failed(m) => {
                let e = CalDavError::Transport(m);
                match self.phase {
                    SyncPhase::AwaitHome => SyncReply::CalendarHome(Err(e)),
                    SyncPhase::AwaitCalendars => SyncReply::Calendars(Err(e)),
                    SyncPhase::AwaitEvents => SyncReply::Events(Err(e)),
                    _ => SyncReply::EventData(Err(e)),
                }
            },
            DavOutcome::Response { status, body } => match self.phase {
                SyncPhase::AwaitHome => {
                    let h = crate::caldav::finish_discover(status, body.as_str());
                    SyncReply::CalendarHome(h)
                },
                SyncPhase::AwaitCalendars => {
                    let c = crate::caldav::finish_list_calendars(status, body.as_str());
                    SyncReply::Calendars(c)
                },
                SyncPhase::AwaitEvents => {
                    let v = crate::caldav::finish_list_events(status, body.as_str());
                    SyncReply::Events(v)
                },
                _ => SyncReply::EventData(crate::caldav::finish_get_event(status, body)),
            },
        }
    }

    /// Take in how the exchange for the request waited for ended, at the
    /// current time, and go on: `interpret`, then `step`. What is stored
    /// is stamped with a time read from the clock, of which nothing is
    /// known.
    pub fn receive(&mut self, db: &mut Database, outcome: DavOutcome) -> (a: SyncAction)
        requires
            old(self)@.inv(),
            old(db)@.wf(),
            awaiting(old(self)@.phase),
        ensures
            final(self)@.inv(),
            final(db)@.wf(),
            exists|t: Timestamp|
                (final(self)@, final(db)@) == #[trigger] spec_step(
                    old(self)@,
                    old(db)@,
                    spec_interpret(old(self)@.phase, outcome),
                    old(self).client().server(),
                    t,
                ),
            final(self).client() == old(self).client(),
            action_fits(a, final(self)@, final(self).client()),
    {
        let ghost o = outcome;
        let reply = self.interpret(outcome);
        let t = now();
        let a = self.step(db, reply, t);
        assert((self@, db@) == spec_step(old(self)@, old(db)@, spec_interpret(old(self)@.phase, o), old(self).client().server(), t));
        a
    }
}

// ---------------------------------------------------------------------------
// Around a sync
// ---------------------------------------------------------------------------

/// The outcome of an exchange whose response body could not be read: a
/// response that is not a success is reported by its status, as if its body
/// were empty; otherwise the read error is the outcome.
pub fn unreadable_body(status: u16, message: String) -> (r: DavOutcome)
    ensures
        !is_success(status) ==> (r matches DavOutcome::Response { status: s, body } && s == status
            && body@ == Seq::<char>::empty()),
        is_success(status) ==> (r matches DavOutcome::Failed(m) && m@ == message@),
{
    if 200 <= status && status <= 299 {
        DavOutcome::Failed(message)
    } else {
        DavOutcome::Response { status, body: String::new() }
    }
}

/// Keeps the accounts a sync command covers: the one named `name`, or all.
pub open spec fn covered(name: Option<Seq<char>>) -> spec_fn(AccountView) -> bool {
    |a: AccountView| name is None || a.name == name->0
}

/// The ids of the accounts a sync command covers, in the order given: the
/// account with the given name, or every account when no name is given.
pub open spec fn spec_accounts_to_sync(accounts: Seq<AccountView>, name: Option<Seq<char>>) -> Seq<i64> {
    accounts.filter(covered(name)).map_values(|a: AccountView| a.id)
}

/// The ids of the accounts a sync command covers (see
/// `spec_accounts_to_sync`).
pub fn accounts_to_sync(accounts: &Vec<Account>, name: &Option<String>) -> (r: Vec<i64>)
    ensures
        r@ == spec_accounts_to_sync(crate::db::accounts_view(accounts@), opt_view(*name)),
{
    let ghost all = crate::db::accounts_view(accounts@);
    let ghost p = covered(opt_view(*name));
    let mut r: Vec<i64> = Vec::new();
    let mut i: usize = 0;
    while i < accounts.len()
        invariant
            all == crate::db::accounts_view(accounts@),
            p == covered(opt_view(*name)),
            i <= accounts.len(),
            r@ == all.take(i as int).filter(p).map_values(|a: AccountView| a.id),
        decreases accounts.len() - i,
    {
        proof {
            reveal(Seq::filter);
        }
        assert(all.take(i + 1).drop_last() =~= all.take(i as int));
        assert(all[i as int] == accounts@[i as int]@);
        let keep = match name {
            Some(n) => accounts[i].name == *n,
            None => true,
        };
        if keep {
            let ghost before = all.take(i as int).filter(p);
            r.push(accounts[i].id);
            assert(all.take(i + 1).filter(p) =~= before.push(all[i as int]));
            assert(r@ =~= all.take(i + 1).filter(p).map_values(|a: AccountView| a.id));
        } else {
            assert(all.take(i + 1).filter(p) =~= all.take(i as int).filter(p));
        }
        i = i + 1;
    }
    assert(all.take(i as int) =~= all);
    r
}

// ---------------------------------------------------------------------------
// Laws
// ---------------------------------------------------------------------------

/// `url_match_from` finds a calendar with the URL, at or after `i`; and
/// finds one whenever there is one there.
proof fn lemma_url_match(s: Seq<CalendarView>, url: Seq<char>, i: int, j: int)
    requires
        0 <= i,
    ensures
        url_match_from(s, url, i) matches Some(k) ==> i <= k < s.len() && s[k].url == url,
        i <= j < s.len() && s[j].url == url ==> url_match_from(s, url, i) is Some,
    decreases s.len() - i,
{
    if i < s.len() && s[i].url != url {
        lemma_url_match(s, url, i + 1, j);
    }
}

/// Upserting a listing whose calendar is already stored, with its name and
/// color, finds that calendar and changes nothing.
proof fn lemma_upsert_stored_calendar(m: DbModel, account_id: i64, info: CalendarInfoView, q: int)
    requires
        m.wf(),
        0 <= q < m.calendars.len(),
        m.calendars[q].account_id == account_id,
        m.calendars[q].url == info.url,
        m.calendars[q].name == info.name,
        m.calendars[q].color == info.color,
    ensures
        spec_upsert_calendar(m, account_id, info) == (m, Ok::<i64, DbError>(m.calendars[q].id)),
{
    let c = m.calendars[q];
    let cals = m.list_calendars(account_id);
    crate::db::lemma_filter_ids(m.calendars, crate::db::of_account(account_id), m.next_calendar_id);
    assert(m.calendars.contains(c));
    assert(cals.contains(c));
    let i = choose|i: int| 0 <= i < cals.len() && cals[i] == c;
    lemma_url_match(cals, info.url, 0, i);
    let k = url_match_from(cals, info.url, 0)->Some_0;
    lemma_url_match(cals, info.url, 0, k);
    crate::db::lemma_filter_origin(m.calendars, crate::db::of_account(account_id), m.next_calendar_id, k);
    let b = choose|b: int|
        0 <= b < m.calendars.len() && m.calendars[b] == cals[k] && (crate::db::of_account(account_id))(
            m.calendars[b],
        );
    if b != q {
        assert(m.calendars[b].account_id == m.calendars[q].account_id);
        assert(m.calendars[b].url != m.calendars[q].url);
    }
    assert(cals[k] == c);
    let u = CalendarView { name: info.name, color: info.color, ..c };
    assert(u == c);
    crate::db::lemma_has_id_at(m.accounts, 0);
    assert(crate::db::has_id(m.accounts, m.calendars[q].account_id));
    assert(!m.calendar_url_taken(account_id, info.url, c.id)) by {
        if m.calendar_url_taken(account_id, info.url, c.id) {
            let t = choose|t: int|
                0 <= t < m.calendars.len() && #[trigger] m.calendars[t].account_id == account_id
                    && m.calendars[t].url == info.url && m.calendars[t].id != c.id;
            assert(t != q);
        }
    }
    let n = m.update_calendar(u).0;
    assert(m.update_calendar(u).1 is Ok);
    assert(n.calendars.len() == m.calendars.len());
    assert forall|t: int| 0 <= t < m.calendars.len() implies n.calendars[t] == m.calendars[t] by {
        if m.calendars[t].id == c.id && t != q {
            if t < q {
                assert(m.calendars[t].ident() < m.calendars[q].ident());
            } else {
                assert(m.calendars[q].ident() < m.calendars[t].ident());
            }
        }
    }
    assert(n.calendars =~= m.calendars);
    assert(n == m);
}

/// A calendar listed twice is stored once: upserting the same listing a
/// second time returns the same id and leaves the store as the first
/// upsert left it.
pub proof fn law_upsert_calendar_twice(m: DbModel, account_id: i64, info: CalendarInfoView)
    requires
        m.wf(),
        spec_upsert_calendar(m, account_id, info).1 is Ok,
    ensures
        spec_upsert_calendar(spec_upsert_calendar(m, account_id, info).0, account_id, info)
            == spec_upsert_calendar(m, account_id, info),
{
    let m1 = spec_upsert_calendar(m, account_id, info).0;
    let id = spec_upsert_calendar(m, account_id, info).1->Ok_0;
    let cals = m.list_calendars(account_id);
    match url_match_from(cals, info.url, 0) {
        Some(k) => {
            lemma_url_match(cals, info.url, 0, k);
            let c = cals[k];
            crate::db::lemma_filter_origin(m.calendars, crate::db::of_account(account_id), m.next_calendar_id, k);
            let a = choose|a: int|
                0 <= a < m.calendars.len() && m.calendars[a] == cals[k] && (crate::db::of_account(
                    account_id,
                ))(m.calendars[a]);
            let u = CalendarView { name: info.name, color: info.color, ..c };
            crate::db::lemma_update_calendar_wf(m, u);
            assert(m1.calendars[a] == u);
            lemma_upsert_stored_calendar(m1, account_id, info, a);
        },
        None => {
            let nc = new_calendar_view(account_id, info);
            crate::db::lemma_insert_calendar_wf(m, nc);
            let q = m.calendars.len() as int;
            assert(m1.calendars[q] == CalendarView { id, ..nc });
            lemma_upsert_stored_calendar(m1, account_id, info, q);
        },
    }
}

/// Passing over events whose stored ETag matches: from the event at the
/// current position to the end of the list, nothing is downloaded or
/// stored, and the calendar counts as synced.
proof fn lemma_skip_unchanged(s: SyncState, m: DbModel, server: Seq<char>, now: Timestamp)
    requires
        s.phase is NextEvent,
        0 <= s.cal_pos < s.calendars.len(),
        0 <= s.ev_pos <= s.events.len(),
        forall|i: int|
            s.ev_pos <= i < s.events.len() ==> event_unchanged(m, s.calendar_id, #[trigger] s.events[i]),
    ensures
        settle(s, m, server, now) == settle(
            SyncState {
                phase: SyncPhase::NextCalendar,
                cal_pos: s.cal_pos + 1,
                result: with_synced_calendar(s.result),
                ev_pos: s.events.len() as int,
                ..s
            },
            m,
            server,
            now,
        ),
    decreases s.events.len() - s.ev_pos,
{
    if s.ev_pos < s.events.len() {
        assert(event_unchanged(m, s.calendar_id, s.events[s.ev_pos]));
        let t = SyncState { ev_pos: s.ev_pos + 1, ..s };
        lemma_skip_unchanged(t, m, server, now);
    }
}

/// When every event listed for a calendar already carries, in the store,
/// the ETag it is listed with, none of them is downloaded and the store is
/// not changed: the calendar counts as synced and the sync goes on with
/// the next calendar, from the store as it was.
pub proof fn law_unchanged_etags_skip_calendar(
    s: SyncState,
    m: DbModel,
    evs: Seq<CalDavEventView>,
    server: Seq<char>,
    now: Timestamp,
)
    requires
        s.inv(),
        s.phase is AwaitEvents,
        forall|i: int| 0 <= i < evs.len() ==> event_unchanged(m, s.calendar_id, #[trigger] evs[i]),
    ensures
        spec_step(s, m, SyncReplyView::Events(Ok(evs)), server, now) == settle(
            SyncState {
                phase: SyncPhase::NextCalendar,
                cal_pos: s.cal_pos + 1,
                result: with_synced_calendar(s.result),
                events: evs,
                ev_pos: evs.len() as int,
                ..s
            },
            m,
            server,
            now,
        ),
{
    let t = SyncState { phase: SyncPhase::NextEvent, events: evs, ev_pos: 0, ..s };
    lemma_skip_unchanged(t, m, server, now);
}

/// The id under which a downloaded event is stored.
pub open spec fn stored_id(m: DbModel, calendar_id: i64, ev: CalDavEventView, text: Seq<char>, now: Timestamp) -> i64 {
    m.upsert_event(
        EventView {
            uid: ev.uid,
            etag: Some(ev.etag),
            ..event_record(calendar_id, spec_parse_event(text)->Ok_0, text, now)
        },
    ).1->Ok_0
}

/// An event downloaded and parsed is stored under its calendar and the UID
/// it is listed with, and read back with the ETag it is listed with, the
/// parsed properties, its iCalendar text and the modification time.
pub proof fn law_stored_event_carries_listing(
    m: DbModel,
    calendar_id: i64,
    ev: CalDavEventView,
    text: Seq<char>,
    now: Timestamp,
)
    requires
        m.wf(),
        crate::db::has_id(m.calendars, calendar_id),
        (spec_parse_event(text) is Ok),
        m.has_uid(calendar_id, ev.uid) || m.next_event_id < i64::MAX,
    ensures
        (spec_store_event(m, calendar_id, ev, Ok(text), now).1 is Ok),
        spec_store_event(m, calendar_id, ev, Ok(text), now).0.wf(),
        spec_store_event(m, calendar_id, ev, Ok(text), now).0.get_event_by_uid(calendar_id, ev.uid)
            == Some(
            (EventView {
                id: stored_id(m, calendar_id, ev, text, now),
                uid: ev.uid,
                etag: Some(ev.etag),
                ..event_record(calendar_id, spec_parse_event(text)->Ok_0, text, now)
            }),
        ),
{
    let p = spec_parse_event(text)->Ok_0;
    let rec = EventView { uid: ev.uid, etag: Some(ev.etag), ..event_record(calendar_id, p, text, now) };
    crate::db::lemma_upsert_event_wf(m, rec);
    crate::db::law_upsert_then_get_event(m, rec);
}

/// A sync whose calendar home cannot be discovered ends at once, with one
/// more error, which names the failure, nothing counted, and the store
/// untouched.
pub proof fn law_failed_discovery_ends_sync(
    s: SyncState,
    m: DbModel,
    e: CalDavErrorView,
    server: Seq<char>,
    now: Timestamp,
)
    requires
        s.phase is AwaitHome,
    ensures
        spec_step(s, m, SyncReplyView::CalendarHome(Err(e)), server, now).1 == m,
        (spec_step(s, m, SyncReplyView::CalendarHome(Err(e)), server, now).0.phase is Done),
        spec_step(s, m, SyncReplyView::CalendarHome(Err(e)), server, now).0.result == with_error(
            s.result,
            home_failure(caldav_message(e)),
        ),
{
}

/// An event whose download, parsing or storing fails leaves the store as
/// it was.
pub proof fn law_failed_store_changes_nothing(
    m: DbModel,
    calendar_id: i64,
    ev: CalDavEventView,
    data: Result<Seq<char>, CalDavErrorView>,
    now: Timestamp,
)
    requires
        (spec_store_event(m, calendar_id, ev, data, now).1 is Err),
    ensures
        spec_store_event(m, calendar_id, ev, data, now).0 == m,
{
}

/// A sync that gets through its calendar list leaves the account with
/// `last_sync` set to the sync's time and everything else as it was, and
/// the store consistent.
pub proof fn law_completed_sync_stamps_account(m: DbModel, account_id: i64, now: Timestamp)
    requires
        m.wf(),
        (m.get_account(account_id) is Some),
    ensures
        mark_synced(m, account_id, now).wf(),
        mark_synced(m, account_id, now).get_account(account_id) == Some(
            AccountView { last_sync: Some(now), ..m.get_account(account_id)->Some_0 },
        ),
{
    let a = m.get_account(account_id)->Some_0;
    let j = choose|j: int| 0 <= j < m.accounts.len() && #[trigger] m.accounts[j].ident() == account_id;
    assert(a == m.accounts[j]);
    let b = AccountView { last_sync: Some(now), ..a };
    assert(!m.account_name_taken(b.name, b.id)) by {
        if m.account_name_taken(b.name, b.id) {
            let k = choose|k: int|
                0 <= k < m.accounts.len() && #[trigger] m.accounts[k].name == b.name && m.accounts[k].id
                    != b.id;
            assert(k != j);
        }
    }
    crate::db::lemma_update_account_wf(m, b);
    crate::db::law_update_then_get_account(m, b);
}

// ---------------------------------------------------------------------------
// The counts of a whole sync
// ---------------------------------------------------------------------------

/// The counts of a result add up: every calendar passed was either synced
/// or reported, and every other report is a failed event (while neither
/// count has reached its largest value).
pub open spec fn counts_agree(s: SyncState) -> bool {
    (s.result.calendars_synced < usize::MAX && s.result.events_failed < usize::MAX) ==> s.result.errors.len()
        + s.result.calendars_synced == s.result.events_failed + s.cal_pos
}

/// The sync ended before it had any calendar: one error, nothing counted.
pub open spec fn ended_early(s: SyncState) -> bool {
    &&& s.result.errors.len() == 1
    &&& s.result.calendars_synced == 0
    &&& s.result.events_synced == 0
    &&& s.result.events_failed == 0
}

/// What the counts of a sync and the store say in each phase, against the
/// store `m0` the sync began with: before the calendar list is taken in
/// nothing is counted and the store is untouched; after it the counts add
/// up; at the end, either the sync ended early with the store untouched, or
/// every listed calendar was passed and the counts add up.
pub open spec fn accounted(s: SyncState, m0: DbModel, m: DbModel) -> bool {
    match s.phase {
        SyncPhase::Start | SyncPhase::AwaitHome | SyncPhase::AwaitCalendars => s.result
            == empty_result() && m == m0,
        SyncPhase::Done => (ended_early(s) && m == m0) || (counts_agree(s) && s.cal_pos
            == s.calendars.len()),
        _ => counts_agree(s),
    }
}

/// A sync run on a sequence of replies, with the time of each: every reply
/// of the kind waited for is taken in (see `spec_step`); the run stops at
/// the end of the replies or of the times, at a reply of another kind, or
/// when the sync is over.
pub open spec fn run_sync(
    s: SyncState,
    m: DbModel,
    replies: Seq<SyncReplyView>,
    times: Seq<Timestamp>,
    server: Seq<char>,
) -> (SyncState, DbModel)
    decreases replies.len(),
{
    if replies.len() == 0 || times.len() == 0 || !awaiting(s.phase) || !reply_answers(s.phase, replies[0]) {
        (s, m)
    } else {
        let (s1, m1) = spec_step(s, m, replies[0], server, times[0]);
        run_sync(s1, m1, replies.drop_first(), times.drop_first(), server)
    }
}

/// Settling keeps the invariant and the counts, keeps the calendar list,
/// rests in a phase that waits or ends, and ends only past the last calendar.
proof fn lemma_settle_counts(s: SyncState, m: DbModel, server: Seq<char>, now: Timestamp)
    requires
        s.inv(),
        passing(s.phase),
        counts_agree(s),
    ensures
        settle(s, m, server, now).0.inv(),
        counts_agree(settle(s, m, server, now).0),
        settle(s, m, server, now).0.calendars == s.calendars,
        settle(s, m, server, now).0.phase is AwaitEvents || settle(s, m, server, now).0.phase is AwaitEventData
            || settle(s, m, server, now).0.phase is Done,
        settle(s, m, server, now).0.phase is Done ==> settle(s, m, server, now).0.cal_pos
            == s.calendars.len(),
    decreases s.calendars.len() - s.cal_pos, s.events.len() - s.ev_pos,
{
    if s.cal_pos < 0 || s.cal_pos >= s.calendars.len() {
    } else if s.phase is NextCalendar {
        let info = s.calendars[s.cal_pos];
        let (m1, r) = spec_upsert_calendar(m, s.account_id, info);
        match r {
            Err(e) => {
                lemma_settle_counts(
                    SyncState {
                        cal_pos: s.cal_pos + 1,
                        result: with_error(s.result, calendar_failure(info.name, db_message(e))),
                        ..s
                    },
                    m1,
                    server,
                    now,
                );
            },
            Ok(id) => match url_join_result(server, info.url) {
                Err(msg) => {
                    lemma_settle_counts(
                        SyncState {
                            cal_pos: s.cal_pos + 1,
                            calendar_id: id,
                            result: with_error(s.result, calendar_failure(info.name, msg)),
                            ..s
                        },
                        m1,
                        server,
                        now,
                    );
                },
                Ok(_) => {},
            },
        }
    } else if s.ev_pos < 0 || s.ev_pos >= s.events.len() {
        lemma_settle_counts(
            SyncState {
                phase: SyncPhase::NextCalendar,
                cal_pos: s.cal_pos + 1,
                result: with_synced_calendar(s.result),
                ..s
            },
            m,
            server,
            now,
        );
    } else {
        let ev = s.events[s.ev_pos];
        if event_unchanged(m, s.calendar_id, ev) {
            lemma_settle_counts(SyncState { ev_pos: s.ev_pos + 1, ..s }, m, server, now);
        } else {
            match url_join_result(server, ev.url) {
                Err(msg) => {
                    lemma_settle_counts(
                        SyncState {
                            ev_pos: s.ev_pos + 1,
                            result: with_failed_event(
                                s.result,
                                event_failure(ev.uid, s.calendars[s.cal_pos].name, msg),
                            ),
                            ..s
                        },
                        m,
                        server,
                        now,
                    );
                },
                Ok(_) => {},
            }
        }
    }
}

/// One move keeps the invariant and what the counts and the store say.
proof fn lemma_step_counts(
    s: SyncState,
    m0: DbModel,
    m: DbModel,
    reply: SyncReplyView,
    server: Seq<char>,
    now: Timestamp,
)
    requires
        s.inv(),
        awaiting(s.phase),
        reply_answers(s.phase, reply),
        accounted(s, m0, m),
    ensures
        spec_step(s, m, reply, server, now).0.inv(),
        accounted(spec_step(s, m, reply, server, now).0, m0, spec_step(s, m, reply, server, now).1),
{
    match reply {
        SyncReplyView::CalendarHome(r) => {},
        SyncReplyView::Calendars(r) => match r {
            Err(e) => {},
            Ok(cals) => {
                lemma_settle_counts(
                    SyncState { phase: SyncPhase::NextCalendar, calendars: cals, cal_pos: 0, ..s },
                    m,
                    server,
                    now,
                );
            },
        },
        SyncReplyView::Events(r) => match r {
            Err(e) => {
                lemma_settle_counts(
                    SyncState {
                        phase: SyncPhase::NextCalendar,
                        cal_pos: s.cal_pos + 1,
                        result: with_error(
                            s.result,
                            calendar_failure(s.calendars[s.cal_pos].name, caldav_message(e)),
                        ),
                        ..s
                    },
                    m,
                    server,
                    now,
                );
            },
            Ok(evs) => {
                lemma_settle_counts(
                    SyncState { phase: SyncPhase::NextEvent, events: evs, ev_pos: 0, ..s },
                    m,
                    server,
                    now,
                );
            },
        },
        SyncReplyView::EventData(r) => {
            let ev = s.events[s.ev_pos];
            let (m1, out) = spec_store_event(m, s.calendar_id, ev, r, now);
            let res = match out {
                Ok(_) => with_synced_event(s.result),
                Err(e) => with_failed_event(
                    s.result,
                    event_failure(ev.uid, s.calendars[s.cal_pos].name, sync_message(e)),
                ),
            };
            lemma_settle_counts(
                SyncState { phase: SyncPhase::NextEvent, ev_pos: s.ev_pos + 1, result: res, ..s },
                m1,
                server,
                now,
            );
        },
    }
}

/// A run keeps the invariant and what the counts and the store say.
proof fn lemma_run_counts(
    s: SyncState,
    m0: DbModel,
    m: DbModel,
    replies: Seq<SyncReplyView>,
    times: Seq<Timestamp>,
    server: Seq<char>,
)
    requires
        s.inv(),
        accounted(s, m0, m),
    ensures
        run_sync(s, m, replies, times, server).0.inv(),
        accounted(run_sync(s, m, replies, times, server).0, m0, run_sync(s, m, replies, times, server).1),
    decreases replies.len(),
{
    if !(replies.len() == 0 || times.len() == 0 || !awaiting(s.phase) || !reply_answers(s.phase, replies[0])) {
        lemma_step_counts(s, m0, m, replies[0], server, times[0]);
        let (s1, m1) = spec_step(s, m, replies[0], server, times[0]);
        lemma_run_counts(s1, m0, m1, replies.drop_first(), times.drop_first(), server);
    }
}

/// The counts of a whole sync, whatever the server replies: a sync that
/// ends before it has the calendar list (discovery or listing failed) has
/// one error, nothing counted and the store untouched; any other sync
/// that ends has passed every listed calendar, each either counted as
/// synced or reported, and every other error is a failed event — the
/// errors number the failed calendars plus the failed events (while
/// neither count has reached its largest value).
pub proof fn law_sync_counts(
    account_id: i64,
    m: DbModel,
    replies: Seq<SyncReplyView>,
    times: Seq<Timestamp>,
    server: Seq<char>,
)
    ensures
        ({
            let (s, m2) = run_sync(spec_start(initial_state(account_id), server), m, replies, times, server);
            s.phase is Done ==> (ended_early(s) && m2 == m) || (s.cal_pos == s.calendars.len()
                && counts_agree(s))
        }),
{
    let s0 = spec_start(initial_state(account_id), server);
    assert(initial_state(account_id).inv());
    lemma_run_counts(s0, m, m, replies, times, server);
}

/// At an event whose stored ETag matches the listed one, the sync passes
/// over that event alone: it goes on with the next event of the listing,
/// with the same store and the same result.
pub proof fn law_unchanged_event_passed_alone(s: SyncState, m: DbModel, server: Seq<char>, now: Timestamp)
    requires
        s.phase is NextEvent,
        0 <= s.cal_pos < s.calendars.len(),
        0 <= s.ev_pos < s.events.len(),
        event_unchanged(m, s.calendar_id, s.events[s.ev_pos]),
    ensures
        settle(s, m, server, now) == settle(SyncState { ev_pos: s.ev_pos + 1, ..s }, m, server, now),
{
}

/// Every listed event whose stored ETag differs from the listed one (or
/// that is not stored) is asked for, wherever it stands in the listing:
/// after the unchanged events before it are passed over, the sync waits
/// for that event's data, with the store and the result as they were.
pub proof fn law_changed_event_requested(
    s: SyncState,
    m: DbModel,
    server: Seq<char>,
    now: Timestamp,
    j: int,
)
    requires
        s.phase is NextEvent,
        0 <= s.cal_pos < s.calendars.len(),
        0 <= s.ev_pos <= j < s.events.len(),
        forall|k: int| s.ev_pos <= k < j ==> event_unchanged(m, s.calendar_id, #[trigger] s.events[k]),
        !event_unchanged(m, s.calendar_id, s.events[j]),
        url_join_result(server, s.events[j].url) is Ok,
    ensures
        settle(s, m, server, now) == (
            SyncState { phase: SyncPhase::AwaitEventData, ev_pos: j, target: s.events[j].url, ..s },
            m,
        ),
    decreases j - s.ev_pos,
{
    if s.ev_pos < j {
        assert(event_unchanged(m, s.calendar_id, s.events[s.ev_pos]));
        let t = SyncState { ev_pos: s.ev_pos + 1, ..s };
        law_changed_event_requested(t, m, server, now, j);
    }
}

} // verus!
