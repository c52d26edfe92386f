//! CalDAV: the calendars and events a server lists, read from its WebDAV
//! multistatus responses, and the requests the client sends.

use crate::text::{chars_of, owned, string_of};
use crate::xml::{
    bytes_is, has_uid_name, name_is, read_xml_events, tag_has_uid_name, xml_stream, XmlEvent,
};
use vstd::prelude::*;

verus! {

broadcast use vstd::string::group_string_axioms;

/// The CalDAV exchange an HTTP status belongs to.
#[derive(Clone, Copy, Debug, PartialEq, Eq, Structural)]
pub enum DavOperation {
    Discovery,
    ListCalendars,
    ListEvents,
    GetEvent,
}

/// Why a CalDAV exchange failed.
#[derive(Clone, Debug)]
pub enum CalDavError {
    /// A URL could not be parsed or joined, with the URL parser's message.
    InvalidUrl(String),
    /// The server answered with a status outside 200..=299.
    Status { operation: DavOperation, code: u16 },
    /// The response is not well-formed XML, with the XML reader's message.
    Xml(String),
    /// Character data of the response could not be unescaped, with the XML
    /// reader's message.
    Unescape(String),
    /// The discovery response names no calendar home.
    NoCalendarHome,
    /// The request could not be sent or its response not received, with
    /// the HTTP client's message.
    Transport(String),
}

/// A `CalDavError` with its messages as character sequences.
pub enum CalDavErrorView {
    InvalidUrl(Seq<char>),
    Status { operation: DavOperation, code: u16 },
    Xml(Seq<char>),
    Unescape(Seq<char>),
    NoCalendarHome,
    Transport(Seq<char>),
}

impl View for CalDavError {
    type V = CalDavErrorView;

    open spec fn view(&self) -> CalDavErrorView {
        match self {
            CalDavError::InvalidUrl(m) => CalDavErrorView::InvalidUrl(m@),
            CalDavError::Status { operation, code } => CalDavErrorView::Status {
                operation: *operation,
                code: *code,
            },
            CalDavError::Xml(m) => CalDavErrorView::Xml(m@),
            CalDavError::Unescape(m) => CalDavErrorView::Unescape(m@),
            CalDavError::NoCalendarHome => CalDavErrorView::NoCalendarHome,
            CalDavError::Transport(m) => CalDavErrorView::Transport(m@),
        }
    }
}

/// Represents a CalDAV calendar collection
#[derive(Clone, Debug)]
pub struct CalendarInfo {
    /// Calendar display name
    pub name: String,
    /// Calendar URL
    pub url: String,
    /// Calendar color (optional)
    pub color: Option<String>,
}

/// A calendar collection with its text as character sequences.
pub struct CalendarInfoView {
    pub name: Seq<char>,
    pub url: Seq<char>,
    pub color: Option<Seq<char>>,
}

impl View for CalendarInfo {
    type V = CalendarInfoView;

    open spec fn view(&self) -> CalendarInfoView {
        CalendarInfoView { name: self.name@, url: self.url@, color: crate::ical::opt_view(self.color) }
    }
}

/// Represents a calendar event from CalDAV
#[derive(Clone, Debug)]
pub struct CalDavEvent {
    /// Event UID
    pub uid: String,
    /// Event URL (for fetching full data)
    pub url: String,
    /// ETag for change detection
    pub etag: String,
}

/// An event listing entry with its text as character sequences.
pub struct CalDavEventView {
    pub uid: Seq<char>,
    pub url: Seq<char>,
    pub etag: Seq<char>,
}

impl View for CalDavEvent {
    type V = CalDavEventView;

    open spec fn view(&self) -> CalDavEventView {
        CalDavEventView { uid: self.uid@, url: self.url@, etag: self.etag@ }
    }
}

/// The views of a list of calendars.
pub open spec fn calendars_view(v: Seq<CalendarInfo>) -> Seq<CalendarInfoView> {
    v.map_values(|c: CalendarInfo| c@)
}

/// The views of a list of events.
pub open spec fn events_view(v: Seq<CalDavEvent>) -> Seq<CalDavEventView> {
    v.map_values(|e: CalDavEvent| e@)
}

// ---------------------------------------------------------------------------
// Element names, as written in the responses of the servers in use
// ---------------------------------------------------------------------------

pub open spec fn is_home_set_name(n: Seq<u8>) -> bool {
    bytes_is(n, "calendar-home-set"@) || bytes_is(n, "C:calendar-home-set"@)
}

pub open spec fn is_href_name(n: Seq<u8>) -> bool {
    bytes_is(n, "href"@) || bytes_is(n, "d:href"@) || bytes_is(n, "D:href"@)
}

pub open spec fn is_response_name(n: Seq<u8>) -> bool {
    bytes_is(n, "response"@) || bytes_is(n, "d:response"@) || bytes_is(n, "D:response"@)
}

pub open spec fn is_displayname_name(n: Seq<u8>) -> bool {
    bytes_is(n, "displayname"@) || bytes_is(n, "d:displayname"@) || bytes_is(n, "D:displayname"@)
}

pub open spec fn is_color_name(n: Seq<u8>) -> bool {
    bytes_is(n, "calendar-color"@) || bytes_is(n, "CS:calendar-color"@)
}

pub open spec fn is_resourcetype_name(n: Seq<u8>) -> bool {
    bytes_is(n, "resourcetype"@) || bytes_is(n, "d:resourcetype"@) || bytes_is(
        n,
        "D:resourcetype"@,
    )
}

pub open spec fn is_calendar_name(n: Seq<u8>) -> bool {
    bytes_is(n, "calendar"@) || bytes_is(n, "C:calendar"@)
}

pub open spec fn is_getetag_name(n: Seq<u8>) -> bool {
    bytes_is(n, "getetag"@) || bytes_is(n, "d:getetag"@) || bytes_is(n, "D:getetag"@)
}

pub open spec fn is_prop_name(n: Seq<u8>) -> bool {
    bytes_is(n, "prop"@) || bytes_is(n, "C:prop"@) || bytes_is(n, "c:prop"@)
}

fn home_set_name(n: &[u8]) -> (r: bool)
    ensures
        r == is_home_set_name(n@),
{
    name_is(n, "calendar-home-set") || name_is(n, "C:calendar-home-set")
}

fn href_name(n: &[u8]) -> (r: bool)
    ensures
        r == is_href_name(n@),
{
    name_is(n, "href") || name_is(n, "d:href") || name_is(n, "D:href")
}

fn response_name(n: &[u8]) -> (r: bool)
    ensures
        r == is_response_name(n@),
{
    name_is(n, "response") || name_is(n, "d:response") || name_is(n, "D:response")
}

fn displayname_name(n: &[u8]) -> (r: bool)
    ensures
        r == is_displayname_name(n@),
{
    name_is(n, "displayname") || name_is(n, "d:displayname") || name_is(n, "D:displayname")
}

fn color_name(n: &[u8]) -> (r: bool)
    ensures
        r == is_color_name(n@),
{
    name_is(n, "calendar-color") || name_is(n, "CS:calendar-color")
}

fn resourcetype_name(n: &[u8]) -> (r: bool)
    ensures
        r == is_resourcetype_name(n@),
{
    name_is(n, "resourcetype") || name_is(n, "d:resourcetype") || name_is(n, "D:resourcetype")
}

fn calendar_name(n: &[u8]) -> (r: bool)
    ensures
        r == is_calendar_name(n@),
{
    name_is(n, "calendar") || name_is(n, "C:calendar")
}

fn getetag_name(n: &[u8]) -> (r: bool)
    ensures
        r == is_getetag_name(n@),
{
    name_is(n, "getetag") || name_is(n, "d:getetag") || name_is(n, "D:getetag")
}

fn prop_name(n: &[u8]) -> (r: bool)
    ensures
        r == is_prop_name(n@),
{
    name_is(n, "prop") || name_is(n, "C:prop") || name_is(n, "c:prop")
}

// ---------------------------------------------------------------------------
// Calendar home (PROPFIND calendar-home-set)
// ---------------------------------------------------------------------------

/// The message of an XML reader that overran its document.
pub open spec fn overrun_message() -> Seq<char> {
    "more events than characters of input"@
}

/// The message of `overrun_message`.
fn overrun_text() -> (r: String)
    ensures
        r@ == overrun_message(),
{
    owned("more events than characters of input")
}

/// Where the scan for the calendar home stands.
#[derive(Clone, Copy, Debug, PartialEq, Eq, Structural)]
pub struct HomeScan {
    pub in_home_set: bool,
    pub in_href: bool,
}

/// The calendar home named by the events from `i` on: the first character
/// data inside an `href` opened inside `calendar-home-set`.
pub open spec fn home_scan(evs: Seq<XmlEvent>, i: nat, st: HomeScan) -> Result<
    Seq<char>,
    CalDavErrorView,
>
    decreases evs.len() - i,
{
    if i >= evs.len() {
        Err(CalDavErrorView::NoCalendarHome)
    } else {
        match evs[i as int] {
            XmlEvent::Start(t) => {
                let st2 = if is_home_set_name(t.name@) {
                    HomeScan { in_home_set: true, in_href: st.in_href }
                } else if is_href_name(t.name@) && st.in_home_set {
                    HomeScan { in_home_set: st.in_home_set, in_href: true }
                } else {
                    st
                };
                home_scan(evs, i + 1, st2)
            },
            XmlEvent::Text(s) => if st.in_href {
                Ok(s@)
            } else {
                home_scan(evs, i + 1, st)
            },
            XmlEvent::TextError(m) => if st.in_href {
                Err(CalDavErrorView::Unescape(m@))
            } else {
                home_scan(evs, i + 1, st)
            },
            XmlEvent::End(n) => {
                let st2 = if is_home_set_name(n@) {
                    HomeScan { in_home_set: false, in_href: st.in_href }
                } else if is_href_name(n@) {
                    HomeScan { in_home_set: st.in_home_set, in_href: false }
                } else {
                    st
                };
                home_scan(evs, i + 1, st2)
            },
            XmlEvent::Eof => Err(CalDavErrorView::NoCalendarHome),
            XmlEvent::Error(m) => Err(CalDavErrorView::Xml(m@)),
            XmlEvent::Overrun => Err(CalDavErrorView::Xml(overrun_message())),
            _ => home_scan(evs, i + 1, st),
        }
    }
}

/// The calendar home named by a discovery response's events.
pub open spec fn spec_calendar_home(evs: Seq<XmlEvent>) -> Result<Seq<char>, CalDavErrorView> {
    home_scan(evs, 0, HomeScan { in_home_set: false, in_href: false })
}

/// The calendar home named by the events of a PROPFIND response for
/// `calendar-home-set`.
pub fn calendar_home_from_events(evs: &[XmlEvent]) -> (r: Result<String, CalDavError>)
    ensures
        match r {
            Ok(s) => spec_calendar_home(evs@) == Ok::<Seq<char>, CalDavErrorView>(s@),
            Err(e) => spec_calendar_home(evs@) == Err::<Seq<char>, CalDavErrorView>(e@),
        },
{
    let mut st = HomeScan { in_home_set: false, in_href: false };
    let mut i: usize = 0;
    while i < evs.len()
        invariant
            i <= evs.len(),
            home_scan(evs@, i as nat, st) == spec_calendar_home(evs@),
        decreases evs.len() - i,
    {
        match &evs[i] {
            XmlEvent::Start(t) => {
                if home_set_name(t.name.as_slice()) {
                    st = HomeScan { in_home_set: true, in_href: st.in_href };
                } else if href_name(t.name.as_slice()) && st.in_home_set {
                    st = HomeScan { in_home_set: st.in_home_set, in_href: true };
                }
            },
            XmlEvent::Text(s) => {
                if st.in_href {
                    return Ok(s.clone());
                }
            },
            XmlEvent::TextError(m) => {
                if st.in_href {
                    return Err(CalDavError::Unescape(m.clone()));
                }
            },
            XmlEvent::End(n) => {
                if home_set_name(n.as_slice()) {
                    st = HomeScan { in_home_set: false, in_href: st.in_href };
                } else if href_name(n.as_slice()) {
                    st = HomeScan { in_home_set: st.in_home_set, in_href: false };
                }
            },
            XmlEvent::Eof => {
                return Err(CalDavError::NoCalendarHome);
            },
            XmlEvent::Error(m) => {
                return Err(CalDavError::Xml(m.clone()));
            },
            XmlEvent::Overrun => {
                return Err(CalDavError::Xml(overrun_text()));
            },
            _ => {},
        }
        i = i + 1;
    }
    Err(CalDavError::NoCalendarHome)
}

/// Parse calendar home URL from PROPFIND response: the text of the first
/// `href` inside `calendar-home-set`.
pub fn parse_calendar_home(xml: &str) -> (r: Result<String, CalDavError>)
    ensures
        match r {
            Ok(s) => spec_calendar_home(xml_stream(xml@)) == Ok::<Seq<char>, CalDavErrorView>(s@),
            Err(e) => spec_calendar_home(xml_stream(xml@)) == Err::<Seq<char>, CalDavErrorView>(e@),
        },
{
    let evs = read_xml_events(xml);
    calendar_home_from_events(evs.as_slice())
}


// ---------------------------------------------------------------------------
// Calendar list (PROPFIND depth 1 on the calendar home)
// ---------------------------------------------------------------------------

/// Where the scan of a calendar listing stands.
pub struct CalScan {
    pub url: Option<Seq<char>>,
    pub name: Option<Seq<char>>,
    pub color: Option<Seq<char>>,
    pub is_cal: bool,
    pub in_response: bool,
    pub in_href: bool,
    pub in_displayname: bool,
    pub in_color: bool,
    pub in_resourcetype: bool,
}

/// The scan state after a start or empty-element tag named `n`.
pub open spec fn cal_on_tag(st: CalScan, n: Seq<u8>) -> CalScan {
    if is_response_name(n) {
        CalScan { in_response: true, url: None, name: None, color: None, is_cal: false, ..st }
    } else if is_href_name(n) && st.in_response && st.url is None {
        CalScan { in_href: true, ..st }
    } else if is_displayname_name(n) {
        CalScan { in_displayname: true, ..st }
    } else if is_color_name(n) {
        CalScan { in_color: true, ..st }
    } else if is_resourcetype_name(n) {
        CalScan { in_resourcetype: true, ..st }
    } else if is_calendar_name(n) && st.in_resourcetype {
        CalScan { is_cal: true, ..st }
    } else {
        st
    }
}

/// Character data is taken in by the scan (as URL, name or color).
pub open spec fn cal_wants_text(st: CalScan) -> bool {
    st.in_href || st.in_displayname || st.in_color
}

/// The scan state after character data `s`.
pub open spec fn cal_on_text(st: CalScan, s: Seq<char>) -> CalScan {
    if st.in_href {
        CalScan { url: Some(s), ..st }
    } else if st.in_displayname {
        CalScan { name: Some(s), ..st }
    } else if st.in_color {
        CalScan { color: Some(s), ..st }
    } else {
        st
    }
}

/// The calendar a response element describes, when it is a calendar with a URL.
pub open spec fn cal_completed(st: CalScan) -> Option<CalendarInfoView> {
    if st.is_cal && st.url is Some {
        Some(
            CalendarInfoView {
                name: match st.name {
                    Some(n) => n,
                    None => "Unnamed Calendar"@,
                },
                url: st.url->0,
                color: st.color,
            },
        )
    } else {
        None
    }
}

/// The scan state after an end tag named `n`.
pub open spec fn cal_on_end(st: CalScan, n: Seq<u8>) -> CalScan {
    if is_response_name(n) {
        if cal_completed(st) is Some {
            CalScan { in_response: false, url: None, name: None, color: None, ..st }
        } else {
            CalScan { in_response: false, ..st }
        }
    } else if is_href_name(n) {
        CalScan { in_href: false, ..st }
    } else if is_displayname_name(n) {
        CalScan { in_displayname: false, ..st }
    } else if is_color_name(n) {
        CalScan { in_color: false, ..st }
    } else if is_resourcetype_name(n) {
        CalScan { in_resourcetype: false, ..st }
    } else {
        st
    }
}

/// The calendars listed by the events from `i` on, after `acc`: each
/// `response` whose `resourcetype` holds `calendar` and that has an `href`
/// gives one calendar, in document order.
pub open spec fn cal_scan(evs: Seq<XmlEvent>, i: nat, st: CalScan, acc: Seq<CalendarInfoView>) -> Result<
    Seq<CalendarInfoView>,
    CalDavErrorView,
>
    decreases evs.len() - i,
{
    if i >= evs.len() {
        Ok(acc)
    } else {
        match evs[i as int] {
            XmlEvent::Start(t) => cal_scan(evs, i + 1, cal_on_tag(st, t.name@), acc),
            XmlEvent::Empty(t) => cal_scan(evs, i + 1, cal_on_tag(st, t.name@), acc),
            XmlEvent::Text(s) => cal_scan(evs, i + 1, cal_on_text(st, s@), acc),
            XmlEvent::TextError(m) => if cal_wants_text(st) {
                Err(CalDavErrorView::Unescape(m@))
            } else {
                cal_scan(evs, i + 1, st, acc)
            },
            XmlEvent::End(n) => {
                let acc2 = if is_response_name(n@) && cal_completed(st) is Some {
                    acc.push(cal_completed(st)->0)
                } else {
                    acc
                };
                cal_scan(evs, i + 1, cal_on_end(st, n@), acc2)
            },
            XmlEvent::Eof => Ok(acc),
            XmlEvent::Error(m) => Err(CalDavErrorView::Xml(m@)),
            XmlEvent::Overrun => Err(CalDavErrorView::Xml(overrun_message())),
            XmlEvent::Other => cal_scan(evs, i + 1, st, acc),
        }
    }
}

/// The initial state of a calendar listing scan.
pub open spec fn cal_initial() -> CalScan {
    CalScan {
        url: None,
        name: None,
        color: None,
        is_cal: false,
        in_response: false,
        in_href: false,
        in_displayname: false,
        in_color: false,
        in_resourcetype: false,
    }
}

/// The calendars listed by a PROPFIND response's events.
pub open spec fn spec_calendars(evs: Seq<XmlEvent>) -> Result<Seq<CalendarInfoView>, CalDavErrorView> {
    cal_scan(evs, 0, cal_initial(), Seq::empty())
}

/// The executable state of a calendar listing scan.
struct CalState {
    url: Option<String>,
    name: Option<String>,
    color: Option<String>,
    is_cal: bool,
    in_response: bool,
    in_href: bool,
    in_displayname: bool,
    in_color: bool,
    in_resourcetype: bool,
}

impl View for CalState {
    type V = CalScan;

    closed spec fn view(&self) -> CalScan {
        CalScan {
            url: crate::ical::opt_view(self.url),
            name: crate::ical::opt_view(self.name),
            color: crate::ical::opt_view(self.color),
            is_cal: self.is_cal,
            in_response: self.in_response,
            in_href: self.in_href,
            in_displayname: self.in_displayname,
            in_color: self.in_color,
            in_resourcetype: self.in_resourcetype,
        }
    }
}

impl CalState {
    fn on_tag(&mut self, n: &[u8])
        ensures
            final(self)@ == cal_on_tag(old(self)@, n@),
    {
        if response_name(n) {
            self.in_response = true;
            self.url = None;
            self.name = None;
            self.color = None;
            self.is_cal = false;
        } else if href_name(n) && self.in_response && self.url.is_none() {
            self.in_href = true;
        } else if displayname_name(n) {
            self.in_displayname = true;
        } else if color_name(n) {
            self.in_color = true;
        } else if resourcetype_name(n) {
            self.in_resourcetype = true;
        } else if calendar_name(n) && self.in_resourcetype {
            self.is_cal = true;
        }
    }

    fn on_text(&mut self, s: &String)
        ensures
            final(self)@ == cal_on_text(old(self)@, s@),
    {
        if self.in_href {
            self.url = Some(s.clone());
        } else if self.in_displayname {
            self.name = Some(s.clone());
        } else if self.in_color {
            self.color = Some(s.clone());
        }
    }

    /// Ends a tag named `n`, giving the calendar that a closing `response` completes.
    fn on_end(&mut self, n: &[u8]) -> (r: Option<CalendarInfo>)
        ensures
            final(self)@ == cal_on_end(old(self)@, n@),
            match r {
                Some(c) => is_response_name(n@) && cal_completed(old(self)@) == Some(c@),
                None => !(is_response_name(n@) && cal_completed(old(self)@) is Some),
            },
    {
        if response_name(n) {
            let mut done: Option<CalendarInfo> = None;
            if self.is_cal && self.url.is_some() {
                let url = self.url.take().unwrap();
                let name = match self.name.take() {
                    Some(nm) => nm,
                    None => owned("Unnamed Calendar"),
                };
                let color = self.color.take();
                done = Some(CalendarInfo { name, url, color });
            }
            self.in_response = false;
            done
        } else {
            if href_name(n) {
                self.in_href = false;
            } else if displayname_name(n) {
                self.in_displayname = false;
            } else if color_name(n) {
                self.in_color = false;
            } else if resourcetype_name(n) {
                self.in_resourcetype = false;
            }
            None
        }
    }
}

/// The calendars listed by the events of a PROPFIND (depth 1) response.
pub fn calendars_from_events(evs: &[XmlEvent]) -> (r: Result<Vec<CalendarInfo>, CalDavError>)
    ensures
        match r {
            Ok(v) => spec_calendars(evs@) == Ok::<Seq<CalendarInfoView>, CalDavErrorView>(
                calendars_view(v@),
            ),
            Err(e) => spec_calendars(evs@) == Err::<Seq<CalendarInfoView>, CalDavErrorView>(e@),
        },
{
    let mut st = CalState {
        url: None,
        name: None,
        color: None,
        is_cal: false,
        in_response: false,
        in_href: false,
        in_displayname: false,
        in_color: false,
        in_resourcetype: false,
    };
    let mut acc: Vec<CalendarInfo> = Vec::new();
    let mut i: usize = 0;
    assert(calendars_view(acc@) =~= Seq::<CalendarInfoView>::empty());
    while i < evs.len()
        invariant
            i <= evs.len(),
            cal_scan(evs@, i as nat, st@, calendars_view(acc@)) == spec_calendars(evs@),
        decreases evs.len() - i,
    {
        match &evs[i] {
            XmlEvent::Start(t) => {
                st.on_tag(t.name.as_slice());
            },
            XmlEvent::Empty(t) => {
                st.on_tag(t.name.as_slice());
            },
            XmlEvent::Text(s) => {
                st.on_text(s);
            },
            XmlEvent::TextError(m) => {
                if st.in_href || st.in_displayname || st.in_color {
                    return Err(CalDavError::Unescape(m.clone()));
                }
            },
            XmlEvent::End(n) => {
                let ghost before = acc@;
                match st.on_end(n.as_slice()) {
                    Some(c) => {
                        acc.push(c);
                        assert(calendars_view(acc@) =~= calendars_view(before).push(c@));
                    },
                    None => {},
                }
            },
            XmlEvent::Eof => {
                return Ok(acc);
            },
            XmlEvent::Error(m) => {
                return Err(CalDavError::Xml(m.clone()));
            },
            XmlEvent::Overrun => {
                return Err(CalDavError::Xml(overrun_text()));
            },
            XmlEvent::Other => {},
        }
        i = i + 1;
    }
    Ok(acc)
}

/// Parse calendar list from PROPFIND response.
pub fn parse_calendars(xml: &str) -> (r: Result<Vec<CalendarInfo>, CalDavError>)
    ensures
        match r {
            Ok(v) => spec_calendars(xml_stream(xml@)) == Ok::<Seq<CalendarInfoView>, CalDavErrorView>(
                calendars_view(v@),
            ),
            Err(e) => spec_calendars(xml_stream(xml@)) == Err::<Seq<CalendarInfoView>, CalDavErrorView>(
                e@,
            ),
        },
{
    let evs = read_xml_events(xml);
    calendars_from_events(evs.as_slice())
}

// ---------------------------------------------------------------------------
// Event list (calendar-query REPORT)
// ---------------------------------------------------------------------------

/// Where the scan of an event listing stands.
pub struct EvScan {
    pub url: Option<Seq<char>>,
    pub etag: Option<Seq<char>>,
    pub uid: Option<Seq<char>>,
    pub in_response: bool,
    pub in_href: bool,
    pub in_getetag: bool,
    pub in_uid_prop: bool,
}

/// The scan state after a start or empty-element tag.
pub open spec fn ev_on_tag(st: EvScan, n: Seq<u8>, attrs: Seq<Option<crate::xml::XmlAttribute>>) -> EvScan {
    if is_response_name(n) {
        EvScan { in_response: true, url: None, etag: None, uid: None, ..st }
    } else if is_href_name(n) && st.in_response && st.url is None {
        EvScan { in_href: true, ..st }
    } else if is_getetag_name(n) {
        EvScan { in_getetag: true, ..st }
    } else if is_prop_name(n) && has_uid_name(attrs) {
        EvScan { in_uid_prop: true, ..st }
    } else {
        st
    }
}

/// Character data is taken in by the scan (as URL, ETag or UID).
pub open spec fn ev_wants_text(st: EvScan) -> bool {
    st.in_href || st.in_getetag || st.in_uid_prop
}

/// The scan state after character data `s`; an ETag loses its quotes.
pub open spec fn ev_on_text(st: EvScan, s: Seq<char>) -> EvScan {
    if st.in_href {
        EvScan { url: Some(s), ..st }
    } else if st.in_getetag {
        EvScan { etag: Some(crate::text::trim_quotes(s)), ..st }
    } else if st.in_uid_prop {
        EvScan { uid: Some(s), ..st }
    } else {
        st
    }
}

/// The event a response element describes, when it has URL, ETag and UID.
pub open spec fn ev_completed(st: EvScan) -> Option<CalDavEventView> {
    if st.url is Some && st.etag is Some && st.uid is Some {
        Some(CalDavEventView { uid: st.uid->0, url: st.url->0, etag: st.etag->0 })
    } else {
        None
    }
}

/// The scan state after an end tag named `n`.
pub open spec fn ev_on_end(st: EvScan, n: Seq<u8>) -> EvScan {
    if is_response_name(n) {
        EvScan { in_response: false, url: None, etag: None, uid: None, ..st }
    } else if is_href_name(n) {
        EvScan { in_href: false, ..st }
    } else if is_getetag_name(n) {
        EvScan { in_getetag: false, ..st }
    } else if is_prop_name(n) {
        EvScan { in_uid_prop: false, ..st }
    } else {
        st
    }
}

/// The events listed by the events from `i` on, after `acc`: each
/// `response` with an `href`, a `getetag` and a `prop name="UID"` gives one
/// event, in document order.
pub open spec fn ev_scan(evs: Seq<XmlEvent>, i: nat, st: EvScan, acc: Seq<CalDavEventView>) -> Result<
    Seq<CalDavEventView>,
    CalDavErrorView,
>
    decreases evs.len() - i,
{
    if i >= evs.len() {
        Ok(acc)
    } else {
        match evs[i as int] {
            XmlEvent::Start(t) => ev_scan(evs, i + 1, ev_on_tag(st, t.name@, t.attributes@), acc),
            XmlEvent::Empty(t) => ev_scan(evs, i + 1, ev_on_tag(st, t.name@, t.attributes@), acc),
            XmlEvent::Text(s) => ev_scan(evs, i + 1, ev_on_text(st, s@), acc),
            XmlEvent::TextError(m) => if ev_wants_text(st) {
                Err(CalDavErrorView::Unescape(m@))
            } else {
                ev_scan(evs, i + 1, st, acc)
            },
            XmlEvent::End(n) => {
                let acc2 = if is_response_name(n@) && ev_completed(st) is Some {
                    acc.push(ev_completed(st)->0)
                } else {
                    acc
                };
                ev_scan(evs, i + 1, ev_on_end(st, n@), acc2)
            },
            XmlEvent::Eof => Ok(acc),
            XmlEvent::Error(m) => Err(CalDavErrorView::Xml(m@)),
            XmlEvent::Overrun => Err(CalDavErrorView::Xml(overrun_message())),
            XmlEvent::Other => ev_scan(evs, i + 1, st, acc),
        }
    }
}

/// The initial state of an event listing scan.
pub open spec fn ev_initial() -> EvScan {
    EvScan {
        url: None,
        etag: None,
        uid: None,
        in_response: false,
        in_href: false,
        in_getetag: false,
        in_uid_prop: false,
    }
}

/// The events listed by a REPORT response's events.
pub open spec fn spec_events(evs: Seq<XmlEvent>) -> Result<Seq<CalDavEventView>, CalDavErrorView> {
    ev_scan(evs, 0, ev_initial(), Seq::empty())
}

/// The executable state of an event listing scan.
struct EvState {
    url: Option<String>,
    etag: Option<String>,
    uid: Option<String>,
    in_response: bool,
    in_href: bool,
    in_getetag: bool,
    in_uid_prop: bool,
}

impl View for EvState {
    type V = EvScan;

    closed spec fn view(&self) -> EvScan {
        EvScan {
            url: crate::ical::opt_view(self.url),
            etag: crate::ical::opt_view(self.etag),
            uid: crate::ical::opt_view(self.uid),
            in_response: self.in_response,
            in_href: self.in_href,
            in_getetag: self.in_getetag,
            in_uid_prop: self.in_uid_prop,
        }
    }
}

impl EvState {
    fn on_tag(&mut self, t: &crate::xml::XmlTag)
        ensures
            final(self)@ == ev_on_tag(old(self)@, t.name@, t.attributes@),
    {
        let n = t.name.as_slice();
        if response_name(n) {
            self.in_response = true;
            self.url = None;
            self.etag = None;
            self.uid = None;
        } else if href_name(n) && self.in_response && self.url.is_none() {
            self.in_href = true;
        } else if getetag_name(n) {
            self.in_getetag = true;
        } else if prop_name(n) {
            if tag_has_uid_name(&t.attributes) {
                self.in_uid_prop = true;
            }
        }
    }

    fn on_text(&mut self, s: &String)
        ensures
            final(self)@ == ev_on_text(old(self)@, s@),
    {
        if self.in_href {
            self.url = Some(s.clone());
        } else if self.in_getetag {
            self.etag = Some(crate::text::trim_quotes_of(s.as_str()));
        } else if self.in_uid_prop {
            self.uid = Some(s.clone());
        }
    }

    /// Ends a tag named `n`, giving the event that a closing `response` completes.
    fn on_end(&mut self, n: &[u8]) -> (r: Option<CalDavEvent>)
        ensures
            final(self)@ == ev_on_end(old(self)@, n@),
            match r {
                Some(e) => is_response_name(n@) && ev_completed(old(self)@) == Some(e@),
                None => !(is_response_name(n@) && ev_completed(old(self)@) is Some),
            },
    {
        if response_name(n) {
            let url = self.url.take();
            let etag = self.etag.take();
            let uid = self.uid.take();
            self.in_response = false;
            match (url, etag, uid) {
                (Some(url), Some(etag), Some(uid)) => Some(CalDavEvent { uid, url, etag }),
                _ => None,
            }
        } else {
            if href_name(n) {
                self.in_href = false;
            } else if getetag_name(n) {
                self.in_getetag = false;
            } else if prop_name(n) {
                self.in_uid_prop = false;
            }
            None
        }
    }
}

/// The events listed by the events of a calendar-query REPORT response.
pub fn caldav_events_from_events(evs: &[XmlEvent]) -> (r: Result<Vec<CalDavEvent>, CalDavError>)
    ensures
        match r {
            Ok(v) => spec_events(evs@) == Ok::<Seq<CalDavEventView>, CalDavErrorView>(
                events_view(v@),
            ),
            Err(e) => spec_events(evs@) == Err::<Seq<CalDavEventView>, CalDavErrorView>(e@),
        },
{
    let mut st = EvState {
        url: None,
        etag: None,
        uid: None,
        in_response: false,
        in_href: false,
        in_getetag: false,
        in_uid_prop: false,
    };
    let mut acc: Vec<CalDavEvent> = Vec::new();
    let mut i: usize = 0;
    assert(events_view(acc@) =~= Seq::<CalDavEventView>::empty());
    while i < evs.len()
        invariant
            i <= evs.len(),
            ev_scan(evs@, i as nat, st@, events_view(acc@)) == spec_events(evs@),
        decreases evs.len() - i,
    {
        match &evs[i] {
            XmlEvent::Start(t) => {
                st.on_tag(t);
            },
            XmlEvent::Empty(t) => {
                st.on_tag(t);
            },
            XmlEvent::Text(s) => {
                st.on_text(s);
            },
            XmlEvent::TextError(m) => {
                if st.in_href || st.in_getetag || st.in_uid_prop {
                    return Err(CalDavError::Unescape(m.clone()));
                }
            },
            XmlEvent::End(n) => {
                let ghost before = acc@;
                match st.on_end(n.as_slice()) {
                    Some(e) => {
                        acc.push(e);
                        assert(events_view(acc@) =~= events_view(before).push(e@));
                    },
                    None => {},
                }
            },
            XmlEvent::Eof => {
                return Ok(acc);
            },
            XmlEvent::Error(m) => {
                return Err(CalDavError::Xml(m.clone()));
            },
            XmlEvent::Overrun => {
                return Err(CalDavError::Xml(overrun_text()));
            },
            XmlEvent::Other => {},
        }
        i = i + 1;
    }
    Ok(acc)
}

/// Parse event list from calendar-query REPORT response.
pub fn parse_events(xml: &str) -> (r: Result<Vec<CalDavEvent>, CalDavError>)
    ensures
        match r {
            Ok(v) => spec_events(xml_stream(xml@)) == Ok::<Seq<CalDavEventView>, CalDavErrorView>(
                events_view(v@),
            ),
            Err(e) => spec_events(xml_stream(xml@)) == Err::<Seq<CalDavEventView>, CalDavErrorView>(e@),
        },
{
    let evs = read_xml_events(xml);
    caldav_events_from_events(evs.as_slice())
}

// ---------------------------------------------------------------------------
// Messages
// ---------------------------------------------------------------------------

/// How an exchange is named in messages.
pub open spec fn operation_text(op: DavOperation) -> Seq<char> {
    match op {
        DavOperation::Discovery => "Calendar discovery"@,
        DavOperation::ListCalendars => "List calendars"@,
        DavOperation::ListEvents => "List events"@,
        DavOperation::GetEvent => "Get event"@,
    }
}

/// The reason phrase the `http` crate (re-exported by reqwest as
/// `StatusCode`) has for a status code, if it has one.
pub uninterp spec fn status_reason(code: u16) -> Option<Seq<char>>;

/// reqwest's `StatusCode::from_u16` then `canonical_reason`; the contract
/// claims that the phrase is the one the crate has for the code, and that
/// a code outside 100..=999, which is no status code, has none.
#[verifier::external_body]
fn reason_phrase(code: u16) -> (r: Option<String>)
    ensures
        crate::ical::opt_view(r) == status_reason(code),
        !(100 <= code <= 999) ==> r is None,
{
    reqwest::StatusCode::from_u16(code).ok().and_then(|s| s.canonical_reason()).map(|p| p.to_string())
}

/// A status as HTTP shows it: the code and its reason phrase.
pub open spec fn status_text(code: u16) -> Seq<char> {
    crate::text::decimal(code as nat) + " "@ + match status_reason(code) {
        Some(p) => p,
        None => "<unknown status code>"@,
    }
}

/// The text of `status_text`.
fn status_text_of(code: u16) -> (r: String)
    ensures
        r@ == status_text(code),
{
    let num = crate::text::decimal_of(code as u64);
    let head = crate::text::concat(num.as_str(), " ");
    match reason_phrase(code) {
        Some(p) => crate::text::concat(head.as_str(), p.as_str()),
        None => crate::text::concat(head.as_str(), "<unknown status code>"),
    }
}

/// The message of an error.
pub open spec fn caldav_message(e: CalDavErrorView) -> Seq<char> {
    match e {
        CalDavErrorView::InvalidUrl(m) => m,
        CalDavErrorView::Status { operation, code } => operation_text(operation) + " failed: "@
            + status_text(code),
        CalDavErrorView::Xml(m) => "XML parse error: "@ + m,
        CalDavErrorView::Unescape(m) => m,
        CalDavErrorView::NoCalendarHome => "No calendar home found in response"@,
        CalDavErrorView::Transport(m) => m,
    }
}

impl CalDavError {
    /// The message of this error.
    pub fn message(&self) -> (r: String)
        ensures
            r@ == caldav_message(self@),
    {
        match self {
            CalDavError::InvalidUrl(m) => m.clone(),
            CalDavError::Status { operation, code } => {
                let op = match operation {
                    DavOperation::Discovery => "Calendar discovery",
                    DavOperation::ListCalendars => "List calendars",
                    DavOperation::ListEvents => "List events",
                    DavOperation::GetEvent => "Get event",
                };
                let head = crate::text::concat(op, " failed: ");
                let status = status_text_of(*code);
                crate::text::concat(head.as_str(), status.as_str())
            },
            CalDavError::Xml(m) => crate::text::concat("XML parse error: ", m.as_str()),
            CalDavError::Unescape(m) => m.clone(),
            CalDavError::NoCalendarHome => owned("No calendar home found in response"),
            CalDavError::Transport(m) => m.clone(),
        }
    }
}

// ---------------------------------------------------------------------------
// URLs
// ---------------------------------------------------------------------------

/// What the url crate makes of a text: success, or its error message.
pub uninterp spec fn url_parse_result(text: Seq<char>) -> Result<(), Seq<char>>;

/// The URL the url crate gives for `reference` resolved against `base`
/// (`Url::parse(base)` then `join(reference)`), or its error message.
pub uninterp spec fn url_join_result(base: Seq<char>, reference: Seq<char>) -> Result<
    Seq<char>,
    Seq<char>,
>;

/// The views of a result of texts.
pub open spec fn text_result(r: Result<String, String>) -> Result<Seq<char>, Seq<char>> {
    match r {
        Ok(s) => Ok(s@),
        Err(e) => Err(e@),
    }
}

/// url's `Url::parse`; the contract claims only that success and the error
/// message are what the url crate gives for this text.
#[verifier::external_body]
fn check_url(text: &str) -> (r: Result<(), String>)
    ensures
        match r {
            Ok(()) => url_parse_result(text@) == Ok::<(), Seq<char>>(()),
            Err(m) => url_parse_result(text@) == Err::<(), Seq<char>>(m@),
        },
{
    url::Url::parse(text).map(|_| ()).map_err(|e| e.to_string())
}

/// url's `Url::join` on the URL parsed from `base`, the result serialized;
/// the contract claims that the result is what the url crate gives.
#[verifier::external_body]
fn join_url(base: &str, reference: &str) -> (r: Result<String, String>)
    ensures
        text_result(r) == url_join_result(base@, reference@),
{
    url::Url::parse(base).and_then(|b| b.join(reference)).map(|u| u.to_string()).map_err(|e| e.to_string())
}

// ---------------------------------------------------------------------------
// Requests and responses
// ---------------------------------------------------------------------------

/// The HTTP method of a CalDAV request.
#[derive(Clone, Copy, Debug, PartialEq, Eq, Structural)]
pub enum DavMethod {
    Propfind,
    Report,
    Get,
}

/// A CalDAV request, to be sent with basic authentication. Requests with a
/// body carry `Content-Type: application/xml; charset=utf-8`.
#[derive(Clone, Debug)]
pub struct DavRequest {
    pub method: DavMethod,
    pub url: String,
    /// The `Depth` header, when the request has one.
    pub depth: Option<String>,
    pub body: Option<String>,
    pub username: String,
    pub password: String,
}

/// PROPFIND body asking for the calendar home.
pub const DISCOVERY_BODY: &'static str = "<?xml version=\"1.0\" encoding=\"utf-8\" ?>
<propfind xmlns=\"DAV:\" xmlns:C=\"urn:ietf:params:xml:ns:caldav\">
  <prop>
    <C:calendar-home-set/>
  </prop>
</propfind>";

/// PROPFIND body asking for the collections of the calendar home.
pub const LIST_CALENDARS_BODY: &'static str = "<?xml version=\"1.0\" encoding=\"utf-8\" ?>
<propfind xmlns=\"DAV:\" xmlns:C=\"urn:ietf:params:xml:ns:caldav\" xmlns:CS=\"http://calendarserver.org/ns/\">
  <prop>
    <resourcetype/>
    <displayname/>
    <CS:calendar-color/>
  </prop>
</propfind>";

/// calendar-query REPORT body asking for each event's ETag and UID.
pub const LIST_EVENTS_BODY: &'static str = "<?xml version=\"1.0\" encoding=\"utf-8\" ?>
<calendar-query xmlns=\"urn:ietf:params:xml:ns:caldav\" xmlns:D=\"DAV:\">
  <D:prop>
    <D:getetag/>
    <calendar-data>
      <comp name=\"VCALENDAR\">
        <comp name=\"VEVENT\">
          <prop name=\"UID\"/>
        </comp>
      </comp>
    </calendar-data>
  </D:prop>
  <filter>
    <comp-filter name=\"VCALENDAR\">
      <comp-filter name=\"VEVENT\"/>
    </comp-filter>
  </filter>
</calendar-query>";

/// CalDAV client for syncing calendar data: the server and the credentials.
pub struct CalDavClient {
    /// Server base URL, as given
    server_url: String,
    /// Username for authentication
    username: String,
    /// Password for authentication
    password: String,
}

/// The status is a success (200 to 299).
pub open spec fn is_success(status: u16) -> bool {
    200 <= status <= 299
}

impl CalDavClient {
    /// The server URL the client was made with.
    pub closed spec fn server(&self) -> Seq<char> {
        self.server_url@
    }

    /// The user name the client authenticates with.
    pub closed spec fn user(&self) -> Seq<char> {
        self.username@
    }

    /// The password the client authenticates with.
    pub closed spec fn secret(&self) -> Seq<char> {
        self.password@
    }

    /// Create a new CalDAV client; refused when the server URL does not parse.
    pub fn new(server_url: String, username: String, password: String) -> (r: Result<Self, CalDavError>)
        ensures
            match r {
                Ok(c) => url_parse_result(server_url@) is Ok && c.server() == server_url@ && c.user()
                    == username@ && c.secret() == password@,
                Err(e) => url_parse_result(server_url@) is Err && e@ == CalDavErrorView::InvalidUrl(
                    "Invalid server URL: "@ + url_parse_result(server_url@)->Err_0,
                ),
            },
    {
        match check_url(server_url.as_str()) {
            Ok(()) => Ok(Self { server_url, username, password }),
            Err(m) => Err(CalDavError::InvalidUrl(crate::text::concat("Invalid server URL: ", m.as_str()))),
        }
    }

    /// A request to `reference` (resolved against the server URL).
    fn request(&self, method: DavMethod, reference: &str, depth: Option<&str>, body: Option<&str>) -> (r:
        Result<DavRequest, CalDavError>)
        ensures
            match r {
                Ok(q) => url_join_result(self.server(), reference@) == Ok::<Seq<char>, Seq<char>>(
                    q.url@,
                ) && q.method == method && crate::ical::opt_view(q.depth) == (match depth {
                    Some(d) => Some(d@),
                    None => None::<Seq<char>>,
                }) && crate::ical::opt_view(q.body) == (match body {
                    Some(b) => Some(b@),
                    None => None::<Seq<char>>,
                }) && q.username@ == self.user() && q.password@ == self.secret(),
                Err(e) => url_join_result(self.server(), reference@) is Err && e@
                    == CalDavErrorView::InvalidUrl(url_join_result(self.server(), reference@)->Err_0),
            },
    {
        match join_url(self.server_url.as_str(), reference) {
            Ok(url) => Ok(
                DavRequest {
                    method,
                    url,
                    depth: match depth {
                        Some(d) => Some(owned(d)),
                        None => None,
                    },
                    body: match body {
                        Some(b) => Some(owned(b)),
                        None => None,
                    },
                    username: self.username.clone(),
                    password: self.password.clone(),
                },
            ),
            Err(m) => Err(CalDavError::InvalidUrl(m)),
        }
    }

    /// The PROPFIND (depth 0) for the calendar home at `/.well-known/caldav`.
    pub fn discover_request(&self) -> (r: Result<DavRequest, CalDavError>)
        ensures
            match r {
                Ok(q) => url_join_result(self.server(), "/.well-known/caldav"@) == Ok::<
                    Seq<char>,
                    Seq<char>,
                >(q.url@) && q.method == DavMethod::Propfind && crate::ical::opt_view(q.depth)
                    == Some("0"@) && crate::ical::opt_view(q.body) == Some(DISCOVERY_BODY@) && q.username@ == self.user() && q.password@ == self.secret(),
                Err(e) => url_join_result(self.server(), "/.well-known/caldav"@) is Err && e@ == CalDavErrorView::InvalidUrl(
                    url_join_result(self.server(), "/.well-known/caldav"@)->Err_0,
                ),
            },
    {
        self.request(DavMethod::Propfind, "/.well-known/caldav", Some("0"), Some(DISCOVERY_BODY))
    }

    /// The PROPFIND (depth 1) listing the collections of the calendar home.
    pub fn list_calendars_request(&self, calendar_home_url: &str) -> (r: Result<DavRequest, CalDavError>)
        ensures
            match r {
                Ok(q) => url_join_result(self.server(), calendar_home_url@) == Ok::<
                    Seq<char>,
                    Seq<char>,
                >(q.url@) && q.method == DavMethod::Propfind && crate::ical::opt_view(q.depth)
                    == Some("1"@) && crate::ical::opt_view(q.body) == Some(LIST_CALENDARS_BODY@) && q.username@ == self.user() && q.password@ == self.secret(),
                Err(e) => url_join_result(self.server(), calendar_home_url@) is Err && e@ == CalDavErrorView::InvalidUrl(
                    url_join_result(self.server(), calendar_home_url@)->Err_0,
                ),
            },
    {
        self.request(DavMethod::Propfind, calendar_home_url, Some("1"), Some(LIST_CALENDARS_BODY))
    }

    /// The calendar-query REPORT (depth 1) listing a calendar's events.
    pub fn list_events_request(&self, calendar_url: &str) -> (r: Result<DavRequest, CalDavError>)
        ensures
            match r {
                Ok(q) => url_join_result(self.server(), calendar_url@) == Ok::<Seq<char>, Seq<char>>(
                    q.url@,
                ) && q.method == DavMethod::Report && crate::ical::opt_view(q.depth) == Some("1"@)
                    && crate::ical::opt_view(q.body) == Some(LIST_EVENTS_BODY@) && q.username@ == self.user() && q.password@ == self.secret(),
                Err(e) => url_join_result(self.server(), calendar_url@) is Err && e@ == CalDavErrorView::InvalidUrl(
                    url_join_result(self.server(), calendar_url@)->Err_0,
                ),
            },
    {
        self.request(DavMethod::Report, calendar_url, Some("1"), Some(LIST_EVENTS_BODY))
    }

    /// The GET of an event's iCalendar data.
    pub fn get_event_request(&self, event_url: &str) -> (r: Result<DavRequest, CalDavError>)
        ensures
            match r {
                Ok(q) => url_join_result(self.server(), event_url@) == Ok::<Seq<char>, Seq<char>>(
                    q.url@,
                ) && q.method == DavMethod::Get && q.depth is None && q.body is None && q.username@ == self.user()
                    && q.password@ == self.secret(),
                Err(e) => url_join_result(self.server(), event_url@) is Err && e@ == CalDavErrorView::InvalidUrl(
                    url_join_result(self.server(), event_url@)->Err_0,
                ),
            },
    {
        self.request(DavMethod::Get, event_url, None, None)
    }
}

/// The calendar home from the discovery response: refused unless the
/// status is a success, then read from the body.
pub fn finish_discover(status: u16, body: &str) -> (r: Result<String, CalDavError>)
    ensures
        !is_success(status) ==> (r matches Err(e) && e@ == (CalDavErrorView::Status {
            operation: DavOperation::Discovery,
            code: status,
        })),
        is_success(status) ==> match r {
            Ok(s) => spec_calendar_home(xml_stream(body@)) == Ok::<Seq<char>, CalDavErrorView>(s@),
            Err(e) => spec_calendar_home(xml_stream(body@)) == Err::<Seq<char>, CalDavErrorView>(e@),
        },
{
    if !(200 <= status && status <= 299) {
        return Err(CalDavError::Status { operation: DavOperation::Discovery, code: status });
    }
    parse_calendar_home(body)
}

/// The calendars from the listing response: refused unless the status is a
/// success, then read from the body.
pub fn finish_list_calendars(status: u16, body: &str) -> (r: Result<Vec<CalendarInfo>, CalDavError>)
    ensures
        !is_success(status) ==> (r matches Err(e) && e@ == (CalDavErrorView::Status {
            operation: DavOperation::ListCalendars,
            code: status,
        })),
        is_success(status) ==> match r {
            Ok(v) => spec_calendars(xml_stream(body@)) == Ok::<Seq<CalendarInfoView>, CalDavErrorView>(
                calendars_view(v@),
            ),
            Err(e) => spec_calendars(xml_stream(body@)) == Err::<Seq<CalendarInfoView>, CalDavErrorView>(
                e@,
            ),
        },
{
    if !(200 <= status && status <= 299) {
        return Err(CalDavError::Status { operation: DavOperation::ListCalendars, code: status });
    }
    parse_calendars(body)
}

/// The events from the calendar-query response: refused unless the status
/// is a success, then read from the body.
pub fn finish_list_events(status: u16, body: &str) -> (r: Result<Vec<CalDavEvent>, CalDavError>)
    ensures
        !is_success(status) ==> (r matches Err(e) && e@ == (CalDavErrorView::Status {
            operation: DavOperation::ListEvents,
            code: status,
        })),
        is_success(status) ==> match r {
            Ok(v) => spec_events(xml_stream(body@)) == Ok::<Seq<CalDavEventView>, CalDavErrorView>(
                events_view(v@),
            ),
            Err(e) => spec_events(xml_stream(body@)) == Err::<Seq<CalDavEventView>, CalDavErrorView>(e@),
        },
{
    if !(200 <= status && status <= 299) {
        return Err(CalDavError::Status { operation: DavOperation::ListEvents, code: status });
    }
    parse_events(body)
}

/// The event data from the GET response: refused unless the status is a
/// success, then the body itself.
pub fn finish_get_event(status: u16, body: String) -> (r: Result<String, CalDavError>)
    ensures
        !is_success(status) ==> (r matches Err(e) && e@ == (CalDavErrorView::Status {
            operation: DavOperation::GetEvent,
            code: status,
        })),
        is_success(status) ==> (r matches Ok(s) && s@ == body@),
{
    if !(200 <= status && status <= 299) {
        return Err(CalDavError::Status { operation: DavOperation::GetEvent, code: status });
    }
    Ok(body)
}
// ---------------------------------------------------------------------------
// Laws of the response scans
// ---------------------------------------------------------------------------

/// The names of a DAV element: bare, or with the `d:` or `D:` prefix.
pub open spec fn dav_name(n: Seq<u8>, local: Seq<char>) -> bool {
    bytes_is(n, local) || bytes_is(n, "d:"@ + local) || bytes_is(n, "D:"@ + local)
}


/// In an event listing, a `getetag` element, bare or with the `d:` or `D:`
/// prefix, starts the ETag and changes nothing else.
pub proof fn law_event_scan_getetag(st: EvScan, n: Seq<u8>, a: Seq<Option<crate::xml::XmlAttribute>>)
    requires
        dav_name(n, "getetag"@),
    ensures
        ev_on_tag(st, n, a) == (EvScan { in_getetag: true, ..st }),
{
    reveal_strlit("d:");
    reveal_strlit("D:");
    reveal_strlit("response");
    reveal_strlit("d:response");
    reveal_strlit("D:response");
    reveal_strlit("href");
    reveal_strlit("d:href");
    reveal_strlit("D:href");
    reveal_strlit("getetag");
    reveal_strlit("d:getetag");
    reveal_strlit("D:getetag");
    reveal_strlit("prop");
    reveal_strlit("C:prop");
    reveal_strlit("c:prop");
    reveal_strlit("calendar-home-set");
    reveal_strlit("C:calendar-home-set");
    reveal_strlit("displayname");
    reveal_strlit("d:displayname");
    reveal_strlit("D:displayname");
    reveal_strlit("calendar-color");
    reveal_strlit("CS:calendar-color");
    reveal_strlit("resourcetype");
    reveal_strlit("d:resourcetype");
    reveal_strlit("D:resourcetype");
    reveal_strlit("calendar");
    reveal_strlit("C:calendar");
    assert("d:"@ + "response"@ =~= "d:response"@);
    assert("D:"@ + "response"@ =~= "D:response"@);
    assert("d:"@ + "href"@ =~= "d:href"@);
    assert("D:"@ + "href"@ =~= "D:href"@);
    assert("d:"@ + "getetag"@ =~= "d:getetag"@);
    assert("D:"@ + "getetag"@ =~= "D:getetag"@);
    assert("d:"@ + "displayname"@ =~= "d:displayname"@);
    assert("D:"@ + "displayname"@ =~= "D:displayname"@);
    assert("d:"@ + "resourcetype"@ =~= "d:resourcetype"@);
    assert("D:"@ + "resourcetype"@ =~= "D:resourcetype"@);
    if n.len() > 2 {
        assert(n[0] as u32 == n[0] as u32 && n[2] as u32 == n[2] as u32);
    }
}

/// In an event listing, a `response` element, bare or prefixed, starts a
/// new entry: its URL, ETag and UID are forgotten, nothing else changes.
pub proof fn law_event_scan_response(st: EvScan, n: Seq<u8>, a: Seq<Option<crate::xml::XmlAttribute>>)
    requires
        dav_name(n, "response"@),
    ensures
        ev_on_tag(st, n, a) == (EvScan { in_response: true, url: None, etag: None, uid: None, ..st }),
        ev_on_end(st, n) == (EvScan { in_response: false, url: None, etag: None, uid: None, ..st }),
{
    reveal_strlit("d:");
    reveal_strlit("D:");
    reveal_strlit("response");
    reveal_strlit("d:response");
    reveal_strlit("D:response");
    reveal_strlit("href");
    reveal_strlit("d:href");
    reveal_strlit("D:href");
    reveal_strlit("getetag");
    reveal_strlit("d:getetag");
    reveal_strlit("D:getetag");
    reveal_strlit("prop");
    reveal_strlit("C:prop");
    reveal_strlit("c:prop");
    reveal_strlit("calendar-home-set");
    reveal_strlit("C:calendar-home-set");
    reveal_strlit("displayname");
    reveal_strlit("d:displayname");
    reveal_strlit("D:displayname");
    reveal_strlit("calendar-color");
    reveal_strlit("CS:calendar-color");
    reveal_strlit("resourcetype");
    reveal_strlit("d:resourcetype");
    reveal_strlit("D:resourcetype");
    reveal_strlit("calendar");
    reveal_strlit("C:calendar");
    assert("d:"@ + "response"@ =~= "d:response"@);
    assert("D:"@ + "response"@ =~= "D:response"@);
    assert("d:"@ + "href"@ =~= "d:href"@);
    assert("D:"@ + "href"@ =~= "D:href"@);
    assert("d:"@ + "getetag"@ =~= "d:getetag"@);
    assert("D:"@ + "getetag"@ =~= "D:getetag"@);
    assert("d:"@ + "displayname"@ =~= "d:displayname"@);
    assert("D:"@ + "displayname"@ =~= "D:displayname"@);
    assert("d:"@ + "resourcetype"@ =~= "d:resourcetype"@);
    assert("D:"@ + "resourcetype"@ =~= "D:resourcetype"@);
    if n.len() > 2 {
        assert(n[0] as u32 == n[0] as u32 && n[2] as u32 == n[2] as u32);
    }
}

/// In an event listing, the first `href` of an entry, bare or prefixed,
/// starts its URL; an `href` closes the URL.
pub proof fn law_event_scan_href(st: EvScan, n: Seq<u8>, a: Seq<Option<crate::xml::XmlAttribute>>)
    requires
        dav_name(n, "href"@),
    ensures
        st.in_response && st.url is None ==> ev_on_tag(st, n, a) == (EvScan { in_href: true, ..st }),
        ev_on_end(st, n) == (EvScan { in_href: false, ..st }),
{
    reveal_strlit("d:");
    reveal_strlit("D:");
    reveal_strlit("response");
    reveal_strlit("d:response");
    reveal_strlit("D:response");
    reveal_strlit("href");
    reveal_strlit("d:href");
    reveal_strlit("D:href");
    reveal_strlit("getetag");
    reveal_strlit("d:getetag");
    reveal_strlit("D:getetag");
    reveal_strlit("prop");
    reveal_strlit("C:prop");
    reveal_strlit("c:prop");
    reveal_strlit("calendar-home-set");
    reveal_strlit("C:calendar-home-set");
    reveal_strlit("displayname");
    reveal_strlit("d:displayname");
    reveal_strlit("D:displayname");
    reveal_strlit("calendar-color");
    reveal_strlit("CS:calendar-color");
    reveal_strlit("resourcetype");
    reveal_strlit("d:resourcetype");
    reveal_strlit("D:resourcetype");
    reveal_strlit("calendar");
    reveal_strlit("C:calendar");
    assert("d:"@ + "response"@ =~= "d:response"@);
    assert("D:"@ + "response"@ =~= "D:response"@);
    assert("d:"@ + "href"@ =~= "d:href"@);
    assert("D:"@ + "href"@ =~= "D:href"@);
    assert("d:"@ + "getetag"@ =~= "d:getetag"@);
    assert("D:"@ + "getetag"@ =~= "D:getetag"@);
    assert("d:"@ + "displayname"@ =~= "d:displayname"@);
    assert("D:"@ + "displayname"@ =~= "D:displayname"@);
    assert("d:"@ + "resourcetype"@ =~= "d:resourcetype"@);
    assert("D:"@ + "resourcetype"@ =~= "D:resourcetype"@);
    if n.len() > 2 {
        assert(n[0] as u32 == n[0] as u32 && n[2] as u32 == n[2] as u32);
    }
}

/// In an event listing, the end of a `getetag` element, bare or prefixed,
/// ends the ETag and changes nothing else.
pub proof fn law_event_scan_getetag_end(st: EvScan, n: Seq<u8>)
    requires
        dav_name(n, "getetag"@),
    ensures
        ev_on_end(st, n) == (EvScan { in_getetag: false, ..st }),
{
    reveal_strlit("d:");
    reveal_strlit("D:");
    reveal_strlit("response");
    reveal_strlit("d:response");
    reveal_strlit("D:response");
    reveal_strlit("href");
    reveal_strlit("d:href");
    reveal_strlit("D:href");
    reveal_strlit("getetag");
    reveal_strlit("d:getetag");
    reveal_strlit("D:getetag");
    reveal_strlit("prop");
    reveal_strlit("C:prop");
    reveal_strlit("c:prop");
    reveal_strlit("calendar-home-set");
    reveal_strlit("C:calendar-home-set");
    reveal_strlit("displayname");
    reveal_strlit("d:displayname");
    reveal_strlit("D:displayname");
    reveal_strlit("calendar-color");
    reveal_strlit("CS:calendar-color");
    reveal_strlit("resourcetype");
    reveal_strlit("d:resourcetype");
    reveal_strlit("D:resourcetype");
    reveal_strlit("calendar");
    reveal_strlit("C:calendar");
    assert("d:"@ + "response"@ =~= "d:response"@);
    assert("D:"@ + "response"@ =~= "D:response"@);
    assert("d:"@ + "href"@ =~= "d:href"@);
    assert("D:"@ + "href"@ =~= "D:href"@);
    assert("d:"@ + "getetag"@ =~= "d:getetag"@);
    assert("D:"@ + "getetag"@ =~= "D:getetag"@);
    assert("d:"@ + "displayname"@ =~= "d:displayname"@);
    assert("D:"@ + "displayname"@ =~= "D:displayname"@);
    assert("d:"@ + "resourcetype"@ =~= "d:resourcetype"@);
    assert("D:"@ + "resourcetype"@ =~= "D:resourcetype"@);
    if n.len() > 2 {
        assert(n[0] as u32 == n[0] as u32 && n[2] as u32 == n[2] as u32);
    }
}

/// In an event listing, a `prop` element (`prop`, `C:prop` or `c:prop`)
/// with `name="UID"` starts the UID; the end of a `prop` ends it.
pub proof fn law_event_scan_uid_prop(st: EvScan, n: Seq<u8>, a: Seq<Option<crate::xml::XmlAttribute>>)
    requires
        bytes_is(n, "prop"@) || bytes_is(n, "C:prop"@) || bytes_is(n, "c:prop"@),
    ensures
        has_uid_name(a) ==> ev_on_tag(st, n, a) == (EvScan { in_uid_prop: true, ..st }),
        ev_on_end(st, n) == (EvScan { in_uid_prop: false, ..st }),
{
    reveal_strlit("d:");
    reveal_strlit("D:");
    reveal_strlit("response");
    reveal_strlit("d:response");
    reveal_strlit("D:response");
    reveal_strlit("href");
    reveal_strlit("d:href");
    reveal_strlit("D:href");
    reveal_strlit("getetag");
    reveal_strlit("d:getetag");
    reveal_strlit("D:getetag");
    reveal_strlit("prop");
    reveal_strlit("C:prop");
    reveal_strlit("c:prop");
    reveal_strlit("calendar-home-set");
    reveal_strlit("C:calendar-home-set");
    reveal_strlit("displayname");
    reveal_strlit("d:displayname");
    reveal_strlit("D:displayname");
    reveal_strlit("calendar-color");
    reveal_strlit("CS:calendar-color");
    reveal_strlit("resourcetype");
    reveal_strlit("d:resourcetype");
    reveal_strlit("D:resourcetype");
    reveal_strlit("calendar");
    reveal_strlit("C:calendar");
    assert("d:"@ + "response"@ =~= "d:response"@);
    assert("D:"@ + "response"@ =~= "D:response"@);
    assert("d:"@ + "href"@ =~= "d:href"@);
    assert("D:"@ + "href"@ =~= "D:href"@);
    assert("d:"@ + "getetag"@ =~= "d:getetag"@);
    assert("D:"@ + "getetag"@ =~= "D:getetag"@);
    assert("d:"@ + "displayname"@ =~= "d:displayname"@);
    assert("D:"@ + "displayname"@ =~= "D:displayname"@);
    assert("d:"@ + "resourcetype"@ =~= "d:resourcetype"@);
    assert("D:"@ + "resourcetype"@ =~= "D:resourcetype"@);
    if bytes_is(n, "prop"@) {
        assert(n[0] as u32 == "prop"@[0] as u32);
    } else if bytes_is(n, "C:prop"@) {
        assert(n[0] as u32 == "C:prop"@[0] as u32);
    } else if bytes_is(n, "c:prop"@) {
        assert(n[0] as u32 == "c:prop"@[0] as u32);
    }
}

/// In a calendar listing, a `response` element, bare or prefixed, starts
/// a new entry on its own: its URL, name and color are forgotten and it is
/// not (yet) a calendar, whatever came before.
pub proof fn law_calendar_scan_response(st: CalScan, n: Seq<u8>)
    requires
        dav_name(n, "response"@),
    ensures
        cal_on_tag(st, n) == (CalScan {
            in_response: true,
            url: None,
            name: None,
            color: None,
            is_cal: false,
            ..st
        }),
        !cal_on_tag(st, n).is_cal,
{
    reveal_strlit("d:");
    reveal_strlit("D:");
    reveal_strlit("response");
    reveal_strlit("d:response");
    reveal_strlit("D:response");
    reveal_strlit("href");
    reveal_strlit("d:href");
    reveal_strlit("D:href");
    reveal_strlit("getetag");
    reveal_strlit("d:getetag");
    reveal_strlit("D:getetag");
    reveal_strlit("prop");
    reveal_strlit("C:prop");
    reveal_strlit("c:prop");
    reveal_strlit("calendar-home-set");
    reveal_strlit("C:calendar-home-set");
    reveal_strlit("displayname");
    reveal_strlit("d:displayname");
    reveal_strlit("D:displayname");
    reveal_strlit("calendar-color");
    reveal_strlit("CS:calendar-color");
    reveal_strlit("resourcetype");
    reveal_strlit("d:resourcetype");
    reveal_strlit("D:resourcetype");
    reveal_strlit("calendar");
    reveal_strlit("C:calendar");
    assert("d:"@ + "response"@ =~= "d:response"@);
    assert("D:"@ + "response"@ =~= "D:response"@);
    assert("d:"@ + "href"@ =~= "d:href"@);
    assert("D:"@ + "href"@ =~= "D:href"@);
    assert("d:"@ + "getetag"@ =~= "d:getetag"@);
    assert("D:"@ + "getetag"@ =~= "D:getetag"@);
    assert("d:"@ + "displayname"@ =~= "d:displayname"@);
    assert("D:"@ + "displayname"@ =~= "D:displayname"@);
    assert("d:"@ + "resourcetype"@ =~= "d:resourcetype"@);
    assert("D:"@ + "resourcetype"@ =~= "D:resourcetype"@);
    if n.len() > 2 {
        assert(n[0] as u32 == n[0] as u32 && n[2] as u32 == n[2] as u32);
    }
}

/// In a calendar listing, the first `href` of an entry, bare or prefixed,
/// starts its URL; an `href` closes it.
pub proof fn law_calendar_scan_href(st: CalScan, n: Seq<u8>)
    requires
        dav_name(n, "href"@),
    ensures
        st.in_response && st.url is None ==> cal_on_tag(st, n) == (CalScan { in_href: true, ..st }),
        cal_on_end(st, n) == (CalScan { in_href: false, ..st }),
{
    reveal_strlit("d:");
    reveal_strlit("D:");
    reveal_strlit("response");
    reveal_strlit("d:response");
    reveal_strlit("D:response");
    reveal_strlit("href");
    reveal_strlit("d:href");
    reveal_strlit("D:href");
    reveal_strlit("getetag");
    reveal_strlit("d:getetag");
    reveal_strlit("D:getetag");
    reveal_strlit("prop");
    reveal_strlit("C:prop");
    reveal_strlit("c:prop");
    reveal_strlit("calendar-home-set");
    reveal_strlit("C:calendar-home-set");
    reveal_strlit("displayname");
    reveal_strlit("d:displayname");
    reveal_strlit("D:displayname");
    reveal_strlit("calendar-color");
    reveal_strlit("CS:calendar-color");
    reveal_strlit("resourcetype");
    reveal_strlit("d:resourcetype");
    reveal_strlit("D:resourcetype");
    reveal_strlit("calendar");
    reveal_strlit("C:calendar");
    assert("d:"@ + "response"@ =~= "d:response"@);
    assert("D:"@ + "response"@ =~= "D:response"@);
    assert("d:"@ + "href"@ =~= "d:href"@);
    assert("D:"@ + "href"@ =~= "D:href"@);
    assert("d:"@ + "getetag"@ =~= "d:getetag"@);
    assert("D:"@ + "getetag"@ =~= "D:getetag"@);
    assert("d:"@ + "displayname"@ =~= "d:displayname"@);
    assert("D:"@ + "displayname"@ =~= "D:displayname"@);
    assert("d:"@ + "resourcetype"@ =~= "d:resourcetype"@);
    assert("D:"@ + "resourcetype"@ =~= "D:resourcetype"@);
    if n.len() > 2 {
        assert(n[0] as u32 == n[0] as u32 && n[2] as u32 == n[2] as u32);
    }
}

/// In a calendar listing, a `displayname` element, bare or prefixed,
/// starts the name, and its end ends it.
pub proof fn law_calendar_scan_displayname(st: CalScan, n: Seq<u8>)
    requires
        dav_name(n, "displayname"@),
    ensures
        cal_on_tag(st, n) == (CalScan { in_displayname: true, ..st }),
        cal_on_end(st, n) == (CalScan { in_displayname: false, ..st }),
{
    reveal_strlit("d:");
    reveal_strlit("D:");
    reveal_strlit("response");
    reveal_strlit("d:response");
    reveal_strlit("D:response");
    reveal_strlit("href");
    reveal_strlit("d:href");
    reveal_strlit("D:href");
    reveal_strlit("getetag");
    reveal_strlit("d:getetag");
    reveal_strlit("D:getetag");
    reveal_strlit("prop");
    reveal_strlit("C:prop");
    reveal_strlit("c:prop");
    reveal_strlit("calendar-home-set");
    reveal_strlit("C:calendar-home-set");
    reveal_strlit("displayname");
    reveal_strlit("d:displayname");
    reveal_strlit("D:displayname");
    reveal_strlit("calendar-color");
    reveal_strlit("CS:calendar-color");
    reveal_strlit("resourcetype");
    reveal_strlit("d:resourcetype");
    reveal_strlit("D:resourcetype");
    reveal_strlit("calendar");
    reveal_strlit("C:calendar");
    assert("d:"@ + "response"@ =~= "d:response"@);
    assert("D:"@ + "response"@ =~= "D:response"@);
    assert("d:"@ + "href"@ =~= "d:href"@);
    assert("D:"@ + "href"@ =~= "D:href"@);
    assert("d:"@ + "getetag"@ =~= "d:getetag"@);
    assert("D:"@ + "getetag"@ =~= "D:getetag"@);
    assert("d:"@ + "displayname"@ =~= "d:displayname"@);
    assert("D:"@ + "displayname"@ =~= "D:displayname"@);
    assert("d:"@ + "resourcetype"@ =~= "d:resourcetype"@);
    assert("D:"@ + "resourcetype"@ =~= "D:resourcetype"@);
    if n.len() > 2 {
        assert(n[0] as u32 == n[0] as u32 && n[2] as u32 == n[2] as u32);
    }
}

/// In a calendar listing, a `calendar-color` element (bare or `CS:`)
/// starts the color, and its end ends it.
pub proof fn law_calendar_scan_color(st: CalScan, n: Seq<u8>)
    requires
        bytes_is(n, "calendar-color"@) || bytes_is(n, "CS:calendar-color"@),
    ensures
        cal_on_tag(st, n) == (CalScan { in_color: true, ..st }),
        cal_on_end(st, n) == (CalScan { in_color: false, ..st }),
{
    reveal_strlit("d:");
    reveal_strlit("D:");
    reveal_strlit("response");
    reveal_strlit("d:response");
    reveal_strlit("D:response");
    reveal_strlit("href");
    reveal_strlit("d:href");
    reveal_strlit("D:href");
    reveal_strlit("getetag");
    reveal_strlit("d:getetag");
    reveal_strlit("D:getetag");
    reveal_strlit("prop");
    reveal_strlit("C:prop");
    reveal_strlit("c:prop");
    reveal_strlit("calendar-home-set");
    reveal_strlit("C:calendar-home-set");
    reveal_strlit("displayname");
    reveal_strlit("d:displayname");
    reveal_strlit("D:displayname");
    reveal_strlit("calendar-color");
    reveal_strlit("CS:calendar-color");
    reveal_strlit("resourcetype");
    reveal_strlit("d:resourcetype");
    reveal_strlit("D:resourcetype");
    reveal_strlit("calendar");
    reveal_strlit("C:calendar");
    assert("d:"@ + "response"@ =~= "d:response"@);
    assert("D:"@ + "response"@ =~= "D:response"@);
    assert("d:"@ + "href"@ =~= "d:href"@);
    assert("D:"@ + "href"@ =~= "D:href"@);
    assert("d:"@ + "getetag"@ =~= "d:getetag"@);
    assert("D:"@ + "getetag"@ =~= "D:getetag"@);
    assert("d:"@ + "displayname"@ =~= "d:displayname"@);
    assert("D:"@ + "displayname"@ =~= "D:displayname"@);
    assert("d:"@ + "resourcetype"@ =~= "d:resourcetype"@);
    assert("D:"@ + "resourcetype"@ =~= "D:resourcetype"@);
    if n.len() > 2 {
        assert(n[0] as u32 == n[0] as u32 && n[2] as u32 == n[2] as u32);
    }
}

/// In a calendar listing, a `resourcetype` element, bare or prefixed,
/// opens the resource type, and its end closes it.
pub proof fn law_calendar_scan_resourcetype(st: CalScan, n: Seq<u8>)
    requires
        dav_name(n, "resourcetype"@),
    ensures
        cal_on_tag(st, n) == (CalScan { in_resourcetype: true, ..st }),
        cal_on_end(st, n) == (CalScan { in_resourcetype: false, ..st }),
{
    reveal_strlit("d:");
    reveal_strlit("D:");
    reveal_strlit("response");
    reveal_strlit("d:response");
    reveal_strlit("D:response");
    reveal_strlit("href");
    reveal_strlit("d:href");
    reveal_strlit("D:href");
    reveal_strlit("getetag");
    reveal_strlit("d:getetag");
    reveal_strlit("D:getetag");
    reveal_strlit("prop");
    reveal_strlit("C:prop");
    reveal_strlit("c:prop");
    reveal_strlit("calendar-home-set");
    reveal_strlit("C:calendar-home-set");
    reveal_strlit("displayname");
    reveal_strlit("d:displayname");
    reveal_strlit("D:displayname");
    reveal_strlit("calendar-color");
    reveal_strlit("CS:calendar-color");
    reveal_strlit("resourcetype");
    reveal_strlit("d:resourcetype");
    reveal_strlit("D:resourcetype");
    reveal_strlit("calendar");
    reveal_strlit("C:calendar");
    assert("d:"@ + "response"@ =~= "d:response"@);
    assert("D:"@ + "response"@ =~= "D:response"@);
    assert("d:"@ + "href"@ =~= "d:href"@);
    assert("D:"@ + "href"@ =~= "D:href"@);
    assert("d:"@ + "getetag"@ =~= "d:getetag"@);
    assert("D:"@ + "getetag"@ =~= "D:getetag"@);
    assert("d:"@ + "displayname"@ =~= "d:displayname"@);
    assert("D:"@ + "displayname"@ =~= "D:displayname"@);
    assert("d:"@ + "resourcetype"@ =~= "d:resourcetype"@);
    assert("D:"@ + "resourcetype"@ =~= "D:resourcetype"@);
    if bytes_is(n, "resourcetype"@) {
        assert(n[0] as u32 == "resourcetype"@[0] as u32);
    } else if bytes_is(n, "d:resourcetype"@) {
        assert(n[0] as u32 == "d:resourcetype"@[0] as u32);
    } else if bytes_is(n, "D:resourcetype"@) {
        assert(n[0] as u32 == "D:resourcetype"@[0] as u32);
    }
}

/// In a calendar listing, a `calendar` element (bare or `C:`) inside the
/// resource type marks the entry as a calendar; an entry becomes a
/// calendar in no other way.
pub proof fn law_calendar_scan_calendar(st: CalScan, n: Seq<u8>)
    ensures
        (bytes_is(n, "calendar"@) || bytes_is(n, "C:calendar"@)) && st.in_resourcetype ==> cal_on_tag(
            st,
            n,
        ) == (CalScan { is_cal: true, ..st }),
        cal_on_tag(st, n).is_cal ==> (st.is_cal && !dav_name(n, "response"@)) || ((bytes_is(
            n,
            "calendar"@,
        ) || bytes_is(n, "C:calendar"@)) && st.in_resourcetype),
{
    reveal_strlit("d:");
    reveal_strlit("D:");
    reveal_strlit("response");
    reveal_strlit("d:response");
    reveal_strlit("D:response");
    reveal_strlit("href");
    reveal_strlit("d:href");
    reveal_strlit("D:href");
    reveal_strlit("getetag");
    reveal_strlit("d:getetag");
    reveal_strlit("D:getetag");
    reveal_strlit("prop");
    reveal_strlit("C:prop");
    reveal_strlit("c:prop");
    reveal_strlit("calendar-home-set");
    reveal_strlit("C:calendar-home-set");
    reveal_strlit("displayname");
    reveal_strlit("d:displayname");
    reveal_strlit("D:displayname");
    reveal_strlit("calendar-color");
    reveal_strlit("CS:calendar-color");
    reveal_strlit("resourcetype");
    reveal_strlit("d:resourcetype");
    reveal_strlit("D:resourcetype");
    reveal_strlit("calendar");
    reveal_strlit("C:calendar");
    assert("d:"@ + "response"@ =~= "d:response"@);
    assert("D:"@ + "response"@ =~= "D:response"@);
    assert("d:"@ + "href"@ =~= "d:href"@);
    assert("D:"@ + "href"@ =~= "D:href"@);
    assert("d:"@ + "getetag"@ =~= "d:getetag"@);
    assert("D:"@ + "getetag"@ =~= "D:getetag"@);
    assert("d:"@ + "displayname"@ =~= "d:displayname"@);
    assert("D:"@ + "displayname"@ =~= "D:displayname"@);
    assert("d:"@ + "resourcetype"@ =~= "d:resourcetype"@);
    assert("D:"@ + "resourcetype"@ =~= "D:resourcetype"@);
    if bytes_is(n, "calendar"@) {
        assert(n[0] as u32 == "calendar"@[0] as u32);
    } else if bytes_is(n, "C:calendar"@) {
        assert(n[0] as u32 == "C:calendar"@[0] as u32);
    }
}


/// An event inside a response element of a calendar listing that neither
/// marks it as a calendar, nor ends it, nor stops the scan.
pub open spec fn inside_plain_response(e: XmlEvent) -> bool {
    match e {
        XmlEvent::Start(t) => !is_calendar_name(t.name@),
        XmlEvent::Empty(t) => !is_calendar_name(t.name@),
        XmlEvent::Text(_) => true,
        XmlEvent::End(n) => !is_response_name(n@),
        XmlEvent::Other => true,
        _ => false,
    }
}

/// A scan that is not inside a calendar entry adds nothing to the listing
/// over events that hold no calendar element, up to and through the end of
/// the response element.
proof fn lemma_plain_response_rest(
    evs: Seq<XmlEvent>,
    k: nat,
    j: nat,
    st: CalScan,
    acc: Seq<CalendarInfoView>,
)
    requires
        k <= j < evs.len(),
        !st.is_cal,
        forall|m: int| k <= m < j ==> inside_plain_response(#[trigger] evs[m]),
        evs[j as int] matches XmlEvent::End(n) && is_response_name(n@),
    ensures
        exists|st2: CalScan| cal_scan(evs, k, st, acc) == #[trigger] cal_scan(evs, j + 1, st2, acc),
    decreases j - k,
{
    if k == j {
        let n = evs[j as int]->End_0;
        assert(cal_scan(evs, k, st, acc) == cal_scan(evs, j + 1, cal_on_end(st, n@), acc));
    } else {
        assert(inside_plain_response(evs[k as int]));
        match evs[k as int] {
            XmlEvent::Start(t) => {
                lemma_plain_response_rest(evs, k + 1, j, cal_on_tag(st, t.name@), acc);
            },
            XmlEvent::Empty(t) => {
                lemma_plain_response_rest(evs, k + 1, j, cal_on_tag(st, t.name@), acc);
            },
            XmlEvent::Text(x) => {
                lemma_plain_response_rest(evs, k + 1, j, cal_on_text(st, x@), acc);
            },
            XmlEvent::End(n) => {
                lemma_plain_response_rest(evs, k + 1, j, cal_on_end(st, n@), acc);
            },
            _ => {
                lemma_plain_response_rest(evs, k + 1, j, st, acc);
            },
        }
    }
}

/// Each response element of a calendar listing is judged on its own
/// elements: one whose content holds no `calendar` element adds no calendar
/// to the listing, whatever came before it.
pub proof fn law_plain_response_adds_nothing(
    evs: Seq<XmlEvent>,
    i: nat,
    j: nat,
    st: CalScan,
    acc: Seq<CalendarInfoView>,
)
    requires
        i < j < evs.len(),
        evs[i as int] matches XmlEvent::Start(t) && is_response_name(t.name@),
        forall|m: int| i < m < j ==> inside_plain_response(#[trigger] evs[m]),
        evs[j as int] matches XmlEvent::End(n) && is_response_name(n@),
    ensures
        exists|st2: CalScan| cal_scan(evs, i, st, acc) == #[trigger] cal_scan(evs, j + 1, st2, acc),
{
    let t = evs[i as int]->Start_0;
    let s1 = cal_on_tag(st, t.name@);
    assert(!s1.is_cal);
    assert(cal_scan(evs, i, st, acc) == cal_scan(evs, i + 1, s1, acc));
    lemma_plain_response_rest(evs, i + 1, j, s1, acc);
}

} // verus!
