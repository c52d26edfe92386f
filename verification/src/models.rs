//! Data models for storage: accounts, calendar collections and events.

use crate::ical::opt_view;
use crate::time::{now, Timestamp};
use vstd::prelude::*;

verus! {

/// A record that the store identifies by an integer id.
pub trait Identified {
    spec fn ident(&self) -> i64;
}

/// Represents a CalDAV account
#[derive(Clone, Debug)]
pub struct Account {
    /// Unique account ID
    pub id: i64,
    /// Account name (user-defined)
    pub name: String,
    /// CalDAV server URL
    pub server_url: String,
    /// Username for authentication
    pub username: String,
    /// Password (stored in plaintext for now)
    pub password: String,
    /// When the account was created
    pub created_at: Timestamp,
    /// Last successful sync timestamp
    pub last_sync: Option<Timestamp>,
}

/// An account with its text as character sequences.
pub struct AccountView {
    pub id: i64,
    pub name: Seq<char>,
    pub server_url: Seq<char>,
    pub username: Seq<char>,
    pub password: Seq<char>,
    pub created_at: Timestamp,
    pub last_sync: Option<Timestamp>,
}

impl View for Account {
    type V = AccountView;

    open spec fn view(&self) -> AccountView {
        AccountView {
            id: self.id,
            name: self.name@,
            server_url: self.server_url@,
            username: self.username@,
            password: self.password@,
            created_at: self.created_at,
            last_sync: self.last_sync,
        }
    }
}

impl Identified for AccountView {
    open spec fn ident(&self) -> i64 {
        self.id
    }
}

/// Represents a calendar collection
#[derive(Clone, Debug)]
pub struct Calendar {
    /// Unique calendar ID
    pub id: i64,
    /// Foreign key to account
    pub account_id: i64,
    /// Calendar name/display name
    pub name: String,
    /// CalDAV URL for this calendar
    pub url: String,
    /// Current sync token (for efficient syncing)
    pub sync_token: Option<String>,
    /// Calendar color (hex format, e.g., "#FF5733")
    pub color: Option<String>,
    /// Whether this calendar is enabled for syncing
    pub enabled: bool,
}

/// A calendar with its text as character sequences.
pub struct CalendarView {
    pub id: i64,
    pub account_id: i64,
    pub name: Seq<char>,
    pub url: Seq<char>,
    pub sync_token: Option<Seq<char>>,
    pub color: Option<Seq<char>>,
    pub enabled: bool,
}

impl View for Calendar {
    type V = CalendarView;

    open spec fn view(&self) -> CalendarView {
        CalendarView {
            id: self.id,
            account_id: self.account_id,
            name: self.name@,
            url: self.url@,
            sync_token: opt_view(self.sync_token),
            color: opt_view(self.color),
            enabled: self.enabled,
        }
    }
}

impl Identified for CalendarView {
    open spec fn ident(&self) -> i64 {
        self.id
    }
}

/// Represents a calendar event
#[derive(Clone, Debug)]
pub struct Event {
    /// Unique event ID (local database)
    pub id: i64,
    /// Foreign key to calendar
    pub calendar_id: i64,
    /// Event UID from iCalendar (required for CalDAV sync)
    pub uid: String,
    /// Event summary/title
    pub summary: Option<String>,
    /// Event description
    pub description: Option<String>,
    /// Event location
    pub location: Option<String>,
    /// Event start time
    pub start_time: Timestamp,
    /// Event end time
    pub end_time: Option<Timestamp>,
    /// ETag from CalDAV (for change detection)
    pub etag: Option<String>,
    /// Full iCalendar data (stored for round-trip compatibility)
    pub ical_data: String,
    /// Last modification time
    pub last_modified: Timestamp,
}

/// An event with its text as character sequences.
pub struct EventView {
    pub id: i64,
    pub calendar_id: i64,
    pub uid: Seq<char>,
    pub summary: Option<Seq<char>>,
    pub description: Option<Seq<char>>,
    pub location: Option<Seq<char>>,
    pub start_time: Timestamp,
    pub end_time: Option<Timestamp>,
    pub etag: Option<Seq<char>>,
    pub ical_data: Seq<char>,
    pub last_modified: Timestamp,
}

impl View for Event {
    type V = EventView;

    open spec fn view(&self) -> EventView {
        EventView {
            id: self.id,
            calendar_id: self.calendar_id,
            uid: self.uid@,
            summary: opt_view(self.summary),
            description: opt_view(self.description),
            location: opt_view(self.location),
            start_time: self.start_time,
            end_time: self.end_time,
            etag: opt_view(self.etag),
            ical_data: self.ical_data@,
            last_modified: self.last_modified,
        }
    }
}

impl Identified for EventView {
    open spec fn ident(&self) -> i64 {
        self.id
    }
}

/// A copy of an optional string.
pub fn copy_opt(o: &Option<String>) -> (r: Option<String>)
    ensures
        opt_view(r) == opt_view(*o),
{
    match o {
        Some(s) => Some(s.clone()),
        None => None,
    }
}

impl Account {
    /// Create a new account: id 0 (the store assigns one), created now,
    /// never synced.
    pub fn new(name: String, server_url: String, username: String, password: String) -> (a: Self)
        ensures
            a.id == 0,
            a.name == name,
            a.server_url == server_url,
            a.username == username,
            a.password == password,
            a.last_sync is None,
    {
        Self {
            id: 0,
            name,
            server_url,
            username,
            password,
            created_at: now(),
            last_sync: None,
        }
    }

    /// A copy of this account.
    pub fn duplicate(&self) -> (r: Self)
        ensures
            r@ == self@,
    {
        Account {
            id: self.id,
            name: self.name.clone(),
            server_url: self.server_url.clone(),
            username: self.username.clone(),
            password: self.password.clone(),
            created_at: self.created_at,
            last_sync: self.last_sync,
        }
    }
}

impl Calendar {
    /// Create a new calendar: id 0 (the store assigns one), no sync token,
    /// no color, enabled.
    pub fn new(account_id: i64, name: String, url: String) -> (c: Self)
        ensures
            c.id == 0,
            c.account_id == account_id,
            c.name == name,
            c.url == url,
            c.sync_token is None,
            c.color is None,
            c.enabled,
    {
        Self { id: 0, account_id, name, url, sync_token: None, color: None, enabled: true }
    }

    /// A copy of this calendar.
    pub fn duplicate(&self) -> (r: Self)
        ensures
            r@ == self@,
    {
        Calendar {
            id: self.id,
            account_id: self.account_id,
            name: self.name.clone(),
            url: self.url.clone(),
            sync_token: copy_opt(&self.sync_token),
            color: copy_opt(&self.color),
            enabled: self.enabled,
        }
    }
}

impl Event {
    /// Create a new event: id 0 (the store assigns one), no summary,
    /// description, location, end or ETag; start and modification time now.
    pub fn new(calendar_id: i64, uid: String, ical_data: String) -> (e: Self)
        ensures
            e.id == 0,
            e.calendar_id == calendar_id,
            e.uid == uid,
            e.ical_data == ical_data,
            e.summary is None,
            e.description is None,
            e.location is None,
            e.end_time is None,
            e.etag is None,
    {
        Self {
            id: 0,
            calendar_id,
            uid,
            summary: None,
            description: None,
            location: None,
            start_time: now(),
            end_time: None,
            etag: None,
            ical_data,
            last_modified: now(),
        }
    }

    /// A copy of this event.
    pub fn duplicate(&self) -> (r: Self)
        ensures
            r@ == self@,
    {
        Event {
            id: self.id,
            calendar_id: self.calendar_id,
            uid: self.uid.clone(),
            summary: copy_opt(&self.summary),
            description: copy_opt(&self.description),
            location: copy_opt(&self.location),
            start_time: self.start_time,
            end_time: self.end_time,
            etag: copy_opt(&self.etag),
            ical_data: self.ical_data.clone(),
            last_modified: self.last_modified,
        }
    }
}

} // verus!
