//! The event store: accounts, their calendar collections and the calendars'
//! events, held in memory with the constraints of the relational schema —
//! unique account names, unique calendar URLs per account, unique event UIDs
//! per calendar, references that must exist, and deletes that cascade.
//! Its contents can be copied out, and a store rebuilt from contents that
//! keep these constraints, to keep it between runs.

use crate::models::{Account, AccountView, Calendar, CalendarView, Event, EventView, Identified};
use crate::time::Timestamp;
use vstd::prelude::*;

verus! {

// ---------------------------------------------------------------------------
// Model
// ---------------------------------------------------------------------------

/// Why the store refused a write.
#[derive(Clone, Copy, Debug, PartialEq, Eq, Structural)]
pub enum DbError {
    /// Another account already has this name.
    DuplicateAccountName,
    /// The account already has a calendar at this URL.
    DuplicateCalendarUrl,
    /// No account has the referenced id.
    UnknownAccount,
    /// No calendar has the referenced id.
    UnknownCalendar,
    /// The ids of a table are used up.
    IdsExhausted,
}

/// The message of a store error.
pub open spec fn db_message(e: DbError) -> Seq<char> {
    match e {
        DbError::DuplicateAccountName => "An account with this name already exists"@,
        DbError::DuplicateCalendarUrl => "The account already has a calendar at this URL"@,
        DbError::UnknownAccount => "No account with this id"@,
        DbError::UnknownCalendar => "No calendar with this id"@,
        DbError::IdsExhausted => "No ids left"@,
    }
}

impl DbError {
    /// The message of this error.
    pub fn message(&self) -> (r: String)
        ensures
            r@ == db_message(*self),
    {
        match self {
            DbError::DuplicateAccountName => crate::text::owned("An account with this name already exists"),
            DbError::DuplicateCalendarUrl => crate::text::owned("The account already has a calendar at this URL"),
            DbError::UnknownAccount => crate::text::owned("No account with this id"),
            DbError::UnknownCalendar => crate::text::owned("No calendar with this id"),
            DbError::IdsExhausted => crate::text::owned("No ids left"),
        }
    }
}

/// The ids of the records increase along the sequence.
pub open spec fn ids_increasing<T: Identified>(s: Seq<T>) -> bool {
    forall|i: int, j: int| 0 <= i < j < s.len() ==> #[trigger] s[i].ident() < #[trigger] s[j].ident()
}

/// Every id is positive and below `next`.
pub open spec fn ids_below<T: Identified>(s: Seq<T>, next: i64) -> bool {
    forall|i: int| 0 <= i < s.len() ==> 0 < #[trigger] s[i].ident() < next
}

/// Some record has id `id`.
pub open spec fn has_id<T: Identified>(s: Seq<T>, id: i64) -> bool {
    exists|i: int| 0 <= i < s.len() && #[trigger] s[i].ident() == id
}

/// The record with id `id`, if there is one.
pub open spec fn find_id<T: Identified>(s: Seq<T>, id: i64) -> Option<T> {
    if has_id(s, id) {
        Some(s[choose|i: int| 0 <= i < s.len() && #[trigger] s[i].ident() == id])
    } else {
        None
    }
}

/// The contents of the store.
pub struct DbModel {
    pub accounts: Seq<AccountView>,
    pub calendars: Seq<CalendarView>,
    pub events: Seq<EventView>,
    pub next_account_id: i64,
    pub next_calendar_id: i64,
    pub next_event_id: i64,
}

/// Keeps the records whose id is not `id`.
pub open spec fn not_account(id: i64) -> spec_fn(AccountView) -> bool {
    |a: AccountView| a.id != id
}

/// Keeps the calendars of accounts other than `account_id`.
pub open spec fn not_of_account(account_id: i64) -> spec_fn(CalendarView) -> bool {
    |c: CalendarView| c.account_id != account_id
}

/// Keeps the calendars of account `account_id`.
pub open spec fn of_account(account_id: i64) -> spec_fn(CalendarView) -> bool {
    |c: CalendarView| c.account_id == account_id
}

/// Keeps the calendars whose id is not `id`.
pub open spec fn not_calendar(id: i64) -> spec_fn(CalendarView) -> bool {
    |c: CalendarView| c.id != id
}

/// Keeps the events whose calendar is among `cals`.
pub open spec fn in_calendars(cals: Seq<CalendarView>) -> spec_fn(EventView) -> bool {
    |e: EventView| has_id(cals, e.calendar_id)
}

/// Keeps the events of calendars other than `calendar_id`.
pub open spec fn not_of_calendar(calendar_id: i64) -> spec_fn(EventView) -> bool {
    |e: EventView| e.calendar_id != calendar_id
}

/// Keeps the events whose id is not `id`.
pub open spec fn not_event(id: i64) -> spec_fn(EventView) -> bool {
    |e: EventView| e.id != id
}

/// Keeps the events other than the one with UID `uid` in calendar `calendar_id`.
pub open spec fn not_uid(calendar_id: i64, uid: Seq<char>) -> spec_fn(EventView) -> bool {
    |e: EventView| !(e.calendar_id == calendar_id && e.uid == uid)
}

/// Keeps the events of the calendar (any calendar for `None`) that start
/// within `[start, end]`.
pub open spec fn in_range(calendar_id: Option<i64>, start: Timestamp, end: Timestamp) -> spec_fn(
    EventView,
) -> bool {
    |e: EventView|
        (calendar_id is None || e.calendar_id == calendar_id->0) && start.le(e.start_time)
            && e.start_time.le(end)
}

impl DbModel {
    /// The empty store.
    pub open spec fn empty() -> DbModel {
        DbModel {
            accounts: Seq::empty(),
            calendars: Seq::empty(),
            events: Seq::empty(),
            next_account_id: 1,
            next_calendar_id: 1,
            next_event_id: 1,
        }
    }

    /// Some account is named `name`.
    pub open spec fn account_name_used(self, name: Seq<char>) -> bool {
        exists|i: int| 0 <= i < self.accounts.len() && #[trigger] self.accounts[i].name == name
    }

    /// Another account than `except` is named `name`.
    pub open spec fn account_name_taken(self, name: Seq<char>, except: i64) -> bool {
        exists|i: int|
            0 <= i < self.accounts.len() && #[trigger] self.accounts[i].name == name
                && self.accounts[i].id != except
    }

    /// Another calendar than `except` of account `account_id` has URL `url`.
    pub open spec fn calendar_url_taken(self, account_id: i64, url: Seq<char>, except: i64) -> bool {
        exists|i: int|
            0 <= i < self.calendars.len() && #[trigger] self.calendars[i].account_id == account_id
                && self.calendars[i].url == url && self.calendars[i].id != except
    }

    /// Some event of calendar `calendar_id` has UID `uid`.
    pub open spec fn has_uid(self, calendar_id: i64, uid: Seq<char>) -> bool {
        exists|i: int|
            0 <= i < self.events.len() && #[trigger] self.events[i].calendar_id == calendar_id
                && self.events[i].uid == uid
    }

    /// The position of the event of calendar `calendar_id` with UID `uid`.
    pub open spec fn uid_index(self, calendar_id: i64, uid: Seq<char>) -> int {
        choose|i: int|
            0 <= i < self.events.len() && #[trigger] self.events[i].calendar_id == calendar_id
                && self.events[i].uid == uid
    }

    /// The store keeps its constraints: ids unique, increasing and below the
    /// next id to hand out; account names unique; calendar URLs unique per
    /// account; event UIDs unique per calendar; every calendar's account and
    /// every event's calendar present.
    pub open spec fn wf(self) -> bool {
        &&& 1 <= self.next_account_id
        &&& 1 <= self.next_calendar_id
        &&& 1 <= self.next_event_id
        &&& ids_increasing(self.accounts)
        &&& ids_below(self.accounts, self.next_account_id)
        &&& ids_increasing(self.calendars)
        &&& ids_below(self.calendars, self.next_calendar_id)
        &&& ids_increasing(self.events)
        &&& ids_below(self.events, self.next_event_id)
        &&& forall|i: int, j: int|
            0 <= i < self.accounts.len() && 0 <= j < self.accounts.len() && i != j
                ==> #[trigger] self.accounts[i].name != #[trigger] self.accounts[j].name
        &&& forall|i: int|
            0 <= i < self.calendars.len() ==> has_id(
                self.accounts,
                #[trigger] self.calendars[i].account_id,
            )
        &&& forall|i: int, j: int|
            0 <= i < self.calendars.len() && 0 <= j < self.calendars.len() && i != j
                && #[trigger] self.calendars[i].account_id == #[trigger] self.calendars[j].account_id
                ==> self.calendars[i].url != self.calendars[j].url
        &&& forall|i: int|
            0 <= i < self.events.len() ==> has_id(
                self.calendars,
                #[trigger] self.events[i].calendar_id,
            )
        &&& forall|i: int, j: int|
            0 <= i < self.events.len() && 0 <= j < self.events.len() && i != j
                && #[trigger] self.events[i].calendar_id == #[trigger] self.events[j].calendar_id
                ==> self.events[i].uid != self.events[j].uid
    }

    // --- accounts ---

    /// Inserting an account: refused when the name is taken; otherwise it
    /// is stored under the next id, which is returned.
    pub open spec fn insert_account(self, a: AccountView) -> (DbModel, Result<i64, DbError>) {
        if self.account_name_used(a.name) {
            (self, Err(DbError::DuplicateAccountName))
        } else if self.next_account_id == i64::MAX {
            (self, Err(DbError::IdsExhausted))
        } else {
            let id = self.next_account_id;
            (
                DbModel {
                    accounts: self.accounts.push(AccountView { id, ..a }),
                    next_account_id: (id + 1) as i64,
                    ..self
                },
                Ok(id),
            )
        }
    }

    /// The account with id `id`.
    pub open spec fn get_account(self, id: i64) -> Option<AccountView> {
        find_id(self.accounts, id)
    }

    /// Updating an account: refused when another account has its name;
    /// otherwise the account with its id takes all its fields (no change
    /// when there is none).
    pub open spec fn update_account(self, a: AccountView) -> (DbModel, Result<(), DbError>) {
        if self.account_name_taken(a.name, a.id) {
            (self, Err(DbError::DuplicateAccountName))
        } else {
            (
                DbModel {
                    accounts: self.accounts.map_values(
                        |x: AccountView|
                            if x.id == a.id {
                                a
                            } else {
                                x
                            },
                    ),
                    ..self
                },
                Ok(()),
            )
        }
    }

    /// Deleting an account removes it, its calendars and their events.
    pub open spec fn delete_account(self, id: i64) -> DbModel {
        let cals = self.calendars.filter(not_of_account(id));
        DbModel {
            accounts: self.accounts.filter(not_account(id)),
            calendars: cals,
            events: self.events.filter(in_calendars(cals)),
            ..self
        }
    }

    // --- calendars ---

    /// Some calendar of account `account_id` has URL `url`.
    pub open spec fn calendar_url_used(self, account_id: i64, url: Seq<char>) -> bool {
        exists|i: int|
            0 <= i < self.calendars.len() && #[trigger] self.calendars[i].account_id == account_id
                && self.calendars[i].url == url
    }

    /// Inserting a calendar: refused when its account does not exist or
    /// already has a calendar at its URL; otherwise it is stored under the
    /// next id, which is returned.
    pub open spec fn insert_calendar(self, c: CalendarView) -> (DbModel, Result<i64, DbError>) {
        if !has_id(self.accounts, c.account_id) {
            (self, Err(DbError::UnknownAccount))
        } else if self.calendar_url_used(c.account_id, c.url) {
            (self, Err(DbError::DuplicateCalendarUrl))
        } else if self.next_calendar_id == i64::MAX {
            (self, Err(DbError::IdsExhausted))
        } else {
            let id = self.next_calendar_id;
            (
                DbModel {
                    calendars: self.calendars.push(CalendarView { id, ..c }),
                    next_calendar_id: (id + 1) as i64,
                    ..self
                },
                Ok(id),
            )
        }
    }

    /// The calendar with id `id`.
    pub open spec fn get_calendar(self, id: i64) -> Option<CalendarView> {
        find_id(self.calendars, id)
    }

    /// The calendars of account `account_id`, in id order.
    pub open spec fn list_calendars(self, account_id: i64) -> Seq<CalendarView> {
        self.calendars.filter(of_account(account_id))
    }

    /// Updating a calendar: refused when its account does not exist or
    /// another calendar of that account has its URL; otherwise the calendar
    /// with its id takes all its fields (no change when there is none).
    pub open spec fn update_calendar(self, c: CalendarView) -> (DbModel, Result<(), DbError>) {
        if !has_id(self.accounts, c.account_id) {
            (self, Err(DbError::UnknownAccount))
        } else if self.calendar_url_taken(c.account_id, c.url, c.id) {
            (self, Err(DbError::DuplicateCalendarUrl))
        } else {
            (
                DbModel {
                    calendars: self.calendars.map_values(
                        |x: CalendarView|
                            if x.id == c.id {
                                c
                            } else {
                                x
                            },
                    ),
                    ..self
                },
                Ok(()),
            )
        }
    }

    /// Deleting a calendar removes it and its events.
    pub open spec fn delete_calendar(self, id: i64) -> DbModel {
        DbModel {
            calendars: self.calendars.filter(not_calendar(id)),
            events: self.events.filter(not_of_calendar(id)),
            ..self
        }
    }

    // --- events ---

    /// Inserting or updating an event: refused when its calendar does not
    /// exist; when the calendar has an event with its UID, that event takes
    /// all its fields and keeps its id; otherwise it is stored under the
    /// next id. The event's id is returned.
    pub open spec fn upsert_event(self, e: EventView) -> (DbModel, Result<i64, DbError>) {
        if !has_id(self.calendars, e.calendar_id) {
            (self, Err(DbError::UnknownCalendar))
        } else if self.has_uid(e.calendar_id, e.uid) {
            let j = self.uid_index(e.calendar_id, e.uid);
            let id = self.events[j].id;
            (DbModel { events: self.events.update(j, EventView { id, ..e }), ..self }, Ok(id))
        } else if self.next_event_id == i64::MAX {
            (self, Err(DbError::IdsExhausted))
        } else {
            let id = self.next_event_id;
            (
                DbModel {
                    events: self.events.push(EventView { id, ..e }),
                    next_event_id: (id + 1) as i64,
                    ..self
                },
                Ok(id),
            )
        }
    }

    /// The event with id `id`.
    pub open spec fn get_event(self, id: i64) -> Option<EventView> {
        find_id(self.events, id)
    }

    /// The event of calendar `calendar_id` with UID `uid`.
    pub open spec fn get_event_by_uid(self, calendar_id: i64, uid: Seq<char>) -> Option<EventView> {
        if self.has_uid(calendar_id, uid) {
            Some(self.events[self.uid_index(calendar_id, uid)])
        } else {
            None
        }
    }

    /// The events of a calendar (of all calendars for `None`) that start
    /// within `[start, end]`, in id order.
    pub open spec fn list_events(self, calendar_id: Option<i64>, start: Timestamp, end: Timestamp) -> Seq<
        EventView,
    > {
        self.events.filter(in_range(calendar_id, start, end))
    }

    /// Deleting an event by id.
    pub open spec fn delete_event(self, id: i64) -> DbModel {
        DbModel { events: self.events.filter(not_event(id)), ..self }
    }

    /// Deleting the event of a calendar with a UID.
    pub open spec fn delete_event_by_uid(self, calendar_id: i64, uid: Seq<char>) -> DbModel {
        DbModel { events: self.events.filter(not_uid(calendar_id, uid)), ..self }
    }
}

// ---------------------------------------------------------------------------
// Lemmas
// ---------------------------------------------------------------------------

/// In a sequence of increasing ids, the record found by id is the one at
/// the position that holds it.
pub proof fn lemma_find_id<T: Identified>(s: Seq<T>, i: int)
    requires
        ids_increasing(s),
        0 <= i < s.len(),
    ensures
        has_id(s, s[i].ident()),
        find_id(s, s[i].ident()) == Some(s[i]),
{
    let id = s[i].ident();
    assert(s[i].ident() == id);
    let j = choose|j: int| 0 <= j < s.len() && #[trigger] s[j].ident() == id;
    if j < i {
        assert(s[j].ident() < s[i].ident());
    } else if i < j {
        assert(s[i].ident() < s[j].ident());
    }
}

/// Filtering keeps the ids increasing and below the bound, and keeps
/// exactly the records that pass.
pub proof fn lemma_filter_ids<T: Identified>(s: Seq<T>, p: spec_fn(T) -> bool, next: i64)
    requires
        ids_increasing(s),
        ids_below(s, next),
    ensures
        ids_increasing(s.filter(p)),
        ids_below(s.filter(p), next),
        forall|x: T| #[trigger] s.filter(p).contains(x) <==> s.contains(x) && p(x),
    decreases s.len(),
{
    reveal(Seq::filter);
    if s.len() > 0 {
        let t = s.drop_last();
        lemma_filter_ids(t, p, next);
        let ft = t.filter(p);
        let fs = s.filter(p);
        let last = s.last();
        assert(s.drop_last() == t);
        assert(fs == (if p(last) { ft.push(last) } else { ft }));
        assert forall|k: int| 0 <= k < ft.len() implies #[trigger] ft[k].ident() < last.ident() by {
            assert(ft[k] == ft[k]);
            assert(ft.contains(ft[k]));
            assert(t.contains(ft[k]));
            let j = choose|j: int| 0 <= j < t.len() && t[j] == ft[k];
            assert(s[j] == t[j]);
            assert(s[j].ident() < s[s.len() - 1].ident());
        }
        assert forall|x: T| #[trigger] fs.contains(x) <==> s.contains(x) && p(x) by {
            if fs.contains(x) {
                let k = choose|k: int| 0 <= k < fs.len() && fs[k] == x;
                if k < ft.len() {
                    assert(fs[k] == ft[k]);
                    assert(ft.contains(x));
                    assert(t.contains(x));
                    let j = choose|j: int| 0 <= j < t.len() && t[j] == x;
                    assert(s[j] == x);
                } else {
                    assert(x == last);
                    assert(s[s.len() - 1] == x);
                }
            }
            if s.contains(x) && p(x) {
                let j = choose|j: int| 0 <= j < s.len() && s[j] == x;
                if j < s.len() - 1 {
                    assert(t[j] == x);
                    assert(t.contains(x));
                    assert(ft.contains(x));
                    let k = choose|k: int| 0 <= k < ft.len() && ft[k] == x;
                    assert(fs[k] == x);
                } else {
                    assert(x == last);
                    assert(fs[fs.len() - 1] == x);
                }
            }
        }
        assert forall|i: int, j: int| 0 <= i < j < fs.len() implies #[trigger] fs[i].ident()
            < #[trigger] fs[j].ident() by {
            if j < ft.len() {
                assert(fs[i] == ft[i] && fs[j] == ft[j]);
            } else {
                assert(fs[i] == ft[i]);
            }
        }
        assert forall|i: int| 0 <= i < fs.len() implies 0 < #[trigger] fs[i].ident() < next by {
            if i < ft.len() {
                assert(fs[i] == ft[i]);
            } else {
                assert(fs[i] == s[s.len() - 1]);
            }
        }
    }
}

/// A position holding id `id` witnesses `has_id`.
pub proof fn lemma_has_id_at<T: Identified>(s: Seq<T>, i: int)
    requires
        0 <= i < s.len(),
    ensures
        has_id(s, s[i].ident()),
{
    assert(s[i].ident() == s[i].ident());
}

/// `has_id` holds of a subsequence's ids in the sequence, and of a
/// sequence's ids in its filter when the record passes.
pub proof fn lemma_has_id_filter<T: Identified>(s: Seq<T>, p: spec_fn(T) -> bool, next: i64, id: i64)
    requires
        ids_increasing(s),
        ids_below(s, next),
    ensures
        has_id(s.filter(p), id) <==> exists|i: int|
            0 <= i < s.len() && #[trigger] s[i].ident() == id && p(s[i]),
{
    lemma_filter_ids(s, p, next);
    let f = s.filter(p);
    if has_id(f, id) {
        let k = choose|k: int| 0 <= k < f.len() && #[trigger] f[k].ident() == id;
        assert(f.contains(f[k]));
        let i = choose|i: int| 0 <= i < s.len() && s[i] == f[k];
        assert(s[i].ident() == id && p(s[i]));
    }
    if exists|i: int| 0 <= i < s.len() && #[trigger] s[i].ident() == id && p(s[i]) {
        let i = choose|i: int| 0 <= i < s.len() && #[trigger] s[i].ident() == id && p(s[i]);
        assert(s.contains(s[i]));
        assert(f.contains(s[i]));
        let k = choose|k: int| 0 <= k < f.len() && f[k] == s[i];
        assert(f[k].ident() == id);
    }
}


/// Pushing a record keeps every id that was there.
pub proof fn lemma_push_has_id<T: Identified>(s: Seq<T>, x: T, id: i64)
    requires
        has_id(s, id),
    ensures
        has_id(s.push(x), id),
{
    let i = choose|i: int| 0 <= i < s.len() && #[trigger] s[i].ident() == id;
    assert(s.push(x)[i] == s[i]);
}

/// A record of a filtered sequence comes from the sequence.
pub proof fn lemma_filter_origin<T: Identified>(s: Seq<T>, p: spec_fn(T) -> bool, next: i64, k: int)
    requires
        ids_increasing(s),
        ids_below(s, next),
        0 <= k < s.filter(p).len(),
    ensures
        exists|a: int| 0 <= a < s.len() && s[a] == s.filter(p)[k] && p(s[a]),
{
    lemma_filter_ids(s, p, next);
    let f = s.filter(p);
    assert(f[k] == f[k]);
    assert(f.contains(f[k]));
    let a = choose|a: int| 0 <= a < s.len() && s[a] == f[k];
    assert(p(s[a]));
}

/// The views of a list of accounts.
pub open spec fn accounts_view(v: Seq<Account>) -> Seq<AccountView> {
    v.map_values(|a: Account| a@)
}

/// The views of a list of calendars.
pub open spec fn calendars_view(v: Seq<Calendar>) -> Seq<CalendarView> {
    v.map_values(|c: Calendar| c@)
}

/// The views of a list of events.
pub open spec fn events_view(v: Seq<Event>) -> Seq<EventView> {
    v.map_values(|e: Event| e@)
}

/// Inserting an account keeps the store's constraints.
pub proof fn lemma_insert_account_wf(m: DbModel, a: AccountView)
    requires
        m.wf(),
    ensures
        m.insert_account(a).0.wf(),
{
    let n = m.insert_account(a).0;
    if n != m {
        let x = AccountView { id: m.next_account_id, ..a };
        assert(n.accounts == m.accounts.push(x));
        assert forall|i: int| 0 <= i < n.calendars.len() implies has_id(
            n.accounts,
            #[trigger] n.calendars[i].account_id,
        ) by {
            lemma_push_has_id(m.accounts, x, n.calendars[i].account_id);
        }
        assert forall|i: int, j: int|
            0 <= i < n.accounts.len() && 0 <= j < n.accounts.len() && i != j implies #[trigger] n.accounts[i].name
            != #[trigger] n.accounts[j].name by {
            if i == m.accounts.len() as int {
                assert(m.accounts[j].name == n.accounts[j].name);
            } else if j == m.accounts.len() as int {
                assert(m.accounts[i].name == n.accounts[i].name);
            }
        }
    }
}

/// Updating an account keeps the store's constraints.
pub proof fn lemma_update_account_wf(m: DbModel, a: AccountView)
    requires
        m.wf(),
    ensures
        m.update_account(a).0.wf(),
{
    let n = m.update_account(a).0;
    if n != m {
        assert(n.accounts.len() == m.accounts.len());
        assert forall|i: int| 0 <= i < n.accounts.len() implies #[trigger] n.accounts[i].ident()
            == m.accounts[i].ident() by {}
        assert forall|i: int| 0 <= i < n.calendars.len() implies has_id(
            n.accounts,
            #[trigger] n.calendars[i].account_id,
        ) by {
            let id = n.calendars[i].account_id;
            let k = choose|k: int| 0 <= k < m.accounts.len() && #[trigger] m.accounts[k].ident() == id;
            assert(n.accounts[k].ident() == id);
        }
        assert forall|i: int, j: int|
            0 <= i < n.accounts.len() && 0 <= j < n.accounts.len() && i != j implies #[trigger] n.accounts[i].name
            != #[trigger] n.accounts[j].name by {
            if m.accounts[i].id == a.id {
                assert(m.accounts[j].id != a.id) by {
                    if j < i {
                        assert(m.accounts[j].ident() < m.accounts[i].ident());
                    } else {
                        assert(m.accounts[i].ident() < m.accounts[j].ident());
                    }
                }
                assert(!(m.accounts[j].name == a.name && m.accounts[j].id != a.id));
            } else if m.accounts[j].id == a.id {
                assert(!(m.accounts[i].name == a.name && m.accounts[i].id != a.id));
            }
        }
    }
}

/// Deleting an account keeps the store's constraints.
pub proof fn lemma_delete_account_wf(m: DbModel, id: i64)
    requires
        m.wf(),
    ensures
        m.delete_account(id).wf(),
{
    let n = m.delete_account(id);
    lemma_filter_ids(m.accounts, not_account(id), m.next_account_id);
    lemma_filter_ids(m.calendars, not_of_account(id), m.next_calendar_id);
    lemma_filter_ids(m.events, in_calendars(n.calendars), m.next_event_id);
    assert forall|i: int, j: int|
        0 <= i < n.accounts.len() && 0 <= j < n.accounts.len() && i != j implies #[trigger] n.accounts[i].name
        != #[trigger] n.accounts[j].name by {
        lemma_filter_origin(m.accounts, not_account(id), m.next_account_id, i);
        lemma_filter_origin(m.accounts, not_account(id), m.next_account_id, j);
        let a = choose|a: int| 0 <= a < m.accounts.len() && m.accounts[a] == n.accounts[i] && not_account(id)(m.accounts[a]);
        let b = choose|b: int| 0 <= b < m.accounts.len() && m.accounts[b] == n.accounts[j] && not_account(id)(m.accounts[b]);
        if i < j {
            assert(n.accounts[i].ident() < n.accounts[j].ident());
        } else {
            assert(n.accounts[j].ident() < n.accounts[i].ident());
        }
        assert(a != b);
    }
    assert forall|i: int| 0 <= i < n.calendars.len() implies has_id(
        n.accounts,
        #[trigger] n.calendars[i].account_id,
    ) by {
        lemma_filter_origin(m.calendars, not_of_account(id), m.next_calendar_id, i);
        let c = choose|c: int| 0 <= c < m.calendars.len() && m.calendars[c] == n.calendars[i] && not_of_account(id)(m.calendars[c]);
        let aid = m.calendars[c].account_id;
        assert(has_id(m.accounts, m.calendars[c].account_id));
        let k = choose|k: int| 0 <= k < m.accounts.len() && #[trigger] m.accounts[k].ident() == aid;
        lemma_has_id_filter(m.accounts, not_account(id), m.next_account_id, aid);
        assert(not_account(id)(m.accounts[k]));
    }
    assert forall|i: int, j: int|
        0 <= i < n.calendars.len() && 0 <= j < n.calendars.len() && i != j
            && #[trigger] n.calendars[i].account_id == #[trigger] n.calendars[j].account_id
        implies n.calendars[i].url != n.calendars[j].url by {
        lemma_filter_origin(m.calendars, not_of_account(id), m.next_calendar_id, i);
        lemma_filter_origin(m.calendars, not_of_account(id), m.next_calendar_id, j);
        let a = choose|a: int| 0 <= a < m.calendars.len() && m.calendars[a] == n.calendars[i] && not_of_account(id)(m.calendars[a]);
        let b = choose|b: int| 0 <= b < m.calendars.len() && m.calendars[b] == n.calendars[j] && not_of_account(id)(m.calendars[b]);
        if i < j {
            assert(n.calendars[i].ident() < n.calendars[j].ident());
        } else {
            assert(n.calendars[j].ident() < n.calendars[i].ident());
        }
        assert(a != b);
        assert(m.calendars[a].account_id == m.calendars[b].account_id);
    }
    assert forall|i: int| 0 <= i < n.events.len() implies has_id(
        n.calendars,
        #[trigger] n.events[i].calendar_id,
    ) by {
        lemma_filter_origin(m.events, in_calendars(n.calendars), m.next_event_id, i);
    }
    assert forall|i: int, j: int|
        0 <= i < n.events.len() && 0 <= j < n.events.len() && i != j
            && #[trigger] n.events[i].calendar_id == #[trigger] n.events[j].calendar_id
        implies n.events[i].uid != n.events[j].uid by {
        lemma_filter_origin(m.events, in_calendars(n.calendars), m.next_event_id, i);
        lemma_filter_origin(m.events, in_calendars(n.calendars), m.next_event_id, j);
        let a = choose|a: int| 0 <= a < m.events.len() && m.events[a] == n.events[i] && in_calendars(n.calendars)(m.events[a]);
        let b = choose|b: int| 0 <= b < m.events.len() && m.events[b] == n.events[j] && in_calendars(n.calendars)(m.events[b]);
        if i < j {
            assert(n.events[i].ident() < n.events[j].ident());
        } else {
            assert(n.events[j].ident() < n.events[i].ident());
        }
        assert(a != b);
        assert(m.events[a].calendar_id == m.events[b].calendar_id);
    }
}

/// Inserting a calendar keeps the store's constraints.
pub proof fn lemma_insert_calendar_wf(m: DbModel, c: CalendarView)
    requires
        m.wf(),
    ensures
        m.insert_calendar(c).0.wf(),
{
    let n = m.insert_calendar(c).0;
    if n != m {
        let x = CalendarView { id: m.next_calendar_id, ..c };
        assert(n.calendars == m.calendars.push(x));
        assert forall|i: int| 0 <= i < n.events.len() implies has_id(
            n.calendars,
            #[trigger] n.events[i].calendar_id,
        ) by {
            lemma_push_has_id(m.calendars, x, n.events[i].calendar_id);
        }
        assert forall|i: int| 0 <= i < n.calendars.len() implies has_id(
            n.accounts,
            #[trigger] n.calendars[i].account_id,
        ) by {
            if i < m.calendars.len() {
                assert(n.calendars[i] == m.calendars[i]);
            }
        }
        assert forall|i: int, j: int|
            0 <= i < n.calendars.len() && 0 <= j < n.calendars.len() && i != j
                && #[trigger] n.calendars[i].account_id == #[trigger] n.calendars[j].account_id
            implies n.calendars[i].url != n.calendars[j].url by {
            if i == m.calendars.len() as int {
                assert(n.calendars[j] == m.calendars[j]);
            } else if j == m.calendars.len() as int {
                assert(n.calendars[i] == m.calendars[i]);
            } else {
                assert(n.calendars[i] == m.calendars[i]);
                assert(n.calendars[j] == m.calendars[j]);
            }
        }
    }
}

/// Updating a calendar keeps the store's constraints.
pub proof fn lemma_update_calendar_wf(m: DbModel, c: CalendarView)
    requires
        m.wf(),
    ensures
        m.update_calendar(c).0.wf(),
{
    let n = m.update_calendar(c).0;
    if n != m {
        assert(n.calendars.len() == m.calendars.len());
        assert forall|i: int| 0 <= i < n.calendars.len() implies #[trigger] n.calendars[i].ident()
            == m.calendars[i].ident() by {}
        assert forall|i: int| 0 <= i < n.events.len() implies has_id(
            n.calendars,
            #[trigger] n.events[i].calendar_id,
        ) by {
            let id = n.events[i].calendar_id;
            let k = choose|k: int| 0 <= k < m.calendars.len() && #[trigger] m.calendars[k].ident() == id;
            assert(n.calendars[k].ident() == id);
        }
        assert forall|i: int| 0 <= i < n.calendars.len() implies has_id(
            n.accounts,
            #[trigger] n.calendars[i].account_id,
        ) by {
            if m.calendars[i].id != c.id {
                assert(n.calendars[i] == m.calendars[i]);
            }
        }
        assert forall|i: int, j: int|
            0 <= i < n.calendars.len() && 0 <= j < n.calendars.len() && i != j
                && #[trigger] n.calendars[i].account_id == #[trigger] n.calendars[j].account_id
            implies n.calendars[i].url != n.calendars[j].url by {
            if m.calendars[i].id == c.id {
                assert(m.calendars[j].id != c.id) by {
                    if j < i {
                        assert(m.calendars[j].ident() < m.calendars[i].ident());
                    } else {
                        assert(m.calendars[i].ident() < m.calendars[j].ident());
                    }
                }
                assert(!(m.calendars[j].account_id == c.account_id && m.calendars[j].url == c.url
                    && m.calendars[j].id != c.id));
            } else if m.calendars[j].id == c.id {
                assert(!(m.calendars[i].account_id == c.account_id && m.calendars[i].url == c.url
                    && m.calendars[i].id != c.id));
            }
        }
    }
}

/// Deleting a calendar keeps the store's constraints.
pub proof fn lemma_delete_calendar_wf(m: DbModel, id: i64)
    requires
        m.wf(),
    ensures
        m.delete_calendar(id).wf(),
{
    let n = m.delete_calendar(id);
    lemma_filter_ids(m.calendars, not_calendar(id), m.next_calendar_id);
    lemma_filter_ids(m.events, not_of_calendar(id), m.next_event_id);
    assert forall|i: int| 0 <= i < n.calendars.len() implies has_id(
        n.accounts,
        #[trigger] n.calendars[i].account_id,
    ) by {
        lemma_filter_origin(m.calendars, not_calendar(id), m.next_calendar_id, i);
    }
    assert forall|i: int, j: int|
        0 <= i < n.calendars.len() && 0 <= j < n.calendars.len() && i != j
            && #[trigger] n.calendars[i].account_id == #[trigger] n.calendars[j].account_id
        implies n.calendars[i].url != n.calendars[j].url by {
        lemma_filter_origin(m.calendars, not_calendar(id), m.next_calendar_id, i);
        lemma_filter_origin(m.calendars, not_calendar(id), m.next_calendar_id, j);
        let a = choose|a: int| 0 <= a < m.calendars.len() && m.calendars[a] == n.calendars[i] && not_calendar(id)(m.calendars[a]);
        let b = choose|b: int| 0 <= b < m.calendars.len() && m.calendars[b] == n.calendars[j] && not_calendar(id)(m.calendars[b]);
        if i < j {
            assert(n.calendars[i].ident() < n.calendars[j].ident());
        } else {
            assert(n.calendars[j].ident() < n.calendars[i].ident());
        }
        assert(a != b);
        assert(m.calendars[a].account_id == m.calendars[b].account_id);
    }
    assert forall|i: int| 0 <= i < n.events.len() implies has_id(
        n.calendars,
        #[trigger] n.events[i].calendar_id,
    ) by {
        lemma_filter_origin(m.events, not_of_calendar(id), m.next_event_id, i);
        let a = choose|a: int| 0 <= a < m.events.len() && m.events[a] == n.events[i] && not_of_calendar(id)(m.events[a]);
        let cid = m.events[a].calendar_id;
        assert(has_id(m.calendars, m.events[a].calendar_id));
        let k = choose|k: int| 0 <= k < m.calendars.len() && #[trigger] m.calendars[k].ident() == cid;
        lemma_has_id_filter(m.calendars, not_calendar(id), m.next_calendar_id, cid);
        assert(not_calendar(id)(m.calendars[k]));
    }
    assert forall|i: int, j: int|
        0 <= i < n.events.len() && 0 <= j < n.events.len() && i != j
            && #[trigger] n.events[i].calendar_id == #[trigger] n.events[j].calendar_id
        implies n.events[i].uid != n.events[j].uid by {
        lemma_filter_origin(m.events, not_of_calendar(id), m.next_event_id, i);
        lemma_filter_origin(m.events, not_of_calendar(id), m.next_event_id, j);
        let a = choose|a: int| 0 <= a < m.events.len() && m.events[a] == n.events[i] && not_of_calendar(id)(m.events[a]);
        let b = choose|b: int| 0 <= b < m.events.len() && m.events[b] == n.events[j] && not_of_calendar(id)(m.events[b]);
        if i < j {
            assert(n.events[i].ident() < n.events[j].ident());
        } else {
            assert(n.events[j].ident() < n.events[i].ident());
        }
        assert(a != b);
        assert(m.events[a].calendar_id == m.events[b].calendar_id);
    }
}

/// The event found by calendar and UID is the one at the position that
/// holds them.
pub proof fn lemma_uid_index(m: DbModel, j: int)
    requires
        m.wf(),
        0 <= j < m.events.len(),
    ensures
        m.has_uid(m.events[j].calendar_id, m.events[j].uid),
        m.uid_index(m.events[j].calendar_id, m.events[j].uid) == j,
{
    let c = m.events[j].calendar_id;
    let u = m.events[j].uid;
    assert(m.events[j].calendar_id == c && m.events[j].uid == u);
    let q = m.uid_index(c, u);
    if q != j {
        assert(m.events[q].calendar_id == m.events[j].calendar_id);
    }
}

/// Inserting or updating an event keeps the store's constraints.
pub proof fn lemma_upsert_event_wf(m: DbModel, e: EventView)
    requires
        m.wf(),
    ensures
        m.upsert_event(e).0.wf(),
{
    let n = m.upsert_event(e).0;
    if has_id(m.calendars, e.calendar_id) {
        if m.has_uid(e.calendar_id, e.uid) {
            let j = m.uid_index(e.calendar_id, e.uid);
            let x = EventView { id: m.events[j].id, ..e };
            assert(n.events == m.events.update(j, x));
            assert forall|i: int| 0 <= i < n.events.len() implies #[trigger] n.events[i].ident()
                == m.events[i].ident() by {}
            assert forall|i: int| 0 <= i < n.events.len() implies has_id(
                n.calendars,
                #[trigger] n.events[i].calendar_id,
            ) by {
                if i != j {
                    assert(n.events[i] == m.events[i]);
                }
            }
            assert forall|i: int, k: int|
                0 <= i < n.events.len() && 0 <= k < n.events.len() && i != k
                    && #[trigger] n.events[i].calendar_id == #[trigger] n.events[k].calendar_id
                implies n.events[i].uid != n.events[k].uid by {
                if i == j {
                    assert(n.events[k] == m.events[k]);
                } else if k == j {
                    assert(n.events[i] == m.events[i]);
                } else {
                    assert(n.events[i] == m.events[i]);
                    assert(n.events[k] == m.events[k]);
                }
            }
        } else if m.next_event_id != i64::MAX {
            let x = EventView { id: m.next_event_id, ..e };
            assert(n.events == m.events.push(x));
            assert forall|i: int| 0 <= i < n.events.len() implies has_id(
                n.calendars,
                #[trigger] n.events[i].calendar_id,
            ) by {
                if i < m.events.len() {
                    assert(n.events[i] == m.events[i]);
                }
            }
            assert forall|i: int, k: int|
                0 <= i < n.events.len() && 0 <= k < n.events.len() && i != k
                    && #[trigger] n.events[i].calendar_id == #[trigger] n.events[k].calendar_id
                implies n.events[i].uid != n.events[k].uid by {
                if i == m.events.len() as int {
                    assert(n.events[k] == m.events[k]);
                } else if k == m.events.len() as int {
                    assert(n.events[i] == m.events[i]);
                } else {
                    assert(n.events[i] == m.events[i]);
                    assert(n.events[k] == m.events[k]);
                }
            }
        }
    }
}

/// Deleting events by a filter keeps the store's constraints.
pub proof fn lemma_filter_events_wf(m: DbModel, p: spec_fn(EventView) -> bool)
    requires
        m.wf(),
    ensures
        (DbModel { events: m.events.filter(p), ..m }).wf(),
{
    let n = DbModel { events: m.events.filter(p), ..m };
    lemma_filter_ids(m.events, p, m.next_event_id);
    assert forall|i: int| 0 <= i < n.events.len() implies has_id(
        n.calendars,
        #[trigger] n.events[i].calendar_id,
    ) by {
        lemma_filter_origin(m.events, p, m.next_event_id, i);
    }
    assert forall|i: int, j: int|
        0 <= i < n.events.len() && 0 <= j < n.events.len() && i != j
            && #[trigger] n.events[i].calendar_id == #[trigger] n.events[j].calendar_id
        implies n.events[i].uid != n.events[j].uid by {
        lemma_filter_origin(m.events, p, m.next_event_id, i);
        lemma_filter_origin(m.events, p, m.next_event_id, j);
        let a = choose|a: int| 0 <= a < m.events.len() && m.events[a] == n.events[i] && p(m.events[a]);
        let b = choose|b: int| 0 <= b < m.events.len() && m.events[b] == n.events[j] && p(m.events[b]);
        if i < j {
            assert(n.events[i].ident() < n.events[j].ident());
        } else {
            assert(n.events[j].ident() < n.events[i].ident());
        }
        assert(a != b);
        assert(m.events[a].calendar_id == m.events[b].calendar_id);
    }
}

// ---------------------------------------------------------------------------
// Laws of the store
// ---------------------------------------------------------------------------

/// A stored account is read back by the id that the insert returned.
pub proof fn law_insert_then_get_account(m: DbModel, a: AccountView)
    requires
        m.wf(),
        m.insert_account(a).1 is Ok,
    ensures
        m.insert_account(a).0.get_account(m.insert_account(a).1->Ok_0) == Some(
            AccountView { id: m.insert_account(a).1->Ok_0, ..a },
        ),
{
    let n = m.insert_account(a).0;
    lemma_insert_account_wf(m, a);
    lemma_find_id(n.accounts, m.accounts.len() as int);
}

/// An account whose name is in use is refused and the store is unchanged.
pub proof fn law_account_names_unique(m: DbModel, a: AccountView)
    requires
        m.account_name_used(a.name),
    ensures
        m.insert_account(a) == (m, Err::<i64, DbError>(DbError::DuplicateAccountName)),
{
}

/// After an update, the account with the updated id reads back as given.
pub proof fn law_update_then_get_account(m: DbModel, a: AccountView)
    requires
        m.wf(),
        has_id(m.accounts, a.id),
        m.update_account(a).1 is Ok,
    ensures
        m.update_account(a).0.get_account(a.id) == Some(a),
{
    let n = m.update_account(a).0;
    lemma_update_account_wf(m, a);
    let j = choose|j: int| 0 <= j < m.accounts.len() && #[trigger] m.accounts[j].ident() == a.id;
    assert(n.accounts[j] == a);
    lemma_find_id(n.accounts, j);
}

/// Deleting an account leaves no trace of it: the account, its calendars
/// and their events are gone; the rest of the store stays consistent.
pub proof fn law_delete_account_cascades(m: DbModel, id: i64)
    requires
        m.wf(),
    ensures
        m.delete_account(id).wf(),
        m.delete_account(id).get_account(id) is None,
        forall|i: int|
            0 <= i < m.delete_account(id).calendars.len() ==> #[trigger] m.delete_account(
                id,
            ).calendars[i].account_id != id,
        forall|c: int|
            0 <= c < m.calendars.len() && m.calendars[c].account_id == id ==> m.delete_account(
                id,
            ).get_calendar(#[trigger] m.calendars[c].id) is None,
        forall|e: int, c: int|
            0 <= e < m.events.len() && 0 <= c < m.calendars.len() && #[trigger] m.events[e].calendar_id
                == #[trigger] m.calendars[c].id && m.calendars[c].account_id == id
                ==> m.delete_account(id).get_event(m.events[e].id) is None,
{
    let n = m.delete_account(id);
    lemma_delete_account_wf(m, id);
    lemma_has_id_filter(m.accounts, not_account(id), m.next_account_id, id);
    assert forall|i: int| 0 <= i < n.calendars.len() implies #[trigger] n.calendars[i].account_id != id by {
        lemma_filter_origin(m.calendars, not_of_account(id), m.next_calendar_id, i);
    }
    assert forall|c: int|
        0 <= c < m.calendars.len() && m.calendars[c].account_id == id implies n.get_calendar(
        #[trigger] m.calendars[c].id,
    ) is None by {
        let cid = m.calendars[c].id;
        lemma_has_id_filter(m.calendars, not_of_account(id), m.next_calendar_id, cid);
        if has_id(n.calendars, cid) {
            let k = choose|k: int|
                0 <= k < m.calendars.len() && #[trigger] m.calendars[k].ident() == cid
                    && not_of_account(id)(m.calendars[k]);
            if k < c {
                assert(m.calendars[k].ident() < m.calendars[c].ident());
            } else if c < k {
                assert(m.calendars[c].ident() < m.calendars[k].ident());
            }
        }
    }
    assert forall|e: int, c: int|
        0 <= e < m.events.len() && 0 <= c < m.calendars.len() && #[trigger] m.events[e].calendar_id
            == #[trigger] m.calendars[c].id && m.calendars[c].account_id == id implies n.get_event(
        m.events[e].id,
    ) is None by {
        let eid = m.events[e].id;
        lemma_has_id_filter(m.events, in_calendars(n.calendars), m.next_event_id, eid);
        if has_id(n.events, eid) {
            let k = choose|k: int|
                0 <= k < m.events.len() && #[trigger] m.events[k].ident() == eid && in_calendars(
                    n.calendars,
                )(m.events[k]);
            if k < e {
                assert(m.events[k].ident() < m.events[e].ident());
            } else if e < k {
                assert(m.events[e].ident() < m.events[k].ident());
            }
            let cid = m.calendars[c].id;
            lemma_has_id_filter(m.calendars, not_of_account(id), m.next_calendar_id, cid);
            let q = choose|q: int|
                0 <= q < m.calendars.len() && #[trigger] m.calendars[q].ident() == cid
                    && not_of_account(id)(m.calendars[q]);
            if q < c {
                assert(m.calendars[q].ident() < m.calendars[c].ident());
            } else if c < q {
                assert(m.calendars[c].ident() < m.calendars[q].ident());
            }
        }
    }
}

/// A stored calendar is read back by the id that the insert returned.
pub proof fn law_insert_then_get_calendar(m: DbModel, c: CalendarView)
    requires
        m.wf(),
        m.insert_calendar(c).1 is Ok,
    ensures
        m.insert_calendar(c).0.get_calendar(m.insert_calendar(c).1->Ok_0) == Some(
            CalendarView { id: m.insert_calendar(c).1->Ok_0, ..c },
        ),
{
    let n = m.insert_calendar(c).0;
    lemma_insert_calendar_wf(m, c);
    lemma_find_id(n.calendars, m.calendars.len() as int);
}

/// A calendar of an account that does not exist is refused and the store is unchanged.
pub proof fn law_calendar_needs_account(m: DbModel, c: CalendarView)
    requires
        !has_id(m.accounts, c.account_id),
    ensures
        m.insert_calendar(c) == (m, Err::<i64, DbError>(DbError::UnknownAccount)),
{
}

/// A second calendar of an account at the same URL is refused and the store is unchanged.
pub proof fn law_calendar_urls_unique(m: DbModel, c: CalendarView)
    requires
        has_id(m.accounts, c.account_id),
        m.calendar_url_used(c.account_id, c.url),
    ensures
        m.insert_calendar(c) == (m, Err::<i64, DbError>(DbError::DuplicateCalendarUrl)),
{
}

/// After an update, the calendar with the updated id reads back as given.
pub proof fn law_update_then_get_calendar(m: DbModel, c: CalendarView)
    requires
        m.wf(),
        has_id(m.calendars, c.id),
        m.update_calendar(c).1 is Ok,
    ensures
        m.update_calendar(c).0.get_calendar(c.id) == Some(c),
{
    let n = m.update_calendar(c).0;
    lemma_update_calendar_wf(m, c);
    let j = choose|j: int| 0 <= j < m.calendars.len() && #[trigger] m.calendars[j].ident() == c.id;
    assert(n.calendars[j] == c);
    lemma_find_id(n.calendars, j);
}

/// Deleting a calendar removes it and its events; the rest of the store
/// stays consistent.
pub proof fn law_delete_calendar_cascades(m: DbModel, id: i64)
    requires
        m.wf(),
    ensures
        m.delete_calendar(id).wf(),
        m.delete_calendar(id).get_calendar(id) is None,
        forall|e: int|
            0 <= e < m.events.len() && #[trigger] m.events[e].calendar_id == id ==> m.delete_calendar(
                id,
            ).get_event(m.events[e].id) is None,
{
    let n = m.delete_calendar(id);
    lemma_delete_calendar_wf(m, id);
    lemma_has_id_filter(m.calendars, not_calendar(id), m.next_calendar_id, id);
    assert forall|e: int| 0 <= e < m.events.len() && #[trigger] m.events[e].calendar_id == id implies n.get_event(
        m.events[e].id,
    ) is None by {
        let eid = m.events[e].id;
        lemma_has_id_filter(m.events, not_of_calendar(id), m.next_event_id, eid);
        if has_id(n.events, eid) {
            let k = choose|k: int|
                0 <= k < m.events.len() && #[trigger] m.events[k].ident() == eid
                    && not_of_calendar(id)(m.events[k]);
            if k < e {
                assert(m.events[k].ident() < m.events[e].ident());
            } else if e < k {
                assert(m.events[e].ident() < m.events[k].ident());
            }
        }
    }
}

/// An upserted event is read back by the id returned and by its calendar
/// and UID.
pub proof fn law_upsert_then_get_event(m: DbModel, e: EventView)
    requires
        m.wf(),
        m.upsert_event(e).1 is Ok,
    ensures
        m.upsert_event(e).0.get_event(m.upsert_event(e).1->Ok_0) == Some(
            EventView { id: m.upsert_event(e).1->Ok_0, ..e },
        ),
        m.upsert_event(e).0.get_event_by_uid(e.calendar_id, e.uid) == Some(
            EventView { id: m.upsert_event(e).1->Ok_0, ..e },
        ),
{
    let n = m.upsert_event(e).0;
    lemma_upsert_event_wf(m, e);
    let j = if m.has_uid(e.calendar_id, e.uid) {
        m.uid_index(e.calendar_id, e.uid)
    } else {
        m.events.len() as int
    };
    assert(n.events[j] == EventView { id: m.upsert_event(e).1->Ok_0, ..e });
    lemma_find_id(n.events, j);
    lemma_uid_index(n, j);
}

/// Upserting two versions of an event (same calendar, same UID) stores one
/// event: the second upsert returns the first one's id, and the second
/// version is what is read back.
pub proof fn law_upsert_twice_same_id(m: DbModel, e1: EventView, e2: EventView)
    requires
        m.wf(),
        e1.calendar_id == e2.calendar_id,
        e1.uid == e2.uid,
        m.upsert_event(e1).1 is Ok,
    ensures
        m.upsert_event(e1).0.upsert_event(e2).1 == m.upsert_event(e1).1,
        m.upsert_event(e1).0.upsert_event(e2).0.get_event(m.upsert_event(e1).1->Ok_0) == Some(
            EventView { id: m.upsert_event(e1).1->Ok_0, ..e2 },
        ),
{
    let n = m.upsert_event(e1).0;
    law_upsert_then_get_event(m, e1);
    lemma_upsert_event_wf(m, e1);
    let j = if m.has_uid(e1.calendar_id, e1.uid) {
        m.uid_index(e1.calendar_id, e1.uid)
    } else {
        m.events.len() as int
    };
    assert(n.events[j] == EventView { id: m.upsert_event(e1).1->Ok_0, ..e1 });
    lemma_uid_index(n, j);
    assert(has_id(n.calendars, e2.calendar_id)) by {
        assert(has_id(n.calendars, n.events[j].calendar_id));
    }
    law_upsert_then_get_event(n, e2);
}

/// An event of a calendar that does not exist is refused and the store is unchanged.
pub proof fn law_event_needs_calendar(m: DbModel, e: EventView)
    requires
        !has_id(m.calendars, e.calendar_id),
    ensures
        m.upsert_event(e) == (m, Err::<i64, DbError>(DbError::UnknownCalendar)),
{
}

/// A deleted event is gone, by id and by calendar and UID.
pub proof fn law_delete_event_then_get(m: DbModel, id: i64, calendar_id: i64, uid: Seq<char>)
    requires
        m.wf(),
    ensures
        m.delete_event(id).get_event(id) is None,
        m.delete_event_by_uid(calendar_id, uid).get_event_by_uid(calendar_id, uid) is None,
{
    lemma_has_id_filter(m.events, not_event(id), m.next_event_id, id);
    let n = m.delete_event_by_uid(calendar_id, uid);
    lemma_filter_ids(m.events, not_uid(calendar_id, uid), m.next_event_id);
    if n.has_uid(calendar_id, uid) {
        let k = n.uid_index(calendar_id, uid);
        lemma_filter_origin(m.events, not_uid(calendar_id, uid), m.next_event_id, k);
    }
}

/// Listing events gives exactly the stored events of the calendar (of any
/// calendar for `None`) whose start lies within `[start, end]`, in id order.
pub proof fn law_list_events_range(m: DbModel, calendar_id: Option<i64>, start: Timestamp, end: Timestamp)
    requires
        m.wf(),
    ensures
        ids_increasing(m.list_events(calendar_id, start, end)),
        forall|e: EventView|
            #[trigger] m.list_events(calendar_id, start, end).contains(e) <==> m.events.contains(e)
                && (calendar_id is None || e.calendar_id == calendar_id->0) && start.le(
                e.start_time,
            ) && e.start_time.le(end),
{
    lemma_filter_ids(m.events, in_range(calendar_id, start, end), m.next_event_id);
}

// ---------------------------------------------------------------------------
// Checking stored contents
// ---------------------------------------------------------------------------

/// Whether the account ids increase and lie strictly between 0 and `next`.
fn account_ids_ok(v: &Vec<Account>, next: i64) -> (r: bool)
    ensures
        r == (ids_increasing(accounts_view(v@)) && ids_below(accounts_view(v@), next)),
{
    let ghost s = accounts_view(v@);
    let mut i: usize = 0;
    while i < v.len()
        invariant
            s == accounts_view(v@),
            i <= v.len(),
            forall|a: int, b: int| 0 <= a < b < i ==> #[trigger] s[a].ident() < #[trigger] s[b].ident(),
            forall|a: int| 0 <= a < i ==> 0 < #[trigger] s[a].ident() < next,
        decreases v.len() - i,
    {
        assert(s[i as int].ident() == v@[i as int].id);
        if v[i].id <= 0 || v[i].id >= next {
            return false;
        }
        if i > 0 {
            assert(s[i - 1].ident() == v@[i - 1].id);
            if v[i - 1].id >= v[i].id {
                return false;
            }
            assert forall|a: int| 0 <= a < i implies #[trigger] s[a].ident() < s[i as int].ident() by {
                if a < i - 1 {
                    assert(s[a].ident() < s[i - 1].ident());
                }
            }
        }
        i = i + 1;
    }
    true
}

/// Whether the calendar ids increase and lie strictly between 0 and `next`.
fn calendar_ids_ok(v: &Vec<Calendar>, next: i64) -> (r: bool)
    ensures
        r == (ids_increasing(calendars_view(v@)) && ids_below(calendars_view(v@), next)),
{
    let ghost s = calendars_view(v@);
    let mut i: usize = 0;
    while i < v.len()
        invariant
            s == calendars_view(v@),
            i <= v.len(),
            forall|a: int, b: int| 0 <= a < b < i ==> #[trigger] s[a].ident() < #[trigger] s[b].ident(),
            forall|a: int| 0 <= a < i ==> 0 < #[trigger] s[a].ident() < next,
        decreases v.len() - i,
    {
        assert(s[i as int].ident() == v@[i as int].id);
        if v[i].id <= 0 || v[i].id >= next {
            return false;
        }
        if i > 0 {
            assert(s[i - 1].ident() == v@[i - 1].id);
            if v[i - 1].id >= v[i].id {
                return false;
            }
            assert forall|a: int| 0 <= a < i implies #[trigger] s[a].ident() < s[i as int].ident() by {
                if a < i - 1 {
                    assert(s[a].ident() < s[i - 1].ident());
                }
            }
        }
        i = i + 1;
    }
    true
}

/// Whether the event ids increase and lie strictly between 0 and `next`.
fn event_ids_ok(v: &Vec<Event>, next: i64) -> (r: bool)
    ensures
        r == (ids_increasing(events_view(v@)) && ids_below(events_view(v@), next)),
{
    let ghost s = events_view(v@);
    let mut i: usize = 0;
    while i < v.len()
        invariant
            s == events_view(v@),
            i <= v.len(),
            forall|a: int, b: int| 0 <= a < b < i ==> #[trigger] s[a].ident() < #[trigger] s[b].ident(),
            forall|a: int| 0 <= a < i ==> 0 < #[trigger] s[a].ident() < next,
        decreases v.len() - i,
    {
        assert(s[i as int].ident() == v@[i as int].id);
        if v[i].id <= 0 || v[i].id >= next {
            return false;
        }
        if i > 0 {
            assert(s[i - 1].ident() == v@[i - 1].id);
            if v[i - 1].id >= v[i].id {
                return false;
            }
            assert forall|a: int| 0 <= a < i implies #[trigger] s[a].ident() < s[i as int].ident() by {
                if a < i - 1 {
                    assert(s[a].ident() < s[i - 1].ident());
                }
            }
        }
        i = i + 1;
    }
    true
}

/// Whether no two accounts have the same name.
fn account_names_unique(v: &Vec<Account>) -> (r: bool)
    ensures
        r == (forall|i: int, j: int|
            0 <= i < accounts_view(v@).len() && 0 <= j < accounts_view(v@).len() && i != j
                ==> #[trigger] accounts_view(v@)[i].name != #[trigger] accounts_view(v@)[j].name),
{
    let ghost s = accounts_view(v@);
    let mut i: usize = 0;
    while i < v.len()
        invariant
            s == accounts_view(v@),
            i <= v.len(),
            forall|a: int, b: int| 0 <= a < i && 0 <= b < i && a != b ==> #[trigger] s[a].name != #[trigger] s[b].name,
        decreases v.len() - i,
    {
        let mut j: usize = 0;
        assert(s[i as int] == v@[i as int]@);
        while j < i
            invariant
                s == accounts_view(v@),
                j <= i < v.len(),
                forall|a: int, b: int| 0 <= a < i && 0 <= b < i && a != b ==> #[trigger] s[a].name != #[trigger] s[b].name,
                forall|b: int| 0 <= b < j ==> #[trigger] s[b].name != s[i as int].name,
            decreases i - j,
        {
            assert(s[j as int] == v@[j as int]@);
            if v[j].name == v[i].name {
                assert(s[i as int].name == s[j as int].name);
                return false;
            }
            j = j + 1;
        }
        i = i + 1;
    }
    true
}

/// Whether no two calendars of one account have the same URL.
fn calendar_urls_unique(v: &Vec<Calendar>) -> (r: bool)
    ensures
        r == (forall|i: int, j: int|
            0 <= i < calendars_view(v@).len() && 0 <= j < calendars_view(v@).len() && i != j && #[trigger] calendars_view(v@)[i].account_id == #[trigger] calendars_view(v@)[j].account_id
                ==> calendars_view(v@)[i].url != calendars_view(v@)[j].url),
{
    let ghost s = calendars_view(v@);
    let mut i: usize = 0;
    while i < v.len()
        invariant
            s == calendars_view(v@),
            i <= v.len(),
            forall|a: int, b: int| 0 <= a < i && 0 <= b < i && a != b && #[trigger] s[a].account_id == #[trigger] s[b].account_id ==> s[a].url != s[b].url,
        decreases v.len() - i,
    {
        let mut j: usize = 0;
        assert(s[i as int] == v@[i as int]@);
        while j < i
            invariant
                s == calendars_view(v@),
                j <= i < v.len(),
                forall|a: int, b: int| 0 <= a < i && 0 <= b < i && a != b && #[trigger] s[a].account_id == #[trigger] s[b].account_id ==> s[a].url != s[b].url,
                forall|b: int| 0 <= b < j && #[trigger] s[b].account_id == s[i as int].account_id ==> s[b].url != s[i as int].url,
            decreases i - j,
        {
            assert(s[j as int] == v@[j as int]@);
            if v[j].account_id == v[i].account_id && v[j].url == v[i].url {
                assert(s[i as int].account_id == s[j as int].account_id && s[i as int].url == s[j as int].url);
                return false;
            }
            j = j + 1;
        }
        i = i + 1;
    }
    true
}

/// Whether no two events of one calendar have the same UID.
fn event_uids_unique(v: &Vec<Event>) -> (r: bool)
    ensures
        r == (forall|i: int, j: int|
            0 <= i < events_view(v@).len() && 0 <= j < events_view(v@).len() && i != j && #[trigger] events_view(v@)[i].calendar_id == #[trigger] events_view(v@)[j].calendar_id
                ==> events_view(v@)[i].uid != events_view(v@)[j].uid),
{
    let ghost s = events_view(v@);
    let mut i: usize = 0;
    while i < v.len()
        invariant
            s == events_view(v@),
            i <= v.len(),
            forall|a: int, b: int| 0 <= a < i && 0 <= b < i && a != b && #[trigger] s[a].calendar_id == #[trigger] s[b].calendar_id ==> s[a].uid != s[b].uid,
        decreases v.len() - i,
    {
        let mut j: usize = 0;
        assert(s[i as int] == v@[i as int]@);
        while j < i
            invariant
                s == events_view(v@),
                j <= i < v.len(),
                forall|a: int, b: int| 0 <= a < i && 0 <= b < i && a != b && #[trigger] s[a].calendar_id == #[trigger] s[b].calendar_id ==> s[a].uid != s[b].uid,
                forall|b: int| 0 <= b < j && #[trigger] s[b].calendar_id == s[i as int].calendar_id ==> s[b].uid != s[i as int].uid,
            decreases i - j,
        {
            assert(s[j as int] == v@[j as int]@);
            if v[j].calendar_id == v[i].calendar_id && v[j].uid == v[i].uid {
                assert(s[i as int].calendar_id == s[j as int].calendar_id && s[i as int].uid == s[j as int].uid);
                return false;
            }
            j = j + 1;
        }
        i = i + 1;
    }
    true
}

/// Whether some account has id `id`.
fn account_present(v: &Vec<Account>, id: i64) -> (r: bool)
    ensures
        r == has_id(accounts_view(v@), id),
{
    let ghost s = accounts_view(v@);
    let mut k: usize = 0;
    while k < v.len()
        invariant
            s == accounts_view(v@),
            k <= v.len(),
            forall|a: int| 0 <= a < k ==> #[trigger] s[a].ident() != id,
        decreases v.len() - k,
    {
        assert(s[k as int].ident() == v@[k as int].id);
        if v[k].id == id {
            return true;
        }
        k = k + 1;
    }
    false
}

/// Whether some calendar has id `id`.
fn calendar_present(v: &Vec<Calendar>, id: i64) -> (r: bool)
    ensures
        r == has_id(calendars_view(v@), id),
{
    let ghost s = calendars_view(v@);
    let mut k: usize = 0;
    while k < v.len()
        invariant
            s == calendars_view(v@),
            k <= v.len(),
            forall|a: int| 0 <= a < k ==> #[trigger] s[a].ident() != id,
        decreases v.len() - k,
    {
        assert(s[k as int].ident() == v@[k as int].id);
        if v[k].id == id {
            return true;
        }
        k = k + 1;
    }
    false
}

/// Whether every calendar's account is among the accounts.
fn calendar_accounts_present(accounts: &Vec<Account>, calendars: &Vec<Calendar>) -> (r: bool)
    ensures
        r == (forall|i: int|
            0 <= i < calendars_view(calendars@).len() ==> has_id(
                accounts_view(accounts@),
                #[trigger] calendars_view(calendars@)[i].account_id,
            )),
{
    let ghost s = calendars_view(calendars@);
    let mut i: usize = 0;
    while i < calendars.len()
        invariant
            s == calendars_view(calendars@),
            i <= calendars.len(),
            forall|a: int| 0 <= a < i ==> has_id(accounts_view(accounts@), #[trigger] s[a].account_id),
        decreases calendars.len() - i,
    {
        assert(s[i as int] == calendars@[i as int]@);
        if !account_present(accounts, calendars[i].account_id) {
            assert(!has_id(accounts_view(accounts@), s[i as int].account_id));
            return false;
        }
        i = i + 1;
    }
    true
}

/// Whether every event's calendar is among the calendars.
fn event_calendars_present(calendars: &Vec<Calendar>, events: &Vec<Event>) -> (r: bool)
    ensures
        r == (forall|i: int|
            0 <= i < events_view(events@).len() ==> has_id(
                calendars_view(calendars@),
                #[trigger] events_view(events@)[i].calendar_id,
            )),
{
    let ghost s = events_view(events@);
    let mut i: usize = 0;
    while i < events.len()
        invariant
            s == events_view(events@),
            i <= events.len(),
            forall|a: int| 0 <= a < i ==> has_id(calendars_view(calendars@), #[trigger] s[a].calendar_id),
        decreases events.len() - i,
    {
        assert(s[i as int] == events@[i as int]@);
        if !calendar_present(calendars, events[i].calendar_id) {
            assert(!has_id(calendars_view(calendars@), s[i as int].calendar_id));
            return false;
        }
        i = i + 1;
    }
    true
}

/// The contents of a store as plain records, each table in id order, with
/// the next id each table hands out.
pub struct StoreContents {
    pub accounts: Vec<Account>,
    pub calendars: Vec<Calendar>,
    pub events: Vec<Event>,
    pub next_account_id: i64,
    pub next_calendar_id: i64,
    pub next_event_id: i64,
}

impl View for StoreContents {
    type V = DbModel;

    open spec fn view(&self) -> DbModel {
        DbModel {
            accounts: accounts_view(self.accounts@),
            calendars: calendars_view(self.calendars@),
            events: events_view(self.events@),
            next_account_id: self.next_account_id,
            next_calendar_id: self.next_calendar_id,
            next_event_id: self.next_event_id,
        }
    }
}

/// A copy of a list of calendars.
fn copy_calendars(v: &Vec<Calendar>) -> (r: Vec<Calendar>)
    ensures
        calendars_view(r@) == calendars_view(v@),
{
    let mut r: Vec<Calendar> = Vec::new();
    let mut i: usize = 0;
    while i < v.len()
        invariant
            i <= v.len(),
            calendars_view(r@) == calendars_view(v@).take(i as int),
        decreases v.len() - i,
    {
        let ghost before = r@;
        r.push(v[i].duplicate());
        assert(calendars_view(r@) =~= calendars_view(before).push(v@[i as int]@));
        assert(calendars_view(v@).take(i + 1) =~= calendars_view(v@).take(i as int).push(v@[i as int]@));
        i = i + 1;
    }
    assert(calendars_view(v@).take(i as int) =~= calendars_view(v@));
    r
}

/// A copy of a list of events.
fn copy_events(v: &Vec<Event>) -> (r: Vec<Event>)
    ensures
        events_view(r@) == events_view(v@),
{
    let mut r: Vec<Event> = Vec::new();
    let mut i: usize = 0;
    while i < v.len()
        invariant
            i <= v.len(),
            events_view(r@) == events_view(v@).take(i as int),
        decreases v.len() - i,
    {
        let ghost before = r@;
        r.push(v[i].duplicate());
        assert(events_view(r@) =~= events_view(before).push(v@[i as int]@));
        assert(events_view(v@).take(i + 1) =~= events_view(v@).take(i as int).push(v@[i as int]@));
        i = i + 1;
    }
    assert(events_view(v@).take(i as int) =~= events_view(v@));
    r
}

// ---------------------------------------------------------------------------
// Store
// ---------------------------------------------------------------------------

/// In-memory database handle for calendar storage
pub struct Database {
    accounts: Vec<Account>,
    calendars: Vec<Calendar>,
    events: Vec<Event>,
    next_account_id: i64,
    next_calendar_id: i64,
    next_event_id: i64,
}

impl View for Database {
    type V = DbModel;

    closed spec fn view(&self) -> DbModel {
        DbModel {
            accounts: accounts_view(self.accounts@),
            calendars: calendars_view(self.calendars@),
            events: events_view(self.events@),
            next_account_id: self.next_account_id,
            next_calendar_id: self.next_calendar_id,
            next_event_id: self.next_event_id,
        }
    }
}

impl Database {
    /// Create an empty database.
    pub fn in_memory() -> (r: Result<Self, DbError>)
        ensures
            r matches Ok(db) && db@ == DbModel::empty() && db@.wf(),
    {
        let db = Database {
            accounts: Vec::new(),
            calendars: Vec::new(),
            events: Vec::new(),
            next_account_id: 1,
            next_calendar_id: 1,
            next_event_id: 1,
        };
        assert(accounts_view(db.accounts@) =~= Seq::<AccountView>::empty());
        assert(calendars_view(db.calendars@) =~= Seq::<CalendarView>::empty());
        assert(events_view(db.events@) =~= Seq::<EventView>::empty());
        Ok(db)
    }

    /// The position of the account with id `id`.
    fn account_index(&self, id: i64) -> (r: Option<usize>)
        requires
            self@.wf(),
        ensures
            r matches Some(i) ==> i < self@.accounts.len() && self@.accounts[i as int].id == id
                && find_id(self@.accounts, id) == Some(self@.accounts[i as int]),
            r is None ==> !has_id(self@.accounts, id),
    {
        let mut i: usize = 0;
        while i < self.accounts.len()
            invariant
                self@.wf(),
                i <= self.accounts.len(),
                forall|k: int| 0 <= k < i ==> #[trigger] self@.accounts[k].ident() != id,
            decreases self.accounts.len() - i,
        {
            assert(self@.accounts[i as int] == self.accounts@[i as int]@);
            if self.accounts[i].id == id {
                proof {
                    lemma_find_id(self@.accounts, i as int);
                }
                return Some(i);
            }
            i = i + 1;
        }
        None
    }

    // Account operations

    /// Insert a new account; refused when an account has its name.
    pub fn insert_account(&mut self, account: &Account) -> (r: Result<i64, DbError>)
        requires
            old(self)@.wf(),
        ensures
            final(self)@ == old(self)@.insert_account(account@).0,
            r == old(self)@.insert_account(account@).1,
            final(self)@.wf(),
    {
        let ghost m = self@;
        proof {
            lemma_insert_account_wf(m, account@);
        }
        let mut i: usize = 0;
        while i < self.accounts.len()
            invariant
                self@ == m,
                m.wf(),
                i <= self.accounts.len(),
                forall|k: int| 0 <= k < i ==> #[trigger] m.accounts[k].name != account.name@,
            decreases self.accounts.len() - i,
        {
            assert(m.accounts[i as int] == self.accounts@[i as int]@);
            if self.accounts[i].name == account.name {
                assert(m.accounts[i as int].name == account.name@);
                return Err(DbError::DuplicateAccountName);
            }
            i = i + 1;
        }
        if self.next_account_id == i64::MAX {
            return Err(DbError::IdsExhausted);
        }
        let id = self.next_account_id;
        let mut a = account.duplicate();
        a.id = id;
        self.next_account_id = id + 1;
        self.accounts.push(a);
        assert(accounts_view(self.accounts@) =~= m.accounts.push(AccountView { id, ..account@ }));
        Ok(id)
    }

    /// Get an account by ID
    pub fn get_account(&self, id: i64) -> (r: Result<Option<Account>, DbError>)
        requires
            self@.wf(),
        ensures
            r matches Ok(o) && match o {
                Some(a) => self@.get_account(id) == Some(a@),
                None => self@.get_account(id) is None,
            },
    {
        match self.account_index(id) {
            Some(i) => Ok(Some(self.accounts[i].duplicate())),
            None => Ok(None),
        }
    }

    /// List all accounts, in id order.
    pub fn list_accounts(&self) -> (r: Result<Vec<Account>, DbError>)
        ensures
            r matches Ok(v) && accounts_view(v@) == self@.accounts,
    {
        let mut v: Vec<Account> = Vec::new();
        let mut i: usize = 0;
        while i < self.accounts.len()
            invariant
                i <= self.accounts.len(),
                accounts_view(v@) == self@.accounts.take(i as int),
            decreases self.accounts.len() - i,
        {
            let ghost before = v@;
            assert(self@.accounts[i as int] == self.accounts@[i as int]@);
            v.push(self.accounts[i].duplicate());
            assert(accounts_view(v@) =~= accounts_view(before).push(self@.accounts[i as int]));
            assert(self@.accounts.take(i + 1) =~= self@.accounts.take(i as int).push(self@.accounts[i as int]));
            i = i + 1;
        }
        assert(self@.accounts.take(i as int) =~= self@.accounts);
        Ok(v)
    }

    /// Update an account: the stored account with its id takes its fields;
    /// refused when another account has its name.
    pub fn update_account(&mut self, account: &Account) -> (r: Result<(), DbError>)
        requires
            old(self)@.wf(),
        ensures
            final(self)@ == old(self)@.update_account(account@).0,
            r == old(self)@.update_account(account@).1,
            final(self)@.wf(),
    {
        let ghost m = self@;
        proof {
            lemma_update_account_wf(m, account@);
        }
        let mut i: usize = 0;
        while i < self.accounts.len()
            invariant
                self@ == m,
                m.wf(),
                i <= self.accounts.len(),
                forall|k: int|
                    0 <= k < i ==> !(#[trigger] m.accounts[k].name == account.name@
                        && m.accounts[k].id != account.id),
            decreases self.accounts.len() - i,
        {
            assert(m.accounts[i as int] == self.accounts@[i as int]@);
            if self.accounts[i].name == account.name && self.accounts[i].id != account.id {
                assert(m.accounts[i as int].name == account.name@ && m.accounts[i as int].id != account.id);
                return Err(DbError::DuplicateAccountName);
            }
            i = i + 1;
        }
        let ghost f = |x: AccountView|
            if x.id == account@.id {
                account@
            } else {
                x
            };
        match self.account_index(account.id) {
            Some(j) => {
                self.accounts.set(j, account.duplicate());
                assert forall|k: int| 0 <= k < m.accounts.len() && k != j implies #[trigger] m.accounts[k].id != account.id by {
                    if k < j {
                        assert(m.accounts[k].ident() < m.accounts[j as int].ident());
                    } else {
                        assert(m.accounts[j as int].ident() < m.accounts[k].ident());
                    }
                }
                assert(accounts_view(self.accounts@) =~= m.accounts.map_values(f));
            },
            None => {
                assert forall|k: int| 0 <= k < m.accounts.len() implies #[trigger] m.accounts[k].id != account.id by {
                    assert(m.accounts[k].ident() == m.accounts[k].id);
                }
                assert(m.accounts =~= m.accounts.map_values(f));
            },
        }
        Ok(())
    }

    /// Delete an account and all associated data: its calendars and their events.
    pub fn delete_account(&mut self, id: i64) -> (r: Result<(), DbError>)
        requires
            old(self)@.wf(),
        ensures
            final(self)@ == old(self)@.delete_account(id),
            r is Ok,
            final(self)@.wf(),
    {
        let ghost m = self@;
        proof {
            lemma_delete_account_wf(m, id);
            reveal(Seq::filter);
        }
        let ghost target = m.delete_account(id);
        // calendars of other accounts
        let mut cals: Vec<Calendar> = Vec::new();
        let mut i: usize = 0;
        while i < self.calendars.len()
            invariant
                self@ == m,
                i <= self.calendars.len(),
                calendars_view(cals@) == m.calendars.take(i as int).filter(not_of_account(id)),
            decreases self.calendars.len() - i,
        {
            proof {
                reveal(Seq::filter);
            }
            assert(m.calendars.take(i + 1).drop_last() =~= m.calendars.take(i as int));
            assert(m.calendars[i as int] == self.calendars@[i as int]@);
            if self.calendars[i].account_id != id {
                let ghost before = cals@;
                cals.push(self.calendars[i].duplicate());
                assert(calendars_view(cals@) =~= calendars_view(before).push(m.calendars[i as int]));
            }
            i = i + 1;
        }
        assert(m.calendars.take(i as int) =~= m.calendars);
        // events of the calendars that stay
        let mut evs: Vec<Event> = Vec::new();
        let mut i: usize = 0;
        while i < self.events.len()
            invariant
                self@ == m,
                i <= self.events.len(),
                calendars_view(cals@) == target.calendars,
                events_view(evs@) == m.events.take(i as int).filter(in_calendars(target.calendars)),
            decreases self.events.len() - i,
        {
            proof {
                reveal(Seq::filter);
            }
            assert(m.events.take(i + 1).drop_last() =~= m.events.take(i as int));
            assert(m.events[i as int] == self.events@[i as int]@);
            let cid = self.events[i].calendar_id;
            let mut k: usize = 0;
            let mut found = false;
            while k < cals.len()
                invariant
                    k <= cals.len(),
                    calendars_view(cals@) == target.calendars,
                    found == exists|q: int| 0 <= q < k && #[trigger] target.calendars[q].ident() == cid,
                decreases cals.len() - k,
            {
                assert(target.calendars[k as int] == cals@[k as int]@);
                if cals[k].id == cid {
                    assert(target.calendars[k as int].ident() == cid);
                    found = true;
                }
                k = k + 1;
            }
            assert(found == has_id(target.calendars, cid));
            if found {
                let ghost before = evs@;
                evs.push(self.events[i].duplicate());
                assert(events_view(evs@) =~= events_view(before).push(m.events[i as int]));
            }
            i = i + 1;
        }
        assert(m.events.take(i as int) =~= m.events);
        // the other accounts
        let mut accs: Vec<Account> = Vec::new();
        let mut i: usize = 0;
        while i < self.accounts.len()
            invariant
                self@ == m,
                i <= self.accounts.len(),
                accounts_view(accs@) == m.accounts.take(i as int).filter(not_account(id)),
            decreases self.accounts.len() - i,
        {
            proof {
                reveal(Seq::filter);
            }
            assert(m.accounts.take(i + 1).drop_last() =~= m.accounts.take(i as int));
            assert(m.accounts[i as int] == self.accounts@[i as int]@);
            if self.accounts[i].id != id {
                let ghost before = accs@;
                accs.push(self.accounts[i].duplicate());
                assert(accounts_view(accs@) =~= accounts_view(before).push(m.accounts[i as int]));
            }
            i = i + 1;
        }
        assert(m.accounts.take(i as int) =~= m.accounts);
        self.accounts = accs;
        self.calendars = cals;
        self.events = evs;
        Ok(())
    }
}

impl Database {
    /// The position of the calendar with id `id`.
    fn calendar_index(&self, id: i64) -> (r: Option<usize>)
        requires
            self@.wf(),
        ensures
            r matches Some(i) ==> i < self@.calendars.len() && self@.calendars[i as int].id == id
                && find_id(self@.calendars, id) == Some(self@.calendars[i as int]),
            r is None ==> !has_id(self@.calendars, id),
    {
        let mut i: usize = 0;
        while i < self.calendars.len()
            invariant
                self@.wf(),
                i <= self.calendars.len(),
                forall|k: int| 0 <= k < i ==> #[trigger] self@.calendars[k].ident() != id,
            decreases self.calendars.len() - i,
        {
            assert(self@.calendars[i as int] == self.calendars@[i as int]@);
            if self.calendars[i].id == id {
                proof {
                    lemma_find_id(self@.calendars, i as int);
                }
                return Some(i);
            }
            i = i + 1;
        }
        None
    }

    // Calendar operations

    /// Insert a new calendar; refused when its account does not exist or
    /// already has a calendar at its URL.
    pub fn insert_calendar(&mut self, calendar: &Calendar) -> (r: Result<i64, DbError>)
        requires
            old(self)@.wf(),
        ensures
            final(self)@ == old(self)@.insert_calendar(calendar@).0,
            r == old(self)@.insert_calendar(calendar@).1,
            final(self)@.wf(),
    {
        let ghost m = self@;
        proof {
            lemma_insert_calendar_wf(m, calendar@);
        }
        if self.account_index(calendar.account_id).is_none() {
            return Err(DbError::UnknownAccount);
        }
        let mut i: usize = 0;
        while i < self.calendars.len()
            invariant
                self@ == m,
                m.wf(),
                has_id(m.accounts, calendar.account_id),
                i <= self.calendars.len(),
                forall|k: int|
                    0 <= k < i ==> !(#[trigger] m.calendars[k].account_id == calendar.account_id
                        && m.calendars[k].url == calendar.url@),
            decreases self.calendars.len() - i,
        {
            assert(m.calendars[i as int] == self.calendars@[i as int]@);
            if self.calendars[i].account_id == calendar.account_id && self.calendars[i].url
                == calendar.url {
                assert(m.calendars[i as int].account_id == calendar.account_id
                    && m.calendars[i as int].url == calendar.url@);
                return Err(DbError::DuplicateCalendarUrl);
            }
            i = i + 1;
        }
        if self.next_calendar_id == i64::MAX {
            return Err(DbError::IdsExhausted);
        }
        let id = self.next_calendar_id;
        let mut c = calendar.duplicate();
        c.id = id;
        self.next_calendar_id = id + 1;
        self.calendars.push(c);
        assert(calendars_view(self.calendars@) =~= m.calendars.push(
            CalendarView { id, ..calendar@ },
        ));
        Ok(id)
    }

    /// Get a calendar by ID
    pub fn get_calendar(&self, id: i64) -> (r: Result<Option<Calendar>, DbError>)
        requires
            self@.wf(),
        ensures
            r matches Ok(o) && match o {
                Some(c) => self@.get_calendar(id) == Some(c@),
                None => self@.get_calendar(id) is None,
            },
    {
        match self.calendar_index(id) {
            Some(i) => Ok(Some(self.calendars[i].duplicate())),
            None => Ok(None),
        }
    }

    /// List calendars for an account, in id order.
    pub fn list_calendars(&self, account_id: i64) -> (r: Result<Vec<Calendar>, DbError>)
        ensures
            r matches Ok(v) && calendars_view(v@) == self@.list_calendars(account_id),
    {
        let ghost m = self@;
        let mut v: Vec<Calendar> = Vec::new();
        let mut i: usize = 0;
        while i < self.calendars.len()
            invariant
                self@ == m,
                i <= self.calendars.len(),
                calendars_view(v@) == m.calendars.take(i as int).filter(of_account(account_id)),
            decreases self.calendars.len() - i,
        {
            proof {
                reveal(Seq::filter);
            }
            assert(m.calendars.take(i + 1).drop_last() =~= m.calendars.take(i as int));
            assert(m.calendars[i as int] == self.calendars@[i as int]@);
            if self.calendars[i].account_id == account_id {
                let ghost before = v@;
                v.push(self.calendars[i].duplicate());
                assert(calendars_view(v@) =~= calendars_view(before).push(m.calendars[i as int]));
            }
            i = i + 1;
        }
        assert(m.calendars.take(i as int) =~= m.calendars);
        Ok(v)
    }

    /// Update a calendar: the stored calendar with its id takes its fields;
    /// refused when its account does not exist or another calendar of that
    /// account has its URL.
    pub fn update_calendar(&mut self, calendar: &Calendar) -> (r: Result<(), DbError>)
        requires
            old(self)@.wf(),
        ensures
            final(self)@ == old(self)@.update_calendar(calendar@).0,
            r == old(self)@.update_calendar(calendar@).1,
            final(self)@.wf(),
    {
        let ghost m = self@;
        proof {
            lemma_update_calendar_wf(m, calendar@);
        }
        if self.account_index(calendar.account_id).is_none() {
            return Err(DbError::UnknownAccount);
        }
        let mut i: usize = 0;
        while i < self.calendars.len()
            invariant
                self@ == m,
                m.wf(),
                i <= self.calendars.len(),
                forall|k: int|
                    0 <= k < i ==> !(#[trigger] m.calendars[k].account_id == calendar.account_id
                        && m.calendars[k].url == calendar.url@ && m.calendars[k].id != calendar.id),
            decreases self.calendars.len() - i,
        {
            assert(m.calendars[i as int] == self.calendars@[i as int]@);
            if self.calendars[i].account_id == calendar.account_id && self.calendars[i].url
                == calendar.url && self.calendars[i].id != calendar.id {
                assert(m.calendars[i as int].account_id == calendar.account_id
                    && m.calendars[i as int].url == calendar.url@ && m.calendars[i as int].id
                    != calendar.id);
                return Err(DbError::DuplicateCalendarUrl);
            }
            i = i + 1;
        }
        let ghost f = |x: CalendarView|
            if x.id == calendar@.id {
                calendar@
            } else {
                x
            };
        match self.calendar_index(calendar.id) {
            Some(j) => {
                self.calendars.set(j, calendar.duplicate());
                assert forall|k: int| 0 <= k < m.calendars.len() && k != j implies #[trigger] m.calendars[k].id != calendar.id by {
                    if k < j {
                        assert(m.calendars[k].ident() < m.calendars[j as int].ident());
                    } else {
                        assert(m.calendars[j as int].ident() < m.calendars[k].ident());
                    }
                }
                assert(calendars_view(self.calendars@) =~= m.calendars.map_values(f));
            },
            None => {
                assert forall|k: int| 0 <= k < m.calendars.len() implies #[trigger] m.calendars[k].id != calendar.id by {
                    assert(m.calendars[k].ident() == m.calendars[k].id);
                }
                assert(m.calendars =~= m.calendars.map_values(f));
            },
        }
        Ok(())
    }

    /// Delete a calendar and all associated events.
    pub fn delete_calendar(&mut self, id: i64) -> (r: Result<(), DbError>)
        requires
            old(self)@.wf(),
        ensures
            final(self)@ == old(self)@.delete_calendar(id),
            r is Ok,
            final(self)@.wf(),
    {
        let ghost m = self@;
        proof {
            lemma_delete_calendar_wf(m, id);
        }
        let mut cals: Vec<Calendar> = Vec::new();
        let mut i: usize = 0;
        while i < self.calendars.len()
            invariant
                self@ == m,
                i <= self.calendars.len(),
                calendars_view(cals@) == m.calendars.take(i as int).filter(not_calendar(id)),
            decreases self.calendars.len() - i,
        {
            proof {
                reveal(Seq::filter);
            }
            assert(m.calendars.take(i + 1).drop_last() =~= m.calendars.take(i as int));
            assert(m.calendars[i as int] == self.calendars@[i as int]@);
            if self.calendars[i].id != id {
                let ghost before = cals@;
                cals.push(self.calendars[i].duplicate());
                assert(calendars_view(cals@) =~= calendars_view(before).push(m.calendars[i as int]));
            }
            i = i + 1;
        }
        assert(m.calendars.take(i as int) =~= m.calendars);
        let mut evs: Vec<Event> = Vec::new();
        let mut i: usize = 0;
        while i < self.events.len()
            invariant
                self@ == m,
                i <= self.events.len(),
                events_view(evs@) == m.events.take(i as int).filter(not_of_calendar(id)),
            decreases self.events.len() - i,
        {
            proof {
                reveal(Seq::filter);
            }
            assert(m.events.take(i + 1).drop_last() =~= m.events.take(i as int));
            assert(m.events[i as int] == self.events@[i as int]@);
            if self.events[i].calendar_id != id {
                let ghost before = evs@;
                evs.push(self.events[i].duplicate());
                assert(events_view(evs@) =~= events_view(before).push(m.events[i as int]));
            }
            i = i + 1;
        }
        assert(m.events.take(i as int) =~= m.events);
        self.calendars = cals;
        self.events = evs;
        Ok(())
    }

    // Event operations

    /// The position of the event with id `id`.
    fn event_index(&self, id: i64) -> (r: Option<usize>)
        requires
            self@.wf(),
        ensures
            r matches Some(i) ==> i < self@.events.len() && self@.events[i as int].id == id
                && find_id(self@.events, id) == Some(self@.events[i as int]),
            r is None ==> !has_id(self@.events, id),
    {
        let mut i: usize = 0;
        while i < self.events.len()
            invariant
                self@.wf(),
                i <= self.events.len(),
                forall|k: int| 0 <= k < i ==> #[trigger] self@.events[k].ident() != id,
            decreases self.events.len() - i,
        {
            assert(self@.events[i as int] == self.events@[i as int]@);
            if self.events[i].id == id {
                proof {
                    lemma_find_id(self@.events, i as int);
                }
                return Some(i);
            }
            i = i + 1;
        }
        None
    }

    /// The position of the event of calendar `calendar_id` with UID `uid`.
    fn uid_position(&self, calendar_id: i64, uid: &String) -> (r: Option<usize>)
        requires
            self@.wf(),
        ensures
            r matches Some(i) ==> i < self@.events.len() && self@.has_uid(calendar_id, uid@)
                && self@.uid_index(calendar_id, uid@) == i,
            r is None ==> !self@.has_uid(calendar_id, uid@),
    {
        let mut i: usize = 0;
        while i < self.events.len()
            invariant
                self@.wf(),
                i <= self.events.len(),
                forall|k: int|
                    0 <= k < i ==> !(#[trigger] self@.events[k].calendar_id == calendar_id
                        && self@.events[k].uid == uid@),
            decreases self.events.len() - i,
        {
            assert(self@.events[i as int] == self.events@[i as int]@);
            if self.events[i].calendar_id == calendar_id && self.events[i].uid == *uid {
                proof {
                    lemma_uid_index(self@, i as int);
                }
                return Some(i);
            }
            i = i + 1;
        }
        None
    }

    /// Insert or update an event (upsert based on calendar_id + uid);
    /// refused when its calendar does not exist. Returns the event's id.
    pub fn upsert_event(&mut self, event: &Event) -> (r: Result<i64, DbError>)
        requires
            old(self)@.wf(),
        ensures
            final(self)@ == old(self)@.upsert_event(event@).0,
            r == old(self)@.upsert_event(event@).1,
            final(self)@.wf(),
    {
        let ghost m = self@;
        proof {
            lemma_upsert_event_wf(m, event@);
        }
        if self.calendar_index(event.calendar_id).is_none() {
            return Err(DbError::UnknownCalendar);
        }
        match self.uid_position(event.calendar_id, &event.uid) {
            Some(j) => {
                let id = self.events[j].id;
                assert(m.events[j as int] == self.events@[j as int]@);
                let mut e = event.duplicate();
                e.id = id;
                self.events.set(j, e);
                assert(events_view(self.events@) =~= m.events.update(
                    j as int,
                    EventView { id, ..event@ },
                ));
                Ok(id)
            },
            None => {
                if self.next_event_id == i64::MAX {
                    return Err(DbError::IdsExhausted);
                }
                let id = self.next_event_id;
                let mut e = event.duplicate();
                e.id = id;
                self.next_event_id = id + 1;
                self.events.push(e);
                assert(events_view(self.events@) =~= m.events.push(EventView { id, ..event@ }));
                Ok(id)
            },
        }
    }

    /// Get an event by ID
    pub fn get_event(&self, id: i64) -> (r: Result<Option<Event>, DbError>)
        requires
            self@.wf(),
        ensures
            r matches Ok(o) && match o {
                Some(e) => self@.get_event(id) == Some(e@),
                None => self@.get_event(id) is None,
            },
    {
        match self.event_index(id) {
            Some(i) => Ok(Some(self.events[i].duplicate())),
            None => Ok(None),
        }
    }

    /// Get an event by calendar ID and UID
    pub fn get_event_by_uid(&self, calendar_id: i64, uid: &str) -> (r: Result<Option<Event>, DbError>)
        requires
            self@.wf(),
        ensures
            r matches Ok(o) && match o {
                Some(e) => self@.get_event_by_uid(calendar_id, uid@) == Some(e@),
                None => self@.get_event_by_uid(calendar_id, uid@) is None,
            },
    {
        let u = crate::text::owned(uid);
        match self.uid_position(calendar_id, &u) {
            Some(i) => {
                assert(self@.events[i as int] == self.events@[i as int]@);
                Ok(Some(self.events[i].duplicate()))
            },
            None => Ok(None),
        }
    }

    /// List the events of a calendar (of all calendars for `None`) that
    /// start within `[start, end]`, in id order.
    pub fn list_events(&self, calendar_id: Option<i64>, start: Timestamp, end: Timestamp) -> (r:
        Result<Vec<Event>, DbError>)
        ensures
            r matches Ok(v) && events_view(v@) == self@.list_events(calendar_id, start, end),
    {
        let ghost m = self@;
        let mut v: Vec<Event> = Vec::new();
        let mut i: usize = 0;
        while i < self.events.len()
            invariant
                self@ == m,
                i <= self.events.len(),
                events_view(v@) == m.events.take(i as int).filter(in_range(calendar_id, start, end)),
            decreases self.events.len() - i,
        {
            proof {
                reveal(Seq::filter);
            }
            assert(m.events.take(i + 1).drop_last() =~= m.events.take(i as int));
            assert(m.events[i as int] == self.events@[i as int]@);
            let e = &self.events[i];
            let in_cal = match calendar_id {
                Some(c) => e.calendar_id == c,
                None => true,
            };
            if in_cal && start.is_le(&e.start_time) && e.start_time.is_le(&end) {
                let ghost before = v@;
                v.push(e.duplicate());
                assert(events_view(v@) =~= events_view(before).push(m.events[i as int]));
            }
            i = i + 1;
        }
        assert(m.events.take(i as int) =~= m.events);
        Ok(v)
    }

    /// The events that pass `keep`, given as a test on each stored event.
    fn retain_events(&mut self, Ghost(p): Ghost<spec_fn(EventView) -> bool>, keep: &Vec<bool>)
        requires
            old(self)@.wf(),
            keep.len() == old(self)@.events.len(),
            forall|k: int| 0 <= k < keep.len() ==> keep@[k] == p(#[trigger] old(self)@.events[k]),
        ensures
            final(self)@ == (DbModel { events: old(self)@.events.filter(p), ..old(self)@ }),
            final(self)@.wf(),
    {
        let ghost m = self@;
        proof {
            lemma_filter_events_wf(m, p);
        }
        let mut evs: Vec<Event> = Vec::new();
        let mut i: usize = 0;
        while i < self.events.len()
            invariant
                self@ == m,
                keep.len() == m.events.len(),
                forall|k: int| 0 <= k < keep.len() ==> keep@[k] == p(#[trigger] m.events[k]),
                i <= self.events.len(),
                events_view(evs@) == m.events.take(i as int).filter(p),
            decreases self.events.len() - i,
        {
            proof {
                reveal(Seq::filter);
            }
            assert(m.events.take(i + 1).drop_last() =~= m.events.take(i as int));
            assert(m.events[i as int] == self.events@[i as int]@);
            if keep[i] {
                let ghost before = evs@;
                evs.push(self.events[i].duplicate());
                assert(events_view(evs@) =~= events_view(before).push(m.events[i as int]));
            }
            i = i + 1;
        }
        assert(m.events.take(i as int) =~= m.events);
        self.events = evs;
    }

    /// Delete an event
    pub fn delete_event(&mut self, id: i64) -> (r: Result<(), DbError>)
        requires
            old(self)@.wf(),
        ensures
            final(self)@ == old(self)@.delete_event(id),
            r is Ok,
            final(self)@.wf(),
    {
        let mut keep: Vec<bool> = Vec::new();
        let mut i: usize = 0;
        while i < self.events.len()
            invariant
                i <= self.events.len(),
                keep.len() == i,
                forall|k: int| 0 <= k < i ==> keep@[k] == not_event(id)(#[trigger] self@.events[k]),
            decreases self.events.len() - i,
        {
            assert(self@.events[i as int] == self.events@[i as int]@);
            keep.push(self.events[i].id != id);
            i = i + 1;
        }
        self.retain_events(Ghost(not_event(id)), &keep);
        Ok(())
    }

    /// Delete an event by calendar ID and UID
    pub fn delete_event_by_uid(&mut self, calendar_id: i64, uid: &str) -> (r: Result<(), DbError>)
        requires
            old(self)@.wf(),
        ensures
            final(self)@ == old(self)@.delete_event_by_uid(calendar_id, uid@),
            r is Ok,
            final(self)@.wf(),
    {
        let u = crate::text::owned(uid);
        let mut keep: Vec<bool> = Vec::new();
        let mut i: usize = 0;
        while i < self.events.len()
            invariant
                u@ == uid@,
                i <= self.events.len(),
                keep.len() == i,
                forall|k: int|
                    0 <= k < i ==> keep@[k] == not_uid(calendar_id, uid@)(#[trigger] self@.events[k]),
            decreases self.events.len() - i,
        {
            assert(self@.events[i as int] == self.events@[i as int]@);
            keep.push(!(self.events[i].calendar_id == calendar_id && self.events[i].uid == u));
            i = i + 1;
        }
        self.retain_events(Ghost(not_uid(calendar_id, uid@)), &keep);
        Ok(())
    }
}
impl Database {
    /// A copy of the store's contents, to be kept elsewhere.
    pub fn contents(&self) -> (r: StoreContents)
        ensures
            r@ == self@,
    {
        let accounts = match self.list_accounts() {
            Ok(v) => v,
            Err(_) => Vec::new(),
        };
        StoreContents {
            accounts,
            calendars: copy_calendars(&self.calendars),
            events: copy_events(&self.events),
            next_account_id: self.next_account_id,
            next_calendar_id: self.next_calendar_id,
            next_event_id: self.next_event_id,
        }
    }

    /// The store holding the given contents, when they keep the store's
    /// constraints (see `DbModel::wf`); `None` when they do not.
    pub fn from_contents(c: StoreContents) -> (r: Option<Database>)
        ensures
            r is Some <==> c@.wf(),
            r matches Some(db) ==> db@ == c@,
    {
        let ok = 1 <= c.next_account_id && 1 <= c.next_calendar_id && 1 <= c.next_event_id
            && account_ids_ok(&c.accounts, c.next_account_id)
            && calendar_ids_ok(&c.calendars, c.next_calendar_id)
            && event_ids_ok(&c.events, c.next_event_id)
            && account_names_unique(&c.accounts)
            && calendar_accounts_present(&c.accounts, &c.calendars)
            && calendar_urls_unique(&c.calendars)
            && event_calendars_present(&c.calendars, &c.events)
            && event_uids_unique(&c.events);
        if ok {
            Some(
                Database {
                    accounts: c.accounts,
                    calendars: c.calendars,
                    events: c.events,
                    next_account_id: c.next_account_id,
                    next_calendar_id: c.next_calendar_id,
                    next_event_id: c.next_event_id,
                },
            )
        } else {
            None
        }
    }
}

} // verus!
