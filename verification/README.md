# davd

A CalDAV sync daemon for Linux: it discovers an account's calendars, syncs
their events into a local store by comparing ETags, and serves them on the
session bus as `org.davd.Calendar`.

The library (`src/`) is written in Verus and carries machine-checked
contracts:

- `text`, `time`: character helpers; instants and civil-date arithmetic.
- `ical`: iCalendar content lines, properties and the VEVENT component.
- `xml`, `caldav`: the XML events of WebDAV responses (read with quick-xml),
  the calendar home, calendar and event listings, the requests the client
  sends and the reading of their responses.
- `models`, `db`: accounts, calendars and events, and an in-memory store
  with the constraints of a relational schema (unique names and URLs,
  references that must exist, cascading deletes), with laws about its
  operations.
- `engine`: the sync as a state machine — which request to send next and
  what a reply changes in the store — with laws such as "events whose ETag
  matches are neither downloaded nor changed".
- `dbus`: what the bus methods answer, read from the store.
- `cli`: the commands of the program.

`app/main.rs` is the program around it: command-line parsing, HTTP
exchanges with reqwest, the session bus with zbus, and logging;
`app/store.rs` keeps the store's contents as JSON between runs (in
`$DAVD_STORE`, or `davd/store.json` in the user's data directory).
