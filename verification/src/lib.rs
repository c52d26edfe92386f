//! Calendar synchronisation library: iCalendar and CalDAV response parsing,
//! an event store with relational constraints, and the decisions of the sync
//! engine, each with a machine-checked contract.

pub mod text;
pub mod time;
pub mod ical;
pub mod xml;
pub mod caldav;
pub mod models;
pub mod db;
pub mod dbus;
pub mod engine;
pub mod cli;

pub use db::Database;
pub use models::Event;
