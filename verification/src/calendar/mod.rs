//! Calendars: files, servers, the passwords for them, and keeping the stored
//! events in step with them.
pub mod accounts;
pub mod ics;
pub mod caldav;
pub mod sync;
pub mod resync;
