//! What a day looks like: conflicts, free time, urgent tasks, recurring events.
pub mod conflicts;
pub mod patterns;
pub mod priorities;
pub mod summary;
pub mod time_slots;
