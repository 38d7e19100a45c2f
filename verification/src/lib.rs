//! A planner's core: calendar events and tasks, the dates and to-dos found in
//! free text, conflicts and free time in a day, and calendar synchronisation.
pub mod time;
pub mod text;
pub mod models;
pub mod analyzer;
pub mod calendar;
pub mod extractor;
pub mod ai;
pub mod error;
pub mod search;
pub mod store;
