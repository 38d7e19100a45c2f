//! Finding events and tasks in free text, e-mails and documents.
pub mod pattern;
pub mod date_parser;
pub mod text;
pub mod email;
pub mod preview;
pub mod pdf;

use crate::models::{Event, Task};
use vstd::prelude::*;

verus! {

/// The events and tasks found in a source, with the text they were found in.
#[derive(Debug)]
pub struct ExtractionResult {
    pub events: Vec<Event>,
    pub tasks: Vec<Task>,
    pub source_text: String,
}

impl ExtractionResult {
    /// Nothing was found.
    pub fn is_empty(&self) -> (b: bool)
        ensures
            b == (self.events@.len() == 0 && self.tasks@.len() == 0),
    {
        self.events.len() == 0 && self.tasks.len() == 0
    }
}

} // verus!
