//! Events and tasks in an e-mail: its subject and its body are read as one text.
use crate::extractor::pattern::{find_all, group_string, group_text, matches_of};
use crate::extractor::text::{extract_from_text, read_with, result_says, spec_extraction, EventFound, TaskFound};
use crate::extractor::ExtractionResult;
use crate::text::{chars_of, trim, trimmed};
use crate::time::LocalClock;
use vstd::prelude::*;
use vstd::string::StringExecFns;
use vstd::utf8::encode_utf8;

verus! {

pub open spec fn subject_pattern_text() -> Seq<char> {
    "(?im)^Subject:\\s*(.+)$"@
}

pub open spec fn body_pattern_text() -> Seq<char> {
    "(?s)\\n\\n(.+)"@
}

fn subject_pattern() -> (p: &'static str)
    ensures
        p@ == subject_pattern_text(),
{
    "(?im)^Subject:\\s*(.+)$"
}

fn body_pattern() -> (p: &'static str)
    ensures
        p@ == body_pattern_text(),
{
    "(?s)\\n\\n(.+)"
}

/// The subject line's text, trimmed; empty when there is none.
pub open spec fn email_subject(mail: Seq<char>) -> Seq<char> {
    let ms = matches_of(subject_pattern_text(), mail);
    if ms.len() == 0 {
        seq![]
    } else {
        trim(group_text(ms[0], 1))
    }
}

/// Everything after the first blank line, trimmed; the whole mail when there is no
/// blank line.
pub open spec fn email_body(mail: Seq<char>) -> Seq<char> {
    let ms = matches_of(body_pattern_text(), mail);
    if ms.len() == 0 {
        mail
    } else {
        trim(group_text(ms[0], 1))
    }
}

/// The subject, a blank line and the body; the body alone without a subject.
pub open spec fn email_text(mail: Seq<char>) -> Seq<char> {
    let subject = email_subject(mail);
    if subject.len() == 0 {
        email_body(mail)
    } else {
        subject + "\n\n"@ + email_body(mail)
    }
}

/// The title of an appointment that has none of its own.
pub open spec fn untitled_text() -> Seq<char> {
    "Unbekannter Termin"@
}

/// With a subject, an untitled appointment takes the subject as its title, and so
/// does a task whose title is longer than 60 bytes.
pub open spec fn renamed(found: (Seq<EventFound>, Seq<TaskFound>), subject: Seq<char>) -> (Seq<EventFound>, Seq<TaskFound>) {
    (
        found.0.map_values(
            |e: EventFound|
                EventFound {
                    title: if subject.len() > 0 && e.title == untitled_text() {
                        subject
                    } else {
                        e.title
                    },
                    start: e.start,
                    location: e.location,
                },
        ),
        found.1.map_values(
            |t: TaskFound|
                TaskFound {
                    title: if subject.len() > 0 && encode_utf8(t.title).len() > 60 {
                        subject
                    } else {
                        t.title
                    },
                    due: t.due,
                    priority: t.priority,
                    energy: t.energy,
                },
        ),
    )
}

fn email_subject_of(mail: &str) -> (r: String)
    ensures
        r@ == email_subject(mail@),
{
    let ms = find_all(subject_pattern(), mail);
    if ms.len() == 0 {
        String::new()
    } else {
        let g = group_string(&ms[0], 1);
        trimmed(g.as_str())
    }
}

fn email_body_of(mail: &str) -> (r: String)
    ensures
        r@ == email_body(mail@),
{
    let ms = find_all(body_pattern(), mail);
    if ms.len() == 0 {
        mail.to_owned()
    } else {
        let g = group_string(&ms[0], 1);
        trimmed(g.as_str())
    }
}

/// The text that is searched for events and tasks.
pub fn email_text_of(mail: &str) -> (r: String)
    ensures
        r@ == email_text(mail@),
{
    let subject = email_subject_of(mail);
    let body = email_body_of(mail);
    if chars_of(subject.as_str()).len() == 0 {
        body
    } else {
        let mut r = subject;
        r.append("\n\n");
        r.append(body.as_str());
        r
    }
}

/// Gives the untitled appointments and the long task titles the subject.
fn rename_by_subject(
    r: ExtractionResult,
    subject: &String,
    Ghost(text): Ghost<Seq<char>>,
    Ghost(found): Ghost<(Seq<EventFound>, Seq<TaskFound>)>,
) -> (out: ExtractionResult)
    requires
        result_says(r, text, found),
    ensures
        result_says(out, text, renamed(found, subject@)),
{
    let mut events = r.events;
    let mut tasks = r.tasks;
    let ghost want = renamed(found, subject@);
    let has_subject = chars_of(subject.as_str()).len() > 0;
    assert(has_subject == (subject@.len() > 0));
    let untitled = "Unbekannter Termin";
    let mut i: usize = 0;
    while i < events.len()
        invariant
            i <= events@.len() == found.0.len(),
            has_subject == (subject@.len() > 0),
            untitled@ == untitled_text(),
            want == renamed(found, subject@),
            forall|j: int| 0 <= j < i ==> crate::extractor::text::made_event(#[trigger] events@[j]@, want.0[j]),
            forall|j: int| i <= j < events@.len() ==> crate::extractor::text::made_event(#[trigger] events@[j]@, found.0[j]),
        decreases events@.len() - i,
    {
        let tv = chars_of(events[i].title.as_str());
        let same = crate::text::is_text(tv.as_slice(), untitled);
        if has_subject && same {
            let mut e = events[i].duplicate();
            e.title = subject.clone();
            events.set(i, e);
        }
        i += 1;
    }
    let mut k: usize = 0;
    while k < tasks.len()
        invariant
            k <= tasks@.len() == found.1.len(),
            has_subject == (subject@.len() > 0),
            want == renamed(found, subject@),
            forall|j: int| 0 <= j < k ==> crate::extractor::text::made_task(#[trigger] tasks@[j]@, want.1[j]),
            forall|j: int| k <= j < tasks@.len() ==> crate::extractor::text::made_task(#[trigger] tasks@[j]@, found.1[j]),
        decreases tasks@.len() - k,
    {
        if has_subject && tasks[k].title.as_str().as_bytes().len() > 60 {
            let mut t = tasks[k].duplicate();
            t.title = subject.clone();
            tasks.set(k, t);
        }
        k += 1;
    }
    ExtractionResult { events, tasks, source_text: r.source_text }
}

/// The events and tasks in an e-mail: its subject and body are read as one text;
/// an appointment without a title of its own, and a task whose title runs over 60
/// bytes, take the subject as their title.
pub fn extract_from_email(mail: &str) -> (r: ExtractionResult)
    ensures
        exists|clock: LocalClock, zone: Seq<(i64, Option<i64>)>|
            {
                &&& read_with(email_text(mail@), clock, zone)
                &&& result_says(
                    r,
                    email_text(mail@),
                    renamed(spec_extraction(email_text(mail@), clock, zone), email_subject(mail@)),
                )
            },
{
    let subject = email_subject_of(mail);
    let text = email_text_of(mail);
    let found = extract_from_text(text.as_str());
    let ghost (clock, zone) = choose|clock: LocalClock, zone: Seq<(i64, Option<i64>)>|
        {
            &&& read_with(text@, clock, zone)
            &&& result_says(found, text@, spec_extraction(text@, clock, zone))
        };
    let r = rename_by_subject(found, &subject, Ghost(text@), Ghost(spec_extraction(text@, clock, zone)));
    assert(read_with(email_text(mail@), clock, zone));
    r
}

} // verus!
