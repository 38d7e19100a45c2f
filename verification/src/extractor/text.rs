//! Events and tasks in free text: deadlines become tasks, an appointment becomes
//! an event, bullet points and "bitte …" sentences become tasks.
use crate::extractor::date_parser::{answers, covers, date_views, extract_dates_in, ints, readings, readings_of, spec_dates, zone_faithful, DateView};
use crate::extractor::pattern::{find_all, group, group_of, group_string, group_text, is_match, has_match, matches_of, remove_first, removed_first, CaptureView, capture_views};
use crate::models::{EnergyLevel, Event, EventSource, EventView, Task, TaskPriority, TaskSource, TaskView, EventStatus, TaskStatus};
use crate::text::{chars_of, contains, contains_seq, first_occurrence, find_seq, line_end, lines, push_char, string_of_range, strip_cr, strip_cr_end, trim, trim_bounds, trim_end_char, trim_end_char_bound};
use crate::time::{local_clock, local_to_utc, valid_time, LocalClock};
use crate::extractor::ExtractionResult;
use crate::models::strs;
use crate::text::trimmed;
use vstd::prelude::*;

verus! {

// ---------------------------------------------------------------- patterns

pub open spec fn task_pattern_text() -> Seq<char> {
    "(?im)^\\s*[-*•]\\s+(.+)$|\\b(?:todo|aufgabe|task|erledige|muss|soll|bitte|please)\\b\\s*:?\\s*(.+?)(?:\\.(?:\\s|$)|$)"@
}

pub open spec fn meeting_pattern_text() -> Seq<char> {
    "(?i)\\b(meeting|besprechung|call|standup|review|demo|interview|termin|treffen|konferenz|webinar)\\b"@
}

pub open spec fn priority_pattern_text() -> Seq<char> {
    "(?i)\\b(dringend|urgent|kritisch|critical|wichtig|important|asap|sofort)\\b"@
}

pub open spec fn trailing_pattern_text() -> Seq<char> {
    "(?i)[\\s,:;-]*\\b(?:am|um|on|at|vom|ab)?[\\s,:;-]*$"@
}

pub open spec fn prefix_pattern_text() -> Seq<char> {
    "(?i)^\\s*(?:[-*•]\\s*)?(?:(?:todo|aufgabe|task)\\s*:\\s*|(?:bitte|please)\\s+)?"@
}

/// Whole words only ("bei" inside "beim" swallowed the rest of the line), and the
/// place ends before a colon or a date.
pub open spec fn location_pattern_text() -> Seq<char> {
    "(?i)\\b(?:in|im|at|bei|beim|ort|location|raum|room)\\b\\s*:?\\s*([^\\n,:0-9]{3,50})"@
}

pub open spec fn high_energy_pattern_text() -> Seq<char> {
    "(?i)\\b(analyse|analyse|konzept|strategie|bericht|präsentation|schreibe|research|analyse|design)\\b"@
}

pub open spec fn low_energy_pattern_text() -> Seq<char> {
    "(?i)\\b(e-mail|email|antworten|formular|admin|buchen|bestellen|weiterleiten)\\b"@
}

fn task_pattern() -> (p: &'static str)
    ensures
        p@ == task_pattern_text(),
{
    "(?im)^\\s*[-*•]\\s+(.+)$|\\b(?:todo|aufgabe|task|erledige|muss|soll|bitte|please)\\b\\s*:?\\s*(.+?)(?:\\.(?:\\s|$)|$)"
}

fn meeting_pattern() -> (p: &'static str)
    ensures
        p@ == meeting_pattern_text(),
{
    "(?i)\\b(meeting|besprechung|call|standup|review|demo|interview|termin|treffen|konferenz|webinar)\\b"
}

fn priority_pattern() -> (p: &'static str)
    ensures
        p@ == priority_pattern_text(),
{
    "(?i)\\b(dringend|urgent|kritisch|critical|wichtig|important|asap|sofort)\\b"
}

fn trailing_pattern() -> (p: &'static str)
    ensures
        p@ == trailing_pattern_text(),
{
    "(?i)[\\s,:;-]*\\b(?:am|um|on|at|vom|ab)?[\\s,:;-]*$"
}

fn prefix_pattern() -> (p: &'static str)
    ensures
        p@ == prefix_pattern_text(),
{
    "(?i)^\\s*(?:[-*•]\\s*)?(?:(?:todo|aufgabe|task)\\s*:\\s*|(?:bitte|please)\\s+)?"
}

fn location_pattern() -> (p: &'static str)
    ensures
        p@ == location_pattern_text(),
{
    "(?i)\\b(?:in|im|at|bei|beim|ort|location|raum|room)\\b\\s*:?\\s*([^\\n,:0-9]{3,50})"
}

fn high_energy_pattern() -> (p: &'static str)
    ensures
        p@ == high_energy_pattern_text(),
{
    "(?i)\\b(analyse|analyse|konzept|strategie|bericht|präsentation|schreibe|research|analyse|design)\\b"
}

fn low_energy_pattern() -> (p: &'static str)
    ensures
        p@ == low_energy_pattern_text(),
{
    "(?i)\\b(e-mail|email|antworten|formular|admin|buchen|bestellen|weiterleiten)\\b"
}

// ---------------------------------------------------------------- characters

/// What `char::to_uppercase` yields for `c`.
pub uninterp spec fn uppercased(c: char) -> Seq<char>;

/// `c` in upper case (`char::to_uppercase`, collected); the result is named.
#[verifier::external_body]
fn upper_char(c: char) -> (s: String)
    ensures
        s@ == uppercased(c),
{
    c.to_uppercase().collect()
}

/// What `char::is_alphanumeric` says of `c`.
pub uninterp spec fn alphanumeric(c: char) -> bool;

/// Whether `c` is a letter or a digit (`char::is_alphanumeric`); the answer is named.
#[verifier::external_body]
fn is_alphanumeric(c: char) -> (b: bool)
    ensures
        b == alphanumeric(c),
{
    c.is_alphanumeric()
}

// ---------------------------------------------------------------- one line

/// High when the text says it is urgent or important.
pub open spec fn spec_priority_of(text: Seq<char>) -> TaskPriority {
    if is_match(priority_pattern_text(), text) {
        TaskPriority::High
    } else {
        TaskPriority::Medium
    }
}

/// High for work that needs thought, low for chores, medium otherwise.
pub open spec fn spec_infer_energy(text: Seq<char>) -> EnergyLevel {
    if is_match(high_energy_pattern_text(), text) {
        EnergyLevel::High
    } else if is_match(low_energy_pattern_text(), text) {
        EnergyLevel::Low
    } else {
        EnergyLevel::Medium
    }
}

/// The priority a text asks for.
pub fn priority_of(text: &str) -> (p: TaskPriority)
    ensures
        p == spec_priority_of(text@),
{
    if has_match(priority_pattern(), text) {
        TaskPriority::High
    } else {
        TaskPriority::Medium
    }
}

/// The energy a task described by `text` takes.
pub fn infer_energy(text: &str) -> (e: EnergyLevel)
    ensures
        e == spec_infer_energy(text@),
{
    if has_match(high_energy_pattern(), text) {
        EnergyLevel::High
    } else if has_match(low_energy_pattern(), text) {
        EnergyLevel::Low
    } else {
        EnergyLevel::Medium
    }
}

/// The first of the lines that holds `needle`, or an empty line.
pub open spec fn first_line_with(ls: Seq<Seq<char>>, needle: Seq<char>) -> Seq<char>
    decreases ls.len(),
{
    if ls.len() == 0 {
        seq![]
    } else if contains_seq(ls[0], needle) {
        ls[0]
    } else {
        first_line_with(ls.drop_first(), needle)
    }
}

/// The line that holds `needle`, trimmed; empty when no line does.
pub open spec fn spec_line_containing(text: Seq<char>, needle: Seq<char>) -> Seq<char> {
    trim(first_line_with(lines(text), needle))
}

/// The line of `text` that holds `needle`, trimmed (empty when none does). The
/// line, not the first line of the text: that turned "Hallo zusammen" into the
/// title of every appointment.
pub fn line_containing(text: &str, needle: &str) -> (r: String)
    ensures
        r@ == spec_line_containing(text@, needle@),
{
    let v = chars_of(text);
    let nv = chars_of(needle);
    let len = v.len();
    let mut from: usize = 0;
    assert(v@.subrange(0, len as int) =~= v@);
    while from < len
        invariant
            from <= len == v@.len(),
            v@ == text@,
            nv@ == needle@,
            first_line_with(lines(text@), needle@) == first_line_with(lines(v@.subrange(from as int, len as int)), needle@),
        decreases len - from,
    {
        let e = line_end(v.as_slice(), from);
        let ce = strip_cr_end(v.as_slice(), from, e);
        let ghost s = v@.subrange(from as int, len as int);
        proof {
            crate::text::lemma_index_or_len(s, '\n');
            if e < len {
                assert(s.subrange(0, e - from) =~= v@.subrange(from as int, e as int));
                assert(s.subrange(e - from + 1, s.len() as int) =~= v@.subrange(e + 1, len as int));
            } else {
                assert(s =~= v@.subrange(from as int, e as int));
            }
        }
        let line = vstd::slice::slice_subrange(v.as_slice(), from, ce);
        if contains(line, nv.as_slice()) {
            let (lo, hi) = trim_bounds(v.as_slice(), from, ce);
            return string_of_range(v.as_slice(), lo, hi);
        }
        if e >= len {
            assert(lines(s) == seq![strip_cr(s)]);
            assert(lines(s).drop_first() =~= Seq::<Seq<char>>::empty());
            assert(lines(v@.subrange(len as int, len as int)) =~= Seq::<Seq<char>>::empty());
            from = len;
        } else {
            let ghost rest = v@.subrange(e + 1, len as int);
            assert(lines(s) == seq![strip_cr(v@.subrange(from as int, e as int))] + lines(rest));
            assert(lines(s).drop_first() =~= lines(rest));
            from = e + 1;
        }
    }
    assert(v@.subrange(len as int, len as int) =~= Seq::<char>::empty());
    String::new()
}

/// A line made into a title: without a bullet, "Todo:" or "Bitte" and the closing
/// full stop, trimmed, its first character in upper case, at most 80 characters.
pub open spec fn spec_clean_line(line: Seq<char>) -> Seq<char> {
    let body = trim(trim_end_char(trim(removed_first(prefix_pattern_text(), line)), '.'));
    let cap = if body.len() == 0 {
        seq![]
    } else {
        uppercased(body[0]) + body.drop_first()
    };
    if cap.len() > 80 {
        cap.take(80)
    } else {
        cap
    }
}

/// Drops bullets, "Todo:" or "Bitte" and the closing full stop, capitalises, caps
/// at 80 characters.
pub fn clean_line(line: &str) -> (r: String)
    ensures
        r@ == spec_clean_line(line@),
{
    let body = remove_first(prefix_pattern(), line);
    let v = chars_of(body.as_str());
    let n = v.len();
    let (lo, hi) = trim_bounds(v.as_slice(), 0, n);
    assert(v@.subrange(0, n as int) =~= v@);
    let hi2 = trim_end_char_bound(v.as_slice(), lo, hi, '.');
    let (lo3, hi3) = trim_bounds(v.as_slice(), lo, hi2);
    let ghost b = v@.subrange(lo3 as int, hi3 as int);
    if lo3 == hi3 {
        return String::new();
    }
    let mut out = upper_char(v[lo3]);
    let mut i = lo3 + 1;
    while i < hi3
        invariant
            lo3 < i <= hi3 <= v@.len(),
            b == v@.subrange(lo3 as int, hi3 as int),
            out@ == uppercased(v@[lo3 as int]) + v@.subrange(lo3 + 1, i as int),
        decreases hi3 - i,
    {
        push_char(&mut out, v[i]);
        assert(v@.subrange(lo3 + 1, i + 1) =~= v@.subrange(lo3 + 1, i as int).push(v@[i as int]));
        i += 1;
    }
    assert(b.drop_first() =~= v@.subrange(lo3 + 1, hi3 as int));
    let ov = chars_of(out.as_str());
    let k = if ov.len() > 80 {
        80
    } else {
        ov.len()
    };
    let r = string_of_range(ov.as_slice(), 0, k);
    assert(ov@.subrange(0, k as int) =~= (if ov@.len() > 80 {
        ov@.take(80)
    } else {
        ov@
    }));
    r
}

/// The title of an appointment: what stands before the date on its line (without
/// a trailing "am", "um", "on" …), or the whole line when that is under three
/// characters. Empty means untitled.
pub open spec fn spec_event_title(line: Seq<char>, raw: Seq<char>) -> Seq<char> {
    let before = match first_occurrence(line, raw) {
        Some(i) => line.subrange(0, i),
        None => line,
    };
    let cut = removed_first(trailing_pattern_text(), before);
    if cut.len() >= 3 {
        spec_clean_line(cut)
    } else {
        spec_clean_line(line)
    }
}

/// Everything before the date ("Besprechung am 12.10." → "Besprechung"), or the
/// whole line when the date comes first.
pub fn event_title(line: &str, raw: &str) -> (r: String)
    ensures
        r@ == spec_event_title(line@, raw@),
{
    let lv = chars_of(line);
    let rv = chars_of(raw);
    let before = match find_seq(lv.as_slice(), rv.as_slice()) {
        Some(i) => string_of_range(lv.as_slice(), 0, i),
        None => line.to_owned(),
    };
    let cut = remove_first(trailing_pattern(), before.as_str());
    let cv = chars_of(cut.as_str());
    if cv.len() >= 3 {
        clean_line(cut.as_str())
    } else {
        clean_line(line)
    }
}

/// `s` without its trailing characters that are neither letters nor digits.
pub open spec fn trim_end_nonalnum(s: Seq<char>) -> Seq<char>
    decreases s.len(),
{
    if s.len() > 0 && !alphanumeric(s.last()) {
        trim_end_nonalnum(s.drop_last())
    } else {
        s
    }
}

/// The place named after "in", "bei", "Raum" … in `text`, trimmed and without
/// trailing punctuation; none when it is shorter than three characters.
pub open spec fn spec_location(text: Seq<char>) -> Option<Seq<char>> {
    let ms = matches_of(location_pattern_text(), text);
    if ms.len() == 0 {
        None
    } else {
        let place = trim(trim_end_nonalnum(trim(group_text(ms[0], 1))));
        if place.len() >= 3 {
            Some(place)
        } else {
            None
        }
    }
}

/// The place named in `text`.
pub fn extract_location(text: &str) -> (r: Option<String>)
    ensures
        r matches Some(s) ==> spec_location(text@) == Some(s@),
        r is None ==> spec_location(text@) is None,
{
    let ms = find_all(location_pattern(), text);
    if ms.len() == 0 {
        return None;
    }
    let g = group_string(&ms[0], 1);
    let v = chars_of(g.as_str());
    let n = v.len();
    let (lo, hi) = trim_bounds(v.as_slice(), 0, n);
    assert(v@.subrange(0, n as int) =~= v@);
    let mut h = hi;
    while h > lo && !is_alphanumeric(v[h - 1])
        invariant
            lo <= h <= hi <= v@.len(),
            trim_end_nonalnum(v@.subrange(lo as int, hi as int)) == trim_end_nonalnum(v@.subrange(lo as int, h as int)),
        decreases h,
    {
        assert(v@.subrange(lo as int, h as int).drop_last() =~= v@.subrange(lo as int, h - 1));
        h -= 1;
    }
    let (lo3, hi3) = trim_bounds(v.as_slice(), lo, h);
    if hi3 - lo3 >= 3 {
        Some(string_of_range(v.as_slice(), lo3, hi3))
    } else {
        None
    }
}

// ---------------------------------------------------------------- the whole text

/// What an extracted event says: its title, its start and its place.
pub ghost struct EventFound {
    pub title: Seq<char>,
    pub start: int,
    pub location: Option<Seq<char>>,
}

/// What an extracted task says: its title, its due date, its priority and the
/// energy it takes.
pub ghost struct TaskFound {
    pub title: Seq<char>,
    pub due: Option<int>,
    pub priority: TaskPriority,
    pub energy: EnergyLevel,
}

/// One task for each deadline, titled by the line the deadline stands on.
pub open spec fn deadline_tasks(text: Seq<char>, dates: Seq<DateView>) -> Seq<TaskFound>
    decreases dates.len(),
{
    if dates.len() == 0 {
        seq![]
    } else {
        let prev = deadline_tasks(text, dates.drop_last());
        let d = dates.last();
        if d.is_deadline {
            let line = spec_line_containing(text, d.raw);
            prev.push(
                TaskFound {
                    title: spec_clean_line(line),
                    due: Some(d.datetime),
                    priority: spec_priority_of(line),
                    energy: spec_infer_energy(line),
                },
            )
        } else {
            prev
        }
    }
}

/// The lines of the deadlines.
pub open spec fn deadline_lines(text: Seq<char>, dates: Seq<DateView>) -> Seq<Seq<char>>
    decreases dates.len(),
{
    if dates.len() == 0 {
        seq![]
    } else {
        let prev = deadline_lines(text, dates.drop_last());
        let d = dates.last();
        if d.is_deadline {
            prev.push(spec_line_containing(text, d.raw))
        } else {
            prev
        }
    }
}

pub open spec fn has_deadline(dates: Seq<DateView>) -> bool {
    exists|i: int| 0 <= i < dates.len() && #[trigger] dates[i].is_deadline
}

/// The first date from position `k` on that is not a deadline.
pub open spec fn first_plain_from(dates: Seq<DateView>, k: int) -> Option<int>
    decreases dates.len() - k,
{
    if k < 0 || k >= dates.len() {
        None
    } else if !dates[k].is_deadline {
        Some(k)
    } else {
        first_plain_from(dates, k + 1)
    }
}

/// The appointment, with its line: the first date that is not a deadline, when the
/// text talks about a meeting or has no deadline.
pub open spec fn appointment(text: Seq<char>, dates: Seq<DateView>) -> Option<(EventFound, Seq<char>)> {
    if is_match(meeting_pattern_text(), text) || !has_deadline(dates) {
        match first_plain_from(dates, 0) {
            Some(i) => {
                let d = dates[i];
                let line = spec_line_containing(text, d.raw);
                Some(
                    (
                        EventFound {
                            title: spec_event_title(line, d.raw),
                            start: d.datetime,
                            location: spec_location(line),
                        },
                        line,
                    ),
                )
            },
            None => None,
        }
    } else {
        None
    }
}

/// The text of a bullet point, or of a "todo:" / "bitte" sentence.
pub open spec fn task_text(c: CaptureView) -> Option<Seq<char>> {
    match group(c, 1) {
        Some(s) => Some(s),
        None => group(c, 2),
    }
}

/// The task a bullet point or a "bitte" sentence makes, with its line; none when
/// its line already made one, or when it is shorter than three characters.
pub open spec fn task_step(
    text: Seq<char>,
    clock: LocalClock,
    zone: Seq<(i64, Option<i64>)>,
    c: CaptureView,
    used: Seq<Seq<char>>,
) -> Option<(TaskFound, Seq<char>)> {
    match task_text(c) {
        Some(found) => {
            let line = spec_line_containing(text, found);
            let raw = trim(found);
            if used.contains(line) || raw.len() < 3 {
                None
            } else {
                let ds = spec_dates(raw, clock, zone);
                Some(
                    (
                        TaskFound {
                            title: spec_clean_line(raw),
                            due: if ds.len() > 0 {
                                Some(ds[0].datetime)
                            } else {
                                None
                            },
                            priority: spec_priority_of(raw),
                            energy: spec_infer_energy(raw),
                        },
                        line,
                    ),
                )
            }
        },
        None => None,
    }
}

/// The tasks of the first `k` bullet points and sentences, and the lines used.
pub open spec fn task_fold(
    text: Seq<char>,
    clock: LocalClock,
    zone: Seq<(i64, Option<i64>)>,
    ms: Seq<CaptureView>,
    k: int,
    used: Seq<Seq<char>>,
) -> (Seq<TaskFound>, Seq<Seq<char>>)
    decreases k,
{
    if k <= 0 || k > ms.len() {
        (seq![], used)
    } else {
        let (ts, us) = task_fold(text, clock, zone, ms, k - 1, used);
        match task_step(text, clock, zone, ms[k - 1], us) {
            Some((t, l)) => (ts.push(t), us.push(l)),
            None => (ts, us),
        }
    }
}

/// The events and the tasks of `text` at the moment `clock`, with `zone` for the
/// time zone.
pub open spec fn spec_extraction(text: Seq<char>, clock: LocalClock, zone: Seq<(i64, Option<i64>)>) -> (
    Seq<EventFound>,
    Seq<TaskFound>,
) {
    let dates = spec_dates(text, clock, zone);
    let ap = appointment(text, dates);
    let used = deadline_lines(text, dates) + match ap {
        Some((_, l)) => seq![l],
        None => seq![],
    };
    let ms = matches_of(task_pattern_text(), text);
    let tf = task_fold(text, clock, zone, ms, ms.len() as int, used);
    (
        match ap {
            Some((e, _)) => seq![e],
            None => seq![],
        },
        deadline_tasks(text, dates) + tf.0,
    )
}

/// The event is a new, extracted event that says what `f` says.
pub open spec fn made_event(e: EventView, f: EventFound) -> bool {
    &&& e.title == f.title
    &&& e.start == f.start
    &&& e.location == f.location
    &&& e.source == EventSource::Extracted
    &&& e.id.len() == 36
    &&& e.description is None
    &&& e.end is None
    &&& !e.all_day
    &&& e.calendar_id is None
    &&& e.external_uid is None
    &&& e.status == EventStatus::Confirmed
    &&& e.recurrence is None
    &&& e.linked_task_ids.len() == 0
    &&& e.linked_doc_ids.len() == 0
    &&& e.tags.len() == 0
    &&& e.created_at == e.updated_at
    &&& valid_time(e.created_at as int)
}

/// The task is a new, extracted task that says what `f` says.
pub open spec fn made_task(t: TaskView, f: TaskFound) -> bool {
    &&& t.title == f.title
    &&& t.due_date matches Some(d) ==> f.due == Some(d as int)
    &&& t.due_date is None ==> f.due is None
    &&& t.priority == f.priority
    &&& t.energy_level == f.energy
    &&& t.source == TaskSource::Extracted
    &&& t.id.len() == 36
    &&& t.description is None
    &&& t.status == TaskStatus::Todo
    &&& t.project_id is None
    &&& t.estimated_minutes is None
    &&& t.linked_event_ids.len() == 0
    &&& t.tags.len() == 0
    &&& t.created_at == t.updated_at
    &&& valid_time(t.created_at as int)
}

pub open spec fn events_made(es: Seq<Event>, fs: Seq<EventFound>) -> bool {
    &&& es.len() == fs.len()
    &&& forall|i: int| 0 <= i < es.len() ==> made_event(#[trigger] es[i]@, fs[i])
}

pub open spec fn tasks_made(ts: Seq<Task>, fs: Seq<TaskFound>) -> bool {
    &&& ts.len() == fs.len()
    &&& forall|i: int| 0 <= i < ts.len() ==> made_task(#[trigger] ts[i]@, fs[i])
}

/// The result holds exactly the events and tasks of `found`, and the text.
pub open spec fn result_says(r: ExtractionResult, text: Seq<char>, found: (Seq<EventFound>, Seq<TaskFound>)) -> bool {
    &&& events_made(r.events@, found.0)
    &&& tasks_made(r.tasks@, found.1)
    &&& r.source_text@ == text
}

fn extracted_task(title: String, due: Option<i64>, priority: TaskPriority, energy: EnergyLevel) -> (t: Task)
    ensures
        made_task(
            t@,
            TaskFound {
                title: title@,
                due: match due {
                    Some(d) => Some(d as int),
                    None => None,
                },
                priority,
                energy,
            },
        ),
{
    let mut t = Task::new(title);
    t.source = TaskSource::Extracted;
    t.due_date = due;
    t.priority = priority;
    t.energy_level = energy;
    t
}

fn extracted_event(title: String, start: i64, location: Option<String>) -> (e: Event)
    ensures
        made_event(e@, EventFound { title: title@, start: start as int, location: crate::models::ostr(location) }),
{
    let mut e = Event::new(title, start);
    e.source = EventSource::Extracted;
    e.location = location;
    e
}

/// Whether `lines` holds `line`.
fn holds_line(lines: &Vec<String>, line: &String) -> (b: bool)
    ensures
        b == strs(*lines).contains(line@),
{
    let mut i: usize = 0;
    while i < lines.len()
        invariant
            i <= lines@.len(),
            forall|j: int| 0 <= j < i ==> strs(*lines)[j] != line@,
        decreases lines@.len() - i,
    {
        if lines[i] == *line {
            assert(strs(*lines)[i as int] == line@);
            return true;
        }
        i += 1;
    }
    false
}

fn char_count(s: &str) -> (n: usize)
    ensures
        n == s@.len(),
{
    chars_of(s).len()
}

/// The events and tasks of `text` at the moment `clock`, where `zone` gives the UTC
/// second for each wall-clock reading.
pub fn extract_from_text_in(text: &str, clock: &LocalClock, zone: &[(i64, Option<i64>)]) -> (r: ExtractionResult)
    requires
        clock.wf(),
    ensures
        result_says(r, text@, spec_extraction(text@, *clock, zone@)),
{
    let dates = extract_dates_in(text, clock, zone);
    let ghost ds = date_views(dates@);
    let mut tasks: Vec<Task> = Vec::new();
    let mut used: Vec<String> = Vec::new();
    let mut any_deadline = false;
    let mut i: usize = 0;
    while i < dates.len()
        invariant
            i <= dates@.len(),
            ds == date_views(dates@),
            tasks_made(tasks@, deadline_tasks(text@, ds.take(i as int))),
            strs(used) == deadline_lines(text@, ds.take(i as int)),
            any_deadline == has_deadline(ds.take(i as int)),
        decreases dates@.len() - i,
    {
        assert(ds.take(i + 1).drop_last() =~= ds.take(i as int));
        if dates[i].is_deadline {
            let line = line_containing(text, dates[i].raw.as_str());
            let title = clean_line(line.as_str());
            let task = extracted_task(title, Some(dates[i].datetime), priority_of(line.as_str()), infer_energy(line.as_str()));
            let ghost before = strs(used);
            used.push(line);
            assert(strs(used) =~= before.push(spec_line_containing(text@, ds[i as int].raw)));
            tasks.push(task);
            any_deadline = true;
            assert(ds.take(i + 1)[i as int].is_deadline);
        } else {
            assert(has_deadline(ds.take(i + 1)) == has_deadline(ds.take(i as int))) by {
                if has_deadline(ds.take(i + 1)) {
                    let j = choose|j: int| 0 <= j < i + 1 && #[trigger] ds.take(i + 1)[j].is_deadline;
                    assert(ds.take(i as int)[j].is_deadline);
                }
                if has_deadline(ds.take(i as int)) {
                    let j = choose|j: int| 0 <= j < i && #[trigger] ds.take(i as int)[j].is_deadline;
                    assert(ds.take(i + 1)[j].is_deadline);
                }
            }
        }
        i += 1;
    }
    assert(ds.take(ds.len() as int) =~= ds);
    let ghost ap = appointment(text@, ds);
    let mut events: Vec<Event> = Vec::new();
    if has_match(meeting_pattern(), text) || !any_deadline {
        let mut j: usize = 0;
        while j < dates.len() && dates[j].is_deadline
            invariant
                j <= dates@.len(),
                ds == date_views(dates@),
                first_plain_from(ds, 0) == first_plain_from(ds, j as int),
            decreases dates@.len() - j,
        {
            j += 1;
        }
        if j < dates.len() {
            let line = line_containing(text, dates[j].raw.as_str());
            let title = event_title(line.as_str(), dates[j].raw.as_str());
            let place = extract_location(line.as_str());
            let ev = extracted_event(title, dates[j].datetime, place);
            let ghost before = strs(used);
            used.push(line);
            assert(strs(used) =~= before.push((ap->0).1));
            events.push(ev);
        }
    }
    let ghost used0 = strs(used);
    let ghost n0 = tasks@.len();
    assert(used0 == deadline_lines(text@, ds) + match ap {
        Some((_, l)) => seq![l],
        None => seq![],
    }) by {
        if ap is None {
            assert(used0 =~= deadline_lines(text@, ds) + Seq::<Seq<char>>::empty());
        }
    }
    let ms = find_all(task_pattern(), text);
    let ghost cs = capture_views(ms@);
    let ghost dt = deadline_tasks(text@, ds);
    let mut k: usize = 0;
    while k < ms.len()
        invariant
            k <= ms@.len(),
            clock.wf(),
            cs == capture_views(ms@),
            tasks_made(tasks@, dt + task_fold(text@, *clock, zone@, cs, k as int, used0).0),
            strs(used) == task_fold(text@, *clock, zone@, cs, k as int, used0).1,
        decreases ms@.len() - k,
    {
        let ghost prev = task_fold(text@, *clock, zone@, cs, k as int, used0);
        let found: Option<&String> = match group_of(&ms[k], 1) {
            Some(s) => Some(s),
            None => group_of(&ms[k], 2),
        };
        match found {
            Some(f) => {
                let line = line_containing(text, f.as_str());
                let raw = trimmed(f.as_str());
                if !holds_line(&used, &line) && char_count(raw.as_str()) >= 3 {
                    let rd = extract_dates_in(raw.as_str(), clock, zone);
                    let due = if rd.len() > 0 {
                        Some(rd[0].datetime)
                    } else {
                        None
                    };
                    let task = extracted_task(clean_line(raw.as_str()), due, priority_of(raw.as_str()), infer_energy(raw.as_str()));
                    let ghost before = strs(used);
                    used.push(line);
                    assert(strs(used) =~= before.push(spec_line_containing(text@, f@)));
                    let ghost tbefore = tasks@;
                    tasks.push(task);
                    assert(dt + task_fold(text@, *clock, zone@, cs, k + 1, used0).0 =~= (dt + prev.0).push(
                        (task_step(text@, *clock, zone@, cs[k as int], prev.1)->0).0,
                    ));
                } else {
                }
            },
            None => {},
        }
        k += 1;
    }
    assert(cs == matches_of(task_pattern_text(), text@));
    ExtractionResult { events, tasks, source_text: text.to_owned() }
}

/// The texts of the bullet points and sentences, trimmed: each is searched for its
/// own due date.
pub open spec fn task_raws(ms: Seq<CaptureView>) -> Seq<Seq<char>>
    decreases ms.len(),
{
    if ms.len() == 0 {
        seq![]
    } else {
        task_raws(ms.drop_last()) + match task_text(ms.last()) {
            Some(f) => seq![trim(f)],
            None => seq![],
        }
    }
}

/// Every one of `rs` occurs in `ns`.
pub open spec fn all_in(rs: Seq<int>, ns: Seq<int>) -> bool {
    forall|i: int| 0 <= i < rs.len() ==> ns.contains(#[trigger] rs[i])
}

proof fn lemma_all_in_append(rs: Seq<int>, ns: Seq<int>, more: Seq<int>)
    requires
        all_in(rs, ns),
    ensures
        all_in(rs, ns + more),
{
    assert forall|i: int| 0 <= i < rs.len() implies (ns + more).contains(#[trigger] rs[i]) by {
        let j = choose|j: int| 0 <= j < ns.len() && ns[j] == rs[i];
        assert((ns + more)[j] == rs[i]);
    }
}

proof fn lemma_all_in_tail(ns: Seq<int>, more: Seq<int>)
    ensures
        all_in(more, ns + more),
{
    assert forall|i: int| 0 <= i < more.len() implies (ns + more).contains(#[trigger] more[i]) by {
        assert((ns + more)[ns.len() + i] == more[i]);
    }
}

/// The clock is a real reading, and the zone table answers faithfully every
/// wall-clock reading of the text and of each task's own text.
pub open spec fn read_with(text: Seq<char>, clock: LocalClock, zone: Seq<(i64, Option<i64>)>) -> bool {
    let raws = task_raws(matches_of(task_pattern_text(), text));
    &&& clock.wf()
    &&& zone_faithful(zone)
    &&& covers(zone, readings(text, clock))
    &&& forall|i: int| 0 <= i < raws.len() ==> covers(zone, readings(#[trigger] raws[i], clock))
}

/// The events and tasks in `text`: a task for each deadline, titled by its own
/// line; the first date that is not a deadline as an appointment, when the text
/// talks about a meeting or has no deadline; a task for each bullet point and each
/// "todo:" or "bitte …" sentence whose line made nothing yet, due at the first date
/// in it.
///
/// The clock is read once; wall-clock readings, those of the text and those of each
/// task's own text, are turned into UTC seconds by the machine's time zone, which
/// the result states as a table.
pub fn extract_from_text(text: &str) -> (r: ExtractionResult)
    ensures
        exists|clock: LocalClock, zone: Seq<(i64, Option<i64>)>|
            {
                &&& read_with(text@, clock, zone)
                &&& result_says(r, text@, spec_extraction(text@, clock, zone))
            },
{
    let clock = local_clock();
    let mut ns = readings_of(text, &clock);
    let ghost base = readings(text@, clock);
    proof {
        assert forall|i: int| 0 <= i < base.len() implies ints(ns@).contains(#[trigger] base[i]) by {
            assert(ints(ns@)[i] == base[i]);
        }
    }
    let ms = find_all(task_pattern(), text);
    let ghost cs = capture_views(ms@);
    let mut k: usize = 0;
    while k < ms.len()
        invariant
            k <= ms@.len(),
            clock.wf(),
            cs == capture_views(ms@),
            all_in(base, ints(ns@)),
            forall|m: int|
                0 <= m < task_raws(cs.take(k as int)).len() ==> all_in(
                    readings(#[trigger] task_raws(cs.take(k as int))[m], clock),
                    ints(ns@),
                ),
        decreases ms@.len() - k,
    {
        assert(cs.take(k + 1).drop_last() =~= cs.take(k as int));
        let ghost old_ns = ints(ns@);
        let ghost prev = task_raws(cs.take(k as int));
        let found: Option<&String> = match group_of(&ms[k], 1) {
            Some(s) => Some(s),
            None => group_of(&ms[k], 2),
        };
        match found {
            Some(f) => {
                let raw = trimmed(f.as_str());
                let mut more = readings_of(raw.as_str(), &clock);
                let ghost mv = ints(more@);
                ns.append(&mut more);
                assert(ints(ns@) =~= old_ns + mv);
                proof {
                    lemma_all_in_append(base, old_ns, mv);
                    lemma_all_in_tail(old_ns, mv);
                    let now = task_raws(cs.take(k + 1));
                    assert(now =~= prev.push(raw@));
                    assert forall|m: int| 0 <= m < now.len() implies all_in(readings(#[trigger] now[m], clock), ints(ns@)) by {
                        if m < prev.len() {
                            lemma_all_in_append(readings(prev[m], clock), old_ns, mv);
                        }
                    }
                }
            },
            None => {
                assert(task_raws(cs.take(k + 1)) =~= prev);
            },
        }
        k += 1;
    }
    assert(cs.take(cs.len() as int) =~= cs);
    let mut zone: Vec<(i64, Option<i64>)> = Vec::new();
    let mut i: usize = 0;
    while i < ns.len()
        invariant
            i <= ns@.len(),
            zone@.len() == i,
            forall|j: int| 0 <= j < i ==> (#[trigger] zone@[j]).0 == ns@[j],
            zone_faithful(zone@),
        decreases ns@.len() - i,
    {
        let u = local_to_utc(ns[i]);
        zone.push((ns[i], u));
        i += 1;
    }
    let r = extract_from_text_in(text, &clock, zone.as_slice());
    proof {
        let nsv = ints(ns@);
        assert forall|x: int| nsv.contains(x) implies answers(zone@, x) by {
            let j = choose|j: int| 0 <= j < nsv.len() && nsv[j] == x;
            assert(zone@[j].0 == ns@[j]);
        }
        assert forall|rs: Seq<int>| all_in(rs, nsv) implies covers(zone@, rs) by {
            assert forall|i: int| 0 <= i < rs.len() implies answers(zone@, #[trigger] rs[i]) by {
                assert(nsv.contains(rs[i]));
            }
        }
        let raws = task_raws(cs);
        assert(covers(zone@, base));
        assert forall|m: int| 0 <= m < raws.len() implies covers(zone@, readings(#[trigger] raws[m], clock)) by {
            assert(all_in(readings(raws[m], clock), nsv));
        }
        assert(read_with(text@, clock, zone@));
        assert(result_says(r, text@, spec_extraction(text@, clock, zone@)));
    }
    r
}

// ---------------------------------------------------------------- laws

proof fn lemma_first_plain(dates: Seq<DateView>, k: int)
    ensures
        first_plain_from(dates, k) matches Some(i) ==> k <= i < dates.len() && !dates[i].is_deadline,
        first_plain_from(dates, k) is None && 0 <= k ==> forall|j: int| k <= j < dates.len() ==> #[trigger] dates[j].is_deadline,
    decreases dates.len() - k,
{
    if 0 <= k < dates.len() && dates[k].is_deadline {
        lemma_first_plain(dates, k + 1);
    }
}

/// A deadline is not an appointment: the one event of a text starts at a date that
/// is not a deadline; and a text with a deadline that talks of no meeting yields
/// no event at all.
pub proof fn law_appointment_is_not_a_deadline(text: Seq<char>, clock: LocalClock, zone: Seq<(i64, Option<i64>)>)
    ensures
        spec_extraction(text, clock, zone).0.len() <= 1,
        spec_extraction(text, clock, zone).0.len() == 1 ==> exists|j: int|
            0 <= j < spec_dates(text, clock, zone).len() && !(#[trigger] spec_dates(text, clock, zone)[j]).is_deadline
                && spec_dates(text, clock, zone)[j].datetime == spec_extraction(text, clock, zone).0[0].start,
        !is_match(meeting_pattern_text(), text) && has_deadline(spec_dates(text, clock, zone)) ==> spec_extraction(
            text,
            clock,
            zone,
        ).0.len() == 0,
{
    let dates = spec_dates(text, clock, zone);
    lemma_first_plain(dates, 0);
    if spec_extraction(text, clock, zone).0.len() == 1 {
        let i = first_plain_from(dates, 0)->0;
        assert(!dates[i].is_deadline);
    }
}

/// The bullet points and sentences that became tasks: each takes a line that no
/// task or appointment took before it.
proof fn lemma_task_fold_lines(
    text: Seq<char>,
    clock: LocalClock,
    zone: Seq<(i64, Option<i64>)>,
    ms: Seq<CaptureView>,
    k: int,
    used: Seq<Seq<char>>,
)
    ensures
        task_fold(text, clock, zone, ms, k, used).1.len() == used.len() + task_fold(text, clock, zone, ms, k, used).0.len(),
        task_fold(text, clock, zone, ms, k, used).1.take(used.len() as int) == used,
        forall|i: int|
            used.len() <= i < task_fold(text, clock, zone, ms, k, used).1.len() ==> !task_fold(
                text,
                clock,
                zone,
                ms,
                k,
                used,
            ).1.take(i).contains(#[trigger] task_fold(text, clock, zone, ms, k, used).1[i]),
    decreases k,
{
    if !(k <= 0 || k > ms.len()) {
        lemma_task_fold_lines(text, clock, zone, ms, k - 1, used);
        let (ts, us) = task_fold(text, clock, zone, ms, k - 1, used);
        match task_step(text, clock, zone, ms[k - 1], us) {
            Some((t, l)) => {
                let nus = us.push(l);
                assert(nus.take(used.len() as int) =~= us.take(used.len() as int));
                assert forall|i: int| used.len() <= i < nus.len() implies !nus.take(i).contains(#[trigger] nus[i]) by {
                    if i < us.len() {
                        assert(nus.take(i) =~= us.take(i));
                        assert(nus[i] == us[i]);
                    } else {
                        assert(nus.take(i) =~= us);
                    }
                }
            },
            None => {},
        }
    } else {
        assert(used.take(used.len() as int) =~= used);
    }
}

/// A line makes at most one task from a bullet point or a "bitte" sentence: the
/// lines taken by those tasks differ from each other and from the lines of the
/// deadlines and of the appointment.
pub proof fn law_a_line_makes_one_task(text: Seq<char>, clock: LocalClock, zone: Seq<(i64, Option<i64>)>)
    ensures
        ({
            let dates = spec_dates(text, clock, zone);
            let ap = appointment(text, dates);
            let used = deadline_lines(text, dates) + match ap {
                Some((_, l)) => seq![l],
                None => seq![],
            };
            let ms = matches_of(task_pattern_text(), text);
            let us = task_fold(text, clock, zone, ms, ms.len() as int, used).1;
            forall|i: int| used.len() <= i < us.len() ==> !us.take(i).contains(#[trigger] us[i])
        }),
{
    let dates = spec_dates(text, clock, zone);
    let ap = appointment(text, dates);
    let used = deadline_lines(text, dates) + match ap {
        Some((_, l)) => seq![l],
        None => seq![],
    };
    let ms = matches_of(task_pattern_text(), text);
    lemma_task_fold_lines(text, clock, zone, ms, ms.len() as int, used);
}

} // verus!
