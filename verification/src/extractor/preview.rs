//! What an extraction found, checked against the calendar before anything is
//! saved: every source (text, e-mail, PDF, model) ends up here, and nothing is
//! stored until the person accepts the preview.
use crate::analyzer::conflicts::event_views;
use crate::extractor::ExtractionResult;
use crate::models::{ostr, Event, EventSource, EventView, Task, TaskPriority, TaskSource};
use crate::text::{chars_of, copy_string, is_text, trim, trim_bounds};
use crate::time::valid_time;
use vstd::prelude::*;
use vstd::string::StringSliceAdditionalSpecFns;
use vstd::utf8::{decode_utf8, encode_utf8, is_char_boundary};

verus! {

/// A newly found event that overlaps an event already in the calendar.
#[derive(Debug)]
pub struct PreviewConflict {
    /// Id of the newly found event.
    pub event_id: String,
    pub existing_title: String,
    pub existing_start: i64,
}

impl View for PreviewConflict {
    type V = (Seq<char>, Seq<char>, i64);

    open spec fn view(&self) -> (Seq<char>, Seq<char>, i64) {
        (self.event_id@, self.existing_title@, self.existing_start)
    }
}

/// The extraction with its events' lengths filled in, and its collisions.
#[derive(Debug)]
pub struct ExtractionPreview {
    pub result: ExtractionResult,
    pub conflicts: Vec<PreviewConflict>,
}

/// The default length in minutes, kept within 5 minutes and a day.
pub open spec fn clamped_minutes(m: int) -> int {
    if m < 5 {
        5
    } else if m > 1440 {
        1440
    } else {
        m
    }
}

/// The event with `end` as its end.
pub open spec fn with_end(e: EventView, end: Option<i64>) -> EventView {
    EventView {
        id: e.id,
        title: e.title,
        description: e.description,
        start: e.start,
        end: end,
        all_day: e.all_day,
        location: e.location,
        source: e.source,
        calendar_id: e.calendar_id,
        external_uid: e.external_uid,
        status: e.status,
        recurrence: e.recurrence,
        linked_task_ids: e.linked_task_ids,
        linked_doc_ids: e.linked_doc_ids,
        tags: e.tags,
        created_at: e.created_at,
        updated_at: e.updated_at,
    }
}

/// A timed event without an end gets `length` seconds.
pub open spec fn with_length(e: EventView, length: int) -> EventView {
    if e.end is None && !e.all_day {
        with_end(e, Some((e.start + length) as i64))
    } else {
        e
    }
}

/// The collisions of one new event, in calendar order.
pub open spec fn conflicts_of(new: EventView, calendar: Seq<EventView>) -> Seq<(Seq<char>, Seq<char>, i64)>
    decreases calendar.len(),
{
    if calendar.len() == 0 {
        seq![]
    } else {
        let prev = conflicts_of(new, calendar.drop_last());
        let old = calendar.last();
        if new.overlaps(old) {
            prev.push((new.id, old.title, old.start))
        } else {
            prev
        }
    }
}

/// The collisions of every new event with the calendar, new event by new event.
pub open spec fn preview_conflicts(news: Seq<EventView>, calendar: Seq<EventView>) -> Seq<(Seq<char>, Seq<char>, i64)>
    decreases news.len(),
{
    if news.len() == 0 {
        seq![]
    } else {
        preview_conflicts(news.drop_last(), calendar) + conflicts_of(news.last(), calendar)
    }
}

pub open spec fn lengthened(es: Seq<EventView>, length: int) -> Seq<EventView> {
    es.map_values(|e: EventView| with_length(e, length))
}

/// Every event's times can be held by a date-time, also once a timed event without
/// an end gets `length` seconds.
pub open spec fn times_ok(es: Seq<EventView>, length: int) -> bool {
    forall|i: int|
        0 <= i < es.len() ==> (#[trigger] es[i]).wf() && (es[i].end is None && !es[i].all_day ==> valid_time(
            es[i].start + length,
        ))
}

pub open spec fn all_wf(es: Seq<EventView>) -> bool {
    forall|i: int| 0 <= i < es.len() ==> (#[trigger] es[i]).wf()
}

/// Whether the new events can be previewed: their times can be held by a date-time,
/// also once a timed event without an end gets the default length.
pub fn new_events_times_ok(events: &[Event], default_minutes: u32) -> (b: bool)
    ensures
        b == times_ok(event_views(events@), clamped_minutes(default_minutes as int) * 60),
{
    let minutes: i64 = if default_minutes < 5 {
        5
    } else if default_minutes > 1440 {
        1440
    } else {
        default_minutes as i64
    };
    let length = minutes * 60;
    let ghost es = event_views(events@);
    let mut i: usize = 0;
    while i < events.len()
        invariant
            i <= events@.len(),
            es == event_views(events@),
            length == clamped_minutes(default_minutes as int) * 60,
            0 < length <= 86400,
            forall|j: int|
                0 <= j < i ==> (#[trigger] es[j]).wf() && (es[j].end is None && !es[j].all_day ==> valid_time(
                    es[j].start + length,
                )),
        decreases events@.len() - i,
    {
        let e = &events[i];
        assert(es[i as int] == e@);
        if !e.times_ok() {
            return false;
        }
        if e.end.is_none() && !e.all_day && e.start > crate::time::MAX_TIME - length {
            return false;
        }
        i += 1;
    }
    true
}

/// Events without an end get the default length from the settings, so that the
/// collision check and the saved event agree on how long it lasts; then each new
/// event is checked against the calendar.
pub fn preview(result: ExtractionResult, calendar: &Vec<Event>, default_minutes: u32) -> (p: ExtractionPreview)
    requires
        times_ok(event_views(result.events@), clamped_minutes(default_minutes as int) * 60),
        all_wf(event_views(calendar@)),
    ensures
        event_views(p.result.events@) == lengthened(
            event_views(result.events@),
            clamped_minutes(default_minutes as int) * 60,
        ),
        p.result.tasks@ == result.tasks@,
        p.result.source_text@ == result.source_text@,
        p.conflicts@.map_values(|c: PreviewConflict| c@) == preview_conflicts(
            event_views(p.result.events@),
            event_views(calendar@),
        ),
{
    let ghost before = event_views(result.events@);
    let ghost length = clamped_minutes(default_minutes as int) * 60;
    let minutes: i64 = if default_minutes < 5 {
        5
    } else if default_minutes > 1440 {
        1440
    } else {
        default_minutes as i64
    };
    let secs = minutes * 60;
    let mut events = result.events;
    let mut i: usize = 0;
    while i < events.len()
        invariant
            i <= events@.len() == before.len(),
            secs == length,
            times_ok(before, length),
            forall|j: int| 0 <= j < i ==> (#[trigger] events@[j])@ == with_length(before[j], length),
            forall|j: int| i <= j < events@.len() ==> (#[trigger] events@[j])@ == before[j],
        decreases events@.len() - i,
    {
        assert(before[i as int] == events@[i as int]@);
        if events[i].end.is_none() && !events[i].all_day {
            let mut e = events[i].duplicate();
            e.end = Some(e.start + secs);
            events.set(i, e);
        }
        i += 1;
    }
    let ghost news = event_views(events@);
    assert(news =~= lengthened(before, length));
    let ghost cal = event_views(calendar@);
    let mut conflicts: Vec<PreviewConflict> = Vec::new();
    let mut k: usize = 0;
    while k < events.len()
        invariant
            k <= events@.len() == before.len(),
            news == event_views(events@),
            cal == event_views(calendar@),
            all_wf(cal),
            news == lengthened(before, length),
            times_ok(before, length),
            conflicts@.map_values(|c: PreviewConflict| c@) == preview_conflicts(news.take(k as int), cal),
        decreases events@.len() - k,
    {
        assert(news.take(k + 1).drop_last() =~= news.take(k as int));
        proof {
            let b = before[k as int];
            assert(b.wf());
            assert(news[k as int] == with_length(b, length));
            if b.end is None && !b.all_day {
                assert(valid_time(b.start + length));
                assert(((b.start + length) as i64) as int == b.start + length);
            }
        }
        assert(news[k as int].wf());
        let ghost base = conflicts@.map_values(|c: PreviewConflict| c@);
        let mut m: usize = 0;
        while m < calendar.len()
            invariant
                k < events@.len(),
                m <= calendar@.len(),
                news == event_views(events@),
                cal == event_views(calendar@),
                all_wf(cal),
                news[k as int].wf(),
                conflicts@.map_values(|c: PreviewConflict| c@) == base + conflicts_of(news[k as int], cal.take(m as int)),
            decreases calendar@.len() - m,
        {
            assert(cal.take(m + 1).drop_last() =~= cal.take(m as int));
            assert(cal[m as int].wf());
            let ghost mid = conflicts@.map_values(|c: PreviewConflict| c@);
            if events[k].overlaps(&calendar[m]) {
                conflicts.push(
                    PreviewConflict {
                        event_id: copy_string(&events[k].id),
                        existing_title: copy_string(&calendar[m].title),
                        existing_start: calendar[m].start,
                    },
                );
                assert(conflicts@.map_values(|c: PreviewConflict| c@) =~= mid.push(
                    (news[k as int].id, cal[m as int].title, cal[m as int].start),
                ));
            }
            m += 1;
        }
        assert(cal.take(cal.len() as int) =~= cal);
        k += 1;
    }
    assert(news.take(news.len() as int) =~= news);
    ExtractionPreview {
        result: ExtractionResult { events, tasks: result.tasks, source_text: result.source_text },
        conflicts,
    }
}

// ---------------------------------------------------------------- the model's answer

/// The first position from `k` on that holds byte `x`.
pub open spec fn first_byte_from(b: Seq<u8>, x: u8, k: int) -> Option<int>
    decreases b.len() - k,
{
    if k < 0 || k >= b.len() {
        None
    } else if b[k] == x {
        Some(k)
    } else {
        first_byte_from(b, x, k + 1)
    }
}

/// The last position before `k` that holds byte `x`.
pub open spec fn last_byte_before(b: Seq<u8>, x: u8, k: int) -> Option<int>
    decreases k,
{
    if k <= 0 || k > b.len() {
        None
    } else if b[k - 1] == x {
        Some(k - 1)
    } else {
        last_byte_before(b, x, k - 1)
    }
}

/// The JSON object inside an answer that may carry prose or a code fence around it:
/// from the first `{` to the last `}`; from the start, or to the end, where there is
/// none; empty when the last `}` comes before the first `{`.
pub open spec fn spec_json_object(answer: Seq<char>) -> Seq<char> {
    let b = encode_utf8(answer);
    let start = match first_byte_from(b, 123u8, 0) {
        Some(i) => i,
        None => 0,
    };
    let end = match last_byte_before(b, 125u8, b.len() as int) {
        Some(i) => i + 1,
        None => b.len() as int,
    };
    decode_utf8(b.subrange(start, if end > start {
        end
    } else {
        start
    }))
}

/// An ASCII byte in UTF-8 text starts a character.
proof fn lemma_ascii_boundary(b: Seq<u8>, i: int)
    requires
        vstd::utf8::valid_utf8(b),
        0 <= i < b.len(),
        b[i] < 0x80,
    ensures
        is_char_boundary(b, i),
{
    vstd::utf8::is_char_boundary_iff_not_is_continuation_byte(b, i);
}

/// The JSON object inside an answer that may carry prose or a code fence around it.
pub fn json_object(answer: &str) -> (r: &str)
    ensures
        r@ == spec_json_object(answer@),
{
    let bytes = answer.as_bytes();
    let ghost b = answer.spec_bytes();
    proof {
        vstd::utf8::encode_utf8_valid_utf8(answer@);
        vstd::utf8::is_char_boundary_start_end_of_seq(b);
    }
    let n = bytes.len();
    let mut i: usize = 0;
    while i < n && bytes[i] != 123u8
        invariant
            i <= n == b.len(),
            bytes@ == b,
            first_byte_from(b, 123u8, 0) == first_byte_from(b, 123u8, i as int),
        decreases n - i,
    {
        i += 1;
    }
    let start = if i < n {
        i
    } else {
        0
    };
    let mut j: usize = n;
    while j > 0 && bytes[j - 1] != 125u8
        invariant
            j <= n == b.len(),
            bytes@ == b,
            last_byte_before(b, 125u8, n as int) == last_byte_before(b, 125u8, j as int),
        decreases j,
    {
        j -= 1;
    }
    let end = if j > 0 {
        j
    } else {
        n
    };
    let stop = if end > start {
        end
    } else {
        start
    };
    proof {
        if i < n {
            lemma_ascii_boundary(b, i as int);
        }
        if 0 < j < n {
            lemma_after_ascii(b, j as int);
        }
    }
    let (_, rest) = answer.split_at(start);
    proof {
        vstd::utf8::encode_utf8_valid_utf8(rest@);
        lemma_boundary_after(b, start as int, stop as int);
    }
    let (mid, _) = rest.split_at(stop - start);
    proof {
        assert(mid.spec_bytes() =~= b.subrange(start as int, stop as int));
        vstd::utf8::encode_utf8_decode_utf8(mid@);
    }
    mid
}

/// The byte after an ASCII byte starts a character.
proof fn lemma_after_ascii(b: Seq<u8>, j: int)
    requires
        vstd::utf8::valid_utf8(b),
        0 < j < b.len(),
        b[j - 1] < 0x80,
    ensures
        is_char_boundary(b, j),
{
    vstd::utf8::is_char_boundary_iff_not_is_continuation_byte(b, j - 1);
    vstd::utf8::valid_utf8_split(b, j - 1);
    let s = b.subrange(j - 1, b.len() as int);
    assert(s[0] == b[j - 1]);
    assert(vstd::utf8::length_of_first_scalar(s) == 1);
    assert(vstd::utf8::pop_first_scalar(s) =~= b.subrange(j, b.len() as int));
    assert(is_char_boundary(s, 1)) by {
        reveal_with_fuel(is_char_boundary, 2);
    }
    vstd::utf8::is_char_boundary_iff_not_is_continuation_byte(s, 1);
    assert(s[1] == b[j]);
    vstd::utf8::is_char_boundary_iff_not_is_continuation_byte(b, j);
}

/// A boundary of a text is a boundary of the part after an earlier boundary.
proof fn lemma_boundary_after(b: Seq<u8>, from: int, to: int)
    requires
        vstd::utf8::valid_utf8(b),
        vstd::utf8::valid_utf8(b.subrange(from, b.len() as int)),
        0 <= from <= to <= b.len(),
        is_char_boundary(b, to),
    ensures
        is_char_boundary(b.subrange(from, b.len() as int), to - from),
{
    let s = b.subrange(from, b.len() as int);
    vstd::utf8::is_char_boundary_start_end_of_seq(s);
    if 0 < to - from < s.len() {
        vstd::utf8::is_char_boundary_iff_not_is_continuation_byte(b, to);
        vstd::utf8::is_char_boundary_iff_not_is_continuation_byte(s, to - from);
        assert(s[to - from] == b[to]);
    }
}

/// An event as the model describes it; everything but the title and the start is
/// optional.
#[derive(Debug)]
pub struct ModelEvent {
    pub title: String,
    /// Seconds since 1970-01-01 UTC.
    pub start: i64,
    pub duration_minutes: Option<i64>,
    pub location: Option<String>,
}

/// A task as the model describes it.
#[derive(Debug)]
pub struct ModelTask {
    pub title: String,
    pub due_date: Option<i64>,
    pub priority: Option<String>,
}

/// What the model is asked to return.
#[derive(Debug)]
pub struct ModelAnswer {
    pub events: Vec<ModelEvent>,
    pub tasks: Vec<ModelTask>,
}

/// A duration kept within 5 minutes and a day.
pub open spec fn clamped_duration(d: int) -> int {
    if d < 5 {
        5
    } else if d > 1440 {
        1440
    } else {
        d
    }
}

/// The place the model names, unless it is blank or the placeholder "...".
pub open spec fn model_place(l: Option<Seq<char>>) -> Option<Seq<char>> {
    match l {
        Some(p) => if trim(p).len() > 0 && p != "..."@ {
            Some(p)
        } else {
            None
        },
        None => None,
    }
}

/// The priority a model names: "low", "high", "critical", else medium.
pub open spec fn model_priority(p: Option<Seq<char>>) -> TaskPriority {
    match p {
        Some(s) => if s == "low"@ {
            TaskPriority::Low
        } else if s == "high"@ {
            TaskPriority::High
        } else if s == "critical"@ {
            TaskPriority::Critical
        } else {
            TaskPriority::Medium
        },
        None => TaskPriority::Medium,
    }
}

/// The model's times can be held by a date-time, the end after the duration too.
pub open spec fn model_event_ok(m: ModelEvent) -> bool {
    &&& valid_time(m.start as int)
    &&& m.duration_minutes matches Some(d) ==> valid_time(m.start + clamped_duration(d as int) * 60)
}

/// The event is a new, extracted event with the model's title, start, length and
/// place.
pub open spec fn from_model_event(e: EventView, m: ModelEvent) -> bool {
    &&& e.title == m.title@
    &&& e.start == m.start
    &&& e.end == match m.duration_minutes {
        Some(d) => Some((m.start + clamped_duration(d as int) * 60) as i64),
        None => None,
    }
    &&& e.location == model_place(ostr(m.location))
    &&& e.source == EventSource::Extracted
    &&& e.id.len() == 36
    &&& e.description is None
    &&& !e.all_day
    &&& e.calendar_id is None
    &&& e.external_uid is None
    &&& e.status == crate::models::EventStatus::Confirmed
    &&& e.recurrence is None
    &&& e.linked_task_ids.len() == 0
    &&& e.linked_doc_ids.len() == 0
    &&& e.tags.len() == 0
    &&& e.created_at == e.updated_at
    &&& valid_time(e.created_at as int)
}

/// The task is a new, extracted task with the model's title, due date and priority.
pub open spec fn from_model_task(t: crate::models::TaskView, m: ModelTask) -> bool {
    &&& t.title == m.title@
    &&& t.due_date == m.due_date
    &&& t.priority == model_priority(ostr(m.priority))
    &&& t.source == TaskSource::Extracted
    &&& t.id.len() == 36
    &&& t.description is None
    &&& t.energy_level == crate::models::EnergyLevel::Medium
    &&& t.status == crate::models::TaskStatus::Todo
    &&& t.project_id is None
    &&& t.estimated_minutes is None
    &&& t.linked_event_ids.len() == 0
    &&& t.tags.len() == 0
    &&& t.created_at == t.updated_at
    &&& valid_time(t.created_at as int)
}

/// An event from the model's answer, with an id.
pub fn event_from_model(m: ModelEvent) -> (e: Event)
    requires
        model_event_ok(m),
    ensures
        from_model_event(e@, m),
{
    let ghost mv = m;
    let mut event = Event::new(m.title, m.start);
    event.end = match m.duration_minutes {
        Some(d) => {
            let c: i64 = if d < 5 {
                5
            } else if d > 1440 {
                1440
            } else {
                d
            };
            Some(m.start + c * 60)
        },
        None => None,
    };
    event.location = match m.location {
        Some(l) => {
            let v = chars_of(l.as_str());
            let (lo, hi) = trim_bounds(v.as_slice(), 0, v.len());
            assert(v@.subrange(0, v@.len() as int) =~= v@);
            if hi > lo && !is_text(v.as_slice(), "...") {
                Some(l)
            } else {
                None
            }
        },
        None => None,
    };
    event.source = EventSource::Extracted;
    event
}

fn model_priority_of(p: &Option<String>) -> (r: TaskPriority)
    ensures
        r == model_priority(ostr(*p)),
{
    match p {
        Some(s) => {
            let v = chars_of(s.as_str());
            if is_text(v.as_slice(), "low") {
                TaskPriority::Low
            } else if is_text(v.as_slice(), "high") {
                TaskPriority::High
            } else if is_text(v.as_slice(), "critical") {
                TaskPriority::Critical
            } else {
                TaskPriority::Medium
            }
        },
        None => TaskPriority::Medium,
    }
}

/// A task from the model's answer, with an id.
pub fn task_from_model(m: ModelTask) -> (t: Task)
    ensures
        from_model_task(t@, m),
{
    let priority = model_priority_of(&m.priority);
    let mut task = Task::new(m.title);
    task.due_date = m.due_date;
    task.priority = priority;
    task.source = TaskSource::Extracted;
    task
}

/// The model's answer as events and tasks with ids, so that they can be previewed
/// and saved like any other extraction.
pub fn extraction_from_model(answer: ModelAnswer, source_text: &str) -> (r: ExtractionResult)
    requires
        forall|i: int| 0 <= i < answer.events@.len() ==> model_event_ok(#[trigger] answer.events@[i]),
    ensures
        r.events@.len() == answer.events@.len(),
        forall|i: int| 0 <= i < r.events@.len() ==> from_model_event(#[trigger] r.events@[i]@, answer.events@[i]),
        r.tasks@.len() == answer.tasks@.len(),
        forall|i: int| 0 <= i < r.tasks@.len() ==> from_model_task(#[trigger] r.tasks@[i]@, answer.tasks@[i]),
        r.source_text@ == source_text@,
{
    let ghost evs = answer.events@;
    let ghost tks = answer.tasks@;
    let mut model_events = answer.events;
    let mut model_tasks = answer.tasks;
    let mut events: Vec<Event> = Vec::new();
    let mut tasks: Vec<Task> = Vec::new();
    assert(model_events@ =~= evs.skip(0));
    assert(model_tasks@ =~= tks.skip(0));
    while model_events.len() > 0
        invariant
            events@.len() + model_events@.len() == evs.len(),
            model_events@ == evs.skip(events@.len() as int),
            forall|i: int| 0 <= i < events@.len() ==> from_model_event(#[trigger] events@[i]@, evs[i]),
            forall|i: int| 0 <= i < evs.len() ==> model_event_ok(#[trigger] evs[i]),
        decreases model_events@.len(),
    {
        let m = model_events.remove(0);
        assert(m == evs[events@.len() as int]);
        assert(model_events@ =~= evs.skip(events@.len() as int + 1));
        events.push(event_from_model(m));
    }
    while model_tasks.len() > 0
        invariant
            tasks@.len() + model_tasks@.len() == tks.len(),
            model_tasks@ == tks.skip(tasks@.len() as int),
            forall|i: int| 0 <= i < tasks@.len() ==> from_model_task(#[trigger] tasks@[i]@, tks[i]),
        decreases model_tasks@.len(),
    {
        let m = model_tasks.remove(0);
        assert(m == tks[tasks@.len() as int]);
        assert(model_tasks@ =~= tks.skip(tasks@.len() as int + 1));
        tasks.push(task_from_model(m));
    }
    ExtractionResult { events, tasks, source_text: source_text.to_owned() }
}

// ---------------------------------------------------------------- laws

/// `c` flags the new event `new` against an event of `calendar` that it overlaps.
pub open spec fn flags_against(c: (Seq<char>, Seq<char>, i64), new: EventView, calendar: Seq<EventView>) -> bool {
    exists|j: int|
        0 <= j < calendar.len() && new.overlaps(#[trigger] calendar[j]) && c == (new.id, calendar[j].title, calendar[j].start)
}

/// `c` flags one of the new events against an event of `calendar` that it overlaps.
pub open spec fn flags_overlap(c: (Seq<char>, Seq<char>, i64), news: Seq<EventView>, calendar: Seq<EventView>) -> bool {
    exists|i: int| 0 <= i < news.len() && flags_against(c, #[trigger] news[i], calendar)
}

proof fn lemma_conflicts_of(new: EventView, calendar: Seq<EventView>)
    ensures
        forall|k: int|
            0 <= k < conflicts_of(new, calendar).len() ==> flags_against(#[trigger] conflicts_of(new, calendar)[k], new, calendar),
        forall|j: int|
            0 <= j < calendar.len() && new.overlaps(#[trigger] calendar[j]) ==> conflicts_of(new, calendar).contains(
                (new.id, calendar[j].title, calendar[j].start),
            ),
    decreases calendar.len(),
{
    if calendar.len() > 0 {
        let rest = calendar.drop_last();
        lemma_conflicts_of(new, rest);
        let prev = conflicts_of(new, rest);
        let cur = conflicts_of(new, calendar);
        let last = calendar.len() - 1;
        assert forall|k: int| 0 <= k < cur.len() implies flags_against(#[trigger] cur[k], new, calendar) by {
            if k < prev.len() {
                assert(cur[k] == prev[k]);
                assert(flags_against(prev[k], new, rest));
                let j = choose|j: int|
                    0 <= j < rest.len() && new.overlaps(#[trigger] rest[j]) && prev[k] == (new.id, rest[j].title, rest[j].start);
                assert(calendar[j] == rest[j]);
            } else {
                assert(new.overlaps(calendar[last]));
                assert(cur[k] == (new.id, calendar[last].title, calendar[last].start));
            }
        }
        assert forall|j: int| 0 <= j < calendar.len() && new.overlaps(#[trigger] calendar[j]) implies cur.contains(
            (new.id, calendar[j].title, calendar[j].start),
        ) by {
            if j < last {
                assert(rest[j] == calendar[j]);
                let k = choose|k: int| 0 <= k < prev.len() && prev[k] == (new.id, rest[j].title, rest[j].start);
                assert(cur[k] == prev[k]);
            } else {
                assert(cur[cur.len() - 1] == (new.id, calendar[j].title, calendar[j].start));
            }
        }
    }
}

/// The preview flags exactly the collisions: each conflict names a new event and an
/// event of the calendar that overlap, and every such overlapping pair is flagged.
pub proof fn law_preview_flags_exactly_the_overlaps(news: Seq<EventView>, calendar: Seq<EventView>)
    ensures
        forall|k: int|
            0 <= k < preview_conflicts(news, calendar).len() ==> flags_overlap(
                #[trigger] preview_conflicts(news, calendar)[k],
                news,
                calendar,
            ),
        forall|i: int, j: int|
            0 <= i < news.len() && 0 <= j < calendar.len() && (#[trigger] news[i]).overlaps(#[trigger] calendar[j])
                ==> preview_conflicts(news, calendar).contains((news[i].id, calendar[j].title, calendar[j].start)),
    decreases news.len(),
{
    if news.len() > 0 {
        let rest = news.drop_last();
        let last = news.len() - 1;
        law_preview_flags_exactly_the_overlaps(rest, calendar);
        lemma_conflicts_of(news[last], calendar);
        let prev = preview_conflicts(rest, calendar);
        let mine = conflicts_of(news[last], calendar);
        let all = preview_conflicts(news, calendar);
        assert(all == prev + mine);
        assert forall|k: int| 0 <= k < all.len() implies flags_overlap(#[trigger] all[k], news, calendar) by {
            if k < prev.len() {
                assert(all[k] == prev[k]);
                assert(flags_overlap(prev[k], rest, calendar));
                let i = choose|i: int| 0 <= i < rest.len() && flags_against(prev[k], #[trigger] rest[i], calendar);
                assert(news[i] == rest[i]);
            } else {
                assert(all[k] == mine[k - prev.len()]);
                assert(flags_against(mine[k - prev.len()], news[last], calendar));
            }
        }
        assert forall|i: int, j: int|
            0 <= i < news.len() && 0 <= j < calendar.len() && (#[trigger] news[i]).overlaps(#[trigger] calendar[j])
                implies all.contains((news[i].id, calendar[j].title, calendar[j].start)) by {
            if i < last {
                assert(rest[i] == news[i]);
                assert(prev.contains((rest[i].id, calendar[j].title, calendar[j].start)));
                let k = choose|k: int| 0 <= k < prev.len() && prev[k] == (rest[i].id, calendar[j].title, calendar[j].start);
                assert(all[k] == prev[k]);
            } else {
                assert(mine.contains((news[i].id, calendar[j].title, calendar[j].start)));
                let k = choose|k: int| 0 <= k < mine.len() && mine[k] == (news[i].id, calendar[j].title, calendar[j].start);
                assert(all[prev.len() + k] == mine[k]);
            }
        }
    }
}

/// After the preview every timed event has an end, so that the collision check and
/// the saved event agree on how long it lasts; events that had one keep it.
pub proof fn law_previewed_events_have_an_end(es: Seq<EventView>, length: int)
    ensures
        forall|i: int| 0 <= i < es.len() && !es[i].all_day ==> (#[trigger] lengthened(es, length)[i]).end is Some,
        forall|i: int| 0 <= i < es.len() && (#[trigger] es[i]).end is Some ==> lengthened(es, length)[i] == es[i],
{
}

} // verus!
