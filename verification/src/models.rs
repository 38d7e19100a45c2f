//! Events, tasks, projects, documents, calendar accounts and settings.
use crate::text::copy_string;
use crate::time::{is_valid_time, utc_now, valid_time, MAX_TIME};
use vstd::prelude::*;

verus! {

/// The text of an optional string.
pub open spec fn ostr(o: Option<String>) -> Option<Seq<char>> {
    match o {
        Some(s) => Some(s@),
        None => None,
    }
}

/// The texts of a list of strings.
pub open spec fn strs(v: Vec<String>) -> Seq<Seq<char>> {
    v@.map_values(|s: String| s@)
}

pub fn copy_opt_string(o: &Option<String>) -> (r: Option<String>)
    ensures
        ostr(r) == ostr(*o),
{
    match o {
        Some(s) => Some(copy_string(s)),
        None => None,
    }
}

pub fn copy_strings(v: &Vec<String>) -> (r: Vec<String>)
    ensures
        strs(r) == strs(*v),
{
    let mut r: Vec<String> = Vec::new();
    let mut i: usize = 0;
    while i < v.len()
        invariant
            i <= v@.len(),
            r@.len() == i,
            forall|j: int| 0 <= j < i ==> (#[trigger] r@[j])@ == v@[j]@,
        decreases v@.len() - i,
    {
        r.push(copy_string(&v[i]));
        i += 1;
    }
    assert(strs(r) =~= strs(*v));
    r
}

/// A fresh random identifier (`uuid::Uuid::new_v4`, hyphenated). Claimed: the
/// hyphenated form is 36 characters long; which identifier comes back is left open.
#[verifier::external_body]
pub(crate) fn new_id() -> (id: String)
    ensures
        id@.len() == 36,
{
    uuid::Uuid::new_v4().to_string()
}

// ---------------------------------------------------------------- events

#[derive(Debug, Clone, Copy, PartialEq, Eq, Structural)]
pub enum EventSource {
    Manual,
    Extracted,
    IcsFile,
    CalDav,
}

#[derive(Debug, Clone, Copy, PartialEq, Eq, Structural)]
pub enum EventStatus {
    Tentative,
    Confirmed,
    Cancelled,
}

#[derive(Debug)]
pub struct RecurrenceRule {
    /// DAILY, WEEKLY, MONTHLY or YEARLY.
    pub freq: String,
    pub interval: u32,
    pub until: Option<i64>,
    pub count: Option<u32>,
    /// MO, TU, WE and so on.
    pub by_day: Vec<String>,
}

pub ghost struct RecurrenceRuleView {
    pub freq: Seq<char>,
    pub interval: u32,
    pub until: Option<i64>,
    pub count: Option<u32>,
    pub by_day: Seq<Seq<char>>,
}

impl View for RecurrenceRule {
    type V = RecurrenceRuleView;

    open spec fn view(&self) -> RecurrenceRuleView {
        RecurrenceRuleView {
            freq: self.freq@,
            interval: self.interval,
            until: self.until,
            count: self.count,
            by_day: strs(self.by_day),
        }
    }
}

impl RecurrenceRule {
    pub fn duplicate(&self) -> (r: RecurrenceRule)
        ensures
            r@ == self@,
    {
        RecurrenceRule {
            freq: copy_string(&self.freq),
            interval: self.interval,
            until: self.until,
            count: self.count,
            by_day: copy_strings(&self.by_day),
        }
    }
}

pub open spec fn orule(o: Option<RecurrenceRule>) -> Option<RecurrenceRuleView> {
    match o {
        Some(r) => Some(r@),
        None => None,
    }
}

/// A calendar entry. Times are seconds since 1970-01-01 UTC.
#[derive(Debug)]
pub struct Event {
    pub id: String,
    pub title: String,
    pub description: Option<String>,
    pub start: i64,
    pub end: Option<i64>,
    pub all_day: bool,
    pub location: Option<String>,
    pub source: EventSource,
    pub calendar_id: Option<String>,
    pub external_uid: Option<String>,
    pub status: EventStatus,
    pub recurrence: Option<RecurrenceRule>,
    pub linked_task_ids: Vec<String>,
    pub linked_doc_ids: Vec<String>,
    pub tags: Vec<String>,
    pub created_at: i64,
    pub updated_at: i64,
}

pub ghost struct EventView {
    pub id: Seq<char>,
    pub title: Seq<char>,
    pub description: Option<Seq<char>>,
    pub start: i64,
    pub end: Option<i64>,
    pub all_day: bool,
    pub location: Option<Seq<char>>,
    pub source: EventSource,
    pub calendar_id: Option<Seq<char>>,
    pub external_uid: Option<Seq<char>>,
    pub status: EventStatus,
    pub recurrence: Option<RecurrenceRuleView>,
    pub linked_task_ids: Seq<Seq<char>>,
    pub linked_doc_ids: Seq<Seq<char>>,
    pub tags: Seq<Seq<char>>,
    pub created_at: i64,
    pub updated_at: i64,
}

impl View for Event {
    type V = EventView;

    open spec fn view(&self) -> EventView {
        EventView {
            id: self.id@,
            title: self.title@,
            description: ostr(self.description),
            start: self.start,
            end: self.end,
            all_day: self.all_day,
            location: ostr(self.location),
            source: self.source,
            calendar_id: ostr(self.calendar_id),
            external_uid: ostr(self.external_uid),
            status: self.status,
            recurrence: orule(self.recurrence),
            linked_task_ids: strs(self.linked_task_ids),
            linked_doc_ids: strs(self.linked_doc_ids),
            tags: strs(self.tags),
            created_at: self.created_at,
            updated_at: self.updated_at,
        }
    }
}

impl EventView {
    /// Where the event ends: its end, or one hour after its start when it has none.
    pub open spec fn effective_end(self) -> int {
        match self.end {
            Some(e) => e as int,
            None => self.start + 3600,
        }
    }

    /// Every time in the event is one a date-time can hold, the hour after an
    /// open-ended start included.
    pub open spec fn wf(self) -> bool {
        &&& valid_time(self.start as int)
        &&& valid_time(self.effective_end())
        &&& valid_time(self.created_at as int)
        &&& valid_time(self.updated_at as int)
    }

    /// The two events share some moment.
    pub open spec fn overlaps(self, other: EventView) -> bool {
        self.start < other.effective_end() && other.start < self.effective_end()
    }
}

/// Whole minutes from `a` to `b`, rounded toward zero.
pub open spec fn minutes_between(a: int, b: int) -> int {
    if b >= a {
        (b - a) / 60
    } else {
        -((a - b) / 60)
    }
}

pub fn minutes_between_exec(a: i64, b: i64) -> (r: i64)
    requires
        valid_time(a as int),
        valid_time(b as int),
    ensures
        r as int == minutes_between(a as int, b as int),
{
    if b >= a {
        (b - a) / 60
    } else {
        -((a - b) / 60)
    }
}

impl Event {
    /// A confirmed, manually entered event at `start` with a fresh id.
    pub fn new(title: String, start: i64) -> (e: Event)
        ensures
            e@.id.len() == 36,
            e@.title == title@,
            e@.description is None,
            e@.start == start,
            e@.end is None,
            !e@.all_day,
            e@.location is None,
            e@.source == EventSource::Manual,
            e@.calendar_id is None,
            e@.external_uid is None,
            e@.status == EventStatus::Confirmed,
            e@.recurrence is None,
            e@.linked_task_ids.len() == 0,
            e@.linked_doc_ids.len() == 0,
            e@.tags.len() == 0,
            e@.created_at == e@.updated_at,
            valid_time(e@.created_at as int),
    {
        let now = utc_now();
        let e = Event {
            id: new_id(),
            title,
            description: None,
            start,
            end: None,
            all_day: false,
            location: None,
            source: EventSource::Manual,
            calendar_id: None,
            external_uid: None,
            status: EventStatus::Confirmed,
            recurrence: None,
            linked_task_ids: Vec::new(),
            linked_doc_ids: Vec::new(),
            tags: Vec::new(),
            created_at: now,
            updated_at: now,
        };
        assert(strs(e.tags) =~= Seq::<Seq<char>>::empty());
        assert(strs(e.linked_task_ids) =~= Seq::<Seq<char>>::empty());
        assert(strs(e.linked_doc_ids) =~= Seq::<Seq<char>>::empty());
        e
    }

    /// A copy of the event.
    pub fn duplicate(&self) -> (r: Event)
        ensures
            r@ == self@,
    {
        let recurrence = match &self.recurrence {
            Some(rule) => Some(rule.duplicate()),
            None => None,
        };
        Event {
            id: copy_string(&self.id),
            title: copy_string(&self.title),
            description: copy_opt_string(&self.description),
            start: self.start,
            end: self.end,
            all_day: self.all_day,
            location: copy_opt_string(&self.location),
            source: self.source,
            calendar_id: copy_opt_string(&self.calendar_id),
            external_uid: copy_opt_string(&self.external_uid),
            status: self.status,
            recurrence,
            linked_task_ids: copy_strings(&self.linked_task_ids),
            linked_doc_ids: copy_strings(&self.linked_doc_ids),
            tags: copy_strings(&self.tags),
            created_at: self.created_at,
            updated_at: self.updated_at,
        }
    }

    /// Length in whole minutes (rounded toward zero), when the event has an end.
    pub fn duration_minutes(&self) -> (r: Option<i64>)
        requires
            self@.wf(),
        ensures
            r matches Some(m) ==> self.end matches Some(e) && m as int == minutes_between(self.start as int, e as int),
            r is None <==> self.end is None,
    {
        match self.end {
            Some(end) => Some(minutes_between_exec(self.start, end)),
            None => None,
        }
    }

    /// Every time in the event is one a date-time can hold, the hour after an
    /// open-ended start included.
    pub fn times_ok(&self) -> (b: bool)
        ensures
            b == self@.wf(),
    {
        let end_ok = match self.end {
            Some(end) => is_valid_time(end),
            None => self.start <= MAX_TIME - 3600,
        };
        is_valid_time(self.start) && end_ok && is_valid_time(self.created_at) && is_valid_time(self.updated_at)
    }

    /// Where the event ends: its end, or one hour after its start.
    pub fn effective_end(&self) -> (r: i64)
        requires
            self@.wf(),
        ensures
            r as int == self@.effective_end(),
    {
        match self.end {
            Some(end) => end,
            None => self.start + 3600,
        }
    }

    /// The two events share some moment; one without an end lasts an hour.
    pub fn overlaps(&self, other: &Event) -> (b: bool)
        requires
            self@.wf(),
            other@.wf(),
        ensures
            b == self@.overlaps(other@),
    {
        let self_end = self.effective_end();
        let other_end = other.effective_end();
        self.start < other_end && other.start < self_end
    }
}

// ---------------------------------------------------------------- tasks

#[derive(Debug, Clone, Copy, PartialEq, Eq, Structural, PartialOrd, Ord)]
pub enum TaskPriority {
    Someday,
    Low,
    Medium,
    High,
    Critical,
}

pub open spec fn priority_score(p: TaskPriority) -> u8 {
    match p {
        TaskPriority::Critical => 5,
        TaskPriority::High => 4,
        TaskPriority::Medium => 3,
        TaskPriority::Low => 2,
        TaskPriority::Someday => 1,
    }
}

impl TaskPriority {
    /// 5 for critical down to 1 for someday.
    pub fn score(&self) -> (r: u8)
        ensures
            r == priority_score(*self),
    {
        match self {
            TaskPriority::Critical => 5,
            TaskPriority::High => 4,
            TaskPriority::Medium => 3,
            TaskPriority::Low => 2,
            TaskPriority::Someday => 1,
        }
    }

    /// The German name shown to the user.
    pub fn label(&self) -> (r: &'static str)
        ensures
            r@ == match self {
                TaskPriority::Critical => "Kritisch"@,
                TaskPriority::High => "Hoch"@,
                TaskPriority::Medium => "Mittel"@,
                TaskPriority::Low => "Niedrig"@,
                TaskPriority::Someday => "Irgendwann"@,
            },
    {
        match self {
            TaskPriority::Critical => "Kritisch",
            TaskPriority::High => "Hoch",
            TaskPriority::Medium => "Mittel",
            TaskPriority::Low => "Niedrig",
            TaskPriority::Someday => "Irgendwann",
        }
    }
}

#[derive(Debug, Clone, Copy, PartialEq, Eq, Structural)]
pub enum EnergyLevel {
    /// Deep work, complex analysis, writing.
    High,
    /// Meetings, creative tasks, learning.
    Medium,
    /// Admin, email, routine tasks.
    Low,
}

impl EnergyLevel {
    /// The German name shown to the user.
    pub fn label(&self) -> (r: &'static str)
        ensures
            r@ == match self {
                EnergyLevel::High => "Fokus"@,
                EnergyLevel::Medium => "Kreativ"@,
                EnergyLevel::Low => "Routine"@,
            },
    {
        match self {
            EnergyLevel::High => "Fokus",
            EnergyLevel::Medium => "Kreativ",
            EnergyLevel::Low => "Routine",
        }
    }
}

#[derive(Debug, Clone, Copy, PartialEq, Eq, Structural)]
pub enum TaskStatus {
    Todo,
    InProgress,
    Done,
    Cancelled,
}

#[derive(Debug, Clone, Copy, PartialEq, Eq, Structural)]
pub enum TaskSource {
    Manual,
    Extracted,
    CalDav,
}

#[derive(Debug)]
pub struct Task {
    pub id: String,
    pub title: String,
    pub description: Option<String>,
    pub due_date: Option<i64>,
    pub priority: TaskPriority,
    pub energy_level: EnergyLevel,
    pub status: TaskStatus,
    pub project_id: Option<String>,
    pub estimated_minutes: Option<u32>,
    pub linked_event_ids: Vec<String>,
    pub tags: Vec<String>,
    pub source: TaskSource,
    pub created_at: i64,
    pub updated_at: i64,
}

pub ghost struct TaskView {
    pub id: Seq<char>,
    pub title: Seq<char>,
    pub description: Option<Seq<char>>,
    pub due_date: Option<i64>,
    pub priority: TaskPriority,
    pub energy_level: EnergyLevel,
    pub status: TaskStatus,
    pub project_id: Option<Seq<char>>,
    pub estimated_minutes: Option<u32>,
    pub linked_event_ids: Seq<Seq<char>>,
    pub tags: Seq<Seq<char>>,
    pub source: TaskSource,
    pub created_at: i64,
    pub updated_at: i64,
}

impl View for Task {
    type V = TaskView;

    open spec fn view(&self) -> TaskView {
        TaskView {
            id: self.id@,
            title: self.title@,
            description: ostr(self.description),
            due_date: self.due_date,
            priority: self.priority,
            energy_level: self.energy_level,
            status: self.status,
            project_id: ostr(self.project_id),
            estimated_minutes: self.estimated_minutes,
            linked_event_ids: strs(self.linked_event_ids),
            tags: strs(self.tags),
            source: self.source,
            created_at: self.created_at,
            updated_at: self.updated_at,
        }
    }
}

impl TaskView {
    /// Every time in the task is one a date-time can hold.
    pub open spec fn wf(self) -> bool {
        &&& (self.due_date matches Some(d) ==> valid_time(d as int))
        &&& valid_time(self.created_at as int)
        &&& valid_time(self.updated_at as int)
    }

    /// Still to do and due before `now`.
    pub open spec fn overdue_at(self, now: int) -> bool {
        &&& self.due_date matches Some(d) && d < now
        &&& self.status == TaskStatus::Todo
    }

    /// Urgency in half points: twice the priority score, plus 6 when overdue by an
    /// hour or more, 5 when due within a day, 3 within three days, 1 within a week.
    pub open spec fn urgency_half_points(self, now: int) -> int {
        2 * priority_score(self.priority) + match self.due_date {
            Some(d) => {
                let left = d - now;
                if left <= -3600 {
                    6int
                } else if left < 24 * 3600 {
                    5int
                } else if left < 72 * 3600 {
                    3int
                } else if left < 168 * 3600 {
                    1int
                } else {
                    0int
                }
            },
            None => 0int,
        }
    }
}

/// Urgency follows the due date and the priority: of two tasks of one priority, the
/// one due earlier is at least as urgent; a due date never makes a task less urgent
/// than the same task without one; a higher priority is more urgent at the same due
/// date; and over twice its priority score a task gets 6 half points when overdue
/// by an hour or more, 5 when due within the next day, 3 within three days, 1 within
/// a week, and none later or without a due date.
pub proof fn law_urgency_follows_due_date_and_priority(a: TaskView, b: TaskView, now: int)
    ensures
        a.priority == b.priority && a.due_date is Some && b.due_date is Some && a.due_date.unwrap() <= b.due_date.unwrap()
            ==> a.urgency_half_points(now) >= b.urgency_half_points(now),
        a.priority == b.priority && a.due_date is Some && b.due_date is None ==> a.urgency_half_points(now)
            >= b.urgency_half_points(now),
        a.due_date == b.due_date && priority_score(a.priority) > priority_score(b.priority) ==> a.urgency_half_points(now)
            > b.urgency_half_points(now),
        (a.due_date is Some && now <= a.due_date.unwrap() < now + 86400) ==> a.urgency_half_points(now) == 2 * priority_score(
            a.priority,
        ) + 5,
        (a.priority == b.priority && a.due_date is Some && now <= a.due_date.unwrap() < now + 86400 && b.due_date is Some
            && b.due_date.unwrap() >= now + 86400) ==> a.urgency_half_points(now) > b.urgency_half_points(now),
        (a.due_date is Some && a.due_date.unwrap() <= now - 3600) ==> a.urgency_half_points(now) == 2 * priority_score(a.priority) + 6,
        (a.due_date is Some && now + 86400 <= a.due_date.unwrap() < now + 3 * 86400) ==> a.urgency_half_points(now) == 2
            * priority_score(a.priority) + 3,
        (a.due_date is Some && now + 3 * 86400 <= a.due_date.unwrap() < now + 7 * 86400) ==> a.urgency_half_points(now) == 2
            * priority_score(a.priority) + 1,
        (a.due_date is None || a.due_date.unwrap() >= now + 7 * 86400) ==> a.urgency_half_points(now) == 2 * priority_score(
            a.priority,
        ),
{
}

impl Task {
    /// A medium-priority, medium-energy task still to do, with a fresh id.
    pub fn new(title: String) -> (t: Task)
        ensures
            t@.id.len() == 36,
            t@.title == title@,
            t@.description is None,
            t@.due_date is None,
            t@.priority == TaskPriority::Medium,
            t@.energy_level == EnergyLevel::Medium,
            t@.status == TaskStatus::Todo,
            t@.project_id is None,
            t@.estimated_minutes is None,
            t@.linked_event_ids.len() == 0,
            t@.tags.len() == 0,
            t@.source == TaskSource::Manual,
            t@.created_at == t@.updated_at,
            valid_time(t@.created_at as int),
    {
        let now = utc_now();
        let t = Task {
            id: new_id(),
            title,
            description: None,
            due_date: None,
            priority: TaskPriority::Medium,
            energy_level: EnergyLevel::Medium,
            status: TaskStatus::Todo,
            project_id: None,
            estimated_minutes: None,
            linked_event_ids: Vec::new(),
            tags: Vec::new(),
            source: TaskSource::Manual,
            created_at: now,
            updated_at: now,
        };
        assert(strs(t.tags) =~= Seq::<Seq<char>>::empty());
        assert(strs(t.linked_event_ids) =~= Seq::<Seq<char>>::empty());
        t
    }

    /// A copy of the task.
    pub fn duplicate(&self) -> (r: Task)
        ensures
            r@ == self@,
    {
        Task {
            id: copy_string(&self.id),
            title: copy_string(&self.title),
            description: copy_opt_string(&self.description),
            due_date: self.due_date,
            priority: self.priority,
            energy_level: self.energy_level,
            status: self.status,
            project_id: copy_opt_string(&self.project_id),
            estimated_minutes: self.estimated_minutes,
            linked_event_ids: copy_strings(&self.linked_event_ids),
            tags: copy_strings(&self.tags),
            source: self.source,
            created_at: self.created_at,
            updated_at: self.updated_at,
        }
    }

    /// Every time in the task is one a date-time can hold.
    pub fn times_ok(&self) -> (b: bool)
        ensures
            b == self@.wf(),
    {
        let due_ok = match self.due_date {
            Some(d) => is_valid_time(d),
            None => true,
        };
        due_ok && is_valid_time(self.created_at) && is_valid_time(self.updated_at)
    }

    /// Still to do and due before `now`.
    pub fn is_overdue_at(&self, now: i64) -> (b: bool)
        ensures
            b == self@.overdue_at(now as int),
    {
        let due_passed = match self.due_date {
            Some(d) => d < now,
            None => false,
        };
        due_passed && self.status == TaskStatus::Todo
    }

    /// Still to do and due before the present moment.
    pub fn is_overdue(&self) -> (b: bool)
        ensures
            exists|now: int| valid_time(now) && b == self@.overdue_at(now),
    {
        let now = utc_now();
        self.is_overdue_at(now)
    }

    /// Urgency at `now`, in half points (an urgency of 4.5 is 9).
    pub fn urgency_half_points(&self, now: i64) -> (r: u32)
        requires
            self@.wf(),
            valid_time(now as int),
        ensures
            r as int == self@.urgency_half_points(now as int),
    {
        let base = 2 * self.priority.score() as u32;
        let bonus: u32 = match self.due_date {
            Some(d) => {
                let left = d - now;
                if left <= -3600 {
                    6
                } else if left < 24 * 3600 {
                    5
                } else if left < 72 * 3600 {
                    3
                } else if left < 168 * 3600 {
                    1
                } else {
                    0
                }
            },
            None => 0,
        };
        base + bonus
    }
}

// ---------------------------------------------------------------- projects and documents

#[derive(Debug, Clone, Copy, PartialEq, Eq, Structural)]
pub enum ProjectStatus {
    Active,
    OnHold,
    Completed,
    Cancelled,
}

#[derive(Debug)]
pub struct Project {
    pub id: String,
    pub title: String,
    pub description: Option<String>,
    pub status: ProjectStatus,
    pub deadline: Option<i64>,
    pub task_ids: Vec<String>,
    pub event_ids: Vec<String>,
    pub tags: Vec<String>,
    pub auto_detected: bool,
    pub color: String,
    pub created_at: i64,
    pub updated_at: i64,
}

impl Project {
    /// An active project with the default colour and a fresh id.
    pub fn new(title: String) -> (p: Project)
        ensures
            p.id@.len() == 36,
            p.title@ == title@,
            p.description is None,
            p.status == ProjectStatus::Active,
            p.deadline is None,
            p.task_ids@.len() == 0,
            p.event_ids@.len() == 0,
            p.tags@.len() == 0,
            !p.auto_detected,
            p.color@ == "#58a6ff"@,
            p.created_at == p.updated_at,
            valid_time(p.created_at as int),
    {
        let now = utc_now();
        Project {
            id: new_id(),
            title,
            description: None,
            status: ProjectStatus::Active,
            deadline: None,
            task_ids: Vec::new(),
            event_ids: Vec::new(),
            tags: Vec::new(),
            auto_detected: false,
            color: String::from_str("#58a6ff"),
            created_at: now,
            updated_at: now,
        }
    }
}

#[derive(Debug, Clone, Copy, PartialEq, Eq, Structural)]
pub enum DocumentKind {
    Pdf,
    Text,
    Email,
    Note,
    Other,
}

#[derive(Debug)]
pub struct Document {
    pub id: String,
    pub title: String,
    pub path: Option<String>,
    pub content_preview: Option<String>,
    pub kind: DocumentKind,
    pub linked_event_ids: Vec<String>,
    pub linked_task_ids: Vec<String>,
    pub tags: Vec<String>,
    pub created_at: i64,
}

impl Document {
    /// A document of the given kind with a fresh id and nothing linked.
    pub fn new(title: String, kind: DocumentKind) -> (d: Document)
        ensures
            d.id@.len() == 36,
            d.title@ == title@,
            d.path is None,
            d.content_preview is None,
            d.kind == kind,
            d.linked_event_ids@.len() == 0,
            d.linked_task_ids@.len() == 0,
            d.tags@.len() == 0,
            valid_time(d.created_at as int),
    {
        Document {
            id: new_id(),
            title,
            path: None,
            content_preview: None,
            kind,
            linked_event_ids: Vec::new(),
            linked_task_ids: Vec::new(),
            tags: Vec::new(),
            created_at: utc_now(),
        }
    }
}

// ---------------------------------------------------------------- settings

#[derive(Debug, Clone, Copy, PartialEq, Eq, Structural)]
pub enum CalendarKind {
    IcsFile,
    CalDav,
    Local,
}

#[derive(Debug)]
pub struct CalendarAccount {
    pub id: String,
    pub name: String,
    pub kind: CalendarKind,
    pub url: Option<String>,
    pub username: Option<String>,
    pub ics_path: Option<String>,
    pub color: String,
    pub enabled: bool,
    pub last_synced: Option<i64>,
}

impl CalendarAccount {
    /// An enabled local calendar with the default colour and a fresh id.
    pub fn new_local(name: String) -> (a: CalendarAccount)
        ensures
            a.id@.len() == 36,
            a.name@ == name@,
            a.kind == CalendarKind::Local,
            a.url is None,
            a.username is None,
            a.ics_path is None,
            a.color@ == "#58a6ff"@,
            a.enabled,
            a.last_synced is None,
    {
        CalendarAccount {
            id: new_id(),
            name,
            kind: CalendarKind::Local,
            url: None,
            username: None,
            ics_path: None,
            color: String::from_str("#58a6ff"),
            enabled: true,
            last_synced: None,
        }
    }
}

#[derive(Debug)]
pub struct AppSettings {
    pub ollama_url: String,
    pub text_model: String,
    pub auto_extract_on_paste: bool,
    pub default_event_duration_minutes: u32,
    pub work_start_hour: u8,
    pub work_end_hour: u8,
    pub min_free_slot_minutes: u32,
    pub enable_notifications: bool,
    pub locale: String,
    pub default_calendar_id: Option<String>,
    pub calendar_accounts: Vec<CalendarAccount>,
}

impl Default for AppSettings {
    /// A local model at the default Ollama address, working hours 8 to 18, one-hour
    /// events, half-hour free slots, Swiss German, and one local calendar.
    fn default() -> (s: AppSettings)
        ensures
            s.ollama_url@ == "http://localhost:11434"@,
            s.text_model@ == "llama3"@,
            s.auto_extract_on_paste,
            s.default_event_duration_minutes == 60,
            s.work_start_hour == 8,
            s.work_end_hour == 18,
            s.min_free_slot_minutes == 30,
            s.enable_notifications,
            s.locale@ == "de-CH"@,
            s.default_calendar_id is None,
            s.calendar_accounts@.len() == 1,
            s.calendar_accounts@[0].name@ == "Persönlich"@,
            s.calendar_accounts@[0].kind == CalendarKind::Local,
            s.calendar_accounts@[0].enabled,
    {
        let mut accounts: Vec<CalendarAccount> = Vec::new();
        accounts.push(CalendarAccount::new_local(String::from_str("Persönlich")));
        AppSettings {
            ollama_url: String::from_str("http://localhost:11434"),
            text_model: String::from_str("llama3"),
            auto_extract_on_paste: true,
            default_event_duration_minutes: 60,
            work_start_hour: 8,
            work_end_hour: 18,
            min_free_slot_minutes: 30,
            enable_notifications: true,
            locale: String::from_str("de-CH"),
            default_calendar_id: None,
            calendar_accounts: accounts,
        }
    }
}

} // verus!
