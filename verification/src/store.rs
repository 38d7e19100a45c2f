//! Stored rows back into events, tasks and projects: which rows are kept, and the
//! defaults that stand in for missing or unreadable columns.
//!
//! A column comes in as `None` when it is missing, NULL or of another type; an
//! enum or list column as `None` also when its JSON does not read. A column whose
//! absence drops the whole row is an `Option<Option<_>>`: the outer `None` says it
//! could not be read at all.
use crate::models::{
    orule, ostr, strs, EnergyLevel, Event, EventSource, EventStatus, EventView, Project, ProjectStatus,
    RecurrenceRule, Task, TaskPriority, TaskSource, TaskStatus, TaskView,
};
use crate::time::valid_time;
use vstd::prelude::*;

verus! {

/// What `s.parse::<chrono::DateTime<chrono::Utc>>()` reads from `s`, in whole
/// seconds since 1970-01-01 UTC (its `timestamp`), or `None` when it does not read.
pub uninterp spec fn rfc3339_secs(s: Seq<char>) -> Option<i64>;

/// Reads a stored date-time with `str::parse::<DateTime<Utc>>` and takes its
/// `timestamp` (the fraction of a second is dropped). The result is named; a
/// date-time chrono reads is one it can hold.
#[verifier::external_body]
pub(crate) fn parse_rfc3339(s: &str) -> (r: Option<i64>)
    ensures
        r == rfc3339_secs(s@),
        r matches Some(v) ==> valid_time(v as int),
{
    s.parse::<chrono::DateTime<chrono::Utc>>().ok().map(|d| d.timestamp())
}

/// The time an optional column holds, `None` when it is missing or does not read.
pub open spec fn column_secs(o: Option<String>) -> Option<i64> {
    match o {
        Some(s) => rfc3339_secs(s@),
        None => None,
    }
}

/// The time of an optional column: see `column_secs`.
pub fn column_time(o: &Option<String>) -> (r: Option<i64>)
    ensures
        r == column_secs(*o),
{
    match o {
        Some(s) => parse_rfc3339(s.as_str()),
        None => None,
    }
}

/// The time of a nullable column that was read: see `column_secs`.
pub open spec fn nullable_secs(o: Option<Option<String>>) -> Option<i64> {
    match o {
        Some(inner) => column_secs(inner),
        None => None,
    }
}

fn nullable_time(o: &Option<Option<String>>) -> (r: Option<i64>)
    ensures
        r == nullable_secs(*o),
{
    match o {
        Some(inner) => column_time(inner),
        None => None,
    }
}

/// A list column, empty when it is missing or does not read.
pub open spec fn list_or_empty(o: Option<Vec<String>>) -> Seq<Seq<char>> {
    match o {
        Some(v) => strs(v),
        None => seq![],
    }
}

fn take_list(o: Option<Vec<String>>) -> (r: Vec<String>)
    ensures
        strs(r) == list_or_empty(o),
{
    match o {
        Some(v) => v,
        None => {
            let v: Vec<String> = Vec::new();
            assert(strs(v) =~= Seq::<Seq<char>>::empty());
            v
        },
    }
}

pub open spec fn secs_or(o: Option<i64>, d: i64) -> i64 {
    match o {
        Some(t) => t,
        None => d,
    }
}

pub open spec fn flag_or_false(o: Option<i64>) -> bool {
    match o {
        Some(v) => v != 0,
        None => false,
    }
}

fn flag(o: Option<i64>) -> (b: bool)
    ensures
        b == flag_or_false(o),
{
    match o {
        Some(v) => v != 0,
        None => false,
    }
}

// ---------------------------------------------------------------- events

/// The columns of a stored event, as read from its row.
pub struct EventColumns {
    pub id: Option<String>,
    pub title: Option<String>,
    pub description: Option<String>,
    pub start: Option<String>,
    pub end: Option<Option<String>>,
    pub all_day: Option<i64>,
    pub location: Option<String>,
    pub source: Option<EventSource>,
    pub calendar_id: Option<String>,
    pub external_uid: Option<String>,
    pub status: Option<EventStatus>,
    pub recurrence: Option<Option<RecurrenceRule>>,
    pub linked_task_ids: Option<Vec<String>>,
    pub linked_doc_ids: Option<Vec<String>>,
    pub tags: Option<Vec<String>>,
    pub created_at: Option<String>,
    pub updated_at: Option<String>,
}

pub open spec fn oevent(r: Option<Event>) -> Option<EventView> {
    match r {
        Some(e) => Some(e@),
        None => None,
    }
}

/// The event a row holds, given the times its columns read as: none when the id,
/// the title or the start is missing or unreadable, or the end or recurrence column
/// cannot be read; otherwise each field from its column, a manual, confirmed, timed
/// event with no links or tags where those columns are missing, and `now` for a
/// missing creation or change time.
pub open spec fn spec_event_from(
    c: EventColumns,
    start: Option<i64>,
    end: Option<i64>,
    created_at: Option<i64>,
    updated_at: Option<i64>,
    now: i64,
) -> Option<EventView> {
    match (c.id, c.title, start, c.end, c.recurrence) {
        (Some(id), Some(title), Some(st), Some(_), Some(rec)) => Some(
            EventView {
                id: id@,
                title: title@,
                description: ostr(c.description),
                start: st,
                end,
                all_day: flag_or_false(c.all_day),
                location: ostr(c.location),
                source: match c.source {
                    Some(s) => s,
                    None => EventSource::Manual,
                },
                calendar_id: ostr(c.calendar_id),
                external_uid: ostr(c.external_uid),
                status: match c.status {
                    Some(s) => s,
                    None => EventStatus::Confirmed,
                },
                recurrence: orule(rec),
                linked_task_ids: list_or_empty(c.linked_task_ids),
                linked_doc_ids: list_or_empty(c.linked_doc_ids),
                tags: list_or_empty(c.tags),
                created_at: secs_or(created_at, now),
                updated_at: secs_or(updated_at, now),
            },
        ),
        _ => None,
    }
}

/// The event a row holds, from its columns and the times they read as (see
/// `spec_event_from`).
pub fn event_from_parsed(
    c: EventColumns,
    start: Option<i64>,
    end: Option<i64>,
    created_at: Option<i64>,
    updated_at: Option<i64>,
    now: i64,
) -> (r: Option<Event>)
    ensures
        oevent(r) == spec_event_from(c, start, end, created_at, updated_at, now),
{
    let ghost c0 = c;
    let EventColumns {
        id,
        title,
        description,
        start: _,
        end: end_column,
        all_day,
        location,
        source,
        calendar_id,
        external_uid,
        status,
        recurrence,
        linked_task_ids,
        linked_doc_ids,
        tags,
        created_at: _,
        updated_at: _,
    } = c;
    let (id, title, st, rec) = match (id, title, start, end_column, recurrence) {
        (Some(id), Some(title), Some(st), Some(_), Some(rec)) => (id, title, st, rec),
        _ => return None,
    };
    let e = Event {
        id,
        title,
        description,
        start: st,
        end,
        all_day: flag(all_day),
        location,
        source: match source {
            Some(s) => s,
            None => EventSource::Manual,
        },
        calendar_id,
        external_uid,
        status: match status {
            Some(s) => s,
            None => EventStatus::Confirmed,
        },
        recurrence: rec,
        linked_task_ids: take_list(linked_task_ids),
        linked_doc_ids: take_list(linked_doc_ids),
        tags: take_list(tags),
        created_at: match created_at {
            Some(t) => t,
            None => now,
        },
        updated_at: match updated_at {
            Some(t) => t,
            None => now,
        },
    };
    Some(e)
}

/// The event a stored row holds, reading its times with `parse_rfc3339`; `now`
/// stands in for a missing creation or change time.
pub fn event_from_columns(c: EventColumns, now: i64) -> (r: Option<Event>)
    ensures
        oevent(r) == spec_event_from(
            c,
            column_secs(c.start),
            nullable_secs(c.end),
            column_secs(c.created_at),
            column_secs(c.updated_at),
            now,
        ),
{
    let start = column_time(&c.start);
    let end = nullable_time(&c.end);
    let created_at = column_time(&c.created_at);
    let updated_at = column_time(&c.updated_at);
    event_from_parsed(c, start, end, created_at, updated_at, now)
}

// ---------------------------------------------------------------- tasks

/// The columns of a stored task, as read from its row.
pub struct TaskColumns {
    pub id: Option<String>,
    pub title: Option<String>,
    pub description: Option<String>,
    pub due_date: Option<Option<String>>,
    pub priority: Option<TaskPriority>,
    pub energy_level: Option<EnergyLevel>,
    pub status: Option<TaskStatus>,
    pub project_id: Option<String>,
    pub estimated_minutes: Option<Option<i64>>,
    pub linked_event_ids: Option<Vec<String>>,
    pub tags: Option<Vec<String>>,
    pub source: Option<TaskSource>,
    pub created_at: Option<String>,
    pub updated_at: Option<String>,
}

pub open spec fn otask(r: Option<Task>) -> Option<TaskView> {
    match r {
        Some(t) => Some(t@),
        None => None,
    }
}

/// The task a row holds, given the times its columns read as: none when the id or
/// the title is missing, or the due date or estimate column cannot be read;
/// otherwise each field from its column (the estimate cut to 32 bits, as `as u32`
/// does), a manual task to do of medium priority and energy with no links or tags
/// where those columns are missing, and `now` for a missing creation or change time.
pub open spec fn spec_task_from(
    c: TaskColumns,
    due: Option<i64>,
    created_at: Option<i64>,
    updated_at: Option<i64>,
    now: i64,
) -> Option<TaskView> {
    match (c.id, c.title, c.due_date, c.estimated_minutes) {
        (Some(id), Some(title), Some(_), Some(est)) => Some(
            TaskView {
                id: id@,
                title: title@,
                description: ostr(c.description),
                due_date: due,
                priority: match c.priority {
                    Some(p) => p,
                    None => TaskPriority::Medium,
                },
                energy_level: match c.energy_level {
                    Some(e) => e,
                    None => EnergyLevel::Medium,
                },
                status: match c.status {
                    Some(s) => s,
                    None => TaskStatus::Todo,
                },
                project_id: ostr(c.project_id),
                estimated_minutes: match est {
                    Some(v) => Some(v as u32),
                    None => None,
                },
                linked_event_ids: list_or_empty(c.linked_event_ids),
                tags: list_or_empty(c.tags),
                source: match c.source {
                    Some(s) => s,
                    None => TaskSource::Manual,
                },
                created_at: secs_or(created_at, now),
                updated_at: secs_or(updated_at, now),
            },
        ),
        _ => None,
    }
}

/// The task a row holds, from its columns and the times they read as (see
/// `spec_task_from`).
pub fn task_from_parsed(c: TaskColumns, due: Option<i64>, created_at: Option<i64>, updated_at: Option<i64>, now: i64) -> (r: Option<Task>)
    ensures
        otask(r) == spec_task_from(c, due, created_at, updated_at, now),
{
    let TaskColumns {
        id,
        title,
        description,
        due_date,
        priority,
        energy_level,
        status,
        project_id,
        estimated_minutes,
        linked_event_ids,
        tags,
        source,
        created_at: _,
        updated_at: _,
    } = c;
    let (id, title, est) = match (id, title, due_date, estimated_minutes) {
        (Some(id), Some(title), Some(_), Some(est)) => (id, title, est),
        _ => return None,
    };
    let t = Task {
        id,
        title,
        description,
        due_date: due,
        priority: match priority {
            Some(p) => p,
            None => TaskPriority::Medium,
        },
        energy_level: match energy_level {
            Some(e) => e,
            None => EnergyLevel::Medium,
        },
        status: match status {
            Some(s) => s,
            None => TaskStatus::Todo,
        },
        project_id,
        estimated_minutes: match est {
            Some(v) => Some(v as u32),
            None => None,
        },
        linked_event_ids: take_list(linked_event_ids),
        tags: take_list(tags),
        source: match source {
            Some(s) => s,
            None => TaskSource::Manual,
        },
        created_at: match created_at {
            Some(t) => t,
            None => now,
        },
        updated_at: match updated_at {
            Some(t) => t,
            None => now,
        },
    };
    Some(t)
}

/// The task a stored row holds, reading its times with `parse_rfc3339`; `now`
/// stands in for a missing creation or change time.
pub fn task_from_columns(c: TaskColumns, now: i64) -> (r: Option<Task>)
    ensures
        otask(r) == spec_task_from(c, nullable_secs(c.due_date), column_secs(c.created_at), column_secs(c.updated_at), now),
{
    let due = nullable_time(&c.due_date);
    let created_at = column_time(&c.created_at);
    let updated_at = column_time(&c.updated_at);
    task_from_parsed(c, due, created_at, updated_at, now)
}

// ---------------------------------------------------------------- projects

/// The columns of a stored project, as read from its row.
pub struct ProjectColumns {
    pub id: Option<String>,
    pub title: Option<String>,
    pub description: Option<String>,
    pub status: Option<ProjectStatus>,
    pub deadline: Option<Option<String>>,
    pub task_ids: Option<Vec<String>>,
    pub event_ids: Option<Vec<String>>,
    pub tags: Option<Vec<String>>,
    pub auto_detected: Option<i64>,
    pub color: Option<String>,
    pub created_at: Option<String>,
    pub updated_at: Option<String>,
}

/// The project a row holds: none when the id or the title is missing or the
/// deadline column cannot be read; otherwise each field from its column, an active
/// project in the default colour with nothing linked where those columns are
/// missing, and `now` for a missing creation or change time.
pub fn project_from_columns(c: ProjectColumns, now: i64) -> (r: Option<Project>)
    ensures
        r is None <==> (c.id is None || c.title is None || c.deadline is None),
        r matches Some(p) ==> {
            &&& ostr(c.id) == Some(p.id@)
            &&& ostr(c.title) == Some(p.title@)
            &&& ostr(p.description) == ostr(c.description)
            &&& p.status == match c.status {
                Some(s) => s,
                None => ProjectStatus::Active,
            }
            &&& p.deadline == nullable_secs(c.deadline)
            &&& strs(p.task_ids) == list_or_empty(c.task_ids)
            &&& strs(p.event_ids) == list_or_empty(c.event_ids)
            &&& strs(p.tags) == list_or_empty(c.tags)
            &&& p.auto_detected == flag_or_false(c.auto_detected)
            &&& p.color@ == match c.color {
                Some(s) => s@,
                None => "#58a6ff"@,
            }
            &&& p.created_at == secs_or(column_secs(c.created_at), now)
            &&& p.updated_at == secs_or(column_secs(c.updated_at), now)
        },
{
    let deadline = nullable_time(&c.deadline);
    let created_at = column_time(&c.created_at);
    let updated_at = column_time(&c.updated_at);
    let ProjectColumns {
        id,
        title,
        description,
        status,
        deadline: deadline_column,
        task_ids,
        event_ids,
        tags,
        auto_detected,
        color,
        created_at: _,
        updated_at: _,
    } = c;
    let (id, title) = match (id, title, deadline_column) {
        (Some(id), Some(title), Some(_)) => (id, title),
        _ => return None,
    };
    Some(
        Project {
            id,
            title,
            description,
            status: match status {
                Some(s) => s,
                None => ProjectStatus::Active,
            },
            deadline,
            task_ids: take_list(task_ids),
            event_ids: take_list(event_ids),
            tags: take_list(tags),
            auto_detected: flag(auto_detected),
            color: match color {
                Some(s) => s,
                None => "#58a6ff".to_string(),
            },
            created_at: match created_at {
                Some(t) => t,
                None => now,
            },
            updated_at: match updated_at {
                Some(t) => t,
                None => now,
            },
        },
    )
}

} // verus!
