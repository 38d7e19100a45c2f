//! The overview of one day.
use crate::analyzer::conflicts::{all_wf, event_views, find_conflicts, spec_conflicts, ConflictView, EventConflict};
use crate::analyzer::priorities::{all_tasks_wf, sort_by_priority_at, sort_by_urgency, task_views};
use crate::analyzer::time_slots::{free_slots_between, spec_free_slots, work_hour, TimeSlot};
use crate::models::{AppSettings, Event, EventView, Task, TaskStatus, TaskView};
use crate::time::{at_wall_hour, format_utc, local_clock, strftime_utc, valid_time};
use vstd::prelude::*;

verus! {

#[derive(Debug)]
pub struct DailySummary {
    /// The day as `YYYY-MM-DD`.
    pub date: String,
    pub events: Vec<Event>,
    pub tasks_due: Vec<Task>,
    pub tasks_overdue: Vec<Task>,
    pub conflicts: Vec<EventConflict>,
    pub free_slots: Vec<TimeSlot>,
    pub priority_tasks: Vec<Task>,
    /// 100 for a calm day, less for conflicts, overdue tasks and a crowded agenda.
    pub score: u8,
}

/// 100, minus 15 per conflict, 10 per overdue task (at most five of them count),
/// 10 for more than six events and 10 for more than eight tasks due; kept within 0..=100.
pub open spec fn day_score(events: int, due: int, overdue: int, conflicts: int) -> int {
    let s = 100 - conflicts * 15 - (if overdue < 5 {
        overdue
    } else {
        5
    }) * 10 - (if events > 6 {
        10int
    } else {
        0
    }) - (if due > 8 {
        10int
    } else {
        0
    });
    if s < 0 {
        0
    } else if s > 100 {
        100
    } else {
        s
    }
}

/// How calm the day is, from 0 to 100. Seven conflicts already take the score to
/// 0, so larger counts are not multiplied out.
pub fn calculate_day_score(events: &[Event], tasks_due: &[Task], overdue: &[Task], conflicts: &[EventConflict]) -> (r: u8)
    ensures
        r as int == day_score(events@.len() as int, tasks_due@.len() as int, overdue@.len() as int, conflicts@.len() as int),
{
    if conflicts.len() >= 7 {
        return 0;
    }
    let mut score: i32 = 100;
    score = score - conflicts.len() as i32 * 15;
    let late: i32 = if overdue.len() < 5 {
        overdue.len() as i32
    } else {
        5
    };
    score = score - late * 10;
    if events.len() > 6 {
        score = score - 10;
    }
    if tasks_due.len() > 8 {
        score = score - 10;
    }
    if score < 0 {
        0
    } else if score > 100 {
        100
    } else {
        score as u8
    }
}

/// A day's score stays within 0..=100, and one more conflict never raises it.
pub proof fn law_day_score_bounded_and_monotone(events: int, due: int, overdue: int, conflicts: int)
    requires
        events >= 0,
        due >= 0,
        overdue >= 0,
        conflicts >= 0,
    ensures
        0 <= day_score(events, due, overdue, conflicts) <= 100,
        day_score(events, due, overdue, conflicts + 1) <= day_score(events, due, overdue, conflicts),
        day_score(events, due, overdue + 1, conflicts) <= day_score(events, due, overdue, conflicts),
{
}

/// What costs points: with at most six events and eight tasks due and no conflict,
/// the score is 100 less 10 per overdue task (five at most count); one more overdue
/// task (below five) costs exactly 10 and one more conflict exactly 15, while the
/// score has room for it; and a seventh event or a ninth task due costs 10.
pub proof fn law_day_score_deductions(events: int, due: int, overdue: int, conflicts: int)
    requires
        events >= 0,
        due >= 0,
        overdue >= 0,
        conflicts >= 0,
    ensures
        events <= 6 && due <= 8 ==> day_score(events, due, overdue, 0) == 100 - 10 * (if overdue < 5 {
            overdue
        } else {
            5
        }),
        overdue < 5 && day_score(events, due, overdue, conflicts) >= 10 ==> day_score(events, due, overdue + 1, conflicts)
            == day_score(events, due, overdue, conflicts) - 10,
        day_score(events, due, overdue, conflicts) >= 15 ==> day_score(events, due, overdue, conflicts + 1) == day_score(
            events,
            due,
            overdue,
            conflicts,
        ) - 15,
        events <= 6 && day_score(events, due, overdue, conflicts) >= 10 ==> day_score(7, due, overdue, conflicts)
            == day_score(events, due, overdue, conflicts) - 10,
        due <= 8 && day_score(events, due, overdue, conflicts) >= 10 ==> day_score(events, 9, overdue, conflicts)
            == day_score(events, due, overdue, conflicts) - 10,
{
}

pub open spec fn start_of_utc_day(now: int) -> int {
    now - now % 86400
}

/// The events that start within `[lo, hi]`, in order.
pub open spec fn events_between(s: Seq<EventView>, lo: int, hi: int) -> Seq<EventView>
    decreases s.len(),
{
    if s.len() == 0 {
        seq![]
    } else {
        let rest = events_between(s.drop_last(), lo, hi);
        if lo <= s.last().start <= hi {
            rest.push(s.last())
        } else {
            rest
        }
    }
}

/// The tasks still to do that are due within `[lo, hi]`, in order.
pub open spec fn tasks_due_between(s: Seq<TaskView>, lo: int, hi: int) -> Seq<TaskView>
    decreases s.len(),
{
    if s.len() == 0 {
        seq![]
    } else {
        let rest = tasks_due_between(s.drop_last(), lo, hi);
        let t = s.last();
        if t.status == TaskStatus::Todo && (t.due_date matches Some(d) && lo <= d <= hi) {
            rest.push(t)
        } else {
            rest
        }
    }
}

/// The tasks overdue at `now`, in order.
pub open spec fn overdue_tasks(s: Seq<TaskView>, now: int) -> Seq<TaskView>
    decreases s.len(),
{
    if s.len() == 0 {
        seq![]
    } else {
        let rest = overdue_tasks(s.drop_last(), now);
        if s.last().overdue_at(now) {
            rest.push(s.last())
        } else {
            rest
        }
    }
}

/// The tasks still to do, in order.
pub open spec fn open_tasks(s: Seq<TaskView>) -> Seq<TaskView>
    decreases s.len(),
{
    if s.len() == 0 {
        seq![]
    } else {
        let rest = open_tasks(s.drop_last());
        if s.last().status == TaskStatus::Todo {
            rest.push(s.last())
        } else {
            rest
        }
    }
}

pub ghost struct SummaryView {
    pub date: Seq<char>,
    pub events: Seq<EventView>,
    pub tasks_due: Seq<TaskView>,
    pub tasks_overdue: Seq<TaskView>,
    pub conflicts: Seq<ConflictView>,
    pub free_slots: Seq<TimeSlot>,
    pub priority_tasks: Seq<TaskView>,
    pub score: int,
}

impl View for DailySummary {
    type V = SummaryView;

    open spec fn view(&self) -> SummaryView {
        SummaryView {
            date: self.date@,
            events: event_views(self.events@),
            tasks_due: task_views(self.tasks_due@),
            tasks_overdue: task_views(self.tasks_overdue@),
            conflicts: self.conflicts@.map_values(|c: EventConflict| c@),
            free_slots: self.free_slots@,
            priority_tasks: task_views(self.priority_tasks@),
            score: self.score as int,
        }
    }
}

/// The overview of the UTC day that holds `now`: its events, the tasks due that
/// day and those overdue, the conflicts and free working time of that day, the five
/// most urgent open tasks and the day's score.
pub open spec fn spec_summary(
    events: Seq<EventView>,
    tasks: Seq<TaskView>,
    min_slot: int,
    now: int,
    work_start: int,
    work_end: int,
) -> SummaryView {
    let lo = start_of_utc_day(now);
    let hi = lo + 86399;
    let today = events_between(events, lo, hi);
    let due = tasks_due_between(tasks, lo, hi);
    let late = overdue_tasks(tasks, now);
    let conflicts = spec_conflicts(today);
    let urgent = sort_by_urgency(open_tasks(tasks), now);
    SummaryView {
        date: strftime_utc(now, "%Y-%m-%d"@),
        events: today,
        tasks_due: due,
        tasks_overdue: late,
        conflicts,
        free_slots: spec_free_slots(today, min_slot, now, work_start, work_end),
        priority_tasks: if urgent.len() > 5 {
            urgent.take(5)
        } else {
            urgent
        },
        score: day_score(today.len() as int, due.len() as int, late.len() as int, conflicts.len() as int),
    }
}

proof fn lemma_events_between_wf(s: Seq<EventView>, lo: int, hi: int)
    requires
        all_wf(s),
    ensures
        all_wf(events_between(s, lo, hi)),
        events_between(s, lo, hi).len() <= s.len(),
    decreases s.len(),
{
    if s.len() > 0 {
        lemma_events_between_wf(s.drop_last(), lo, hi);
    }
}

proof fn lemma_open_tasks_wf(s: Seq<TaskView>)
    requires
        all_tasks_wf(s),
    ensures
        all_tasks_wf(open_tasks(s)),
    decreases s.len(),
{
    if s.len() > 0 {
        lemma_open_tasks_wf(s.drop_last());
    }
}

/// Copies of the events that start within `[lo, hi]`.
fn select_events(events: &[Event], lo: i64, hi: i64) -> (r: Vec<Event>)
    ensures
        event_views(r@) == events_between(event_views(events@), lo as int, hi as int),
{
    let ghost views = event_views(events@);
    let mut r: Vec<Event> = Vec::new();
    let mut i: usize = 0;
    while i < events.len()
        invariant
            i <= events@.len(),
            views == event_views(events@),
            event_views(r@) == events_between(views.take(i as int), lo as int, hi as int),
        decreases events@.len() - i,
    {
        assert(views.take(i + 1).drop_last() =~= views.take(i as int));
        assert(views.take(i + 1).last() == events@[i as int]@);
        let e = &events[i];
        if lo <= e.start && e.start <= hi {
            let ghost before = event_views(r@);
            r.push(e.duplicate());
            assert(event_views(r@) =~= before.push(e@));
        }
        i += 1;
    }
    assert(views.take(events@.len() as int) =~= views);
    r
}

/// Copies of the tasks that `keep` selects.
fn select_tasks(tasks: &[Task], lo: i64, hi: i64, now: i64, kind: u8) -> (r: Vec<Task>)
    requires
        kind <= 2,
    ensures
        kind == 0 ==> task_views(r@) == tasks_due_between(task_views(tasks@), lo as int, hi as int),
        kind == 1 ==> task_views(r@) == overdue_tasks(task_views(tasks@), now as int),
        kind == 2 ==> task_views(r@) == open_tasks(task_views(tasks@)),
{
    let ghost views = task_views(tasks@);
    let mut r: Vec<Task> = Vec::new();
    let mut i: usize = 0;
    while i < tasks.len()
        invariant
            i <= tasks@.len(),
            kind <= 2,
            views == task_views(tasks@),
            kind == 0 ==> task_views(r@) == tasks_due_between(views.take(i as int), lo as int, hi as int),
            kind == 1 ==> task_views(r@) == overdue_tasks(views.take(i as int), now as int),
            kind == 2 ==> task_views(r@) == open_tasks(views.take(i as int)),
        decreases tasks@.len() - i,
    {
        assert(views.take(i + 1).drop_last() =~= views.take(i as int));
        assert(views.take(i + 1).last() == tasks@[i as int]@);
        let t = &tasks[i];
        let keep = if kind == 0 {
            t.status == TaskStatus::Todo && match t.due_date {
                Some(d) => lo <= d && d <= hi,
                None => false,
            }
        } else if kind == 1 {
            t.is_overdue_at(now)
        } else {
            t.status == TaskStatus::Todo
        };
        if keep {
            let ghost before = task_views(r@);
            r.push(t.duplicate());
            assert(task_views(r@) =~= before.push(t@));
        }
        i += 1;
    }
    assert(views.take(tasks@.len() as int) =~= views);
    r
}

/// The overview of the UTC day that holds `now`, with the working day running
/// from `work_start` to `work_end`.
pub fn build_daily_summary_at(
    events: &[Event],
    tasks: &[Task],
    min_slot_minutes: u32,
    now: i64,
    work_start: i64,
    work_end: i64,
) -> (r: DailySummary)
    requires
        all_wf(event_views(events@)),
        all_tasks_wf(task_views(tasks@)),
        valid_time(now as int),
        valid_time(work_start as int),
        valid_time(work_end as int),
    ensures
        r@ == spec_summary(event_views(events@), task_views(tasks@), min_slot_minutes as int, now as int, work_start as int, work_end as int),
{
    let into_day: i64 = match now.checked_rem_euclid(86400) {
        Some(x) => x,
        None => 0,
    };
    assert(into_day as int == (now as int) % 86400);
    let lo = now - into_day;
    let hi = lo + 86399;
    let today = select_events(events, lo, hi);
    proof {
        lemma_events_between_wf(event_views(events@), lo as int, hi as int);
    }
    let tasks_due = select_tasks(tasks, lo, hi, now, 0);
    let tasks_overdue = select_tasks(tasks, lo, hi, now, 1);
    let conflicts = find_conflicts(today.as_slice());
    let free_slots = free_slots_between(today.as_slice(), min_slot_minutes, now, work_start, work_end);
    let mut urgent = select_tasks(tasks, lo, hi, now, 2);
    proof {
        lemma_open_tasks_wf(task_views(tasks@));
    }
    sort_by_priority_at(&mut urgent, now);
    if urgent.len() > 5 {
        urgent.truncate(5);
        assert(task_views(urgent@) =~= sort_by_urgency(open_tasks(task_views(tasks@)), now as int).take(5));
    }
    assert(conflicts@.len() == spec_conflicts(event_views(today@)).len()) by {
        assert(conflicts@.map_values(|c: EventConflict| c@).len() == conflicts@.len());
    }
    let score = calculate_day_score(today.as_slice(), tasks_due.as_slice(), tasks_overdue.as_slice(), conflicts.as_slice());
    let date = format_utc(now, "%Y-%m-%d");
    DailySummary {
        date,
        events: today,
        tasks_due,
        tasks_overdue,
        conflicts,
        free_slots,
        priority_tasks: urgent,
        score,
    }
}

/// The overview of today (by UTC), with working hours from the settings as
/// wall-clock hours in the machine's time zone.
pub fn build_daily_summary(events: &[Event], tasks: &[Task], settings: &AppSettings) -> (r: DailySummary)
    requires
        all_wf(event_views(events@)),
        all_tasks_wf(task_views(tasks@)),
    ensures
        exists|now: int, local: int, ws: int, we: int|
            {
                &&& valid_time(now) && valid_time(local) && valid_time(ws) && valid_time(we)
                &&& local - 86400 < now < local + 86400
                &&& at_wall_hour(local, work_hour(settings.work_start_hour), ws, now)
                &&& at_wall_hour(local, work_hour(settings.work_end_hour), we, now)
                &&& r@ == spec_summary(
                    event_views(events@),
                    task_views(tasks@),
                    settings.min_free_slot_minutes as int,
                    now,
                    ws,
                    we,
                )
            },
{
    let clock = local_clock();
    let now = clock.utc;
    let local = clock.naive;
    let start_hour: i64 = if settings.work_start_hour > 23 {
        23
    } else {
        settings.work_start_hour as i64
    };
    let end_hour: i64 = if settings.work_end_hour > 23 {
        23
    } else {
        settings.work_end_hour as i64
    };
    let work_start = crate::analyzer::time_slots::wall_clock_hour_today(local, start_hour, now);
    let work_end = crate::analyzer::time_slots::wall_clock_hour_today(local, end_hour, now);
    let r = build_daily_summary_at(events, tasks, settings.min_free_slot_minutes, now, work_start, work_end);
    assert(start_hour == work_hour(settings.work_start_hour) && end_hour == work_hour(settings.work_end_hour));
    assert(at_wall_hour(local as int, work_hour(settings.work_start_hour), work_start as int, now as int));
    assert(at_wall_hour(local as int, work_hour(settings.work_end_hour), work_end as int, now as int));
    r
}

} // verus!
