//! Tasks ordered by urgency, and a plan that fits a time budget.
use crate::models::{EnergyLevel, Task, TaskStatus, TaskView};
use crate::time::{utc_now, valid_time};
use vstd::prelude::*;

verus! {

pub open spec fn task_views(tasks: Seq<Task>) -> Seq<TaskView> {
    tasks.map_values(|t: Task| t@)
}

pub open spec fn all_tasks_wf(tasks: Seq<TaskView>) -> bool {
    forall|i: int| 0 <= i < tasks.len() ==> (#[trigger] tasks[i]).wf()
}

/// Whether every task of the list is well formed, as the analyses ask.
pub fn tasks_times_ok(tasks: &[Task]) -> (b: bool)
    ensures
        b == all_tasks_wf(task_views(tasks@)),
{
    let mut i: usize = 0;
    while i < tasks.len()
        invariant
            i <= tasks@.len(),
            forall|j: int| 0 <= j < i ==> (#[trigger] task_views(tasks@)[j]).wf(),
        decreases tasks@.len() - i,
    {
        if !tasks[i].times_ok() {
            assert(!task_views(tasks@)[i as int].wf());
            return false;
        }
        i += 1;
    }
    true
}

/// `s` with `x` placed after every task at least as urgent as it.
pub open spec fn insert_by_urgency(s: Seq<TaskView>, x: TaskView, now: int) -> Seq<TaskView>
    decreases s.len(),
{
    if s.len() == 0 || s.last().urgency_half_points(now) >= x.urgency_half_points(now) {
        s.push(x)
    } else {
        insert_by_urgency(s.drop_last(), x, now).push(s.last())
    }
}

/// The tasks, most urgent first; tasks of equal urgency keep their order.
pub open spec fn sort_by_urgency(s: Seq<TaskView>, now: int) -> Seq<TaskView>
    decreases s.len(),
{
    if s.len() == 0 {
        seq![]
    } else {
        insert_by_urgency(sort_by_urgency(s.drop_last(), now), s.last(), now)
    }
}

proof fn lemma_insert_urgency_at(s: Seq<TaskView>, x: TaskView, now: int, p: int)
    requires
        0 <= p <= s.len(),
        forall|k: int| p <= k < s.len() ==> (#[trigger] s[k]).urgency_half_points(now) < x.urgency_half_points(now),
        p > 0 ==> s[p - 1].urgency_half_points(now) >= x.urgency_half_points(now),
    ensures
        insert_by_urgency(s, x, now) == s.take(p).push(x) + s.skip(p),
    decreases s.len(),
{
    if p == s.len() {
        assert(s.take(p).push(x) + s.skip(p) =~= s.push(x));
    } else {
        lemma_insert_urgency_at(s.drop_last(), x, now, p);
        assert(s.drop_last().take(p) =~= s.take(p));
        assert((s.take(p).push(x) + s.drop_last().skip(p)).push(s.last()) =~= s.take(p).push(x) + s.skip(p));
    }
}

/// Orders the tasks by their urgency at `now`, most urgent first, keeping the order
/// of tasks that are equally urgent.
pub fn sort_by_priority_at(tasks: &mut Vec<Task>, now: i64)
    requires
        all_tasks_wf(task_views(old(tasks)@)),
        valid_time(now as int),
    ensures
        task_views(final(tasks)@) == sort_by_urgency(task_views(old(tasks)@), now as int),
{
    let ghost input = task_views(tasks@);
    let mut src: Vec<Task> = Vec::new();
    std::mem::swap(tasks, &mut src);
    let mut sorted: Vec<Task> = Vec::new();
    let mut keys: Vec<u32> = Vec::new();
    let ghost mut taken: int = 0;
    while src.len() > 0
        invariant
            0 <= taken <= input.len(),
            task_views(src@) == input.skip(taken),
            task_views(sorted@) == sort_by_urgency(input.take(taken), now as int),
            keys@.len() == sorted@.len(),
            forall|k: int| 0 <= k < keys@.len() ==> keys@[k] as int == (#[trigger] sorted@[k])@.urgency_half_points(now as int),
            all_tasks_wf(input),
            valid_time(now as int),
        decreases src@.len(),
    {
        let ghost src_before = src@;
        assert(task_views(src_before).len() > 0);
        assert(taken < input.len());
        let t = src.remove(0);
        proof {
            assert(t == src_before[0]);
            assert(task_views(src_before)[0] == input.skip(taken)[0]);
            assert(src@ =~= src_before.subrange(1, src_before.len() as int));
            assert(task_views(src@) =~= task_views(src_before).subrange(1, src_before.len() as int));
            assert(task_views(src@) =~= input.skip(taken + 1));
            assert(t@ == input[taken]);
            assert(input.take(taken + 1).drop_last() =~= input.take(taken));
            assert(input.take(taken + 1).last() == t@);
        }
        let key = t.urgency_half_points(now);
        let ghost s = task_views(sorted@);
        let ghost old_keys = keys@;
        let mut p = sorted.len();
        while p > 0 && keys[p - 1] < key
            invariant
                p <= sorted@.len(),
                s == task_views(sorted@),
                keys@.len() == sorted@.len(),
                forall|k: int| 0 <= k < keys@.len() ==> keys@[k] as int == (#[trigger] sorted@[k])@.urgency_half_points(now as int),
                key as int == t@.urgency_half_points(now as int),
                forall|k: int| p <= k < s.len() ==> (#[trigger] s[k]).urgency_half_points(now as int) < t@.urgency_half_points(now as int),
            decreases p,
        {
            assert(s[p - 1] == sorted@[p - 1]@);
            p -= 1;
        }
        assert(p > 0 ==> s[p - 1] == sorted@[p - 1]@);
        proof {
            lemma_insert_urgency_at(s, t@, now as int, p as int);
        }
        sorted.insert(p, t);
        keys.insert(p, key);
        proof {
            assert(task_views(sorted@) =~= s.take(p as int).push(t@) + s.skip(p as int));
            taken = taken + 1;
            assert forall|k: int| 0 <= k < keys@.len() implies keys@[k] as int == (#[trigger] sorted@[k])@.urgency_half_points(now as int) by {
                if k < p {
                    assert(keys@[k] == old_keys[k]);
                    assert(sorted@[k]@ == s[k]);
                } else if k > p {
                    assert(keys@[k] == old_keys[k - 1]);
                    assert(sorted@[k]@ == s[k - 1]);
                }
            }
        }
    }
    assert(input.take(taken) =~= input) by {
        assert(input.skip(taken).len() == 0);
    }
    *tasks = sorted;
}

/// Orders the tasks by their urgency at the present moment, most urgent first.
pub fn sort_by_priority(tasks: &mut Vec<Task>)
    requires
        all_tasks_wf(task_views(old(tasks)@)),
    ensures
        exists|now: int| valid_time(now) && task_views(final(tasks)@) == sort_by_urgency(task_views(old(tasks)@), now),
{
    let now = utc_now();
    sort_by_priority_at(tasks, now);
}

// ---------------------------------------------------------------- the schedule

/// The choices made so far: the positions of the chosen tasks, the minutes left,
/// and whether the high-energy round has stopped.
pub ghost struct PlanState {
    pub chosen: Seq<int>,
    pub remaining: int,
    pub stopped: bool,
}

pub open spec fn cost_or(t: TaskView, default: int) -> int {
    match t.estimated_minutes {
        Some(m) => m as int,
        None => default,
    }
}

/// First round: overdue tasks, each taken when its estimate (30 minutes when
/// unknown) still fits.
pub open spec fn overdue_round(tasks: Seq<TaskView>, k: int, now: int, st: PlanState) -> PlanState
    decreases k,
{
    if k <= 0 {
        st
    } else {
        let prev = overdue_round(tasks, k - 1, now, st);
        let t = tasks[k - 1];
        let cost = cost_or(t, 30);
        if t.status == TaskStatus::Todo && t.overdue_at(now) && cost <= prev.remaining {
            PlanState { chosen: prev.chosen.push(k - 1), remaining: prev.remaining - cost, ..prev }
        } else {
            prev
        }
    }
}

/// Second round: high-energy tasks not yet chosen (60 minutes when unknown), until
/// fewer than 60 minutes are left.
pub open spec fn focus_round(tasks: Seq<TaskView>, k: int, st: PlanState) -> PlanState
    decreases k,
{
    if k <= 0 {
        st
    } else {
        let prev = focus_round(tasks, k - 1, st);
        let t = tasks[k - 1];
        let cost = cost_or(t, 60);
        if prev.stopped || t.status != TaskStatus::Todo || t.energy_level != EnergyLevel::High {
            prev
        } else if prev.remaining < 60 {
            PlanState { stopped: true, ..prev }
        } else if cost <= prev.remaining && !prev.chosen.contains(k - 1) {
            PlanState { chosen: prev.chosen.push(k - 1), remaining: prev.remaining - cost, ..prev }
        } else {
            prev
        }
    }
}

/// Third round: the other tasks not yet chosen (30 minutes when unknown), wherever
/// they still fit.
pub open spec fn fill_round(tasks: Seq<TaskView>, k: int, st: PlanState) -> PlanState
    decreases k,
{
    if k <= 0 {
        st
    } else {
        let prev = fill_round(tasks, k - 1, st);
        let t = tasks[k - 1];
        let cost = cost_or(t, 30);
        if t.status == TaskStatus::Todo && t.energy_level != EnergyLevel::High && cost <= prev.remaining
            && !prev.chosen.contains(k - 1) {
            PlanState { chosen: prev.chosen.push(k - 1), remaining: prev.remaining - cost, ..prev }
        } else {
            prev
        }
    }
}

/// Positions of the tasks planned into `minutes`, in the order they were chosen.
pub open spec fn spec_schedule(tasks: Seq<TaskView>, minutes: int, now: int) -> Seq<int> {
    let n = tasks.len() as int;
    let s1 = overdue_round(tasks, n, now, PlanState { chosen: seq![], remaining: minutes, stopped: false });
    let s2 = focus_round(tasks, n, s1);
    let s3 = fill_round(tasks, n, s2);
    s3.chosen
}

fn contains_index(v: &Vec<usize>, x: usize) -> (b: bool)
    ensures
        b == v@.map_values(|i: usize| i as int).contains(x as int),
{
    let ghost s = v@.map_values(|i: usize| i as int);
    let mut k: usize = 0;
    while k < v.len()
        invariant
            k <= v@.len(),
            s == v@.map_values(|i: usize| i as int),
            forall|j: int| 0 <= j < k ==> s[j] != x as int,
        decreases v@.len() - k,
    {
        if v[k] == x {
            assert(s[k as int] == x as int);
            return true;
        }
        k += 1;
    }
    false
}

pub open spec fn idx_view(v: Seq<usize>) -> Seq<int> {
    v.map_values(|i: usize| i as int)
}

/// Positions of the tasks to work on within `minutes`: first the overdue ones, then
/// high-energy ones while an hour or more is left, then the rest wherever they fit.
pub fn schedule_positions(tasks: &[Task], minutes: u64, now: i64) -> (r: Vec<usize>)
    ensures
        idx_view(r@) == spec_schedule(task_views(tasks@), minutes as int, now as int),
{
    let ghost views = task_views(tasks@);
    let ghost n = tasks@.len() as int;
    let mut chosen: Vec<usize> = Vec::new();
    let mut remaining: u64 = minutes;
    let ghost st0 = PlanState { chosen: seq![], remaining: minutes as int, stopped: false };
    let mut i: usize = 0;
    while i < tasks.len()
        invariant
            i <= tasks@.len(),
            views == task_views(tasks@),
            n == tasks@.len(),
            ({
                let st = overdue_round(views, i as int, now as int, st0);
                st.chosen == idx_view(chosen@) && st.remaining == remaining as int && !st.stopped
            }),
        decreases tasks@.len() - i,
    {
        let t = &tasks[i];
        assert(views[i as int] == t@);
        let cost: u64 = match t.estimated_minutes {
            Some(m) => m as u64,
            None => 30,
        };
        if t.status == TaskStatus::Todo && t.is_overdue_at(now) && cost <= remaining {
            let ghost before = idx_view(chosen@);
            chosen.push(i);
            remaining = remaining - cost;
            assert(idx_view(chosen@) =~= before.push(i as int));
        }
        i += 1;
    }
    let ghost st1 = overdue_round(views, n, now as int, st0);
    let mut stopped = false;
    i = 0;
    while i < tasks.len()
        invariant
            i <= tasks@.len(),
            views == task_views(tasks@),
            n == tasks@.len(),
            ({
                let st = focus_round(views, i as int, st1);
                st.chosen == idx_view(chosen@) && st.remaining == remaining as int && st.stopped == stopped
            }),
        decreases tasks@.len() - i,
    {
        let t = &tasks[i];
        assert(views[i as int] == t@);
        let cost: u64 = match t.estimated_minutes {
            Some(m) => m as u64,
            None => 60,
        };
        if stopped || t.status != TaskStatus::Todo || t.energy_level != EnergyLevel::High {
        } else if remaining < 60 {
            stopped = true;
        } else if cost <= remaining && !contains_index(&chosen, i) {
            let ghost before = idx_view(chosen@);
            chosen.push(i);
            remaining = remaining - cost;
            assert(idx_view(chosen@) =~= before.push(i as int));
        }
        i += 1;
    }
    let ghost st2 = focus_round(views, n, st1);
    i = 0;
    while i < tasks.len()
        invariant
            i <= tasks@.len(),
            views == task_views(tasks@),
            n == tasks@.len(),
            ({
                let st = fill_round(views, i as int, st2);
                st.chosen == idx_view(chosen@) && st.remaining == remaining as int
            }),
        decreases tasks@.len() - i,
    {
        let t = &tasks[i];
        assert(views[i as int] == t@);
        let cost: u64 = match t.estimated_minutes {
            Some(m) => m as u64,
            None => 30,
        };
        if t.status == TaskStatus::Todo && t.energy_level != EnergyLevel::High && cost <= remaining
            && !contains_index(&chosen, i) {
            let ghost before = idx_view(chosen@);
            chosen.push(i);
            remaining = remaining - cost;
            assert(idx_view(chosen@) =~= before.push(i as int));
        }
        i += 1;
    }
    chosen
}

/// The tasks to work on within `minutes`, judged at `now`.
pub fn suggest_schedule_at<'a>(tasks: &'a [Task], minutes: u64, now: i64) -> (r: Vec<&'a Task>)
    ensures
        r@.len() == spec_schedule(task_views(tasks@), minutes as int, now as int).len(),
        forall|k: int| 0 <= k < r@.len() ==> (#[trigger] r@[k])@ == tasks@[spec_schedule(task_views(tasks@), minutes as int, now as int)[k]]@,
{
    let pos = schedule_positions(tasks, minutes, now);
    proof {
        lemma_schedule_in_bounds(task_views(tasks@), minutes as int, now as int);
    }
    assert forall|j: int| 0 <= j < pos@.len() implies 0 <= #[trigger] pos@[j] < tasks@.len() by {
        assert(idx_view(pos@)[j] == pos@[j] as int);
    }
    let mut r: Vec<&'a Task> = Vec::new();
    let mut k: usize = 0;
    while k < pos.len()
        invariant
            k <= pos@.len(),
            idx_view(pos@) == spec_schedule(task_views(tasks@), minutes as int, now as int),
            forall|j: int| 0 <= j < pos@.len() ==> 0 <= #[trigger] pos@[j] < tasks@.len(),
            r@.len() == k,
            forall|j: int| 0 <= j < k ==> (#[trigger] r@[j])@ == tasks@[pos@[j] as int]@,
        decreases pos@.len() - k,
    {
        assert(idx_view(pos@)[k as int] == pos@[k as int] as int);
        r.push(&tasks[pos[k]]);
        k += 1;
    }
    r
}

/// The tasks to work on within `minutes`, judged at the present moment.
pub fn suggest_schedule<'a>(tasks: &'a [Task], minutes: u64) -> (r: Vec<&'a Task>)
    ensures
        exists|now: int|
            valid_time(now) && r@.len() == spec_schedule(task_views(tasks@), minutes as int, now).len() && forall|k: int|
                0 <= k < r@.len() ==> (#[trigger] r@[k])@ == tasks@[spec_schedule(task_views(tasks@), minutes as int, now)[k]]@,
{
    let now = utc_now();
    suggest_schedule_at(tasks, minutes, now)
}

/// What every round keeps: chosen positions are in bounds, distinct, name tasks still
/// to do, and the minutes left never go below zero.
pub open spec fn plan_ok(tasks: Seq<TaskView>, st: PlanState, minutes: int) -> bool {
    &&& forall|j: int| 0 <= j < st.chosen.len() ==> 0 <= #[trigger] st.chosen[j] < tasks.len()
    &&& forall|j: int| 0 <= j < st.chosen.len() ==> tasks[#[trigger] st.chosen[j]].status == TaskStatus::Todo
    &&& st.chosen.no_duplicates()
    &&& 0 <= st.remaining <= minutes
}

proof fn lemma_push_fresh(s: Seq<int>, x: int)
    requires
        s.no_duplicates(),
        !s.contains(x),
    ensures
        s.push(x).no_duplicates(),
{
    assert forall|i: int, j: int| 0 <= i < s.push(x).len() && 0 <= j < s.push(x).len() && i != j implies s.push(x)[i]
        != s.push(x)[j] by {
        if i == s.len() as int {
            assert(s[j] == s.push(x)[j]);
        } else if j == s.len() as int {
            assert(s[i] == s.push(x)[i]);
        }
    }
}

proof fn lemma_overdue_round(tasks: Seq<TaskView>, k: int, now: int, st: PlanState, minutes: int)
    requires
        plan_ok(tasks, st, minutes),
        0 <= k <= tasks.len(),
        st.chosen.len() == 0,
    ensures
        plan_ok(tasks, overdue_round(tasks, k, now, st), minutes),
        forall|j: int| 0 <= j < overdue_round(tasks, k, now, st).chosen.len() ==> #[trigger] overdue_round(tasks, k, now, st).chosen[j] < k,
    decreases k,
{
    if k > 0 {
        lemma_overdue_round(tasks, k - 1, now, st, minutes);
        let prev = overdue_round(tasks, k - 1, now, st);
        assert(!prev.chosen.contains(k - 1));
        lemma_push_fresh(prev.chosen, k - 1);
        let cur = overdue_round(tasks, k, now, st);
        assert forall|j: int| 0 <= j < cur.chosen.len() implies #[trigger] cur.chosen[j] < k by {
            if j < prev.chosen.len() {
                assert(cur.chosen[j] == prev.chosen[j]);
            }
        }
    }
}

proof fn lemma_focus_round(tasks: Seq<TaskView>, k: int, st: PlanState, minutes: int)
    requires
        plan_ok(tasks, st, minutes),
        0 <= k <= tasks.len(),
    ensures
        plan_ok(tasks, focus_round(tasks, k, st), minutes),
    decreases k,
{
    if k > 0 {
        lemma_focus_round(tasks, k - 1, st, minutes);
        let prev = focus_round(tasks, k - 1, st);
        if !prev.chosen.contains(k - 1) {
            lemma_push_fresh(prev.chosen, k - 1);
        }
    }
}

proof fn lemma_fill_round(tasks: Seq<TaskView>, k: int, st: PlanState, minutes: int)
    requires
        plan_ok(tasks, st, minutes),
        0 <= k <= tasks.len(),
    ensures
        plan_ok(tasks, fill_round(tasks, k, st), minutes),
    decreases k,
{
    if k > 0 {
        lemma_fill_round(tasks, k - 1, st, minutes);
        let prev = fill_round(tasks, k - 1, st);
        if !prev.chosen.contains(k - 1) {
            lemma_push_fresh(prev.chosen, k - 1);
        }
    }
}

proof fn lemma_schedule_in_bounds(tasks: Seq<TaskView>, minutes: int, now: int)
    requires
        minutes >= 0,
    ensures
        forall|j: int| 0 <= j < spec_schedule(tasks, minutes, now).len() ==> 0 <= #[trigger] spec_schedule(tasks, minutes, now)[j] < tasks.len(),
{
    law_schedule_is_sound(tasks, minutes, now);
}

/// A plan never takes a task twice, and takes only tasks of the list that are still
/// to do.
pub proof fn law_schedule_is_sound(tasks: Seq<TaskView>, minutes: int, now: int)
    requires
        minutes >= 0,
    ensures
        spec_schedule(tasks, minutes, now).no_duplicates(),
        forall|j: int| 0 <= j < spec_schedule(tasks, minutes, now).len() ==> 0 <= #[trigger] spec_schedule(tasks, minutes, now)[j] < tasks.len(),
        forall|j: int| 0 <= j < spec_schedule(tasks, minutes, now).len() ==> tasks[#[trigger] spec_schedule(tasks, minutes, now)[j]].status == TaskStatus::Todo,
{
    let n = tasks.len() as int;
    let st0 = PlanState { chosen: seq![], remaining: minutes, stopped: false };
    lemma_overdue_round(tasks, n, now, st0, minutes);
    let s1 = overdue_round(tasks, n, now, st0);
    lemma_focus_round(tasks, n, s1, minutes);
    let s2 = focus_round(tasks, n, s1);
    lemma_fill_round(tasks, n, s2, minutes);
}

/// Most urgent first: no task comes before a more urgent one.
pub open spec fn by_urgency(s: Seq<TaskView>, now: int) -> bool {
    forall|i: int, j: int|
        0 <= i < j < s.len() ==> (#[trigger] s[i]).urgency_half_points(now) >= (#[trigger] s[j]).urgency_half_points(now)
}

/// Every task is at least `b` urgent.
pub open spec fn urgent_at_least(s: Seq<TaskView>, now: int, b: int) -> bool {
    forall|i: int| 0 <= i < s.len() ==> (#[trigger] s[i]).urgency_half_points(now) >= b
}

proof fn lemma_insert_keeps_bound(s: Seq<TaskView>, x: TaskView, now: int, b: int)
    requires
        urgent_at_least(s, now, b),
        x.urgency_half_points(now) >= b,
    ensures
        urgent_at_least(insert_by_urgency(s, x, now), now, b),
    decreases s.len(),
{
    if !(s.len() == 0 || s.last().urgency_half_points(now) >= x.urgency_half_points(now)) {
        lemma_insert_keeps_bound(s.drop_last(), x, now, b);
        let r = insert_by_urgency(s.drop_last(), x, now);
        assert forall|i: int| 0 <= i < r.push(s.last()).len() implies (#[trigger] r.push(s.last())[i]).urgency_half_points(now)
            >= b by {
            if i < r.len() {
                assert(r.push(s.last())[i] == r[i]);
            }
        }
    } else {
        assert forall|i: int| 0 <= i < s.push(x).len() implies (#[trigger] s.push(x)[i]).urgency_half_points(now) >= b by {
            if i < s.len() {
                assert(s.push(x)[i] == s[i]);
            }
        }
    }
}

proof fn lemma_insert_by_urgency(s: Seq<TaskView>, x: TaskView, now: int)
    requires
        by_urgency(s, now),
    ensures
        by_urgency(insert_by_urgency(s, x, now), now),
        insert_by_urgency(s, x, now).to_multiset() == s.to_multiset().insert(x),
    decreases s.len(),
{
    broadcast use vstd::seq_lib::to_multiset_build;

    if s.len() == 0 || s.last().urgency_half_points(now) >= x.urgency_half_points(now) {
        let r = s.push(x);
        assert forall|i: int, j: int| 0 <= i < j < r.len() implies (#[trigger] r[i]).urgency_half_points(now) >= (
        #[trigger] r[j]).urgency_half_points(now) by {
            if j < s.len() {
                assert(r[i] == s[i] && r[j] == s[j]);
            } else {
                assert(r[i] == s[i]);
                if i < s.len() - 1 {
                    assert(s[i].urgency_half_points(now) >= s[s.len() - 1].urgency_half_points(now));
                }
            }
        }
    } else {
        let d = s.drop_last();
        let last = s.last();
        assert(by_urgency(d, now)) by {
            assert forall|i: int, j: int| 0 <= i < j < d.len() implies (#[trigger] d[i]).urgency_half_points(now) >= (
            #[trigger] d[j]).urgency_half_points(now) by {
                assert(d[i] == s[i] && d[j] == s[j]);
            }
        }
        lemma_insert_by_urgency(d, x, now);
        let r = insert_by_urgency(d, x, now);
        assert(urgent_at_least(d, now, last.urgency_half_points(now))) by {
            assert forall|i: int| 0 <= i < d.len() implies (#[trigger] d[i]).urgency_half_points(now) >= last.urgency_half_points(
                now,
            ) by {
                assert(d[i] == s[i]);
                assert(s[s.len() - 1] == last);
            }
        }
        lemma_insert_keeps_bound(d, x, now, last.urgency_half_points(now));
        let rr = r.push(last);
        assert forall|i: int, j: int| 0 <= i < j < rr.len() implies (#[trigger] rr[i]).urgency_half_points(now) >= (
        #[trigger] rr[j]).urgency_half_points(now) by {
            assert(rr[i] == r[i]);
            if j < r.len() {
                assert(rr[j] == r[j]);
            }
        }
        assert(d.push(last) =~= s);
    }
}

/// Sorting by urgency puts the most urgent first and keeps exactly the tasks it
/// was given.
pub proof fn law_sort_by_urgency_orders_the_same_tasks(s: Seq<TaskView>, now: int)
    ensures
        by_urgency(sort_by_urgency(s, now), now),
        sort_by_urgency(s, now).to_multiset() == s.to_multiset(),
    decreases s.len(),
{
    broadcast use vstd::seq_lib::to_multiset_build;

    if s.len() > 0 {
        law_sort_by_urgency_orders_the_same_tasks(s.drop_last(), now);
        lemma_insert_by_urgency(sort_by_urgency(s.drop_last(), now), s.last(), now);
        assert(s.drop_last().push(s.last()) =~= s);
        assert(s.drop_last().push(s.last()).to_multiset() == s.drop_last().to_multiset().insert(s.last()));
    } else {
        assert(sort_by_urgency(s, now) =~= s);
    }
}

// ---------------------------------------------------------------- the budget and overdue-first laws

/// The minutes of the chosen tasks, counting 30 for a task without an estimate.
pub open spec fn planned_minutes(tasks: Seq<TaskView>, chosen: Seq<int>) -> int
    decreases chosen.len(),
{
    if chosen.len() == 0 {
        0
    } else {
        planned_minutes(tasks, chosen.drop_last()) + cost_or(tasks[chosen.last()], 30)
    }
}

proof fn lemma_planned_push(tasks: Seq<TaskView>, chosen: Seq<int>, x: int)
    ensures
        planned_minutes(tasks, chosen.push(x)) == planned_minutes(tasks, chosen) + cost_or(tasks[x], 30),
{
    assert(chosen.push(x).drop_last() =~= chosen);
}

/// The first round spends exactly what it charges, never adds to the minutes left,
/// takes only overdue tasks, and leaves out an overdue task only when its estimate
/// is more than the minutes left.
proof fn lemma_overdue_budget(tasks: Seq<TaskView>, k: int, now: int, st: PlanState)
    requires
        0 <= k <= tasks.len(),
        st.chosen.len() == 0,
    ensures
        ({
            let s = overdue_round(tasks, k, now, st);
            &&& planned_minutes(tasks, s.chosen) + s.remaining == st.remaining
            &&& s.remaining <= st.remaining
            &&& forall|j: int| 0 <= j < s.chosen.len() ==> tasks[#[trigger] s.chosen[j]].overdue_at(now)
            &&& forall|i: int|
                0 <= i < k && (#[trigger] tasks[i]).status == TaskStatus::Todo && tasks[i].overdue_at(now) && !s.chosen.contains(i)
                    ==> cost_or(tasks[i], 30) > s.remaining
        }),
    decreases k,
{
    if k > 0 {
        lemma_overdue_budget(tasks, k - 1, now, st);
        let prev = overdue_round(tasks, k - 1, now, st);
        let cur = overdue_round(tasks, k, now, st);
        lemma_planned_push(tasks, prev.chosen, k - 1);
        assert forall|j: int| 0 <= j < cur.chosen.len() implies tasks[#[trigger] cur.chosen[j]].overdue_at(now) by {
            if j < prev.chosen.len() {
                assert(cur.chosen[j] == prev.chosen[j]);
            }
        }
        assert forall|i: int|
            0 <= i < k && (#[trigger] tasks[i]).status == TaskStatus::Todo && tasks[i].overdue_at(now) && !cur.chosen.contains(i)
                implies cost_or(tasks[i], 30) > cur.remaining by {
            if i < k - 1 {
                if prev.chosen.contains(i) {
                    let m = choose|m: int| 0 <= m < prev.chosen.len() && prev.chosen[m] == i;
                    assert(cur.chosen[m] == i);
                }
            } else {
                if cur != prev {
                    assert(cur.chosen[prev.chosen.len() as int] == k - 1);
                }
            }
        }
    }
}

/// The second round never adds to the minutes left, charges at least the 30-minute
/// count, and takes no overdue task that the first round left out.
proof fn lemma_focus_budget(tasks: Seq<TaskView>, k: int, now: int, st: PlanState, r1: int, budget: int)
    requires
        0 <= k <= tasks.len(),
        st.remaining <= r1,
        planned_minutes(tasks, st.chosen) + st.remaining <= budget,
        forall|i: int|
            0 <= i < tasks.len() && (#[trigger] tasks[i]).status == TaskStatus::Todo && tasks[i].overdue_at(now) && !st.chosen.contains(i)
                ==> cost_or(tasks[i], 30) > r1,
    ensures
        ({
            let s = focus_round(tasks, k, st);
            &&& s.remaining <= st.remaining
            &&& planned_minutes(tasks, s.chosen) + s.remaining <= budget
            &&& s.chosen.len() >= st.chosen.len()
            &&& forall|j: int| 0 <= j < st.chosen.len() ==> s.chosen[j] == st.chosen[j]
            &&& forall|j: int| st.chosen.len() <= j < s.chosen.len() ==> !tasks[#[trigger] s.chosen[j]].overdue_at(now)
        }),
    decreases k,
{
    if k > 0 {
        lemma_focus_budget(tasks, k - 1, now, st, r1, budget);
        let prev = focus_round(tasks, k - 1, st);
        let cur = focus_round(tasks, k, st);
        lemma_planned_push(tasks, prev.chosen, k - 1);
        let t = tasks[k - 1];
        if cur.chosen != prev.chosen {
            assert(cur.chosen == prev.chosen.push(k - 1));
            assert(!t.overdue_at(now)) by {
                if t.overdue_at(now) {
                    assert(!st.chosen.contains(k - 1)) by {
                        if st.chosen.contains(k - 1) {
                            let m = choose|m: int| 0 <= m < st.chosen.len() && st.chosen[m] == k - 1;
                            assert(prev.chosen[m] == k - 1);
                        }
                    }
                }
            }
        }
    }
}

/// The third round never adds to the minutes left, charges exactly the 30-minute
/// count, and takes no overdue task that the first round left out.
proof fn lemma_fill_budget(tasks: Seq<TaskView>, k: int, now: int, st: PlanState, r1: int, base: Seq<int>, budget: int)
    requires
        0 <= k <= tasks.len(),
        st.remaining <= r1,
        planned_minutes(tasks, st.chosen) + st.remaining <= budget,
        forall|i: int| base.contains(i) ==> #[trigger] st.chosen.contains(i),
        forall|i: int|
            0 <= i < tasks.len() && (#[trigger] tasks[i]).status == TaskStatus::Todo && tasks[i].overdue_at(now) && !base.contains(i)
                ==> cost_or(tasks[i], 30) > r1,
    ensures
        ({
            let s = fill_round(tasks, k, st);
            &&& s.remaining <= st.remaining
            &&& planned_minutes(tasks, s.chosen) + s.remaining <= budget
            &&& s.chosen.len() >= st.chosen.len()
            &&& forall|j: int| 0 <= j < st.chosen.len() ==> s.chosen[j] == st.chosen[j]
            &&& forall|j: int| st.chosen.len() <= j < s.chosen.len() ==> !tasks[#[trigger] s.chosen[j]].overdue_at(now)
        }),
    decreases k,
{
    if k > 0 {
        lemma_fill_budget(tasks, k - 1, now, st, r1, base, budget);
        let prev = fill_round(tasks, k - 1, st);
        let cur = fill_round(tasks, k, st);
        lemma_planned_push(tasks, prev.chosen, k - 1);
        let t = tasks[k - 1];
        if cur.chosen != prev.chosen {
            assert(cur.chosen == prev.chosen.push(k - 1));
            assert(!t.overdue_at(now)) by {
                if t.overdue_at(now) {
                    assert(!base.contains(k - 1)) by {
                        if base.contains(k - 1) {
                            assert(st.chosen.contains(k - 1));
                            let m = choose|m: int| 0 <= m < st.chosen.len() && st.chosen[m] == k - 1;
                            assert(prev.chosen[m] == k - 1);
                            assert(prev.chosen.contains(k - 1));
                        }
                    }
                }
            }
        }
    }
}

/// A plan fits its minutes: counting 30 minutes for a task without an estimate, the
/// chosen tasks take no more than the minutes given. And overdue tasks come first:
/// no chosen task that is overdue follows one that is not.
pub proof fn law_schedule_fits_and_puts_overdue_first(tasks: Seq<TaskView>, minutes: int, now: int)
    requires
        minutes >= 0,
    ensures
        planned_minutes(tasks, spec_schedule(tasks, minutes, now)) <= minutes,
        forall|i: int, j: int|
            0 <= i < j < spec_schedule(tasks, minutes, now).len() && tasks[#[trigger] spec_schedule(tasks, minutes, now)[j]].overdue_at(now)
                ==> tasks[#[trigger] spec_schedule(tasks, minutes, now)[i]].overdue_at(now),
{
    let n = tasks.len() as int;
    let st0 = PlanState { chosen: seq![], remaining: minutes, stopped: false };
    lemma_overdue_budget(tasks, n, now, st0);
    lemma_overdue_round(tasks, n, now, st0, minutes);
    let s1 = overdue_round(tasks, n, now, st0);
    lemma_focus_budget(tasks, n, now, s1, s1.remaining, minutes);
    lemma_focus_round(tasks, n, s1, minutes);
    let s2 = focus_round(tasks, n, s1);
    assert forall|i: int| s1.chosen.contains(i) implies #[trigger] s2.chosen.contains(i) by {
        let m = choose|m: int| 0 <= m < s1.chosen.len() && s1.chosen[m] == i;
        assert(s2.chosen[m] == i);
    }
    lemma_fill_budget(tasks, n, now, s2, s1.remaining, s1.chosen, minutes);
    lemma_fill_round(tasks, n, s2, minutes);
    let s3 = fill_round(tasks, n, s2);
    let s = spec_schedule(tasks, minutes, now);
    assert(s == s3.chosen);
    assert forall|i: int, j: int|
        0 <= i < j < s.len() && tasks[#[trigger] s[j]].overdue_at(now) implies tasks[#[trigger] s[i]].overdue_at(now) by {
        if j < s1.chosen.len() {
            assert(s[i] == s1.chosen[i]);
        } else if j < s2.chosen.len() {
            assert(s[j] == s2.chosen[j]);
        }
    }
}

} // verus!
