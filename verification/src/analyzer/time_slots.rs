//! Free time between the confirmed events of a working day.
use crate::analyzer::conflicts::{all_wf, event_views};
use crate::models::{AppSettings, Event, EventStatus, EventView};
use crate::time::{at_wall_hour, local_clock, local_to_utc, valid_time};
use vstd::prelude::*;

verus! {

#[derive(Debug, Clone, Copy, PartialEq, Eq, Structural)]
pub struct TimeSlot {
    pub start: i64,
    pub end: i64,
    pub duration_minutes: i64,
}

/// The part of each confirmed, timed event that falls into the working hours
/// `[work_start, work_end)`, as (start, end), in the order of the events; events
/// that miss the working hours leave nothing.
pub open spec fn busy_of(events: Seq<EventView>, work_start: int, work_end: int) -> Seq<(int, int)>
    decreases events.len(),
{
    if events.len() == 0 {
        seq![]
    } else {
        let rest = busy_of(events.drop_last(), work_start, work_end);
        let e = events.last();
        let s = if e.start >= work_start {
            e.start as int
        } else {
            work_start
        };
        let t = if e.effective_end() <= work_end {
            e.effective_end()
        } else {
            work_end
        };
        if e.status == EventStatus::Confirmed && !e.all_day && s < t {
            rest.push((s, t))
        } else {
            rest
        }
    }
}

/// `s` with `x` placed after every element that starts no later than `x`.
pub open spec fn insert_by_start(s: Seq<(int, int)>, x: (int, int)) -> Seq<(int, int)>
    decreases s.len(),
{
    if s.len() == 0 || s.last().0 <= x.0 {
        s.push(x)
    } else {
        insert_by_start(s.drop_last(), x).push(s.last())
    }
}

/// A stable sort by start.
pub open spec fn sort_by_start(s: Seq<(int, int)>) -> Seq<(int, int)>
    decreases s.len(),
{
    if s.len() == 0 {
        seq![]
    } else {
        insert_by_start(sort_by_start(s.drop_last()), s.last())
    }
}

/// The slot from `from` to `to`, with its length in whole minutes.
pub open spec fn slot(from: int, to: int) -> TimeSlot {
    TimeSlot { start: from as i64, end: to as i64, duration_minutes: ((to - from) / 60) as i64 }
}

/// Slots found and the cursor reached after sweeping the sorted busy periods `b[..k]`
/// from `cursor0`: a gap before a busy period becomes a slot when it lasts at least
/// `min` whole minutes, and the cursor moves to the latest end seen.
pub open spec fn sweep(b: Seq<(int, int)>, k: int, cursor0: int, min: int) -> (Seq<TimeSlot>, int)
    decreases k,
{
    if k <= 0 {
        (seq![], cursor0)
    } else {
        let (slots, c) = sweep(b, k - 1, cursor0, min);
        let (s, e) = b[k - 1];
        let slots2 = if c < s && (s - c) / 60 >= min {
            slots.push(slot(c, s))
        } else {
            slots
        };
        let c2 = if e > c {
            e
        } else {
            c
        };
        (slots2, c2)
    }
}

/// The free slots of a working day `[work_start, work_end)` from `now` on: the gaps
/// of at least `min` whole minutes between the confirmed timed events, in order.
pub open spec fn spec_free_slots(events: Seq<EventView>, min: int, now: int, work_start: int, work_end: int) -> Seq<TimeSlot> {
    let b = sort_by_start(busy_of(events, work_start, work_end));
    let cursor0 = if work_start >= now {
        work_start
    } else {
        now
    };
    let (slots, c) = sweep(b, b.len() as int, cursor0, min);
    if c < work_end && (work_end - c) / 60 >= min {
        slots.push(slot(c, work_end))
    } else {
        slots
    }
}

pub open spec fn in_range(b: Seq<(int, int)>, lo: int, hi: int) -> bool {
    forall|i: int| 0 <= i < b.len() ==> lo <= (#[trigger] b[i]).0 < b[i].1 <= hi
}

proof fn lemma_busy_in_range(events: Seq<EventView>, ws: int, we: int)
    ensures
        in_range(busy_of(events, ws, we), ws, we),
    decreases events.len(),
{
    if events.len() > 0 {
        lemma_busy_in_range(events.drop_last(), ws, we);
    }
}

proof fn lemma_insert_in_range(s: Seq<(int, int)>, x: (int, int), lo: int, hi: int)
    requires
        in_range(s, lo, hi),
        lo <= x.0 < x.1 <= hi,
    ensures
        in_range(insert_by_start(s, x), lo, hi),
        insert_by_start(s, x).len() == s.len() + 1,
    decreases s.len(),
{
    if s.len() > 0 && s.last().0 > x.0 {
        lemma_insert_in_range(s.drop_last(), x, lo, hi);
    }
}

proof fn lemma_sort_in_range(s: Seq<(int, int)>, lo: int, hi: int)
    requires
        in_range(s, lo, hi),
    ensures
        in_range(sort_by_start(s), lo, hi),
        sort_by_start(s).len() == s.len(),
    decreases s.len(),
{
    if s.len() > 0 {
        lemma_sort_in_range(s.drop_last(), lo, hi);
        lemma_insert_in_range(sort_by_start(s.drop_last()), s.last(), lo, hi);
    }
}

/// `insert_by_start(s, x)` is `s[..p] + [x] + s[p..]` when every element from `p` on
/// starts after `x` and the one before `p` (if any) does not.
proof fn lemma_insert_at(s: Seq<(int, int)>, x: (int, int), p: int)
    requires
        0 <= p <= s.len(),
        forall|k: int| p <= k < s.len() ==> (#[trigger] s[k]).0 > x.0,
        p > 0 ==> s[p - 1].0 <= x.0,
    ensures
        insert_by_start(s, x) == s.take(p).push(x) + s.skip(p),
    decreases s.len(),
{
    if p == s.len() {
        assert(s.take(p).push(x) + s.skip(p) =~= s.push(x));
    } else {
        lemma_insert_at(s.drop_last(), x, p);
        assert(s.drop_last().take(p) =~= s.take(p));
        assert((s.take(p).push(x) + s.drop_last().skip(p)).push(s.last()) =~= s.take(p).push(x) + s.skip(p));
    }
}

/// Places `x` after every element of `v` that starts no later than it.
fn insert_busy(v: &mut Vec<(i64, i64)>, x: (i64, i64))
    ensures
        busy_view(final(v)@) == insert_by_start(busy_view(old(v)@), (x.0 as int, x.1 as int)),
{
    let ghost s = busy_view(v@);
    let ghost xi = (x.0 as int, x.1 as int);
    let mut p = v.len();
    while p > 0 && v[p - 1].0 > x.0
        invariant
            p <= v@.len(),
            s == busy_view(v@),
            xi == (x.0 as int, x.1 as int),
            forall|k: int| p <= k < s.len() ==> (#[trigger] s[k]).0 > xi.0,
        decreases p,
    {
        assert(s[p - 1] == (v@[p - 1].0 as int, v@[p - 1].1 as int));
        p -= 1;
    }
    assert(p > 0 ==> s[p - 1] == (v@[p - 1].0 as int, v@[p - 1].1 as int));
    proof {
        lemma_insert_at(s, xi, p as int);
    }
    v.insert(p, x);
    assert(busy_view(v@) =~= s.take(p as int).push(xi) + s.skip(p as int));
}

pub open spec fn busy_view(v: Seq<(i64, i64)>) -> Seq<(int, int)> {
    v.map_values(|p: (i64, i64)| (p.0 as int, p.1 as int))
}

/// The busy periods of the working day, in the order of the events.
fn busy_periods(events: &[Event], work_start: i64, work_end: i64) -> (r: Vec<(i64, i64)>)
    requires
        all_wf(event_views(events@)),
    ensures
        busy_view(r@) == busy_of(event_views(events@), work_start as int, work_end as int),
{
    let ghost views = event_views(events@);
    let mut r: Vec<(i64, i64)> = Vec::new();
    let mut i: usize = 0;
    while i < events.len()
        invariant
            i <= events@.len(),
            views == event_views(events@),
            all_wf(views),
            busy_view(r@) == busy_of(views.take(i as int), work_start as int, work_end as int),
        decreases events@.len() - i,
    {
        let e = &events[i];
        assert(views.take(i + 1).drop_last() =~= views.take(i as int));
        assert(views.take(i + 1).last() == e@);
        assert(e@.wf()) by {
            assert(views[i as int] == e@);
        }
        let s = if e.start >= work_start {
            e.start
        } else {
            work_start
        };
        let end = e.effective_end();
        let t = if end <= work_end {
            end
        } else {
            work_end
        };
        if e.status == EventStatus::Confirmed && !e.all_day && s < t {
            let ghost old_r = r@;
            r.push((s, t));
            assert(busy_view(r@) =~= busy_view(old_r).push((s as int, t as int)));
        }
        i += 1;
    }
    assert(views.take(events@.len() as int) =~= views);
    r
}

/// The gaps of at least `min_minutes` whole minutes between the confirmed timed
/// events inside the working hours `[work_start, work_end)`, counted from `now` on.
pub fn free_slots_between(events: &[Event], min_minutes: u32, now: i64, work_start: i64, work_end: i64) -> (r: Vec<TimeSlot>)
    requires
        all_wf(event_views(events@)),
        valid_time(now as int),
        valid_time(work_start as int),
        valid_time(work_end as int),
    ensures
        r@ == spec_free_slots(event_views(events@), min_minutes as int, now as int, work_start as int, work_end as int),
{
    let ghost ws = work_start as int;
    let ghost we = work_end as int;
    let ghost min = min_minutes as int;
    let raw = busy_periods(events, work_start, work_end);
    let mut busy: Vec<(i64, i64)> = Vec::new();
    let mut i: usize = 0;
    proof {
        lemma_busy_in_range(event_views(events@), ws, we);
    }
    while i < raw.len()
        invariant
            i <= raw@.len(),
            busy_view(raw@) == busy_of(event_views(events@), ws, we),
            in_range(busy_view(raw@), ws, we),
            busy_view(busy@) == sort_by_start(busy_view(raw@).take(i as int)),
        decreases raw@.len() - i,
    {
        assert(busy_view(raw@).take(i + 1).drop_last() =~= busy_view(raw@).take(i as int));
        assert(busy_view(raw@).take(i + 1).last() == (raw@[i as int].0 as int, raw@[i as int].1 as int));
        insert_busy(&mut busy, raw[i]);
        i += 1;
    }
    assert(busy_view(raw@).take(raw@.len() as int) =~= busy_view(raw@));
    let ghost b = busy_view(busy@);
    proof {
        lemma_sort_in_range(busy_view(raw@), ws, we);
    }
    let min_dur = min_minutes as i64;
    let mut slots: Vec<TimeSlot> = Vec::new();
    let mut cursor = if work_start >= now {
        work_start
    } else {
        now
    };
    let ghost cursor0 = cursor as int;
    let mut k: usize = 0;
    while k < busy.len()
        invariant
            k <= busy@.len(),
            b == busy_view(busy@),
            in_range(b, ws, we),
            b.len() == busy@.len(),
            min == min_dur,
            valid_time(now as int),
            valid_time(ws),
            valid_time(we),
            (slots@, cursor as int) == sweep(b, k as int, cursor0, min),
            valid_time(cursor as int),
        decreases busy@.len() - k,
    {
        let (s, e) = busy[k];
        assert(b[k as int] == (s as int, e as int));
        if cursor < s {
            let dur = (s - cursor) / 60;
            if dur >= min_dur {
                slots.push(TimeSlot { start: cursor, end: s, duration_minutes: dur });
            }
        }
        if e > cursor {
            cursor = e;
        }
        k += 1;
    }
    if cursor < work_end {
        let dur = (work_end - cursor) / 60;
        if dur >= min_dur {
            slots.push(TimeSlot { start: cursor, end: work_end, duration_minutes: dur });
        }
    }
    slots
}

/// The free slots of today's working hours from now on, for the given events.
/// Working hours are wall-clock hours in the machine's time zone; an hour that the
/// zone skips is replaced by the present moment.
pub fn find_free_slots(events: &[Event], settings: &AppSettings) -> (r: Vec<TimeSlot>)
    requires
        all_wf(event_views(events@)),
    ensures
        exists|now: int, local: int, ws: int, we: int|
            {
                &&& valid_time(now) && valid_time(local) && valid_time(ws) && valid_time(we)
                &&& local - 86400 < now < local + 86400
                &&& at_wall_hour(local, work_hour(settings.work_start_hour), ws, now)
                &&& at_wall_hour(local, work_hour(settings.work_end_hour), we, now)
                &&& r@ == spec_free_slots(event_views(events@), settings.min_free_slot_minutes as int, now, ws, we)
            },
{
    let clock = local_clock();
    let now = clock.utc;
    let local = clock.naive;
    let start_hour: i64 = if settings.work_start_hour > 23 {
        23
    } else {
        settings.work_start_hour as i64
    };
    let end_hour: i64 = if settings.work_end_hour > 23 {
        23
    } else {
        settings.work_end_hour as i64
    };
    let work_start = wall_clock_hour_today(local, start_hour, now);
    let work_end = wall_clock_hour_today(local, end_hour, now);
    let r = free_slots_between(events, settings.min_free_slot_minutes, now, work_start, work_end);
    assert(start_hour == work_hour(settings.work_start_hour) && end_hour == work_hour(settings.work_end_hour));
    assert(at_wall_hour(local as int, work_hour(settings.work_start_hour), work_start as int, now as int));
    assert(at_wall_hour(local as int, work_hour(settings.work_end_hour), work_end as int, now as int));
    r
}

/// A working hour from the settings as an hour of the day (23 at most).
pub open spec fn work_hour(h: u8) -> int {
    if h > 23 {
        23
    } else {
        h as int
    }
}

/// The UTC second at which today (by the local reading `local`) shows `hour:00`
/// on the wall clock, or `fallback` when there is no such moment.
pub fn wall_clock_hour_today(local: i64, hour: i64, fallback: i64) -> (r: i64)
    requires
        0 <= hour <= 23,
        valid_time(fallback as int),
    ensures
        valid_time(r as int),
        valid_time(local as int) ==> at_wall_hour(local as int, hour as int, r as int, fallback as int),
{
    if local < crate::time::MIN_TIME || local > crate::time::MAX_TIME {
        return fallback;
    }
    let into_day: i64 = match local.checked_rem_euclid(86400) {
        Some(x) => x,
        None => 0,
    };
    let naive = local - into_day + hour * 3600;
    match local_to_utc(naive) {
        Some(u) => u,
        None => fallback,
    }
}

// ---------------------------------------------------------------- the free-time law

/// The periods `[a0, a1)` and `[b0, b1)` share no moment.
pub open spec fn disjoint(a0: int, a1: int, b0: int, b1: int) -> bool {
    (if a0 >= b0 {
        a0
    } else {
        b0
    }) >= (if a1 <= b1 {
        a1
    } else {
        b1
    })
}

pub open spec fn sorted_by_start(b: Seq<(int, int)>) -> bool {
    forall|i: int, j: int| 0 <= i < j < b.len() ==> (#[trigger] b[i]).0 <= (#[trigger] b[j]).0
}

proof fn lemma_insert_props(s: Seq<(int, int)>, x: (int, int))
    ensures
        insert_by_start(s, x).len() == s.len() + 1,
        insert_by_start(s, x).contains(x),
        forall|y: (int, int)| s.contains(y) ==> insert_by_start(s, x).contains(y),
        sorted_by_start(s) ==> sorted_by_start(insert_by_start(s, x)),
        forall|y: (int, int)| #[trigger] insert_by_start(s, x).contains(y) ==> y == x || s.contains(y),
    decreases s.len(),
{
    let r = insert_by_start(s, x);
    if s.len() == 0 || s.last().0 <= x.0 {
        assert(r[s.len() as int] == x);
        assert forall|y: (int, int)| s.contains(y) implies r.contains(y) by {
            let k = choose|k: int| 0 <= k < s.len() && s[k] == y;
            assert(r[k] == y);
        }
        assert forall|y: (int, int)| #[trigger] r.contains(y) implies y == x || s.contains(y) by {
            let k = choose|k: int| 0 <= k < r.len() && r[k] == y;
            if k < s.len() {
                assert(s[k] == y);
            }
        }
    } else {
        let d = s.drop_last();
        lemma_insert_props(d, x);
        let q = insert_by_start(d, x);
        assert(r == q.push(s.last()));
        assert(r.contains(x)) by {
            let k = choose|k: int| 0 <= k < q.len() && q[k] == x;
            assert(r[k] == x);
        }
        assert forall|y: (int, int)| s.contains(y) implies r.contains(y) by {
            let k = choose|k: int| 0 <= k < s.len() && s[k] == y;
            if k == s.len() - 1 {
                assert(r[q.len() as int] == y);
            } else {
                assert(d[k] == y);
                assert(d.contains(y));
                let m = choose|m: int| 0 <= m < q.len() && q[m] == y;
                assert(r[m] == y);
            }
        }
        assert forall|y: (int, int)| #[trigger] r.contains(y) implies y == x || s.contains(y) by {
            let k = choose|k: int| 0 <= k < r.len() && r[k] == y;
            if k < q.len() {
                assert(q[k] == y);
                assert(q.contains(y));
                if y != x {
                    let m = choose|m: int| 0 <= m < d.len() && d[m] == y;
                    assert(s[m] == y);
                }
            } else {
                assert(s[s.len() - 1] == y);
            }
        }
        if sorted_by_start(s) {
            assert(sorted_by_start(d));
            assert forall|i: int, j: int| 0 <= i < j < r.len() implies (#[trigger] r[i]).0 <= (#[trigger] r[j]).0 by {
                if j == r.len() - 1 {
                    assert(r[j] == s.last());
                    assert(q.contains(r[i])) by {
                        assert(q[i] == r[i]);
                    }
                    if r[i] != x {
                        assert(d.contains(r[i]));
                        let m = choose|m: int| 0 <= m < d.len() && d[m] == r[i];
                        assert(s[m] == r[i]);
                    }
                } else {
                    assert(r[i] == q[i] && r[j] == q[j]);
                }
            }
        }
    }
}

proof fn lemma_sort_props(s: Seq<(int, int)>)
    ensures
        sorted_by_start(sort_by_start(s)),
        forall|y: (int, int)| s.contains(y) ==> sort_by_start(s).contains(y),
        forall|y: (int, int)| #[trigger] sort_by_start(s).contains(y) ==> s.contains(y),
    decreases s.len(),
{
    if s.len() > 0 {
        let d = s.drop_last();
        lemma_sort_props(d);
        lemma_insert_props(sort_by_start(d), s.last());
        assert forall|y: (int, int)| #[trigger] sort_by_start(s).contains(y) implies s.contains(y) by {
            if y == s.last() {
                assert(s[s.len() - 1] == y);
            } else {
                assert(d.contains(y));
                let k = choose|k: int| 0 <= k < d.len() && d[k] == y;
                assert(s[k] == y);
            }
        }
        assert forall|y: (int, int)| s.contains(y) implies sort_by_start(s).contains(y) by {
            let k = choose|k: int| 0 <= k < s.len() && s[k] == y;
            if k < s.len() - 1 {
                assert(d[k] == y);
                assert(d.contains(y));
            }
        }
    }
}

/// After sweeping `b[..k]`: every period seen ends by the cursor, the cursor is at
/// least where it began, and every slot lies between `cursor0` and the cursor and
/// misses every period of `b`.
proof fn lemma_sweep(b: Seq<(int, int)>, k: int, cursor0: int, min: int, hi: int)
    requires
        forall|i: int| 0 <= i < b.len() ==> (#[trigger] b[i]).1 <= hi,
        sorted_by_start(b),
        0 <= k <= b.len(),
        forall|i: int| 0 <= i < b.len() ==> (#[trigger] b[i]).0 < b[i].1,
        forall|i: int| 0 <= i < b.len() ==> valid_time((#[trigger] b[i]).0) && valid_time(b[i].1),
        valid_time(cursor0),
    ensures
        ({
            let (slots, c) = sweep(b, k, cursor0, min);
            &&& c >= cursor0
            &&& valid_time(c)
            &&& forall|j: int| 0 <= j < k ==> (#[trigger] b[j]).1 <= c
            &&& forall|i: int| 0 <= i < slots.len() ==> {
                let sl = #[trigger] slots[i];
                &&& cursor0 <= sl.start < sl.end <= c
                &&& sl.end <= hi
                &&& sl.duration_minutes >= min
                &&& sl.duration_minutes == (sl.end - sl.start) / 60
                &&& forall|j: int| 0 <= j < b.len() ==> disjoint(sl.start as int, sl.end as int, (#[trigger] b[j]).0, b[j].1)
            }
        }),
    decreases k,
{
    if k > 0 {
        lemma_sweep(b, k - 1, cursor0, min, hi);
        let (slots, c) = sweep(b, k - 1, cursor0, min);
        let (s, e) = b[k - 1];
        let (slots2, c2) = sweep(b, k, cursor0, min);
        if c < s && (s - c) / 60 >= min {
            let sl = slot(c, s);
            assert(slots2 == slots.push(sl));
            assert(sl.start == c && sl.end == s);
            assert(valid_time(c) && valid_time(s));
            assert forall|j: int| 0 <= j < b.len() implies disjoint(sl.start as int, sl.end as int, (#[trigger] b[j]).0, b[j].1) by {
                if j < k - 1 {
                    assert(b[j].1 <= c);
                } else {
                    assert(b[k - 1].0 <= b[j].0);
                }
            }
            assert forall|i: int| 0 <= i < slots2.len() implies {
                let sl2 = #[trigger] slots2[i];
                &&& cursor0 <= sl2.start < sl2.end <= c2
                &&& sl2.end <= hi
                &&& sl2.duration_minutes >= min
                &&& sl2.duration_minutes == (sl2.end - sl2.start) / 60
                &&& forall|j: int| 0 <= j < b.len() ==> disjoint(sl2.start as int, sl2.end as int, (#[trigger] b[j]).0, b[j].1)
            } by {
                if i < slots.len() {
                    assert(slots2[i] == slots[i]);
                }
            }
        }
    }
}

proof fn lemma_busy_has(events: Seq<EventView>, ws: int, we: int, i: int)
    requires
        0 <= i < events.len(),
    ensures
        ({
            let e = events[i];
            let s = if e.start >= ws {
                e.start as int
            } else {
                ws
            };
            let t = if e.effective_end() <= we {
                e.effective_end()
            } else {
                we
            };
            e.status == EventStatus::Confirmed && !e.all_day && s < t ==> busy_of(events, ws, we).contains((s, t))
        }),
    decreases events.len(),
{
    let r = busy_of(events, ws, we);
    let p = busy_of(events.drop_last(), ws, we);
    if i < events.len() - 1 {
        lemma_busy_has(events.drop_last(), ws, we, i);
        assert(events.drop_last()[i] == events[i]);
        assert forall|y: (int, int)| p.contains(y) implies r.contains(y) by {
            let k = choose|k: int| 0 <= k < p.len() && p[k] == y;
            assert(r[k] == y);
        }
    } else {
        let e = events[i];
        let s = if e.start >= ws {
            e.start as int
        } else {
            ws
        };
        let t = if e.effective_end() <= we {
            e.effective_end()
        } else {
            we
        };
        if e.status == EventStatus::Confirmed && !e.all_day && s < t {
            assert(r[p.len() as int] == (s, t));
        }
    }
}

/// Free time is free: every slot lies inside the working hours from `now` on,
/// lasts at least `min` whole minutes, and shares no moment with any confirmed,
/// timed event.
pub proof fn law_free_slots_are_free(events: Seq<EventView>, min: int, now: int, ws: int, we: int)
    requires
        valid_time(now),
        valid_time(ws),
        valid_time(we),
    ensures
        forall|i: int| 0 <= i < spec_free_slots(events, min, now, ws, we).len() ==> {
            let sl = #[trigger] spec_free_slots(events, min, now, ws, we)[i];
            &&& ws <= sl.start < sl.end <= we
            &&& now <= sl.start
            &&& sl.duration_minutes >= min
            &&& forall|j: int| 0 <= j < events.len() && (#[trigger] events[j]).status == EventStatus::Confirmed
                && !events[j].all_day ==> disjoint(sl.start as int, sl.end as int, events[j].start as int, events[j].effective_end())
        },
{
    let raw = busy_of(events, ws, we);
    let b = sort_by_start(raw);
    lemma_busy_in_range(events, ws, we);
    lemma_sort_in_range(raw, ws, we);
    lemma_sort_props(raw);
    let cursor0 = if ws >= now {
        ws
    } else {
        now
    };
    assert forall|i: int| 0 <= i < b.len() implies valid_time((#[trigger] b[i]).0) && valid_time(b[i].1) && b[i].0 < b[i].1 by {
        assert(ws <= b[i].0 < b[i].1 <= we);
    }
    lemma_sweep(b, b.len() as int, cursor0, min, we);
    let (slots, c) = sweep(b, b.len() as int, cursor0, min);
    let all = spec_free_slots(events, min, now, ws, we);
    assert forall|i: int| 0 <= i < all.len() implies {
        let sl = #[trigger] all[i];
        &&& ws <= sl.start < sl.end <= we
        &&& now <= sl.start
        &&& sl.duration_minutes >= min
        &&& forall|j: int| 0 <= j < events.len() && (#[trigger] events[j]).status == EventStatus::Confirmed
            && !events[j].all_day ==> disjoint(sl.start as int, sl.end as int, events[j].start as int, events[j].effective_end())
    } by {
        let sl = all[i];
        assert(forall|j: int| 0 <= j < b.len() ==> disjoint(sl.start as int, sl.end as int, (#[trigger] b[j]).0, b[j].1)) by {
            if i < slots.len() {
                assert(all[i] == slots[i]);
            } else {
                assert(sl.start == c);
                assert forall|j: int| 0 <= j < b.len() implies disjoint(sl.start as int, sl.end as int, (#[trigger] b[j]).0, b[j].1) by {
                    assert(b[j].1 <= c);
                }
            }
        }
        if i < slots.len() {
            assert(all[i] == slots[i]);
        }
        assert(ws <= sl.start < sl.end <= we) by {
            if i < slots.len() {
                assert(all[i] == slots[i]);
            } else {
                assert(c < we && (we - c) / 60 >= min);
                assert(all == slots.push(slot(c, we)));
                assert(all[i] == slot(c, we));
                assert(c >= ws);
            }
        }
        assert forall|j: int| 0 <= j < events.len() && (#[trigger] events[j]).status == EventStatus::Confirmed
            && !events[j].all_day implies disjoint(sl.start as int, sl.end as int, events[j].start as int, events[j].effective_end()) by {
            let e = events[j];
            let s = if e.start >= ws {
                e.start as int
            } else {
                ws
            };
            let t = if e.effective_end() <= we {
                e.effective_end()
            } else {
                we
            };
            lemma_busy_has(events, ws, we, j);
            if s < t {
                assert(raw.contains((s, t)));
                assert(b.contains((s, t)));
                let m = choose|m: int| 0 <= m < b.len() && b[m] == (s, t);
                assert(disjoint(sl.start as int, sl.end as int, b[m].0, b[m].1));
            }
        }
    }
}

/// The stretch `[a, z)` shares no moment with any period of `b`.
pub open spec fn free_of(b: Seq<(int, int)>, a: int, z: int) -> bool {
    forall|j: int| 0 <= j < b.len() ==> disjoint(a, z, (#[trigger] b[j]).0, b[j].1)
}

/// Some slot holds the whole stretch `[a, z)`.
pub open spec fn covered(slots: Seq<TimeSlot>, a: int, z: int) -> bool {
    exists|i: int| 0 <= i < slots.len() && (#[trigger] slots[i]).start <= a && z <= slots[i].end
}

/// After sweeping `b[..k]`: the cursor is where it began or the end of a period
/// seen, and every free stretch of at least `min` whole minutes from `cursor0` up to
/// the cursor lies inside a slot found.
proof fn lemma_sweep_covers(b: Seq<(int, int)>, k: int, cursor0: int, min: int)
    requires
        0 <= k <= b.len(),
        forall|i: int| 0 <= i < b.len() ==> (#[trigger] b[i]).0 < b[i].1,
        forall|i: int| 0 <= i < b.len() ==> valid_time((#[trigger] b[i]).0) && valid_time(b[i].1),
        valid_time(cursor0),
    ensures
        ({
            let (slots, c) = sweep(b, k, cursor0, min);
            &&& valid_time(c)
            &&& (c == cursor0 || exists|j: int| 0 <= j < k && (#[trigger] b[j]).1 == c)
            &&& forall|a: int, z: int|
                #![trigger free_of(b, a, z), covered(slots, a, z)]
                free_of(b, a, z) && cursor0 <= a < z <= c && (z - a) / 60 >= min ==> covered(slots, a, z)
        }),
    decreases k,
{
    if k > 0 {
        lemma_sweep_covers(b, k - 1, cursor0, min);
        let (slots, c) = sweep(b, k - 1, cursor0, min);
        let (s, e) = b[k - 1];
        let (slots2, c2) = sweep(b, k, cursor0, min);
        assert(forall|i: int| 0 <= i < slots.len() ==> slots2[i] == slots[i]);
        if c2 != cursor0 && c2 != c {
            assert(b[k - 1].1 == c2);
        }
        if c2 == c && c != cursor0 {
            let j = choose|j: int| 0 <= j < k - 1 && (#[trigger] b[j]).1 == c;
            assert(b[j].1 == c2);
        }
        assert forall|a: int, z: int|
            #![trigger free_of(b, a, z), covered(slots2, a, z)]
            free_of(b, a, z) && cursor0 <= a < z <= c2 && (z - a) / 60 >= min implies covered(slots2, a, z) by {
            if z <= c {
                assert(covered(slots, a, z));
                let i = choose|i: int| 0 <= i < slots.len() && (#[trigger] slots[i]).start <= a && z <= slots[i].end;
                assert(slots2[i] == slots[i]);
            } else {
                // The stretch cannot straddle the cursor: the cursor is where the
                // sweep began or the end of a period it may not overlap.
                assert(c <= a) by {
                    if c != cursor0 {
                        let j = choose|j: int| 0 <= j < k - 1 && (#[trigger] b[j]).1 == c;
                        assert(disjoint(a, z, b[j].0, b[j].1));
                    }
                }
                assert(disjoint(a, z, b[k - 1].0, b[k - 1].1));
                assert(z <= s);
                assert((s - c) / 60 >= (z - a) / 60) by (nonlinear_arith)
                    requires
                        s - c >= z - a,
                        z - a > 0,
                ;
                let sl = slot(c, s);
                assert(slots2 == slots.push(sl));
                assert(slots2[slots.len() as int] == sl);
                assert(sl.start == c && sl.end == s);
            }
        }
    }
}

/// Free time is found: every stretch from `now` on inside the working hours that
/// lasts at least `min` whole minutes and shares no moment with any confirmed,
/// timed event lies inside one of the slots returned.
pub proof fn law_free_time_is_found(events: Seq<EventView>, min: int, now: int, ws: int, we: int, a: int, z: int)
    requires
        valid_time(now),
        valid_time(ws),
        valid_time(we),
        ws <= a,
        now <= a,
        a < z <= we,
        (z - a) / 60 >= min,
        forall|j: int|
            0 <= j < events.len() && (#[trigger] events[j]).status == EventStatus::Confirmed && !events[j].all_day
                ==> disjoint(a, z, events[j].start as int, events[j].effective_end()),
    ensures
        covered(spec_free_slots(events, min, now, ws, we), a, z),
{
    let raw = busy_of(events, ws, we);
    let b = sort_by_start(raw);
    lemma_busy_in_range(events, ws, we);
    lemma_sort_in_range(raw, ws, we);
    lemma_sort_props(raw);
    lemma_busy_from(events, ws, we);
    let cursor0 = if ws >= now {
        ws
    } else {
        now
    };
    assert forall|i: int| 0 <= i < b.len() implies valid_time((#[trigger] b[i]).0) && valid_time(b[i].1) && b[i].0 < b[i].1 by {
        assert(ws <= b[i].0 < b[i].1 <= we);
    }
    assert(free_of(b, a, z)) by {
        assert forall|m: int| 0 <= m < b.len() implies disjoint(a, z, (#[trigger] b[m]).0, b[m].1) by {
            assert(b.contains(b[m]));
            assert(raw.contains(b[m]));
            let j = choose|j: int| 0 <= j < events.len() && clipped(events[j], ws, we) == b[m] && (#[trigger] events[j]).status == EventStatus::Confirmed && !events[j].all_day;
            assert(disjoint(a, z, events[j].start as int, events[j].effective_end()));
        }
    }
    lemma_sweep_covers(b, b.len() as int, cursor0, min);
    let (slots, c) = sweep(b, b.len() as int, cursor0, min);
    let all = spec_free_slots(events, min, now, ws, we);
    if z <= c {
        assert(covered(slots, a, z));
        let i = choose|i: int| 0 <= i < slots.len() && (#[trigger] slots[i]).start <= a && z <= slots[i].end;
        assert(all[i] == slots[i]);
    } else {
        assert(c <= a) by {
            if c != cursor0 {
                let j = choose|j: int| 0 <= j < b.len() && (#[trigger] b[j]).1 == c;
                assert(disjoint(a, z, b[j].0, b[j].1));
            }
        }
        assert((we - c) / 60 >= (z - a) / 60) by (nonlinear_arith)
            requires
                we - c >= z - a,
                z - a > 0,
        ;
        assert(all == slots.push(slot(c, we)));
        assert(all[slots.len() as int] == slot(c, we));
    }
}

/// The part of an event inside the working hours `[ws, we)`.
pub open spec fn clipped(e: EventView, ws: int, we: int) -> (int, int) {
    (if e.start >= ws {
        e.start as int
    } else {
        ws
    }, if e.effective_end() <= we {
        e.effective_end()
    } else {
        we
    })
}

/// Each busy period is the part of a confirmed, timed event inside the working hours.
proof fn lemma_busy_from(events: Seq<EventView>, ws: int, we: int)
    ensures
        forall|y: (int, int)| #[trigger] busy_of(events, ws, we).contains(y) ==> exists|j: int|
            0 <= j < events.len() && clipped(events[j], ws, we) == y && (#[trigger] events[j]).status == EventStatus::Confirmed
                && !events[j].all_day,
    decreases events.len(),
{
    if events.len() > 0 {
        let d = events.drop_last();
        lemma_busy_from(d, ws, we);
        let p = busy_of(d, ws, we);
        let r = busy_of(events, ws, we);
        assert forall|y: (int, int)| #[trigger] r.contains(y) implies exists|j: int|
            0 <= j < events.len() && clipped(events[j], ws, we) == y && (#[trigger] events[j]).status == EventStatus::Confirmed
                && !events[j].all_day by {
            let k = choose|k: int| 0 <= k < r.len() && r[k] == y;
            if k < p.len() {
                assert(p[k] == y);
                assert(p.contains(y));
                let j = choose|j: int| 0 <= j < d.len() && clipped(d[j], ws, we) == y && (#[trigger] d[j]).status == EventStatus::Confirmed && !d[j].all_day;
                assert(events[j] == d[j]);
            } else {
                assert(events[events.len() - 1] == events.last());
            }
        }
    }
}

} // verus!
