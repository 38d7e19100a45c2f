//! Confirmed events that overlap one another.
use crate::models::{minutes_between, Event, EventStatus, EventView};
use vstd::prelude::*;

verus! {

#[derive(Debug)]
pub struct EventConflict {
    pub event_a: Event,
    pub event_b: Event,
    pub overlap_minutes: i64,
}

pub ghost struct ConflictView {
    pub event_a: EventView,
    pub event_b: EventView,
    pub overlap_minutes: int,
}

impl View for EventConflict {
    type V = ConflictView;

    open spec fn view(&self) -> ConflictView {
        ConflictView { event_a: self.event_a@, event_b: self.event_b@, overlap_minutes: self.overlap_minutes as int }
    }
}

pub open spec fn event_views(events: Seq<Event>) -> Seq<EventView> {
    events.map_values(|e: Event| e@)
}

/// Every event of the list is well formed.
pub open spec fn all_wf(events: Seq<EventView>) -> bool {
    forall|i: int| 0 <= i < events.len() ==> (#[trigger] events[i]).wf()
}

/// Whether every event of the list is well formed, as the analyses ask.
pub fn events_times_ok(events: &[Event]) -> (b: bool)
    ensures
        b == all_wf(event_views(events@)),
{
    let mut i: usize = 0;
    while i < events.len()
        invariant
            i <= events@.len(),
            forall|j: int| 0 <= j < i ==> (#[trigger] event_views(events@)[j]).wf(),
        decreases events@.len() - i,
    {
        if !events[i].times_ok() {
            assert(!event_views(events@)[i as int].wf());
            return false;
        }
        i += 1;
    }
    true
}

/// The confirmed events, in their order.
pub open spec fn confirmed(s: Seq<EventView>) -> Seq<EventView>
    decreases s.len(),
{
    if s.len() == 0 {
        seq![]
    } else {
        let rest = confirmed(s.drop_last());
        if s.last().status == EventStatus::Confirmed {
            rest.push(s.last())
        } else {
            rest
        }
    }
}

/// Whole minutes that two overlapping events share (never negative).
pub open spec fn overlap_minutes(a: EventView, b: EventView) -> int {
    let start = if a.start >= b.start {
        a.start as int
    } else {
        b.start as int
    };
    let end = if a.effective_end() <= b.effective_end() {
        a.effective_end()
    } else {
        b.effective_end()
    };
    let m = minutes_between(start, end);
    if m >= 0 {
        m
    } else {
        0
    }
}

pub open spec fn conflict_of(a: EventView, b: EventView) -> ConflictView {
    ConflictView { event_a: a, event_b: b, overlap_minutes: overlap_minutes(a, b) }
}

/// Conflicts of `c[i]` with the later events `c[i+1..j]`.
pub open spec fn row_upto(c: Seq<EventView>, i: int, j: int) -> Seq<ConflictView>
    decreases j - i,
{
    if j <= i + 1 {
        seq![]
    } else {
        let r = row_upto(c, i, j - 1);
        if c[i].overlaps(c[j - 1]) {
            r.push(conflict_of(c[i], c[j - 1]))
        } else {
            r
        }
    }
}

/// Conflicts of the events `c[..i]` with the events after each of them.
pub open spec fn conflicts_upto(c: Seq<EventView>, i: int) -> Seq<ConflictView>
    decreases i,
{
    if i <= 0 {
        seq![]
    } else {
        conflicts_upto(c, i - 1) + row_upto(c, i - 1, c.len() as int)
    }
}

/// Every overlapping pair of confirmed events, the earlier one in the list first,
/// ordered by the position of the first and then of the second.
pub open spec fn spec_conflicts(events: Seq<EventView>) -> Seq<ConflictView> {
    let c = confirmed(events);
    conflicts_upto(c, c.len() as int)
}

proof fn lemma_confirmed_wf(s: Seq<EventView>)
    requires
        all_wf(s),
    ensures
        all_wf(confirmed(s)),
        confirmed(s).len() <= s.len(),
        forall|i: int| 0 <= i < confirmed(s).len() ==> (#[trigger] confirmed(s)[i]).status == EventStatus::Confirmed,
    decreases s.len(),
{
    if s.len() > 0 {
        lemma_confirmed_wf(s.drop_last());
    }
}

pub fn overlap_minutes_exec(a: &Event, b: &Event) -> (m: i64)
    requires
        a@.wf(),
        b@.wf(),
    ensures
        m as int == overlap_minutes(a@, b@),
{
    let start = if a.start >= b.start {
        a.start
    } else {
        b.start
    };
    let a_end = a.effective_end();
    let b_end = b.effective_end();
    let end = if a_end <= b_end {
        a_end
    } else {
        b_end
    };
    let m = crate::models::minutes_between_exec(start, end);
    if m >= 0 {
        m
    } else {
        0
    }
}

/// Indices of the confirmed events.
fn confirmed_indices(events: &[Event]) -> (r: Vec<usize>)
    ensures
        r@.len() == confirmed(event_views(events@)).len(),
        forall|k: int| 0 <= k < r@.len() ==> 0 <= #[trigger] r@[k] < events@.len() && events@[r@[k] as int]@
            == confirmed(event_views(events@))[k],
{
    let ghost views = event_views(events@);
    let mut r: Vec<usize> = Vec::new();
    let mut i: usize = 0;
    while i < events.len()
        invariant
            i <= events@.len(),
            views == event_views(events@),
            r@.len() == confirmed(views.take(i as int)).len(),
            forall|k: int| 0 <= k < r@.len() ==> 0 <= #[trigger] r@[k] < i && events@[r@[k] as int]@
                == confirmed(views.take(i as int))[k],
        decreases events@.len() - i,
    {
        assert(views.take(i + 1).drop_last() =~= views.take(i as int));
        assert(views.take(i + 1).last() == events@[i as int]@);
        if events[i].status == EventStatus::Confirmed {
            r.push(i);
        }
        i += 1;
    }
    assert(views.take(events@.len() as int) =~= views);
    r
}

/// Every pair of confirmed events that share some moment, with the minutes they share.
pub fn find_conflicts(events: &[Event]) -> (r: Vec<EventConflict>)
    requires
        all_wf(event_views(events@)),
    ensures
        r@.map_values(|c: EventConflict| c@) == spec_conflicts(event_views(events@)),
{
    let ghost views = event_views(events@);
    let idx = confirmed_indices(events);
    let ghost c = confirmed(views);
    proof {
        lemma_confirmed_wf(views);
    }
    let mut r: Vec<EventConflict> = Vec::new();
    let mut i: usize = 0;
    while i < idx.len()
        invariant
            views == event_views(events@),
            c == confirmed(views),
            all_wf(c),
            idx@.len() == c.len(),
            forall|k: int| 0 <= k < idx@.len() ==> 0 <= #[trigger] idx@[k] < events@.len() && events@[idx@[k] as int]@ == c[k],
            i <= idx@.len(),
            r@.map_values(|x: EventConflict| x@) == conflicts_upto(c, i as int),
        decreases idx@.len() - i,
    {
        let a = &events[idx[i]];
        assert(a@ == c[i as int]);
        let mut j: usize = i + 1;
        let ghost before = r@.map_values(|x: EventConflict| x@);
        assert(row_upto(c, i as int, j as int) =~= seq![]);
        while j < idx.len()
            invariant
                c == confirmed(views),
                all_wf(c),
                idx@.len() == c.len(),
                forall|k: int| 0 <= k < idx@.len() ==> 0 <= #[trigger] idx@[k] < events@.len() && events@[idx@[k] as int]@ == c[k],
                i < idx@.len(),
                i + 1 <= j <= idx@.len(),
                a@ == c[i as int],
                r@.map_values(|x: EventConflict| x@) == before + row_upto(c, i as int, j as int),
            decreases idx@.len() - j,
        {
            let b = &events[idx[j]];
            assert(b@ == c[j as int]);
            assert(a@.wf() && b@.wf());
            if a.overlaps(b) {
                let m = overlap_minutes_exec(a, b);
                let conflict = EventConflict { event_a: a.duplicate(), event_b: b.duplicate(), overlap_minutes: m };
                let ghost old_r = r@;
                r.push(conflict);
                assert(r@.map_values(|x: EventConflict| x@) =~= old_r.map_values(|x: EventConflict| x@).push(conflict@));
            }
            j += 1;
        }
        i += 1;
    }
    r
}

/// Overlap is symmetric: `a` overlaps `b` exactly when `b` overlaps `a`.
pub proof fn law_overlap_symmetric(a: EventView, b: EventView)
    ensures
        a.overlaps(b) == b.overlaps(a),
{
}

proof fn lemma_row_sound(c: Seq<EventView>, i: int, j: int)
    requires
        0 <= i < c.len(),
        j <= c.len(),
    ensures
        forall|k: int| 0 <= k < row_upto(c, i, j).len() ==> {
            let x = #[trigger] row_upto(c, i, j)[k];
            x.event_a == c[i] && x.event_a.overlaps(x.event_b) && exists|m: int| i < m < j && x.event_b == c[m]
        },
    decreases j - i,
{
    if j > i + 1 {
        lemma_row_sound(c, i, j - 1);
        let r = row_upto(c, i, j - 1);
        assert forall|k: int| 0 <= k < row_upto(c, i, j).len() implies {
            let x = #[trigger] row_upto(c, i, j)[k];
            x.event_a == c[i] && x.event_a.overlaps(x.event_b) && exists|m: int| i < m < j && x.event_b == c[m]
        } by {
            if k < r.len() {
                assert(row_upto(c, i, j)[k] == r[k]);
            } else {
                assert(row_upto(c, i, j)[k].event_b == c[j - 1]);
            }
        }
    }
}

proof fn lemma_upto_sound(c: Seq<EventView>, i: int)
    requires
        0 <= i <= c.len(),
    ensures
        forall|k: int| 0 <= k < conflicts_upto(c, i).len() ==> {
            let x = #[trigger] conflicts_upto(c, i)[k];
            x.event_a.overlaps(x.event_b) && exists|p: int, q: int| 0 <= p < q < c.len() && x.event_a == c[p] && x.event_b == c[q]
        },
    decreases i,
{
    if i > 0 {
        lemma_upto_sound(c, i - 1);
        lemma_row_sound(c, i - 1, c.len() as int);
        let prev = conflicts_upto(c, i - 1);
        let row = row_upto(c, i - 1, c.len() as int);
        assert forall|k: int| 0 <= k < conflicts_upto(c, i).len() implies {
            let x = #[trigger] conflicts_upto(c, i)[k];
            x.event_a.overlaps(x.event_b) && exists|p: int, q: int| 0 <= p < q < c.len() && x.event_a == c[p] && x.event_b == c[q]
        } by {
            if k < prev.len() {
                assert(conflicts_upto(c, i)[k] == prev[k]);
            } else {
                let x = row[k - prev.len()];
                assert(conflicts_upto(c, i)[k] == x);
                let m = choose|m: int| i - 1 < m < c.len() && x.event_b == c[m];
                assert(0 <= i - 1 < m < c.len() && x.event_a == c[i - 1] && x.event_b == c[m]);
            }
        }
    }
}

/// Every reported conflict pairs two confirmed events of the input, the earlier one
/// first, that overlap.
pub proof fn law_conflicts_are_overlapping_confirmed_pairs(events: Seq<EventView>)
    ensures
        forall|k: int| 0 <= k < spec_conflicts(events).len() ==> {
            let x = #[trigger] spec_conflicts(events)[k];
            &&& x.event_a.overlaps(x.event_b)
            &&& x.event_a.status == EventStatus::Confirmed
            &&& x.event_b.status == EventStatus::Confirmed
            &&& exists|p: int, q: int| 0 <= p < q < confirmed(events).len() && x.event_a == confirmed(events)[p]
                && x.event_b == confirmed(events)[q]
        },
{
    let c = confirmed(events);
    lemma_confirmed_status(events);
    lemma_upto_sound(c, c.len() as int);
}

proof fn lemma_confirmed_status(s: Seq<EventView>)
    ensures
        forall|i: int| 0 <= i < confirmed(s).len() ==> (#[trigger] confirmed(s)[i]).status == EventStatus::Confirmed,
    decreases s.len(),
{
    if s.len() > 0 {
        lemma_confirmed_status(s.drop_last());
    }
}

proof fn lemma_row_len(c: Seq<EventView>, i: int, j: int)
    ensures
        row_upto(c, i, j).len() <= if j > i + 1 {
            j - i - 1
        } else {
            0
        },
    decreases j - i,
{
    if j > i + 1 {
        lemma_row_len(c, i, j - 1);
    }
}

proof fn lemma_upto_len(c: Seq<EventView>, i: int)
    requires
        0 <= i <= c.len(),
    ensures
        2 * conflicts_upto(c, i).len() <= 2 * i * (c.len() as int) - i * (i + 1),
    decreases i,
{
    if i > 0 {
        lemma_upto_len(c, i - 1);
        lemma_row_len(c, i - 1, c.len() as int);
        let n = c.len() as int;
        let prev = conflicts_upto(c, i - 1);
        let row = row_upto(c, i - 1, n);
        assert(conflicts_upto(c, i) == prev + row);
        assert(row.len() <= n - i);
        assert(2 * prev.len() <= 2 * (i - 1) * n - (i - 1) * i);
        assert(2 * (prev.len() + row.len()) <= 2 * i * n - i * (i + 1)) by (nonlinear_arith)
            requires
                row.len() <= n - i,
                2 * prev.len() <= 2 * (i - 1) * n - (i - 1) * i,
        ;
        assert((prev + row).len() == prev.len() + row.len());
        assert(2 * conflicts_upto(c, i).len() <= 2 * i * n - i * (i + 1));
    } else {
        assert(2 * i * (c.len() as int) - i * (i + 1) == 0) by (nonlinear_arith)
            requires
                i == 0,
        ;
    }
}

/// Each pair of events conflicts at most once: at most `n (n - 1) / 2` conflicts
/// among `n` events.
pub proof fn law_conflicts_at_most_one_per_pair(events: Seq<EventView>)
    ensures
        2 * spec_conflicts(events).len() <= events.len() * (events.len() - 1),
{
    let c = confirmed(events);
    lemma_confirmed_len(events);
    lemma_upto_len(c, c.len() as int);
    let m = c.len() as int;
    assert(2 * spec_conflicts(events).len() <= 2 * m * m - m * (m + 1));
    let n = events.len() as int;
    assert(2 * m * m - m * (m + 1) == m * (m - 1)) by (nonlinear_arith);
    assert(m * (m - 1) <= n * (n - 1)) by (nonlinear_arith)
        requires
            0 <= m <= n,
    ;
}

proof fn lemma_confirmed_len(s: Seq<EventView>)
    ensures
        confirmed(s).len() <= s.len(),
    decreases s.len(),
{
    if s.len() > 0 {
        lemma_confirmed_len(s.drop_last());
    }
}

} // verus!
