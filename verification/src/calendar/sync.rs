//! Bringing the events of one calendar up to date with what its feed holds.
use crate::analyzer::conflicts::event_views;
use crate::models::{Event, EventView};
use crate::text::copy_string;
use vstd::prelude::*;

verus! {

/// The event belongs to the calendar `cal`.
pub open spec fn in_calendar(e: EventView, cal: Seq<char>) -> bool {
    e.calendar_id == Some(cal)
}

/// The id of the first stored event of `cal` with the external id `uid`.
pub open spec fn matching_id(stored: Seq<EventView>, cal: Seq<char>, uid: Option<Seq<char>>) -> Option<Seq<char>>
    decreases stored.len(),
{
    if stored.len() == 0 || uid is None {
        None
    } else {
        let e = stored[0];
        if in_calendar(e, cal) && e.external_uid == uid {
            Some(e.id)
        } else {
            matching_id(stored.drop_first(), cal, uid)
        }
    }
}

/// A feed event as it is stored: in the calendar `cal`, under the id of the stored
/// event with the same external id when there is one.
pub open spec fn synced(stored: Seq<EventView>, cal: Seq<char>, f: EventView) -> EventView {
    let id = match matching_id(stored, cal, f.external_uid) {
        Some(i) => i,
        None => f.id,
    };
    EventView { id, calendar_id: Some(cal), ..f }
}

/// The feed holds an event with the external id `uid`.
pub open spec fn feed_has_uid(feed: Seq<EventView>, uid: Option<Seq<char>>) -> bool {
    uid is Some && exists|i: int| 0 <= i < feed.len() && (#[trigger] feed[i]).external_uid == uid
}

/// Ids of the stored events of `cal` that the feed no longer holds.
pub open spec fn stale_ids(stored: Seq<EventView>, cal: Seq<char>, feed: Seq<EventView>) -> Seq<Seq<char>>
    decreases stored.len(),
{
    if stored.len() == 0 {
        seq![]
    } else {
        let rest = stale_ids(stored.drop_last(), cal, feed);
        let e = stored.last();
        if in_calendar(e, cal) && !feed_has_uid(feed, e.external_uid) {
            rest.push(e.id)
        } else {
            rest
        }
    }
}

pub ghost struct SyncPlanView {
    pub upserts: Seq<EventView>,
    pub deletions: Seq<Seq<char>>,
}

/// What a sync writes: every feed event, stored under the id of the event it
/// replaces; and what it deletes: the calendar's events that left the feed.
pub open spec fn spec_sync_plan(stored: Seq<EventView>, cal: Seq<char>, feed: Seq<EventView>) -> SyncPlanView {
    SyncPlanView {
        upserts: feed.map_values(|f: EventView| synced(stored, cal, f)),
        deletions: stale_ids(stored, cal, feed),
    }
}

#[derive(Debug)]
pub struct CalendarSyncPlan {
    /// Events to write (insert, or replace the event with the same id).
    pub upserts: Vec<Event>,
    /// Ids of events to delete.
    pub deletions: Vec<String>,
}

impl View for CalendarSyncPlan {
    type V = SyncPlanView;

    open spec fn view(&self) -> SyncPlanView {
        SyncPlanView {
            upserts: event_views(self.upserts@),
            deletions: self.deletions@.map_values(|s: String| s@),
        }
    }
}

fn same_opt(a: &Option<String>, b: &Option<String>) -> (r: bool)
    ensures
        r == (crate::models::ostr(*a) == crate::models::ostr(*b)),
{
    match (a, b) {
        (Some(x), Some(y)) => *x == *y,
        (None, None) => true,
        _ => false,
    }
}

fn in_calendar_exec(e: &Event, cal: &str) -> (r: bool)
    ensures
        r == in_calendar(e@, cal@),
{
    match &e.calendar_id {
        Some(c) => {
            let cv = crate::text::chars_of(c.as_str());
            let calv = crate::text::chars_of(cal);
            slices_equal(cv.as_slice(), calv.as_slice())
        },
        None => false,
    }
}

fn slices_equal(a: &[char], b: &[char]) -> (r: bool)
    ensures
        r == (a@ == b@),
{
    if a.len() != b.len() {
        return false;
    }
    let mut i: usize = 0;
    while i < a.len()
        invariant
            i <= a@.len(),
            a@.len() == b@.len(),
            forall|j: int| 0 <= j < i ==> a@[j] == b@[j],
        decreases a@.len() - i,
    {
        if a[i] != b[i] {
            return false;
        }
        i += 1;
    }
    assert(a@ =~= b@);
    true
}

fn matching_id_exec(stored: &[Event], cal: &str, uid: &Option<String>) -> (r: Option<String>)
    ensures
        crate::models::ostr(r) == matching_id(event_views(stored@), cal@, crate::models::ostr(*uid)),
{
    let ghost views = event_views(stored@);
    if uid.is_none() {
        return None;
    }
    let mut i: usize = 0;
    assert(views.skip(0) =~= views);
    while i < stored.len()
        invariant
            i <= stored@.len(),
            views == event_views(stored@),
            uid is Some,
            matching_id(views, cal@, crate::models::ostr(*uid)) == matching_id(views.skip(i as int), cal@, crate::models::ostr(*uid)),
        decreases stored@.len() - i,
    {
        let e = &stored[i];
        assert(views.skip(i as int)[0] == e@);
        assert(views.skip(i as int).drop_first() =~= views.skip(i + 1));
        if in_calendar_exec(e, cal) && same_opt(&e.external_uid, uid) {
            return Some(copy_string(&e.id));
        }
        i += 1;
    }
    None
}

fn feed_has_uid_exec(feed: &Vec<Event>, uid: &Option<String>) -> (r: bool)
    ensures
        r == feed_has_uid(event_views(feed@), crate::models::ostr(*uid)),
{
    let ghost views = event_views(feed@);
    if uid.is_none() {
        return false;
    }
    let mut i: usize = 0;
    while i < feed.len()
        invariant
            i <= feed@.len(),
            views == event_views(feed@),
            uid is Some,
            forall|j: int| 0 <= j < i ==> (#[trigger] views[j]).external_uid != crate::models::ostr(*uid),
        decreases feed@.len() - i,
    {
        if same_opt(&feed[i].external_uid, uid) {
            assert(views[i as int].external_uid == crate::models::ostr(*uid));
            return true;
        }
        i += 1;
    }
    false
}

/// What to write and what to delete so that the calendar `calendar_id` holds
/// exactly the events of `feed`: each feed event takes the id of the stored event of
/// that calendar with the same external id, so a changed event is updated in place;
/// stored events of the calendar that left the feed are deleted; other calendars and
/// events entered by hand are not touched.
pub fn plan_calendar_sync(stored: &[Event], calendar_id: &str, feed: Vec<Event>) -> (r: CalendarSyncPlan)
    ensures
        r@ == spec_sync_plan(event_views(stored@), calendar_id@, event_views(feed@)),
{
    let ghost sv = event_views(stored@);
    let ghost fv = event_views(feed@);
    let mut deletions: Vec<String> = Vec::new();
    let mut i: usize = 0;
    while i < stored.len()
        invariant
            i <= stored@.len(),
            sv == event_views(stored@),
            fv == event_views(feed@),
            deletions@.map_values(|s: String| s@) == stale_ids(sv.take(i as int), calendar_id@, fv),
        decreases stored@.len() - i,
    {
        let e = &stored[i];
        assert(sv.take(i + 1).drop_last() =~= sv.take(i as int));
        assert(sv.take(i + 1).last() == e@);
        if in_calendar_exec(e, calendar_id) && !feed_has_uid_exec(&feed, &e.external_uid) {
            let ghost before = deletions@.map_values(|s: String| s@);
            deletions.push(copy_string(&e.id));
            assert(deletions@.map_values(|s: String| s@) =~= before.push(e@.id));
        }
        i += 1;
    }
    assert(sv.take(stored@.len() as int) =~= sv);
    let mut upserts: Vec<Event> = Vec::new();
    let mut feed = feed;
    let ghost mut k: int = 0;
    while feed.len() > 0
        invariant
            sv == event_views(stored@),
            0 <= k <= fv.len(),
            event_views(feed@) == fv.skip(k as int),
            event_views(upserts@) == fv.take(k as int).map_values(|f: EventView| synced(sv, calendar_id@, f)),
        decreases feed@.len(),
    {
        let ghost before_feed = feed@;
        assert(event_views(before_feed).len() > 0);
        let mut f = feed.remove(0);
        assert(f == before_feed[0]);
        assert(event_views(feed@) =~= event_views(before_feed).drop_first());
        assert(event_views(before_feed)[0] == fv.skip(k as int)[0]);
        assert(k < fv.len());
        assert(f@ == fv[k as int]);
        let ghost fk = f@;
        let id = matching_id_exec(stored, calendar_id, &f.external_uid);
        match id {
            Some(i) => {
                f.id = i;
            },
            None => {},
        }
        f.calendar_id = Some(String::from_str(calendar_id));
        assert(f@ == synced(sv, calendar_id@, fk));
        let ghost before = event_views(upserts@);
        let ghost fnew = f@;
        upserts.push(f);
        assert(event_views(upserts@) =~= before.push(fnew));
        assert(fv.take(k + 1) =~= fv.take(k as int).push(fv[k as int]));
        assert(fv.take(k + 1).map_values(|f: EventView| synced(sv, calendar_id@, f)) =~= fv.take(k as int).map_values(
            |f: EventView| synced(sv, calendar_id@, f),
        ).push(synced(sv, calendar_id@, fv[k as int])));
        assert(event_views(upserts@) =~= fv.take(k + 1).map_values(|f: EventView| synced(sv, calendar_id@, f)));
        proof {
            k = k + 1;
        }
    }
    assert(fv.take(k as int) =~= fv);
    CalendarSyncPlan { upserts, deletions }
}

// ---------------------------------------------------------------- applying a plan

/// The stored events that neither a deletion nor a write of the plan concerns.
pub open spec fn untouched(store: Seq<EventView>, plan: SyncPlanView) -> Seq<EventView>
    decreases store.len(),
{
    if store.len() == 0 {
        seq![]
    } else {
        let rest = untouched(store.drop_last(), plan);
        let e = store.last();
        if plan.deletions.contains(e.id) || plan.upserts.map_values(|u: EventView| u.id).contains(e.id) {
            rest
        } else {
            rest.push(e)
        }
    }
}

/// A store after a plan: the events it leaves alone, then what it writes.
pub open spec fn spec_apply(store: Seq<EventView>, plan: SyncPlanView) -> Seq<EventView> {
    untouched(store, plan) + plan.upserts
}

/// The events of other calendars, or of none, in their order.
pub open spec fn other_events(store: Seq<EventView>, cal: Seq<char>) -> Seq<EventView>
    decreases store.len(),
{
    if store.len() == 0 {
        seq![]
    } else {
        let rest = other_events(store.drop_last(), cal);
        if in_calendar(store.last(), cal) {
            rest
        } else {
            rest.push(store.last())
        }
    }
}

pub open spec fn ids_unique(s: Seq<EventView>) -> bool {
    forall|i: int, j: int| 0 <= i < j < s.len() ==> (#[trigger] s[i]).id != (#[trigger] s[j]).id
}

/// No two events of the calendar `cal` share an external id.
pub open spec fn calendar_uids_unique(s: Seq<EventView>, cal: Seq<char>) -> bool {
    forall|i: int, j: int|
        0 <= i < j < s.len() && in_calendar(#[trigger] s[i], cal) && in_calendar(#[trigger] s[j], cal) ==> s[i].external_uid
            != s[j].external_uid
}

pub open spec fn has_id(s: Seq<EventView>, id: Seq<char>) -> bool {
    exists|i: int| 0 <= i < s.len() && (#[trigger] s[i]).id == id
}

/// What a feed must satisfy for a sync to be exact: every event carries an
/// external id, no two share one, and their own ids are new to the store and distinct.
pub open spec fn feed_ok(store: Seq<EventView>, feed: Seq<EventView>) -> bool {
    &&& forall|i: int| 0 <= i < feed.len() ==> (#[trigger] feed[i]).external_uid is Some
    &&& forall|i: int, j: int| 0 <= i < j < feed.len() ==> (#[trigger] feed[i]).external_uid != (#[trigger] feed[j]).external_uid
    &&& ids_unique(feed)
    &&& forall|i: int| 0 <= i < feed.len() ==> !has_id(store, (#[trigger] feed[i]).id)
}

pub(crate) proof fn lemma_matching_id_found(stored: Seq<EventView>, cal: Seq<char>, uid: Option<Seq<char>>)
    ensures
        matching_id(stored, cal, uid) matches Some(id) ==> exists|i: int|
            0 <= i < stored.len() && (#[trigger] stored[i]).id == id && in_calendar(stored[i], cal) && stored[i].external_uid == uid,
        matching_id(stored, cal, uid) is None ==> (uid is None || forall|i: int|
            0 <= i < stored.len() && in_calendar(#[trigger] stored[i], cal) ==> stored[i].external_uid != uid),
    decreases stored.len(),
{
    if stored.len() > 0 && uid is Some {
        lemma_matching_id_found(stored.drop_first(), cal, uid);
        if matching_id(stored, cal, uid) is Some && !(in_calendar(stored[0], cal) && stored[0].external_uid == uid) {
            let id = matching_id(stored, cal, uid).unwrap();
            let i = choose|i: int| 0 <= i < stored.drop_first().len() && (#[trigger] stored.drop_first()[i]).id == id
                && in_calendar(stored.drop_first()[i], cal) && stored.drop_first()[i].external_uid == uid;
            assert(stored[i + 1] == stored.drop_first()[i]);
        }
        if matching_id(stored, cal, uid) is None {
            assert forall|i: int| 0 <= i < stored.len() && in_calendar(#[trigger] stored[i], cal) implies stored[i].external_uid != uid by {
                if i > 0 {
                    assert(stored[i] == stored.drop_first()[i - 1]);
                }
            }
        }
    }
}

proof fn lemma_stale_contains(stored: Seq<EventView>, cal: Seq<char>, feed: Seq<EventView>, i: int)
    requires
        0 <= i < stored.len(),
        in_calendar(stored[i], cal),
        !feed_has_uid(feed, stored[i].external_uid),
    ensures
        stale_ids(stored, cal, feed).contains(stored[i].id),
    decreases stored.len(),
{
    let rest = stale_ids(stored.drop_last(), cal, feed);
    if i < stored.len() - 1 {
        lemma_stale_contains(stored.drop_last(), cal, feed, i);
        assert(stored.drop_last()[i] == stored[i]);
        let k = choose|k: int| 0 <= k < rest.len() && rest[k] == stored[i].id;
        assert(stale_ids(stored, cal, feed)[k] == stored[i].id);
    } else {
        assert(stale_ids(stored, cal, feed) == rest.push(stored[i].id));
        assert(stale_ids(stored, cal, feed)[rest.len() as int] == stored[i].id);
    }
}

proof fn lemma_stale_only_calendar(stored: Seq<EventView>, cal: Seq<char>, feed: Seq<EventView>, id: Seq<char>)
    requires
        stale_ids(stored, cal, feed).contains(id),
    ensures
        exists|i: int| 0 <= i < stored.len() && (#[trigger] stored[i]).id == id && in_calendar(stored[i], cal),
    decreases stored.len(),
{
    let rest = stale_ids(stored.drop_last(), cal, feed);
    let e = stored.last();
    if in_calendar(e, cal) && !feed_has_uid(feed, e.external_uid) && id == e.id {
        assert(stored[stored.len() - 1] == e);
    } else {
        if in_calendar(e, cal) && !feed_has_uid(feed, e.external_uid) {
            let k = choose|k: int| 0 <= k < stale_ids(stored, cal, feed).len() && stale_ids(stored, cal, feed)[k] == id;
            assert(k < rest.len());
            assert(rest[k] == id);
        }
        assert(rest.contains(id));
        lemma_stale_only_calendar(stored.drop_last(), cal, feed, id);
        let i = choose|i: int| 0 <= i < stored.drop_last().len() && (#[trigger] stored.drop_last()[i]).id == id && in_calendar(stored.drop_last()[i], cal);
        assert(stored[i] == stored.drop_last()[i]);
    }
}

/// A sync does what the calendar's feed says and nothing else: afterwards the store
/// holds the events of other calendars (and those entered by hand) exactly as before,
/// followed by the feed's events, each in the calendar, each under the id of the
/// stored event it replaces when there was one. Syncing the same feed again thus
/// cannot double the calendar, a changed event is updated in place, and events that
/// left the feed are gone.
pub proof fn law_sync_replaces_exactly_the_calendar(store: Seq<EventView>, cal: Seq<char>, feed: Seq<EventView>)
    requires
        ids_unique(store),
        calendar_uids_unique(store, cal),
        feed_ok(store, feed),
    ensures
        spec_apply(store, spec_sync_plan(store, cal, feed)) == other_events(store, cal) + feed.map_values(
            |f: EventView| synced(store, cal, f),
        ),
{
    let plan = spec_sync_plan(store, cal, feed);
    lemma_untouched_is_others(store, store.len() as int, cal, feed);
    assert(store.take(store.len() as int) =~= store);
}

/// `untouched` over a prefix keeps exactly the events of other calendars.
proof fn lemma_untouched_is_others(store: Seq<EventView>, k: int, cal: Seq<char>, feed: Seq<EventView>)
    requires
        ids_unique(store),
        calendar_uids_unique(store, cal),
        feed_ok(store, feed),
        0 <= k <= store.len(),
    ensures
        untouched(store.take(k), spec_sync_plan(store, cal, feed)) == other_events(store.take(k), cal),
    decreases k,
{
    let plan = spec_sync_plan(store, cal, feed);
    if k > 0 {
        lemma_untouched_is_others(store, k - 1, cal, feed);
        let p = store.take(k);
        assert(p.drop_last() =~= store.take(k - 1));
        let e = store[k - 1];
        assert(p.last() == e);
        let upsert_ids = plan.upserts.map_values(|u: EventView| u.id);
        if in_calendar(e, cal) {
            // Either its external id is still in the feed, and a feed event takes its id,
            // or it is stale and deleted.
            if feed_has_uid(feed, e.external_uid) {
                let j = choose|j: int| 0 <= j < feed.len() && (#[trigger] feed[j]).external_uid == e.external_uid;
                lemma_matching_id_found(store, cal, feed[j].external_uid);
                let m = matching_id(store, cal, feed[j].external_uid);
                assert(m is Some) by {
                    if m is None {
                        assert(store[k - 1].external_uid != feed[j].external_uid);
                    }
                }
                let idx = choose|idx: int| 0 <= idx < store.len() && (#[trigger] store[idx]).id == m.unwrap()
                    && in_calendar(store[idx], cal) && store[idx].external_uid == feed[j].external_uid;
                assert(idx == k - 1) by {
                    if idx < k - 1 {
                        assert(store[idx].external_uid != store[k - 1].external_uid);
                    } else if idx > k - 1 {
                        assert(store[k - 1].external_uid != store[idx].external_uid);
                    }
                }
                assert(upsert_ids[j] == synced(store, cal, feed[j]).id);
                assert(upsert_ids[j] == e.id);
                assert(upsert_ids.contains(e.id));
            } else {
                lemma_stale_contains(store, cal, feed, k - 1);
            }
        } else {
            assert(!plan.deletions.contains(e.id)) by {
                if plan.deletions.contains(e.id) {
                    lemma_stale_only_calendar(store, cal, feed, e.id);
                    let i = choose|i: int| 0 <= i < store.len() && (#[trigger] store[i]).id == e.id && in_calendar(store[i], cal);
                    assert(i != k - 1);
                }
            }
            assert(!upsert_ids.contains(e.id)) by {
                if upsert_ids.contains(e.id) {
                    let j = choose|j: int| 0 <= j < upsert_ids.len() && upsert_ids[j] == e.id;
                    let f = feed[j];
                    lemma_matching_id_found(store, cal, f.external_uid);
                    match matching_id(store, cal, f.external_uid) {
                        Some(mid) => {
                            let i = choose|i: int| 0 <= i < store.len() && (#[trigger] store[i]).id == mid && in_calendar(store[i], cal) && store[i].external_uid == f.external_uid;
                            assert(i != k - 1);
                        },
                        None => {
                            assert(f.id == e.id);
                            assert(has_id(store, f.id)) by {
                                assert(store[k - 1].id == f.id);
                            }
                        },
                    }
                }
            }
        }
    }
}

fn contains_str(v: &Vec<String>, x: &String) -> (b: bool)
    ensures
        b == v@.map_values(|s: String| s@).contains(x@),
{
    let ghost sv = v@.map_values(|s: String| s@);
    let mut i: usize = 0;
    while i < v.len()
        invariant
            i <= v@.len(),
            sv == v@.map_values(|s: String| s@),
            forall|j: int| 0 <= j < i ==> sv[j] != x@,
        decreases v@.len() - i,
    {
        if v[i] == *x {
            assert(sv[i as int] == x@);
            return true;
        }
        i += 1;
    }
    false
}

fn upserts_have_id(upserts: &Vec<Event>, id: &String) -> (b: bool)
    ensures
        b == event_views(upserts@).map_values(|u: EventView| u.id).contains(id@),
{
    let ghost ids = event_views(upserts@).map_values(|u: EventView| u.id);
    let mut i: usize = 0;
    while i < upserts.len()
        invariant
            i <= upserts@.len(),
            ids == event_views(upserts@).map_values(|u: EventView| u.id),
            forall|j: int| 0 <= j < i ==> ids[j] != id@,
        decreases upserts@.len() - i,
    {
        if upserts[i].id == *id {
            assert(ids[i as int] == id@);
            return true;
        }
        i += 1;
    }
    false
}

/// The store after a plan: the events it does not concern, in their order, then the
/// events it writes.
pub fn apply_sync_plan(store: Vec<Event>, plan: CalendarSyncPlan) -> (r: Vec<Event>)
    ensures
        event_views(r@) == spec_apply(event_views(store@), plan@),
{
    let ghost sv = event_views(store@);
    let ghost pv = plan@;
    let mut kept: Vec<Event> = Vec::new();
    let mut store = store;
    let ghost mut k: int = 0;
    while store.len() > 0
        invariant
            0 <= k <= sv.len(),
            event_views(store@) == sv.skip(k),
            event_views(kept@) == untouched(sv.take(k), pv),
            pv == plan@,
        decreases store@.len(),
    {
        let ghost before = store@;
        assert(event_views(before).len() > 0);
        let e = store.remove(0);
        assert(event_views(before)[0] == sv.skip(k)[0]);
        assert(event_views(store@) =~= event_views(before).drop_first());
        assert(sv.take(k + 1).drop_last() =~= sv.take(k));
        assert(sv.take(k + 1).last() == e@);
        let gone = contains_str(&plan.deletions, &e.id) || upserts_have_id(&plan.upserts, &e.id);
        if !gone {
            let ghost kb = event_views(kept@);
            let ghost ev = e@;
            kept.push(e);
            assert(event_views(kept@) =~= kb.push(ev));
        }
        proof {
            k = k + 1;
        }
    }
    assert(sv.take(k) =~= sv);
    let ghost kb = event_views(kept@);
    let mut upserts = plan.upserts;
    kept.append(&mut upserts);
    assert(event_views(kept@) =~= kb + pv.upserts);
    kept
}

/// Replaces what the store holds of the calendar `calendar_id` by the events of
/// `feed` (see `plan_calendar_sync`), and returns the new store with the number of
/// events the feed brought.
pub fn replace_calendar_events(store: Vec<Event>, calendar_id: &str, feed: Vec<Event>) -> (r: (Vec<Event>, usize))
    ensures
        event_views(r.0@) == spec_apply(event_views(store@), spec_sync_plan(event_views(store@), calendar_id@, event_views(feed@))),
        r.1 == feed@.len(),
{
    let count = feed.len();
    let plan = plan_calendar_sync(store.as_slice(), calendar_id, feed);
    (apply_sync_plan(store, plan), count)
}

} // verus!
