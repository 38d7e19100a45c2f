//! What successive syncs give: a sync keeps the store well formed, syncing the same
//! feed again changes nothing, a changed event keeps its id, an event gone from the
//! feed is gone from the store, and other calendars are never touched.
use crate::calendar::sync::{
    calendar_uids_unique, feed_ok, has_id, ids_unique, in_calendar, law_sync_replaces_exactly_the_calendar,
    lemma_matching_id_found, matching_id, other_events, spec_apply, spec_sync_plan, synced,
};
use crate::models::EventView;
use vstd::prelude::*;

verus! {

/// The store after syncing the calendar `cal` with `feed`.
pub open spec fn after_sync(store: Seq<EventView>, cal: Seq<char>, feed: Seq<EventView>) -> Seq<EventView> {
    spec_apply(store, spec_sync_plan(store, cal, feed))
}

/// The feed's events as a sync stores them.
pub open spec fn synced_feed(store: Seq<EventView>, cal: Seq<char>, feed: Seq<EventView>) -> Seq<EventView> {
    feed.map_values(|f: EventView| synced(store, cal, f))
}

/// No two stored events share an id, and no two events of one calendar share an
/// external id.
pub open spec fn store_ok(s: Seq<EventView>) -> bool {
    &&& ids_unique(s)
    &&& forall|i: int, j: int|
        0 <= i < j < s.len() && (#[trigger] s[i]).calendar_id is Some && s[i].calendar_id == (#[trigger] s[j]).calendar_id
            ==> s[i].external_uid != s[j].external_uid
}

/// The events whose calendar is `c` (`None`: entered by hand), in their order.
pub open spec fn calendar_events(s: Seq<EventView>, c: Option<Seq<char>>) -> Seq<EventView>
    decreases s.len(),
{
    if s.len() == 0 {
        seq![]
    } else {
        let rest = calendar_events(s.drop_last(), c);
        if s.last().calendar_id == c {
            rest.push(s.last())
        } else {
            rest
        }
    }
}

proof fn lemma_store_ok_calendar(s: Seq<EventView>, cal: Seq<char>)
    requires
        store_ok(s),
    ensures
        calendar_uids_unique(s, cal),
{
    assert forall|i: int, j: int|
        0 <= i < j < s.len() && in_calendar(#[trigger] s[i], cal) && in_calendar(#[trigger] s[j], cal) implies s[i].external_uid
        != s[j].external_uid by {
        assert(s[i].calendar_id is Some && s[i].calendar_id == s[j].calendar_id);
    }
}

/// The single sync, in the terms used here.
proof fn lemma_after_sync(s: Seq<EventView>, cal: Seq<char>, f: Seq<EventView>)
    requires
        store_ok(s),
        feed_ok(s, f),
    ensures
        after_sync(s, cal, f) == other_events(s, cal) + synced_feed(s, cal, f),
{
    lemma_store_ok_calendar(s, cal);
    law_sync_replaces_exactly_the_calendar(s, cal, f);
}

proof fn lemma_others_concat(a: Seq<EventView>, b: Seq<EventView>, cal: Seq<char>)
    ensures
        other_events(a + b, cal) == other_events(a, cal) + other_events(b, cal),
    decreases b.len(),
{
    if b.len() == 0 {
        assert(a + b =~= a);
        assert(other_events(a, cal) + other_events(b, cal) =~= other_events(a, cal));
    } else {
        lemma_others_concat(a, b.drop_last(), cal);
        assert((a + b).drop_last() =~= a + b.drop_last());
        assert((a + b).last() == b.last());
        if !in_calendar(b.last(), cal) {
            assert(other_events(a, cal) + other_events(b.drop_last(), cal).push(b.last()) =~= (other_events(a, cal)
                + other_events(b.drop_last(), cal)).push(b.last()));
        }
    }
}

proof fn lemma_others_of_synced(s: Seq<EventView>, cal: Seq<char>, f: Seq<EventView>)
    ensures
        other_events(synced_feed(s, cal, f), cal) == Seq::<EventView>::empty(),
    decreases f.len(),
{
    if f.len() > 0 {
        lemma_others_of_synced(s, cal, f.drop_last());
        assert(synced_feed(s, cal, f).drop_last() =~= synced_feed(s, cal, f.drop_last()));
    }
}

/// Each event the other events keep is an event of the store outside the calendar.
proof fn lemma_others_from(s: Seq<EventView>, cal: Seq<char>)
    ensures
        other_events(s, cal).len() <= s.len(),
        forall|k: int| 0 <= k < other_events(s, cal).len() ==> !in_calendar(#[trigger] other_events(s, cal)[k], cal),
        forall|k: int|
            0 <= k < other_events(s, cal).len() ==> exists|p: int| 0 <= p < s.len() && s[p] == #[trigger] other_events(s, cal)[k],
    decreases s.len(),
{
    if s.len() > 0 {
        lemma_others_from(s.drop_last(), cal);
        let rest = other_events(s.drop_last(), cal);
        assert forall|k: int| 0 <= k < other_events(s, cal).len() implies exists|p: int| 0 <= p < s.len() && s[p]
            == #[trigger] other_events(s, cal)[k] by {
            if k < rest.len() {
                assert(other_events(s, cal)[k] == rest[k]);
                let p = choose|p: int| 0 <= p < s.drop_last().len() && s.drop_last()[p] == rest[k];
                assert(s[p] == s.drop_last()[p]);
            } else {
                assert(s[s.len() - 1] == other_events(s, cal)[k]);
            }
        }
        assert forall|k: int| 0 <= k < other_events(s, cal).len() implies !in_calendar(#[trigger] other_events(s, cal)[k], cal) by {
            if k < rest.len() {
                assert(other_events(s, cal)[k] == rest[k]);
            }
        }
    }
}

proof fn lemma_others_ids_unique(s: Seq<EventView>, cal: Seq<char>)
    requires
        ids_unique(s),
    ensures
        ids_unique(other_events(s, cal)),
    decreases s.len(),
{
    if s.len() > 0 {
        let d = s.drop_last();
        assert(ids_unique(d)) by {
            assert forall|i: int, j: int| 0 <= i < j < d.len() implies (#[trigger] d[i]).id != (#[trigger] d[j]).id by {
                assert(d[i] == s[i] && d[j] == s[j]);
            }
        }
        lemma_others_ids_unique(d, cal);
        lemma_others_from(d, cal);
        let rest = other_events(d, cal);
        if !in_calendar(s.last(), cal) {
            let o = rest.push(s.last());
            assert forall|i: int, j: int| 0 <= i < j < o.len() implies (#[trigger] o[i]).id != (#[trigger] o[j]).id by {
                if j < rest.len() {
                    assert(o[i] == rest[i] && o[j] == rest[j]);
                } else {
                    assert(o[i] == rest[i]);
                    let p = choose|p: int| 0 <= p < d.len() && d[p] == #[trigger] rest[i];
                    assert(s[p] == d[p]);
                    assert(s[s.len() - 1] == o[j]);
                }
            }
        }
    }
}

/// Where a synced event's id comes from: the stored event of the calendar with the
/// same external id, or the feed event itself.
proof fn lemma_synced_id(s: Seq<EventView>, cal: Seq<char>, x: EventView)
    ensures
        synced(s, cal, x).id == x.id || exists|p: int|
            0 <= p < s.len() && (#[trigger] s[p]).id == synced(s, cal, x).id && in_calendar(s[p], cal) && s[p].external_uid
                == x.external_uid,
        synced(s, cal, x).external_uid == x.external_uid,
        in_calendar(synced(s, cal, x), cal),
{
    lemma_matching_id_found(s, cal, x.external_uid);
}

/// A sync keeps the store well formed: no two stored events share an id, and no
/// two events of one calendar share an external id.
pub proof fn law_sync_keeps_the_store_well_formed(s: Seq<EventView>, cal: Seq<char>, f: Seq<EventView>)
    requires
        store_ok(s),
        feed_ok(s, f),
    ensures
        store_ok(after_sync(s, cal, f)),
{
    lemma_after_sync(s, cal, f);
    lemma_others_from(s, cal);
    lemma_others_ids_unique(s, cal);
    let o = other_events(s, cal);
    let fs = synced_feed(s, cal, f);
    let r = o + fs;
    assert forall|i: int| 0 <= i < fs.len() implies {
        &&& (#[trigger] fs[i]).external_uid == f[i].external_uid
        &&& in_calendar(fs[i], cal)
        &&& (fs[i].id == f[i].id && !has_id(s, fs[i].id) || exists|p: int|
            0 <= p < s.len() && (#[trigger] s[p]).id == fs[i].id && in_calendar(s[p], cal) && s[p].external_uid
                == f[i].external_uid)
    } by {
        lemma_synced_id(s, cal, f[i]);
        if fs[i].id == f[i].id && has_id(s, fs[i].id) {
            lemma_matching_id_found(s, cal, f[i].external_uid);
            match matching_id(s, cal, f[i].external_uid) {
                Some(m) => {},
                None => {
                    assert(!has_id(s, f[i].id));
                },
            }
        }
    }
    assert forall|i: int, j: int| 0 <= i < j < r.len() implies (#[trigger] r[i]).id != (#[trigger] r[j]).id by {
        if j < o.len() {
            assert(r[i] == o[i] && r[j] == o[j]);
        } else if i < o.len() {
            assert(r[i] == o[i] && r[j] == fs[j - o.len()]);
            let p = choose|p: int| 0 <= p < s.len() && s[p] == #[trigger] o[i];
            let jj = j - o.len();
            if fs[jj].id == f[jj].id && !has_id(s, fs[jj].id) {
                assert(s[p].id == o[i].id);
            } else {
                let q = choose|q: int|
                    0 <= q < s.len() && (#[trigger] s[q]).id == fs[jj].id && in_calendar(s[q], cal) && s[q].external_uid
                        == f[jj].external_uid;
                assert(p != q);
            }
        } else {
            let ii = i - o.len();
            let jj = j - o.len();
            assert(r[i] == fs[ii] && r[j] == fs[jj]);
            let a = fs[ii].id == f[ii].id && !has_id(s, fs[ii].id);
            let b = fs[jj].id == f[jj].id && !has_id(s, fs[jj].id);
            assert(f[ii].external_uid != f[jj].external_uid);
            if a && b {
                assert(f[ii].id != f[jj].id);
            } else if a {
                let q = choose|q: int|
                    0 <= q < s.len() && (#[trigger] s[q]).id == fs[jj].id && in_calendar(s[q], cal) && s[q].external_uid
                        == f[jj].external_uid;
                assert(has_id(s, fs[jj].id));
            } else if b {
                let p = choose|p: int|
                    0 <= p < s.len() && (#[trigger] s[p]).id == fs[ii].id && in_calendar(s[p], cal) && s[p].external_uid
                        == f[ii].external_uid;
                assert(has_id(s, fs[ii].id));
            } else {
                let p = choose|p: int|
                    0 <= p < s.len() && (#[trigger] s[p]).id == fs[ii].id && in_calendar(s[p], cal) && s[p].external_uid
                        == f[ii].external_uid;
                let q = choose|q: int|
                    0 <= q < s.len() && (#[trigger] s[q]).id == fs[jj].id && in_calendar(s[q], cal) && s[q].external_uid
                        == f[jj].external_uid;
                assert(p != q);
            }
        }
    }
    assert forall|i: int, j: int|
        0 <= i < j < r.len() && (#[trigger] r[i]).calendar_id is Some && r[i].calendar_id == (#[trigger] r[j]).calendar_id
            implies r[i].external_uid != r[j].external_uid by {
        if j < o.len() {
            assert(r[i] == o[i] && r[j] == o[j]);
            let p = choose|p: int| 0 <= p < s.len() && s[p] == #[trigger] o[i];
            let q = choose|q: int| 0 <= q < s.len() && s[q] == #[trigger] o[j];
            assert(o[i].id != o[j].id);
            assert(p != q);
            if p > q {
                assert(s[q].calendar_id is Some && s[q].calendar_id == s[p].calendar_id);
            }
        } else if i < o.len() {
            assert(r[i] == o[i] && r[j] == fs[j - o.len()]);
            assert(!in_calendar(o[i], cal));
        } else {
            assert(r[i] == fs[i - o.len()] && r[j] == fs[j - o.len()]);
        }
    }
}

proof fn lemma_matching_skips(a: Seq<EventView>, b: Seq<EventView>, cal: Seq<char>, uid: Option<Seq<char>>)
    requires
        forall|k: int| 0 <= k < a.len() ==> !in_calendar(#[trigger] a[k], cal),
    ensures
        matching_id(a + b, cal, uid) == matching_id(b, cal, uid),
    decreases a.len(),
{
    if a.len() == 0 {
        assert(a + b =~= b);
    } else {
        assert((a + b).drop_first() =~= a.drop_first() + b);
        assert((a + b)[0] == a[0]);
        assert forall|k: int| 0 <= k < a.drop_first().len() implies !in_calendar(#[trigger] a.drop_first()[k], cal) by {
            assert(a.drop_first()[k] == a[k + 1]);
        }
        lemma_matching_skips(a.drop_first(), b, cal, uid);
    }
}

/// In a synced feed, the event with a given external id is found by it; one that
/// the feed lacks is not found.
proof fn lemma_matching_in_synced(s: Seq<EventView>, cal: Seq<char>, f: Seq<EventView>, uid: Option<Seq<char>>)
    requires
        feed_ok(s, f),
    ensures
        forall|j: int| 0 <= j < f.len() && (#[trigger] f[j]).external_uid == uid ==> matching_id(synced_feed(s, cal, f), cal, uid)
            == Some(synced(s, cal, f[j]).id),
        (forall|j: int| 0 <= j < f.len() ==> (#[trigger] f[j]).external_uid != uid) ==> matching_id(synced_feed(s, cal, f), cal, uid)
            is None,
{
    let fs = synced_feed(s, cal, f);
    lemma_matching_id_found(fs, cal, uid);
    assert forall|j: int| 0 <= j < f.len() && (#[trigger] f[j]).external_uid == uid implies matching_id(fs, cal, uid) == Some(
        synced(s, cal, f[j]).id,
    ) by {
        assert(fs[j] == synced(s, cal, f[j]));
        match matching_id(fs, cal, uid) {
            Some(m) => {
                let k = choose|k: int| 0 <= k < fs.len() && (#[trigger] fs[k]).id == m && in_calendar(fs[k], cal) && fs[k].external_uid == uid;
                assert(fs[k] == synced(s, cal, f[k]));
                if k < j {
                    assert(f[k].external_uid != f[j].external_uid);
                } else if k > j {
                    assert(f[j].external_uid != f[k].external_uid);
                }
            },
            None => {
                assert(in_calendar(fs[j], cal));
            },
        }
    }
    if forall|j: int| 0 <= j < f.len() ==> (#[trigger] f[j]).external_uid != uid {
        if let Some(m) = matching_id(fs, cal, uid) {
            let k = choose|k: int| 0 <= k < fs.len() && (#[trigger] fs[k]).id == m && in_calendar(fs[k], cal) && fs[k].external_uid == uid;
            assert(fs[k] == synced(s, cal, f[k]));
            assert(f[k].external_uid != uid);
        }
    }
}

/// A second sync of the same calendar: the store holds the events of other
/// calendars as before the first sync, then the new feed's events. A feed event
/// that an event of the first feed had the same external id with keeps the id that
/// event was stored under, so a changed event is updated in place; a new one keeps
/// its own id; and an event of the first feed that the second lacks is gone.
///
/// The feeds give every event an external id, no two the same, and ids new to the
/// store (`feed_ok`). Without that the law fails: an event without an external id is
/// never found again and is stored anew by every sync, and two feed events with one
/// external id are both written under the id of the one stored event.
pub proof fn law_second_sync(s: Seq<EventView>, cal: Seq<char>, f: Seq<EventView>, g: Seq<EventView>)
    requires
        store_ok(s),
        feed_ok(s, f),
        feed_ok(after_sync(s, cal, f), g),
    ensures
        after_sync(after_sync(s, cal, f), cal, g) == other_events(s, cal) + synced_feed(after_sync(s, cal, f), cal, g),
        forall|i: int, j: int|
            0 <= i < g.len() && 0 <= j < f.len() && (#[trigger] g[i]).external_uid == (#[trigger] f[j]).external_uid
                ==> synced(after_sync(s, cal, f), cal, g[i]) == (EventView { id: synced(s, cal, f[j]).id, calendar_id: Some(cal), ..g[i] }),
        forall|i: int|
            0 <= i < g.len() && (forall|j: int| 0 <= j < f.len() ==> (#[trigger] f[j]).external_uid != (#[trigger] g[i]).external_uid)
                ==> synced(after_sync(s, cal, f), cal, g[i]) == (EventView { calendar_id: Some(cal), ..g[i] }),
{
    let s1 = after_sync(s, cal, f);
    let o = other_events(s, cal);
    let fs = synced_feed(s, cal, f);
    lemma_after_sync(s, cal, f);
    law_sync_keeps_the_store_well_formed(s, cal, f);
    lemma_after_sync(s1, cal, g);
    lemma_others_concat(o, fs, cal);
    lemma_others_of_synced(s, cal, f);
    lemma_others_from(s, cal);
    lemma_others_idempotent(s, cal);
    assert(other_events(s1, cal) =~= o);
    assert forall|i: int, j: int|
        0 <= i < g.len() && 0 <= j < f.len() && (#[trigger] g[i]).external_uid == (#[trigger] f[j]).external_uid implies synced(
        s1,
        cal,
        g[i],
    ) == (EventView { id: synced(s, cal, f[j]).id, calendar_id: Some(cal), ..g[i] }) by {
        lemma_matching_skips(o, fs, cal, g[i].external_uid);
        lemma_matching_in_synced(s, cal, f, g[i].external_uid);
    }
    assert forall|i: int|
        0 <= i < g.len() && (forall|j: int| 0 <= j < f.len() ==> (#[trigger] f[j]).external_uid != (#[trigger] g[i]).external_uid)
            implies synced(s1, cal, g[i]) == (EventView { calendar_id: Some(cal), ..g[i] }) by {
        lemma_matching_skips(o, fs, cal, g[i].external_uid);
        lemma_matching_in_synced(s, cal, f, g[i].external_uid);
    }
}

proof fn lemma_others_idempotent(s: Seq<EventView>, cal: Seq<char>)
    ensures
        other_events(other_events(s, cal), cal) == other_events(s, cal),
    decreases s.len(),
{
    if s.len() > 0 {
        lemma_others_idempotent(s.drop_last(), cal);
        let rest = other_events(s.drop_last(), cal);
        if !in_calendar(s.last(), cal) {
            assert(rest.push(s.last()).drop_last() =~= rest);
        }
    }
}

/// Syncing a calendar again with the same feed (the same events under new ids, as a
/// fresh read of the file or server gives them) leaves the store as it was.
pub proof fn law_resync_changes_nothing(s: Seq<EventView>, cal: Seq<char>, f: Seq<EventView>, g: Seq<EventView>)
    requires
        store_ok(s),
        feed_ok(s, f),
        feed_ok(after_sync(s, cal, f), g),
        g.len() == f.len(),
        forall|i: int| 0 <= i < g.len() ==> (#[trigger] g[i]) == (EventView { id: g[i].id, ..f[i] }),
    ensures
        after_sync(after_sync(s, cal, f), cal, g) == after_sync(s, cal, f),
{
    let s1 = after_sync(s, cal, f);
    law_second_sync(s, cal, f, g);
    lemma_after_sync(s, cal, f);
    let a = synced_feed(s1, cal, g);
    let b = synced_feed(s, cal, f);
    assert forall|i: int| 0 <= i < a.len() implies a[i] == b[i] by {
        assert(g[i].external_uid == f[i].external_uid);
        assert(a[i] == synced(s1, cal, g[i]));
        assert(b[i] == synced(s, cal, f[i]));
    }
    assert(a =~= b);
}

proof fn lemma_calendar_events_concat(a: Seq<EventView>, b: Seq<EventView>, c: Option<Seq<char>>)
    ensures
        calendar_events(a + b, c) == calendar_events(a, c) + calendar_events(b, c),
    decreases b.len(),
{
    if b.len() == 0 {
        assert(a + b =~= a);
        assert(calendar_events(a, c) + calendar_events(b, c) =~= calendar_events(a, c));
    } else {
        lemma_calendar_events_concat(a, b.drop_last(), c);
        assert((a + b).drop_last() =~= a + b.drop_last());
        assert((a + b).last() == b.last());
        if b.last().calendar_id == c {
            assert(calendar_events(a, c) + calendar_events(b.drop_last(), c).push(b.last()) =~= (calendar_events(a, c)
                + calendar_events(b.drop_last(), c)).push(b.last()));
        }
    }
}

proof fn lemma_calendar_events_of_others(s: Seq<EventView>, cal: Seq<char>, c: Option<Seq<char>>)
    requires
        c != Some(cal),
    ensures
        calendar_events(other_events(s, cal), c) == calendar_events(s, c),
    decreases s.len(),
{
    if s.len() > 0 {
        lemma_calendar_events_of_others(s.drop_last(), cal, c);
        let rest = other_events(s.drop_last(), cal);
        if !in_calendar(s.last(), cal) {
            assert(rest.push(s.last()).drop_last() =~= rest);
        }
    }
}

proof fn lemma_calendar_events_of_synced(s: Seq<EventView>, cal: Seq<char>, f: Seq<EventView>, c: Option<Seq<char>>)
    requires
        c != Some(cal),
    ensures
        calendar_events(synced_feed(s, cal, f), c) == Seq::<EventView>::empty(),
    decreases f.len(),
{
    if f.len() > 0 {
        lemma_calendar_events_of_synced(s, cal, f.drop_last(), c);
        assert(synced_feed(s, cal, f).drop_last() =~= synced_feed(s, cal, f.drop_last()));
    }
}

/// A sync touches nothing outside its calendar: the events of every other calendar,
/// and those entered by hand (`None`), stay as they were, in their order.
pub proof fn law_sync_leaves_other_calendars_alone(s: Seq<EventView>, cal: Seq<char>, f: Seq<EventView>, c: Option<Seq<char>>)
    requires
        store_ok(s),
        feed_ok(s, f),
        c != Some(cal),
    ensures
        calendar_events(after_sync(s, cal, f), c) == calendar_events(s, c),
{
    lemma_after_sync(s, cal, f);
    lemma_calendar_events_concat(other_events(s, cal), synced_feed(s, cal, f), c);
    lemma_calendar_events_of_others(s, cal, c);
    lemma_calendar_events_of_synced(s, cal, f, c);
    assert(calendar_events(s, c) + Seq::<EventView>::empty() =~= calendar_events(s, c));
}

} // verus!
