//! Events that come back again and again.
use crate::analyzer::conflicts::event_views;
use crate::models::{Event, EventView};
use crate::text::{chars_of, is_whitespace, is_ws, push_char};
use vstd::prelude::*;

verus! {

/// What `str::to_lowercase` gives for a string.
pub uninterp spec fn lowercased(s: Seq<char>) -> Seq<char>;

/// The string in lower case (`str::to_lowercase`); the result is named, not described.
#[verifier::external_body]
pub(crate) fn lowercase(s: &str) -> (r: String)
    ensures
        r@ == lowercased(s@),
{
    s.to_lowercase()
}

/// Length of the word at the start of `s` (up to the first white space).
pub open spec fn word_len(s: Seq<char>) -> int
    decreases s.len(),
{
    if s.len() == 0 || is_ws(s[0]) {
        0
    } else {
        1 + word_len(s.drop_first())
    }
}

pub proof fn lemma_word_len(s: Seq<char>)
    ensures
        0 <= word_len(s) <= s.len(),
        s.len() > 0 && !is_ws(s[0]) ==> word_len(s) > 0,
    decreases s.len(),
{
    if s.len() > 0 && !is_ws(s[0]) {
        lemma_word_len(s.drop_first());
    }
}

/// The words of `s`: the runs of characters between white space
/// (`str::split_whitespace`).
pub open spec fn words(s: Seq<char>) -> Seq<Seq<char>>
    decreases s.len(),
{
    if s.len() == 0 {
        seq![]
    } else if is_ws(s[0]) {
        words(s.drop_first())
    } else {
        let n = word_len(s);
        proof {
            lemma_word_len(s);
        }
        seq![s.take(n)] + words(s.skip(n))
    }
}

/// The words joined with single spaces.
pub open spec fn join_words(w: Seq<Seq<char>>) -> Seq<char>
    decreases w.len(),
{
    if w.len() == 0 {
        seq![]
    } else if w.len() == 1 {
        w[0]
    } else {
        join_words(w.drop_last()) + seq![' '] + w.last()
    }
}

/// The first three words of the lower-cased title, joined by single spaces.
pub open spec fn spec_normalize_title(title: Seq<char>) -> Seq<char> {
    let w = words(lowercased(title));
    join_words(if w.len() > 3 {
        w.take(3)
    } else {
        w
    })
}

proof fn lemma_words_step(s: Seq<char>, i: int)
    requires
        0 <= i < s.len(),
    ensures
        is_ws(s[i]) ==> words(s.skip(i)) == words(s.skip(i + 1)),
        !is_ws(s[i]) ==> words(s.skip(i)) == seq![s.skip(i).take(word_len(s.skip(i)))] + words(s.skip(i + word_len(s.skip(i)))),
{
    let t = s.skip(i);
    assert(t[0] == s[i]);
    if is_ws(s[i]) {
        assert(t.drop_first() =~= s.skip(i + 1));
    } else {
        lemma_word_len(t);
        assert(t.skip(word_len(t)) =~= s.skip(i + word_len(t)));
    }
}

/// Length of the word that starts at `v[i]`.
fn word_len_at(v: &[char], i: usize) -> (n: usize)
    requires
        i <= v@.len(),
    ensures
        n as int == word_len(v@.skip(i as int)),
        i + n <= v@.len(),
{
    let mut j = i;
    while j < v.len() && !is_whitespace(v[j])
        invariant
            i <= j <= v@.len(),
            word_len(v@.skip(i as int)) == (j - i) + word_len(v@.skip(j as int)),
        decreases v@.len() - j,
    {
        assert(v@.skip(j as int).drop_first() =~= v@.skip(j + 1));
        assert(v@.skip(j as int)[0] == v@[j as int]);
        j += 1;
    }
    if j < v.len() {
        assert(v@.skip(j as int)[0] == v@[j as int]);
    }
    j - i
}

/// The first three words of the lower-cased title, joined by single spaces.
pub fn normalize_title(title: &str) -> (r: String)
    ensures
        r@ == spec_normalize_title(title@),
{
    let lower = lowercase(title);
    let v = chars_of(lower.as_str());
    let ghost all = words(v@);
    let mut out = String::new();
    let ghost mut taken: Seq<Seq<char>> = seq![];
    let mut count: usize = 0;
    let mut i: usize = 0;
    assert(v@.skip(0) =~= v@);
    while i < v.len() && count < 3
        invariant
            i <= v@.len(),
            count <= 3,
            taken.len() == count,
            all == words(v@),
            all == taken + words(v@.skip(i as int)),
            out@ == join_words(taken),
        decreases v@.len() - i,
    {
        proof {
            lemma_words_step(v@, i as int);
        }
        if is_whitespace(v[i]) {
            i += 1;
        } else {
            let n = word_len_at(v.as_slice(), i);
            proof {
                lemma_word_len(v@.skip(i as int));
            }
            if count > 0 {
                push_char(&mut out, ' ');
            }
            let ghost before = out@;
            let mut k: usize = i;
            let end = i + n;
            while k < end
                invariant
                    end == i + n,
                    i <= k <= i + n <= v@.len(),
                    out@ == before + v@.subrange(i as int, k as int),
                decreases i + n - k,
            {
                push_char(&mut out, v[k]);
                assert(v@.subrange(i as int, k + 1) =~= v@.subrange(i as int, k as int).push(v@[k as int]));
                k += 1;
            }
            proof {
                let w = v@.skip(i as int).take(n as int);
                assert(w =~= v@.subrange(i as int, (i + n) as int));
                let old_taken = taken;
                taken = taken.push(w);
                assert(taken.drop_last() =~= old_taken);
                assert(all =~= taken + words(v@.skip(i + n)));
                if old_taken.len() == 0 {
                    assert(out@ =~= w);
                } else {
                    assert(out@ =~= join_words(old_taken) + seq![' '] + w);
                }
            }
            i = i + n;
            count += 1;
        }
    }
    proof {
        let w = words(lowercased(title@));
        assert(w == all);
        if count == 3 {
            assert(all.take(3) =~= taken);
        } else {
            assert(v@.skip(i as int) =~= Seq::<char>::empty());
            assert(words(v@.skip(i as int)) =~= Seq::<Seq<char>>::empty());
            assert(all =~= taken);
        }
    }
    out
}

// ---------------------------------------------------------------- most common value

pub open spec fn count_of(vals: Seq<u32>, x: u32) -> nat
    decreases vals.len(),
{
    if vals.len() == 0 {
        0
    } else {
        count_of(vals.drop_last(), x) + if vals.last() == x {
            1nat
        } else {
            0
        }
    }
}

/// The most frequent of `vals[..k]` (frequency over all of `vals`) with its
/// frequency, the earliest one among equally frequent values.
pub open spec fn best_upto(vals: Seq<u32>, k: int) -> Option<(u32, nat)>
    decreases k,
{
    if k <= 0 {
        None
    } else {
        let b = best_upto(vals, k - 1);
        let v = vals[k - 1];
        let c = count_of(vals, v);
        match b {
            None => Some((v, c)),
            Some((bv, bc)) => if c > bc {
                Some((v, c))
            } else {
                b
            },
        }
    }
}

/// The most frequent value, the earliest among equally frequent ones; `None` for no values.
pub open spec fn spec_most_common(vals: Seq<u32>) -> Option<u32> {
    match best_upto(vals, vals.len() as int) {
        Some((v, _)) => Some(v),
        None => None,
    }
}

fn count_value(vals: &Vec<u32>, x: u32) -> (c: usize)
    ensures
        c as nat == count_of(vals@, x),
{
    let mut c: usize = 0;
    let mut i: usize = 0;
    while i < vals.len()
        invariant
            i <= vals@.len(),
            c as nat == count_of(vals@.take(i as int), x),
            c <= i,
        decreases vals@.len() - i,
    {
        assert(vals@.take(i + 1).drop_last() =~= vals@.take(i as int));
        if vals[i] == x {
            c += 1;
        }
        i += 1;
    }
    assert(vals@.take(vals@.len() as int) =~= vals@);
    c
}

/// The most frequent value, the earliest among equally frequent ones.
pub fn most_common(vals: &Vec<u32>) -> (r: Option<u32>)
    ensures
        r == spec_most_common(vals@),
{
    let mut best: Option<(u32, usize)> = None;
    let mut i: usize = 0;
    while i < vals.len()
        invariant
            i <= vals@.len(),
            match best {
                None => best_upto(vals@, i as int) is None,
                Some((v, c)) => best_upto(vals@, i as int) == Some((v, c as nat)),
            },
        decreases vals@.len() - i,
    {
        let v = vals[i];
        let c = count_value(vals, v);
        best = match best {
            None => Some((v, c)),
            Some((bv, bc)) => if c > bc {
                Some((v, c))
            } else {
                Some((bv, bc))
            },
        };
        i += 1;
    }
    match best {
        Some((v, _)) => Some(v),
        None => None,
    }
}

proof fn lemma_best_is_max(vals: Seq<u32>, k: int)
    requires
        0 <= k <= vals.len(),
    ensures
        best_upto(vals, k) matches Some((v, c)) ==> c == count_of(vals, v) && (exists|j: int| 0 <= j < k && vals[j] == v)
            && forall|j: int| 0 <= j < k ==> count_of(vals, #[trigger] vals[j]) <= c,
        k > 0 ==> best_upto(vals, k) is Some,
    decreases k,
{
    if k > 0 {
        lemma_best_is_max(vals, k - 1);
        let b = best_upto(vals, k);
        let (v, c) = b.unwrap();
        assert forall|j: int| 0 <= j < k implies count_of(vals, #[trigger] vals[j]) <= c by {
        }
        if best_upto(vals, k - 1) is Some {
            let (pv, pc) = best_upto(vals, k - 1).unwrap();
            if count_of(vals, vals[k - 1]) > pc {
                assert(vals[k - 1] == v);
            } else {
                let j = choose|j: int| 0 <= j < k - 1 && vals[j] == pv;
                assert(vals[j] == v);
            }
        } else {
            assert(vals[k - 1] == v);
        }
    }
}

proof fn lemma_count_zero(vals: Seq<u32>, x: u32)
    requires
        forall|j: int| 0 <= j < vals.len() ==> vals[j] != x,
    ensures
        count_of(vals, x) == 0,
    decreases vals.len(),
{
    if vals.len() > 0 {
        lemma_count_zero(vals.drop_last(), x);
    }
}

/// The most common value occurs, and no value occurs more often than it.
pub proof fn law_most_common_is_most_frequent(vals: Seq<u32>)
    ensures
        vals.len() > 0 ==> spec_most_common(vals) is Some,
        spec_most_common(vals) matches Some(m) ==> vals.contains(m) && forall|x: u32| count_of(vals, x) <= count_of(vals, m),
{
    lemma_best_is_max(vals, vals.len() as int);
    if let Some(m) = spec_most_common(vals) {
        let (v, c) = best_upto(vals, vals.len() as int).unwrap();
        assert(v == m);
        assert forall|x: u32| count_of(vals, x) <= count_of(vals, m) by {
            if exists|j: int| 0 <= j < vals.len() && vals[j] == x {
                let j = choose|j: int| 0 <= j < vals.len() && vals[j] == x;
                assert(count_of(vals, vals[j]) <= c);
            } else {
                lemma_count_zero(vals, x);
            }
        }
        let j = choose|j: int| 0 <= j < vals.len() && vals[j] == v;
        assert(vals[j] == m);
    }
}

// ---------------------------------------------------------------- patterns

#[derive(Debug)]
pub struct RecurringPattern {
    pub title: String,
    pub count: usize,
    /// Monday is 0.
    pub typical_day_of_week: Option<u32>,
    pub typical_hour: Option<u32>,
}

pub ghost struct PatternView {
    pub title: Seq<char>,
    pub count: int,
    pub typical_day_of_week: Option<u32>,
    pub typical_hour: Option<u32>,
}

impl View for RecurringPattern {
    type V = PatternView;

    open spec fn view(&self) -> PatternView {
        PatternView {
            title: self.title@,
            count: self.count as int,
            typical_day_of_week: self.typical_day_of_week,
            typical_hour: self.typical_hour,
        }
    }
}

pub open spec fn weekday_num(t: int) -> u32 {
    ((t / 86400 + 3) % 7) as u32
}

pub open spec fn hour_num(t: int) -> u32 {
    ((t % 86400) / 3600) as u32
}

/// The distinct values of `s`, in the order they first appear.
pub open spec fn distinct(s: Seq<Seq<char>>) -> Seq<Seq<char>>
    decreases s.len(),
{
    if s.len() == 0 {
        seq![]
    } else {
        let rest = distinct(s.drop_last());
        if rest.contains(s.last()) {
            rest
        } else {
            rest.push(s.last())
        }
    }
}

/// Start times of the events whose normalized title is `key`, in order.
pub open spec fn starts_with_key(events: Seq<EventView>, key: Seq<char>) -> Seq<int>
    decreases events.len(),
{
    if events.len() == 0 {
        seq![]
    } else {
        let rest = starts_with_key(events.drop_last(), key);
        if spec_normalize_title(events.last().title) == key {
            rest.push(events.last().start as int)
        } else {
            rest
        }
    }
}

pub open spec fn pattern_of(events: Seq<EventView>, key: Seq<char>) -> PatternView {
    let starts = starts_with_key(events, key);
    PatternView {
        title: key,
        count: starts.len() as int,
        typical_day_of_week: spec_most_common(starts.map_values(|t: int| weekday_num(t))),
        typical_hour: spec_most_common(starts.map_values(|t: int| hour_num(t))),
    }
}

/// One pattern per normalized title that occurs at least twice, in order of first
/// appearance.
pub open spec fn candidate_patterns(events: Seq<EventView>, keys: Seq<Seq<char>>) -> Seq<PatternView>
    decreases keys.len(),
{
    if keys.len() == 0 {
        seq![]
    } else {
        let rest = candidate_patterns(events, keys.drop_last());
        let p = pattern_of(events, keys.last());
        if p.count >= 2 {
            rest.push(p)
        } else {
            rest
        }
    }
}

pub open spec fn insert_by_count(s: Seq<PatternView>, x: PatternView) -> Seq<PatternView>
    decreases s.len(),
{
    if s.len() == 0 || s.last().count >= x.count {
        s.push(x)
    } else {
        insert_by_count(s.drop_last(), x).push(s.last())
    }
}

pub open spec fn sort_by_count(s: Seq<PatternView>) -> Seq<PatternView>
    decreases s.len(),
{
    if s.len() == 0 {
        seq![]
    } else {
        insert_by_count(sort_by_count(s.drop_last()), s.last())
    }
}

/// The recurring patterns: every normalized title (first three words, lower case)
/// shared by two or more events, with how often it occurs and its most common weekday
/// and hour (UTC), the most frequent titles first.
pub open spec fn spec_patterns(events: Seq<EventView>) -> Seq<PatternView> {
    let keys = distinct(events.map_values(|e: EventView| spec_normalize_title(e.title)));
    sort_by_count(candidate_patterns(events, keys))
}

fn weekday_and_hour(t: i64) -> (r: (u32, u32))
    ensures
        r.0 == weekday_num(t as int),
        r.1 == hour_num(t as int),
{
    let day: i64 = match t.checked_div_euclid(86400) {
        Some(d) => d,
        None => 0,
    };
    let secs: i64 = match t.checked_rem_euclid(86400) {
        Some(x) => x,
        None => 0,
    };
    assert(day as int == (t as int) / 86400);
    assert(secs as int == (t as int) % 86400);
    let wd: i64 = match (day + 3).checked_rem_euclid(7) {
        Some(x) => x,
        None => 0,
    };
    (wd as u32, (secs / 3600) as u32)
}

pub open spec fn strs_of(v: Seq<String>) -> Seq<Seq<char>> {
    v.map_values(|s: String| s@)
}

fn contains_string(v: &Vec<String>, x: &String) -> (b: bool)
    ensures
        b == strs_of(v@).contains(x@),
{
    let mut i: usize = 0;
    while i < v.len()
        invariant
            i <= v@.len(),
            forall|j: int| 0 <= j < i ==> strs_of(v@)[j] != x@,
        decreases v@.len() - i,
    {
        if v[i] == *x {
            assert(strs_of(v@)[i as int] == x@);
            return true;
        }
        i += 1;
    }
    false
}

/// The pattern of the events whose normalized title is `key`.
fn pattern_for(events: &[Event], norms: &Vec<String>, key: &String) -> (p: RecurringPattern)
    requires
        norms@.len() == events@.len(),
        forall|i: int| 0 <= i < norms@.len() ==> (#[trigger] norms@[i])@ == spec_normalize_title(events@[i].title@),
    ensures
        p@ == pattern_of(event_views(events@), key@),
{
    let ghost views = event_views(events@);
    let mut days: Vec<u32> = Vec::new();
    let mut hours: Vec<u32> = Vec::new();
    let ghost mut starts: Seq<int> = seq![];
    let mut i: usize = 0;
    while i < events.len()
        invariant
            i <= events@.len(),
            views == event_views(events@),
            norms@.len() == events@.len(),
            forall|j: int| 0 <= j < norms@.len() ==> (#[trigger] norms@[j])@ == spec_normalize_title(events@[j].title@),
            starts == starts_with_key(views.take(i as int), key@),
            days@ == starts.map_values(|t: int| weekday_num(t)),
            hours@ == starts.map_values(|t: int| hour_num(t)),
        decreases events@.len() - i,
    {
        assert(views.take(i + 1).drop_last() =~= views.take(i as int));
        assert(views.take(i + 1).last() == events@[i as int]@);
        if norms[i] == *key {
            let (d, h) = weekday_and_hour(events[i].start);
            days.push(d);
            hours.push(h);
            proof {
                let old_starts = starts;
                starts = starts.push(events@[i as int].start as int);
                assert(days@ =~= starts.map_values(|t: int| weekday_num(t)));
                assert(hours@ =~= starts.map_values(|t: int| hour_num(t)));
            }
        }
        i += 1;
    }
    assert(views.take(events@.len() as int) =~= views);
    RecurringPattern {
        title: key.clone(),
        count: days.len(),
        typical_day_of_week: most_common(&days),
        typical_hour: most_common(&hours),
    }
}

proof fn lemma_insert_count_at(s: Seq<PatternView>, x: PatternView, p: int)
    requires
        0 <= p <= s.len(),
        forall|k: int| p <= k < s.len() ==> (#[trigger] s[k]).count < x.count,
        p > 0 ==> s[p - 1].count >= x.count,
    ensures
        insert_by_count(s, x) == s.take(p).push(x) + s.skip(p),
    decreases s.len(),
{
    if p == s.len() {
        assert(s.take(p).push(x) + s.skip(p) =~= s.push(x));
    } else {
        lemma_insert_count_at(s.drop_last(), x, p);
        assert(s.drop_last().take(p) =~= s.take(p));
        assert((s.take(p).push(x) + s.drop_last().skip(p)).push(s.last()) =~= s.take(p).push(x) + s.skip(p));
    }
}

pub open spec fn pattern_views(v: Seq<RecurringPattern>) -> Seq<PatternView> {
    v.map_values(|p: RecurringPattern| p@)
}

/// Titles that come back: every normalized title (first three words, lower case)
/// shared by two or more events, with its count and its most common weekday and hour,
/// the most frequent first.
pub fn detect_patterns(events: &[Event]) -> (r: Vec<RecurringPattern>)
    ensures
        pattern_views(r@) == spec_patterns(event_views(events@)),
{
    let ghost views = event_views(events@);
    let ghost all_norms = views.map_values(|e: EventView| spec_normalize_title(e.title));
    let mut norms: Vec<String> = Vec::new();
    let mut keys: Vec<String> = Vec::new();
    let mut i: usize = 0;
    while i < events.len()
        invariant
            i <= events@.len(),
            views == event_views(events@),
            all_norms == views.map_values(|e: EventView| spec_normalize_title(e.title)),
            norms@.len() == i,
            forall|j: int| 0 <= j < i ==> (#[trigger] norms@[j])@ == spec_normalize_title(events@[j].title@),
            strs_of(keys@) == distinct(all_norms.take(i as int)),
        decreases events@.len() - i,
    {
        let n = normalize_title(events[i].title.as_str());
        assert(all_norms.take(i + 1).drop_last() =~= all_norms.take(i as int));
        assert(all_norms.take(i + 1).last() == n@);
        if !contains_string(&keys, &n) {
            let ghost before = strs_of(keys@);
            keys.push(n.clone());
            assert(strs_of(keys@) =~= before.push(n@));
        }
        norms.push(n);
        i += 1;
    }
    assert(all_norms.take(events@.len() as int) =~= all_norms);
    let ghost kv = strs_of(keys@);
    let mut sorted: Vec<RecurringPattern> = Vec::new();
    let mut k: usize = 0;
    while k < keys.len()
        invariant
            k <= keys@.len(),
            views == event_views(events@),
            kv == strs_of(keys@),
            norms@.len() == events@.len(),
            forall|j: int| 0 <= j < norms@.len() ==> (#[trigger] norms@[j])@ == spec_normalize_title(events@[j].title@),
            pattern_views(sorted@) == sort_by_count(candidate_patterns(views, kv.take(k as int))),
        decreases keys@.len() - k,
    {
        assert(kv.take(k + 1).drop_last() =~= kv.take(k as int));
        assert(kv.take(k + 1).last() == keys@[k as int]@);
        let p = pattern_for(events, &norms, &keys[k]);
        let ghost c0 = candidate_patterns(views, kv.take(k as int));
        let ghost c1 = candidate_patterns(views, kv.take(k + 1));
        assert(p@ == pattern_of(views, kv.take(k + 1).last()));
        if p.count >= 2 {
            assert(c1 == c0.push(p@));
            assert(c1.drop_last() =~= c0);
            assert(sort_by_count(c1) == insert_by_count(sort_by_count(c0), p@));
            let ghost s = pattern_views(sorted@);
            let mut q = sorted.len();
            while q > 0 && sorted[q - 1].count < p.count
                invariant
                    q <= sorted@.len(),
                    s == pattern_views(sorted@),
                    forall|m: int| q <= m < s.len() ==> (#[trigger] s[m]).count < p@.count,
                decreases q,
            {
                assert(s[q - 1] == sorted@[q - 1]@);
                q -= 1;
            }
            assert(q > 0 ==> s[q - 1] == sorted@[q - 1]@);
            proof {
                lemma_insert_count_at(s, p@, q as int);
            }
            let ghost pv = p@;
            sorted.insert(q, p);
            assert(pattern_views(sorted@) =~= s.take(q as int).push(pv) + s.skip(q as int));
        } else {
            assert(c1 == c0);
        }
        k += 1;
    }
    assert(kv.take(keys@.len() as int) =~= kv);
    sorted
}

/// Every pattern counts at least `b` events.
pub open spec fn counts_at_least(s: Seq<PatternView>, b: int) -> bool {
    forall|i: int| 0 <= i < s.len() ==> (#[trigger] s[i]).count >= b
}

/// No pattern comes before a more frequent one.
pub open spec fn by_count(s: Seq<PatternView>) -> bool {
    forall|i: int, j: int| 0 <= i < j < s.len() ==> (#[trigger] s[i]).count >= (#[trigger] s[j]).count
}

proof fn lemma_candidates_recur(events: Seq<EventView>, keys: Seq<Seq<char>>)
    ensures
        counts_at_least(candidate_patterns(events, keys), 2),
    decreases keys.len(),
{
    if keys.len() > 0 {
        lemma_candidates_recur(events, keys.drop_last());
        let rest = candidate_patterns(events, keys.drop_last());
        let p = pattern_of(events, keys.last());
        if p.count >= 2 {
            assert forall|i: int| 0 <= i < rest.push(p).len() implies (#[trigger] rest.push(p)[i]).count >= 2 by {
                if i < rest.len() {
                    assert(rest.push(p)[i] == rest[i]);
                }
            }
        }
    }
}

proof fn lemma_insert_count_bound(s: Seq<PatternView>, x: PatternView, b: int)
    requires
        counts_at_least(s, b),
        x.count >= b,
    ensures
        counts_at_least(insert_by_count(s, x), b),
    decreases s.len(),
{
    if !(s.len() == 0 || s.last().count >= x.count) {
        lemma_insert_count_bound(s.drop_last(), x, b);
        let r = insert_by_count(s.drop_last(), x);
        assert forall|i: int| 0 <= i < r.push(s.last()).len() implies (#[trigger] r.push(s.last())[i]).count >= b by {
            if i < r.len() {
                assert(r.push(s.last())[i] == r[i]);
            }
        }
    } else {
        assert forall|i: int| 0 <= i < s.push(x).len() implies (#[trigger] s.push(x)[i]).count >= b by {
            if i < s.len() {
                assert(s.push(x)[i] == s[i]);
            }
        }
    }
}

proof fn lemma_insert_by_count(s: Seq<PatternView>, x: PatternView)
    requires
        by_count(s),
    ensures
        by_count(insert_by_count(s, x)),
    decreases s.len(),
{
    if s.len() == 0 || s.last().count >= x.count {
        let r = s.push(x);
        assert forall|i: int, j: int| 0 <= i < j < r.len() implies (#[trigger] r[i]).count >= (#[trigger] r[j]).count by {
            assert(r[i] == s[i]);
            if j < s.len() {
                assert(r[j] == s[j]);
            } else if i < s.len() - 1 {
                assert(s[i].count >= s[s.len() - 1].count);
            }
        }
    } else {
        let d = s.drop_last();
        let last = s.last();
        assert(by_count(d)) by {
            assert forall|i: int, j: int| 0 <= i < j < d.len() implies (#[trigger] d[i]).count >= (#[trigger] d[j]).count by {
                assert(d[i] == s[i] && d[j] == s[j]);
            }
        }
        lemma_insert_by_count(d, x);
        assert(counts_at_least(d, last.count)) by {
            assert forall|i: int| 0 <= i < d.len() implies (#[trigger] d[i]).count >= last.count by {
                assert(d[i] == s[i]);
                assert(s[s.len() - 1] == last);
            }
        }
        lemma_insert_count_bound(d, x, last.count);
        let r = insert_by_count(d, x);
        let rr = r.push(last);
        assert forall|i: int, j: int| 0 <= i < j < rr.len() implies (#[trigger] rr[i]).count >= (#[trigger] rr[j]).count by {
            assert(rr[i] == r[i]);
            if j < r.len() {
                assert(rr[j] == r[j]);
            }
        }
    }
}

proof fn lemma_sort_by_count(s: Seq<PatternView>, b: int)
    requires
        counts_at_least(s, b),
    ensures
        by_count(sort_by_count(s)),
        counts_at_least(sort_by_count(s), b),
    decreases s.len(),
{
    if s.len() > 0 {
        assert(counts_at_least(s.drop_last(), b)) by {
            assert forall|i: int| 0 <= i < s.drop_last().len() implies (#[trigger] s.drop_last()[i]).count >= b by {
                assert(s.drop_last()[i] == s[i]);
            }
        }
        lemma_sort_by_count(s.drop_last(), b);
        lemma_insert_by_count(sort_by_count(s.drop_last()), s.last());
        lemma_insert_count_bound(sort_by_count(s.drop_last()), s.last(), b);
    }
}

/// A pattern is a title that comes back: each counts two events or more, and the
/// most frequent come first.
pub proof fn law_patterns_recur_most_frequent_first(events: Seq<EventView>)
    ensures
        counts_at_least(spec_patterns(events), 2),
        by_count(spec_patterns(events)),
{
    let keys = distinct(events.map_values(|e: EventView| spec_normalize_title(e.title)));
    lemma_candidates_recur(events, keys);
    lemma_sort_by_count(candidate_patterns(events, keys), 2);
}

proof fn lemma_starts_one(events: Seq<EventView>, key: Seq<char>, i: int)
    requires
        0 <= i < events.len(),
        spec_normalize_title(events[i].title) == key,
    ensures
        starts_with_key(events, key).len() >= 1,
    decreases events.len(),
{
    if i < events.len() - 1 {
        assert(events.drop_last()[i] == events[i]);
        lemma_starts_one(events.drop_last(), key, i);
    }
}

proof fn lemma_starts_two(events: Seq<EventView>, key: Seq<char>, i: int, j: int)
    requires
        0 <= i < j < events.len(),
        spec_normalize_title(events[i].title) == key,
        spec_normalize_title(events[j].title) == key,
    ensures
        starts_with_key(events, key).len() >= 2,
    decreases events.len(),
{
    assert(events.drop_last()[i] == events[i]);
    if j < events.len() - 1 {
        assert(events.drop_last()[j] == events[j]);
        lemma_starts_two(events.drop_last(), key, i, j);
    } else {
        lemma_starts_one(events.drop_last(), key, i);
    }
}

proof fn lemma_distinct_has(s: Seq<Seq<char>>, x: Seq<char>)
    requires
        s.contains(x),
    ensures
        distinct(s).contains(x),
    decreases s.len(),
{
    let rest = distinct(s.drop_last());
    if s.last() == x {
        if !rest.contains(x) {
            assert(rest.push(x)[rest.len() as int] == x);
        }
    } else {
        let k = choose|k: int| 0 <= k < s.len() && s[k] == x;
        assert(s.drop_last()[k] == x);
        lemma_distinct_has(s.drop_last(), x);
        if !rest.contains(s.last()) {
            let m = choose|m: int| 0 <= m < rest.len() && rest[m] == x;
            assert(rest.push(s.last())[m] == x);
        }
    }
}

proof fn lemma_candidates_have(events: Seq<EventView>, keys: Seq<Seq<char>>, key: Seq<char>)
    requires
        keys.contains(key),
        pattern_of(events, key).count >= 2,
    ensures
        candidate_patterns(events, keys).contains(pattern_of(events, key)),
    decreases keys.len(),
{
    let rest = candidate_patterns(events, keys.drop_last());
    let p = pattern_of(events, keys.last());
    if keys.last() == key {
        assert(rest.push(p)[rest.len() as int] == p);
    } else {
        let k = choose|k: int| 0 <= k < keys.len() && keys[k] == key;
        assert(keys.drop_last()[k] == key);
        lemma_candidates_have(events, keys.drop_last(), key);
        if p.count >= 2 {
            let m = choose|m: int| 0 <= m < rest.len() && rest[m] == pattern_of(events, key);
            assert(rest.push(p)[m] == pattern_of(events, key));
        }
    }
}

proof fn lemma_insert_count_keeps(s: Seq<PatternView>, x: PatternView, y: PatternView)
    requires
        s.contains(y) || y == x,
    ensures
        insert_by_count(s, x).contains(y),
    decreases s.len(),
{
    if s.len() == 0 || s.last().count >= x.count {
        if y == x {
            assert(s.push(x)[s.len() as int] == x);
        } else {
            let k = choose|k: int| 0 <= k < s.len() && s[k] == y;
            assert(s.push(x)[k] == y);
        }
    } else {
        let r = insert_by_count(s.drop_last(), x);
        if y == s.last() {
            assert(r.push(s.last())[r.len() as int] == y);
        } else {
            if y != x {
                let k = choose|k: int| 0 <= k < s.len() && s[k] == y;
                assert(s.drop_last()[k] == y);
            }
            lemma_insert_count_keeps(s.drop_last(), x, y);
            let m = choose|m: int| 0 <= m < r.len() && r[m] == y;
            assert(r.push(s.last())[m] == y);
        }
    }
}

proof fn lemma_sort_count_keeps(s: Seq<PatternView>, y: PatternView)
    requires
        s.contains(y),
    ensures
        sort_by_count(s).contains(y),
    decreases s.len(),
{
    if y == s.last() {
        lemma_insert_count_keeps(sort_by_count(s.drop_last()), s.last(), y);
    } else {
        let k = choose|k: int| 0 <= k < s.len() && s[k] == y;
        assert(s.drop_last()[k] == y);
        lemma_sort_count_keeps(s.drop_last(), y);
        lemma_insert_count_keeps(sort_by_count(s.drop_last()), s.last(), y);
    }
}

/// No recurring title is missed: whenever two events share a normalized title, that
/// title is among the patterns, counted at least twice.
pub proof fn law_every_repeated_title_is_a_pattern(events: Seq<EventView>, i: int, j: int)
    requires
        0 <= i < j < events.len(),
        spec_normalize_title(events[i].title) == spec_normalize_title(events[j].title),
    ensures
        exists|k: int|
            0 <= k < spec_patterns(events).len() && (#[trigger] spec_patterns(events)[k]).title == spec_normalize_title(
                events[i].title,
            ) && spec_patterns(events)[k].count >= 2,
{
    let key = spec_normalize_title(events[i].title);
    let titles = events.map_values(|e: EventView| spec_normalize_title(e.title));
    assert(titles[i] == key);
    lemma_distinct_has(titles, key);
    let keys = distinct(titles);
    lemma_starts_two(events, key, i, j);
    let p = pattern_of(events, key);
    lemma_candidates_have(events, keys, key);
    lemma_sort_count_keeps(candidate_patterns(events, keys), p);
    let k = choose|k: int| 0 <= k < spec_patterns(events).len() && spec_patterns(events)[k] == p;
    assert(spec_patterns(events)[k].title == key);
}

} // verus!
