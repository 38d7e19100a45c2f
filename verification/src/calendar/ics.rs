//! Calendar files (iCalendar): their events, their date-times and their
//! recurrence rules.
use crate::models::{new_id, ostr, orule, strs, Event, EventSource, EventStatus, EventView, RecurrenceRule, RecurrenceRuleView};
use crate::text::{
    chars_of, index_or_len, is_text, lemma_index_or_len, parse_u32, push_char, spec_parse_u32, string_of_range, trim_end_char,
    trim_end_char_bound,
};
use crate::time::{parse_naive, parsed_naive, utc_now, valid_time};
use vstd::prelude::*;
use vstd::string::{StringExecFns, StringSliceAdditionalSpecFns};
use vstd::utf8::{decode_utf8, encode_utf8, is_char_boundary};

verus! {

/// Why a calendar file gave no events.
#[derive(Debug)]
pub enum IcsError {
    Io(String),
    Parse(String),
}

impl IcsError {
    /// The error as a sentence.
    pub fn message(&self) -> (s: String)
        ensures
            s@ == match self {
                IcsError::Io(m) => "IO error: "@ + m@,
                IcsError::Parse(m) => "Parse error: "@ + m@,
            },
    {
        let (head, m) = match self {
            IcsError::Io(m) => ("IO error: ", m),
            IcsError::Parse(m) => ("Parse error: ", m),
        };
        let mut s = head.to_owned();
        s.append(m.as_str());
        s
    }
}

/// The properties of one event: each name with its value.
pub type Props = Seq<(Seq<char>, Option<Seq<char>>)>;

pub open spec fn prop_views(v: Seq<(String, Option<String>)>) -> Props {
    v.map_values(|p: (String, Option<String>)| (p.0@, ostr(p.1)))
}

pub open spec fn comp_views(v: Seq<Vec<(String, Option<String>)>>) -> Seq<Props> {
    v.map_values(|c: Vec<(String, Option<String>)>| prop_views(c@))
}

/// What `ical::IcalParser` reads from the bytes: the properties of each event of
/// each calendar that it parses.
pub uninterp spec fn ical_events(data: Seq<u8>) -> Seq<Props>;

/// The events of iCalendar data, by `ical::IcalParser` over the bytes; calendars it
/// cannot parse are skipped, as the iterator's `flatten` does. Each event comes as
/// the names and values of its properties. The result is named.
#[verifier::external_body]
pub(crate) fn parse_ical(data: &[u8]) -> (r: Vec<Vec<(String, Option<String>)>>)
    ensures
        comp_views(r@) == ical_events(data@),
{
    let parser = ical::IcalParser::new(std::io::BufReader::new(data));
    parser.flatten().flat_map(|c| c.events).map(
        |e| e.properties.into_iter().map(|p| (p.name, p.value)).collect(),
    ).collect()
}

/// The value of the first property named `name`.
pub open spec fn prop(ps: Props, name: Seq<char>) -> Option<Seq<char>>
    decreases ps.len(),
{
    if ps.len() == 0 {
        None
    } else if ps[0].0 == name {
        ps[0].1
    } else {
        prop(ps.drop_first(), name)
    }
}

/// The value of the first property named `name`.
pub fn get_prop(ps: &Vec<(String, Option<String>)>, name: &str) -> (r: Option<String>)
    ensures
        ostr(r) == prop(prop_views(ps@), name@),
{
    let ghost pv = prop_views(ps@);
    let mut i: usize = 0;
    assert(pv.skip(0) =~= pv);
    while i < ps.len()
        invariant
            i <= ps@.len(),
            pv == prop_views(ps@),
            prop(pv, name@) == prop(pv.skip(i as int), name@),
        decreases ps@.len() - i,
    {
        assert(pv.skip(i as int).drop_first() =~= pv.skip(i + 1));
        let nv = chars_of(ps[i].0.as_str());
        if is_text(nv.as_slice(), name) {
            return match &ps[i].1 {
                Some(v) => Some(v.clone()),
                None => None,
            };
        }
        i += 1;
    }
    None
}

// ---------------------------------------------------------------- date-times

/// The text without every `T`.
pub open spec fn without_t(s: Seq<char>) -> Seq<char>
    decreases s.len(),
{
    if s.len() == 0 {
        seq![]
    } else if s.last() == 'T' {
        without_t(s.drop_last())
    } else {
        without_t(s.drop_last()).push(s.last())
    }
}

/// The digits of an iCalendar date-time: without the final `Z`s and every `T`.
pub open spec fn ical_digits(s: Seq<char>) -> Seq<char> {
    without_t(trim_end_char(s, 'Z'))
}

pub open spec fn ical_format() -> Seq<char> {
    "%Y%m%d%H%M%S"@
}

/// The first 14 bytes of the digits end on a character boundary; where they do not,
/// cutting them would panic.
pub open spec fn cut_ok(s: Seq<char>) -> bool {
    let b = encode_utf8(ical_digits(s));
    b.len() >= 14 ==> is_char_boundary(b, 14)
}

/// An iCalendar date-time as a UTC second: `YYYYMMDD` is midnight, otherwise the
/// first 14 bytes are read as `YYYYMMDDhhmmss`; anything shorter is none.
pub open spec fn spec_ical_datetime(s: Seq<char>) -> Option<int> {
    let d = ical_digits(s);
    let b = encode_utf8(d);
    if b.len() == 8 {
        parsed_naive(d + "000000"@, ical_format())
    } else if b.len() >= 14 {
        parsed_naive(decode_utf8(b.subrange(0, 14)), ical_format())
    } else {
        None
    }
}

/// The digits of a date-time.
fn ical_digits_of(s: &str) -> (r: String)
    ensures
        r@ == ical_digits(s@),
{
    let v = chars_of(s);
    let hi = trim_end_char_bound(v.as_slice(), 0, v.len(), 'Z');
    assert(v@.subrange(0, v@.len() as int) =~= v@);
    let mut r = String::new();
    let mut i: usize = 0;
    while i < hi
        invariant
            i <= hi <= v@.len(),
            v@.subrange(0, hi as int) == trim_end_char(v@, 'Z'),
            r@ == without_t(v@.subrange(0, i as int)),
        decreases hi - i,
    {
        assert(v@.subrange(0, i + 1).drop_last() =~= v@.subrange(0, i as int));
        if v[i] != 'T' {
            push_char(&mut r, v[i]);
        }
        i += 1;
    }
    r
}

/// The digits of a date-time: without the final `Z`s and every `T`.
pub fn ical_digits_text(s: &str) -> (r: String)
    ensures
        r@ == ical_digits(s@),
{
    ical_digits_of(s)
}

/// Whether the date-time can be read without a panic.
pub fn cut_ok_of(s: &str) -> (b: bool)
    ensures
        b == cut_ok(s@),
{
    let d = ical_digits_of(s);
    let n = d.as_str().as_bytes().len();
    if n >= 14 {
        d.as_str().is_char_boundary(14)
    } else {
        true
    }
}

/// An iCalendar date-time as a UTC second.
pub fn parse_ical_datetime(s: &str) -> (r: Option<i64>)
    requires
        cut_ok(s@),
    ensures
        r matches Some(t) ==> spec_ical_datetime(s@) == Some(t as int) && valid_time(t as int),
        r is None ==> spec_ical_datetime(s@) is None,
{
    let d = ical_digits_of(s);
    let n = d.as_str().as_bytes().len();
    if n == 8 {
        let mut t = d;
        t.append("000000");
        parse_naive(t.as_str(), "%Y%m%d%H%M%S")
    } else if n >= 14 {
        let (head, _) = d.as_str().split_at(14);
        proof {
            vstd::utf8::encode_utf8_decode_utf8(head@);
        }
        parse_naive(head, "%Y%m%d%H%M%S")
    } else {
        None
    }
}

// ---------------------------------------------------------------- recurrence rules

/// The pieces of `s` between the occurrences of `c` (`str::split`).
pub open spec fn split_on(s: Seq<char>, c: char) -> Seq<Seq<char>>
    decreases s.len(),
{
    let i = index_or_len(s, c);
    proof {
        lemma_index_or_len(s, c);
    }
    if i >= s.len() {
        seq![s]
    } else {
        seq![s.subrange(0, i)] + split_on(s.subrange(i + 1, s.len() as int), c)
    }
}

/// End of the piece that starts at `from`: the next `c`, or the end.
fn piece_end(v: &[char], from: usize, c: char) -> (r: usize)
    requires
        from <= v@.len(),
    ensures
        r as int == from + index_or_len(v@.subrange(from as int, v@.len() as int), c),
        from <= r <= v@.len(),
{
    let mut i = from;
    while i < v.len() && v[i] != c
        invariant
            from <= i <= v@.len(),
            index_or_len(v@.subrange(from as int, v@.len() as int), c) == (i - from) + index_or_len(
                v@.subrange(i as int, v@.len() as int),
                c,
            ),
        decreases v@.len() - i,
    {
        assert(v@.subrange(i as int, v@.len() as int).drop_first() =~= v@.subrange(i + 1, v@.len() as int));
        i += 1;
    }
    i
}

/// The pieces of `s` between the occurrences of `c`.
pub fn split_text(s: &str, c: char) -> (r: Vec<String>)
    ensures
        strs(r) == split_on(s@, c),
{
    let v = chars_of(s);
    let n = v.len();
    let mut out: Vec<String> = Vec::new();
    let mut from: usize = 0;
    let mut done = false;
    assert(v@.subrange(0, n as int) =~= v@);
    while !done
        invariant
            from <= n == v@.len(),
            v@ == s@,
            done ==> strs(out) == split_on(s@, c),
            !done ==> strs(out) + split_on(v@.subrange(from as int, n as int), c) == split_on(s@, c),
        decreases n - from + (if done {
            0int
        } else {
            1int
        }),
    {
        let e = piece_end(v.as_slice(), from, c);
        let ghost rest = v@.subrange(from as int, n as int);
        proof {
            lemma_index_or_len(rest, c);
        }
        let piece = string_of_range(v.as_slice(), from, e);
        let ghost before = strs(out);
        out.push(piece);
        assert(strs(out) =~= before.push(v@.subrange(from as int, e as int)));
        if e >= n {
            assert(rest.subrange(0, rest.len() as int) =~= rest);
            assert(split_on(rest, c) == seq![rest]);
            assert(strs(out) =~= before + split_on(rest, c));
            done = true;
        } else {
            assert(rest.subrange(0, e - from) =~= v@.subrange(from as int, e as int));
            assert(rest.subrange(e - from + 1, rest.len() as int) =~= v@.subrange(e + 1, n as int));
            assert(strs(out) + split_on(v@.subrange(e + 1, n as int), c) =~= before + split_on(rest, c));
            from = e + 1;
        }
    }
    out
}

/// What a recurrence rule has read so far.
pub ghost struct RuleSoFar {
    pub freq: Seq<char>,
    pub interval: u32,
    pub until: Option<int>,
    pub count: Option<u32>,
    pub by_day: Seq<Seq<char>>,
}

/// The key and the value of a `KEY=value` piece.
pub open spec fn key_of(part: Seq<char>) -> Seq<char> {
    part.subrange(0, index_or_len(part, '='))
}

pub open spec fn value_of(part: Seq<char>) -> Seq<char> {
    part.subrange(index_or_len(part, '=') + 1, part.len() as int)
}

/// One `KEY=value` piece of a rule; a piece without `=` and an unknown key change
/// nothing.
pub open spec fn rule_step(acc: RuleSoFar, part: Seq<char>) -> RuleSoFar {
    if index_or_len(part, '=') >= part.len() {
        acc
    } else {
        let key = key_of(part);
        let val = value_of(part);
        if key == "FREQ"@ {
            RuleSoFar { freq: val, ..acc }
        } else if key == "INTERVAL"@ {
            RuleSoFar {
                interval: match spec_parse_u32(val) {
                    Some(x) => x,
                    None => 1,
                },
                ..acc
            }
        } else if key == "UNTIL"@ {
            RuleSoFar { until: spec_ical_datetime(val), ..acc }
        } else if key == "COUNT"@ {
            RuleSoFar { count: spec_parse_u32(val), ..acc }
        } else if key == "BYDAY"@ {
            RuleSoFar { by_day: split_on(val, ','), ..acc }
        } else {
            acc
        }
    }
}

pub open spec fn rule_fold(parts: Seq<Seq<char>>) -> RuleSoFar
    decreases parts.len(),
{
    if parts.len() == 0 {
        RuleSoFar { freq: seq![], interval: 1, until: None, count: None, by_day: seq![] }
    } else {
        rule_step(rule_fold(parts.drop_last()), parts.last())
    }
}

/// A recurrence rule (`FREQ=WEEKLY;INTERVAL=2;BYDAY=MO,WE`); none without a
/// frequency.
pub open spec fn spec_rrule(rule: Seq<char>) -> Option<RecurrenceRuleView> {
    let a = rule_fold(split_on(rule, ';'));
    if a.freq.len() == 0 {
        None
    } else {
        Some(
            RecurrenceRuleView {
                freq: a.freq,
                interval: a.interval,
                until: match a.until {
                    Some(t) => Some(t as i64),
                    None => None,
                },
                count: a.count,
                by_day: a.by_day,
            },
        )
    }
}

/// Every `UNTIL` of the rule can be read without a panic.
pub open spec fn rrule_ok(rule: Seq<char>) -> bool {
    let parts = split_on(rule, ';');
    forall|i: int|
        0 <= i < parts.len() && index_or_len(#[trigger] parts[i], '=') < parts[i].len() && key_of(parts[i])
            == "UNTIL"@ ==> cut_ok(value_of(parts[i]))
}

/// The key and value of a piece, when it has a `=`.
fn split_key(part: &String) -> (r: Option<(String, String)>)
    ensures
        r matches Some(kv) ==> index_or_len(part@, '=') < part@.len() && kv.0@ == key_of(part@) && kv.1@ == value_of(
            part@,
        ),
        r is None ==> index_or_len(part@, '=') >= part@.len(),
{
    let v = chars_of(part.as_str());
    let e = piece_end(v.as_slice(), 0, '=');
    assert(v@.subrange(0, v@.len() as int) =~= v@);
    if e >= v.len() {
        None
    } else {
        Some((string_of_range(v.as_slice(), 0, e), string_of_range(v.as_slice(), e + 1, v.len())))
    }
}

/// A recurrence rule.
pub fn parse_rrule(rule: &str) -> (r: Option<RecurrenceRule>)
    requires
        rrule_ok(rule@),
    ensures
        orule(r) == spec_rrule(rule@),
{
    let parts = split_text(rule, ';');
    let ghost ps = strs(parts);
    let mut freq = String::new();
    let mut interval: u32 = 1;
    let mut until: Option<i64> = None;
    let mut count: Option<u32> = None;
    let mut by_day: Vec<String> = Vec::new();
    let mut i: usize = 0;
    while i < parts.len()
        invariant
            i <= parts@.len(),
            ps == strs(parts),
            ps == split_on(rule@, ';'),
            rrule_ok(rule@),
            ({
                let a = rule_fold(ps.take(i as int));
                &&& freq@ == a.freq
                &&& interval == a.interval
                &&& until matches Some(t) ==> a.until == Some(t as int)
                &&& until is None ==> a.until is None
                &&& count == a.count
                &&& strs(by_day) == a.by_day
            }),
        decreases parts@.len() - i,
    {
        assert(ps.take(i + 1).drop_last() =~= ps.take(i as int));
        assert(ps[i as int] == parts@[i as int]@);
        match split_key(&parts[i]) {
            Some((key, val)) => {
                let kv = chars_of(key.as_str());
                if is_text(kv.as_slice(), "FREQ") {
                    freq = val;
                } else if is_text(kv.as_slice(), "INTERVAL") {
                    let vv = chars_of(val.as_str());
                    interval = match parse_u32(vv.as_slice()) {
                        Some(x) => x,
                        None => 1,
                    };
                } else if is_text(kv.as_slice(), "UNTIL") {
                    until = parse_ical_datetime(val.as_str());
                } else if is_text(kv.as_slice(), "COUNT") {
                    let vv = chars_of(val.as_str());
                    count = parse_u32(vv.as_slice());
                } else if is_text(kv.as_slice(), "BYDAY") {
                    by_day = split_text(val.as_str(), ',');
                }
            },
            None => {},
        }
        i += 1;
    }
    assert(ps.take(ps.len() as int) =~= ps);
    if chars_of(freq.as_str()).len() == 0 {
        None
    } else {
        Some(RecurrenceRule { freq, interval, until, count, by_day })
    }
}

/// Whether every `UNTIL` of the rule can be read without a panic.
fn rrule_ok_of(rule: &str) -> (b: bool)
    ensures
        b == rrule_ok(rule@),
{
    let parts = split_text(rule, ';');
    let ghost ps = strs(parts);
    let mut i: usize = 0;
    while i < parts.len()
        invariant
            i <= parts@.len(),
            ps == strs(parts),
            ps == split_on(rule@, ';'),
            forall|j: int|
                0 <= j < i && index_or_len(#[trigger] ps[j], '=') < ps[j].len() && key_of(ps[j]) == "UNTIL"@
                    ==> cut_ok(value_of(ps[j])),
        decreases parts@.len() - i,
    {
        assert(ps[i as int] == parts@[i as int]@);
        match split_key(&parts[i]) {
            Some((key, val)) => {
                let kv = chars_of(key.as_str());
                if is_text(kv.as_slice(), "UNTIL") && !cut_ok_of(val.as_str()) {
                    return false;
                }
            },
            None => {},
        }
        i += 1;
    }
    true
}

// ---------------------------------------------------------------- events

/// The event's date-times and rule can be read without a panic.
pub open spec fn comp_ok(ps: Props) -> bool {
    &&& prop(ps, "DTSTART"@) matches Some(s) ==> cut_ok(s)
    &&& prop(ps, "DTEND"@) matches Some(s) ==> cut_ok(s)
    &&& prop(ps, "RRULE"@) matches Some(r) ==> rrule_ok(r)
}

/// The date-time of a property, when it has one that can be read.
pub open spec fn time_of(o: Option<Seq<char>>) -> Option<int> {
    match o {
        Some(s) => spec_ical_datetime(s),
        None => None,
    }
}

/// `CANCELLED` and `TENTATIVE` as they are; anything else is confirmed.
pub open spec fn ics_status(o: Option<Seq<char>>) -> EventStatus {
    match o {
        Some(s) => if s == "CANCELLED"@ {
            EventStatus::Cancelled
        } else if s == "TENTATIVE"@ {
            EventStatus::Tentative
        } else {
            EventStatus::Confirmed
        },
        None => EventStatus::Confirmed,
    }
}

/// The status a calendar file gives is kept: an event whose STATUS is CANCELLED is
/// cancelled, one whose STATUS is TENTATIVE is tentative, and only an event without
/// STATUS or with another one is confirmed.
pub proof fn law_ics_status_is_kept(e: EventView, ps: Props)
    requires
        from_ics(e, ps),
    ensures
        prop(ps, "STATUS"@) == Some("CANCELLED"@) ==> e.status == EventStatus::Cancelled,
        prop(ps, "STATUS"@) == Some("TENTATIVE"@) ==> e.status == EventStatus::Tentative,
        e.status == EventStatus::Confirmed <==> (prop(ps, "STATUS"@) != Some("CANCELLED"@) && prop(ps, "STATUS"@) != Some(
            "TENTATIVE"@,
        )),
{
    reveal_strlit("CANCELLED");
    reveal_strlit("TENTATIVE");
    assert("CANCELLED"@ != "TENTATIVE"@) by {
        assert("CANCELLED"@[0] != "TENTATIVE"@[0]);
    }
}

/// The event is a new event from a calendar file with the properties `ps`: the
/// summary as its title ("Unbekannter Termin" without one), its UID (a fresh one
/// without), its start (now, when it has none that can be read), end, place,
/// description, status and rule; a date-only start makes it all-day.
pub open spec fn from_ics(e: EventView, ps: Props) -> bool {
    &&& e.title == match prop(ps, "SUMMARY"@) {
        Some(t) => t,
        None => "Unbekannter Termin"@,
    }
    &&& match prop(ps, "UID"@) {
        Some(u) => e.external_uid == Some(u),
        None => e.external_uid matches Some(x) && x.len() == 36,
    }
    &&& e.description == prop(ps, "DESCRIPTION"@)
    &&& e.location == prop(ps, "LOCATION"@)
    &&& match time_of(prop(ps, "DTSTART"@)) {
        Some(t) => e.start == t,
        None => valid_time(e.start as int),
    }
    &&& match time_of(prop(ps, "DTEND"@)) {
        Some(t) => e.end == Some(t as i64),
        None => e.end is None,
    }
    &&& e.all_day == (prop(ps, "DTSTART"@) matches Some(s) && encode_utf8(s).len() == 8)
    &&& e.status == ics_status(prop(ps, "STATUS"@))
    &&& e.recurrence == match prop(ps, "RRULE"@) {
        Some(r) => spec_rrule(r),
        None => None,
    }
    &&& e.source == EventSource::IcsFile
    &&& e.id.len() == 36
    &&& e.calendar_id is None
    &&& e.linked_task_ids.len() == 0
    &&& e.linked_doc_ids.len() == 0
    &&& e.tags.len() == 0
    &&& e.created_at == e.updated_at
    &&& valid_time(e.created_at as int)
}

fn comp_ok_of(ps: &Vec<(String, Option<String>)>) -> (b: bool)
    ensures
        b == comp_ok(prop_views(ps@)),
{
    let start_ok = match get_prop(ps, "DTSTART") {
        Some(s) => cut_ok_of(s.as_str()),
        None => true,
    };
    let end_ok = match get_prop(ps, "DTEND") {
        Some(s) => cut_ok_of(s.as_str()),
        None => true,
    };
    let rule_ok = match get_prop(ps, "RRULE") {
        Some(r) => rrule_ok_of(r.as_str()),
        None => true,
    };
    start_ok && end_ok && rule_ok
}

fn time_of_prop(o: &Option<String>) -> (r: Option<i64>)
    requires
        o matches Some(s) ==> cut_ok(s@),
    ensures
        r matches Some(t) ==> time_of(ostr(*o)) == Some(t as int) && valid_time(t as int),
        r is None ==> time_of(ostr(*o)) is None,
{
    match o {
        Some(s) => parse_ical_datetime(s.as_str()),
        None => None,
    }
}

/// One event of a calendar file.
fn ics_event(ps: &Vec<(String, Option<String>)>) -> (e: Event)
    requires
        comp_ok(prop_views(ps@)),
    ensures
        from_ics(e@, prop_views(ps@)),
{
    let uid = match get_prop(ps, "UID") {
        Some(u) => u,
        None => new_id(),
    };
    let title = match get_prop(ps, "SUMMARY") {
        Some(t) => t,
        None => "Unbekannter Termin".to_owned(),
    };
    let description = get_prop(ps, "DESCRIPTION");
    let location = get_prop(ps, "LOCATION");
    let start_text = get_prop(ps, "DTSTART");
    let start = match time_of_prop(&start_text) {
        Some(t) => t,
        None => utc_now(),
    };
    let end_text = get_prop(ps, "DTEND");
    let end = time_of_prop(&end_text);
    let all_day = match &start_text {
        Some(s) => s.as_str().as_bytes().len() == 8,
        None => false,
    };
    let status_text = get_prop(ps, "STATUS");
    let status = match &status_text {
        Some(s) => {
            let v = chars_of(s.as_str());
            if is_text(v.as_slice(), "CANCELLED") {
                EventStatus::Cancelled
            } else if is_text(v.as_slice(), "TENTATIVE") {
                EventStatus::Tentative
            } else {
                EventStatus::Confirmed
            }
        },
        None => EventStatus::Confirmed,
    };
    let recurrence = match get_prop(ps, "RRULE") {
        Some(r) => parse_rrule(r.as_str()),
        None => None,
    };
    let mut ev = Event::new(title, start);
    ev.external_uid = Some(uid);
    ev.description = description;
    ev.location = location;
    ev.end = end;
    ev.all_day = all_day;
    ev.status = status;
    ev.recurrence = recurrence;
    ev.source = EventSource::IcsFile;
    ev
}

/// The events of iCalendar data, each as `from_ics` describes it; none when a
/// date-time or a rule could not be read without a panic.
pub fn events_from_ics(data: &[u8]) -> (r: Option<Vec<Event>>)
    ensures
        r is None <==> !(forall|i: int|
            0 <= i < ical_events(data@).len() ==> comp_ok(#[trigger] ical_events(data@)[i])),
        r matches Some(v) ==> v@.len() == ical_events(data@).len() && forall|i: int|
            0 <= i < v@.len() ==> from_ics(#[trigger] v@[i]@, ical_events(data@)[i]),
{
    let comps = parse_ical(data);
    let ghost cs = comp_views(comps@);
    let mut i: usize = 0;
    while i < comps.len()
        invariant
            i <= comps@.len(),
            cs == comp_views(comps@),
            cs == ical_events(data@),
            forall|j: int| 0 <= j < i ==> comp_ok(#[trigger] cs[j]),
        decreases comps@.len() - i,
    {
        assert(cs[i as int] == prop_views(comps@[i as int]@));
        if !comp_ok_of(&comps[i]) {
            assert(!comp_ok(ical_events(data@)[i as int]));
            return None;
        }
        i += 1;
    }
    let mut events: Vec<Event> = Vec::new();
    let mut k: usize = 0;
    while k < comps.len()
        invariant
            k <= comps@.len(),
            cs == comp_views(comps@),
            cs == ical_events(data@),
            forall|j: int| 0 <= j < cs.len() ==> comp_ok(#[trigger] cs[j]),
            events@.len() == k,
            forall|j: int| 0 <= j < k ==> from_ics(#[trigger] events@[j]@, cs[j]),
        decreases comps@.len() - k,
    {
        assert(cs[k as int] == prop_views(comps@[k as int]@));
        events.push(ics_event(&comps[k]));
        k += 1;
    }
    Some(events)
}

} // verus!
