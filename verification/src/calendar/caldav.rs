//! CalDAV servers: the query sent to them and the events in their answer.
use crate::calendar::ics::{cut_ok, cut_ok_of, ical_digits, ical_events, ical_format, parse_ical, prop, prop_views, comp_views, get_prop, Props};
use crate::extractor::pattern::{find_all, group_string, group_text, matches_of, capture_views};
use crate::models::{Event, EventSource, EventStatus, EventView};
use crate::text::{trim, trimmed};
use crate::time::{format_utc, parse_naive, parsed_naive, strftime_utc, utc_now, valid_time};
use vstd::prelude::*;
use vstd::string::{StringExecFns, StringSliceAdditionalSpecFns};
use vstd::utf8::{decode_utf8, encode_utf8};

verus! {

/// Why a server gave no events.
#[derive(Debug)]
pub enum CalDavError {
    Http(String),
    Auth,
    Parse(String),
}

impl CalDavError {
    /// The error as a sentence.
    pub fn message(&self) -> (s: String)
        ensures
            s@ == match self {
                CalDavError::Http(m) => "HTTP error: "@ + m@,
                CalDavError::Auth => "Auth error: invalid credentials"@,
                CalDavError::Parse(m) => "Parse error: "@ + m@,
            },
    {
        match self {
            CalDavError::Http(m) => {
                let mut s = "HTTP error: ".to_owned();
                s.append(m.as_str());
                s
            },
            CalDavError::Auth => "Auth error: invalid credentials".to_owned(),
            CalDavError::Parse(m) => {
                let mut s = "Parse error: ".to_owned();
                s.append(m.as_str());
                s
            },
        }
    }
}

// ---------------------------------------------------------------- the query

/// A UTC second as CalDAV writes it: `20261012T143000Z`.
pub open spec fn caldav_date(t: int) -> Seq<char> {
    strftime_utc(t, "%Y%m%dT%H%M%SZ"@)
}

/// A UTC second as CalDAV writes it.
pub fn format_caldav_date(t: i64) -> (s: String)
    requires
        valid_time(t as int),
    ensures
        s@ == caldav_date(t as int),
{
    format_utc(t, "%Y%m%dT%H%M%SZ")
}

/// The REPORT query for every event from 90 days before `now` to 365 days after.
pub open spec fn spec_report_body(now: int) -> Seq<char> {
    "<?xml version=\"1.0\" encoding=\"UTF-8\"?>\n<c:calendar-query xmlns:d=\"DAV:\" xmlns:c=\"urn:ietf:params:xml:ns:caldav\">\n  <d:prop><d:getetag/><c:calendar-data/></d:prop>\n  <c:filter>\n    <c:comp-filter name=\"VCALENDAR\">\n      <c:comp-filter name=\"VEVENT\">\n        <c:time-range start=\""@
        + caldav_date(now - 90 * 86400) + "\" end=\""@ + caldav_date(now + 365 * 86400)
        + "\"/>\n      </c:comp-filter>\n    </c:comp-filter>\n  </c:filter>\n</c:calendar-query>"@
}

/// The REPORT query for the events of the last 90 and the next 365 days.
pub fn report_body(now: i64) -> (s: String)
    requires
        valid_time(now - 90 * 86400),
        valid_time(now + 365 * 86400),
    ensures
        s@ == spec_report_body(now as int),
{
    let from = format_caldav_date(now - 90 * 86400);
    let to = format_caldav_date(now + 365 * 86400);
    let mut s = "<?xml version=\"1.0\" encoding=\"UTF-8\"?>\n<c:calendar-query xmlns:d=\"DAV:\" xmlns:c=\"urn:ietf:params:xml:ns:caldav\">\n  <d:prop><d:getetag/><c:calendar-data/></d:prop>\n  <c:filter>\n    <c:comp-filter name=\"VCALENDAR\">\n      <c:comp-filter name=\"VEVENT\">\n        <c:time-range start=\"".to_owned();
    s.append(from.as_str());
    s.append("\" end=\"");
    s.append(to.as_str());
    s.append("\"/>\n      </c:comp-filter>\n    </c:comp-filter>\n  </c:filter>\n</c:calendar-query>");
    s
}

// ---------------------------------------------------------------- the answer

/// A CalDAV date-time: `YYYYMMDD` is midnight; with 14 bytes or more the first 14
/// are read as `YYYYMMDDhhmmss`; anything else must end in `000000`.
pub open spec fn spec_caldav_dt(s: Seq<char>) -> Option<int> {
    let d = ical_digits(s);
    let b = encode_utf8(d);
    let fmt = if b.len() >= 14 {
        ical_format()
    } else {
        "%Y%m%d000000"@
    };
    let t = if b.len() == 8 {
        d + "000000"@
    } else if b.len() >= 14 {
        decode_utf8(b.subrange(0, 14))
    } else {
        d
    };
    parsed_naive(t, fmt)
}

/// A CalDAV date-time as a UTC second.
pub fn parse_dt(s: &str) -> (r: Option<i64>)
    requires
        cut_ok(s@),
    ensures
        r matches Some(t) ==> spec_caldav_dt(s@) == Some(t as int) && valid_time(t as int),
        r is None ==> spec_caldav_dt(s@) is None,
{
    let d = crate::calendar::ics::ical_digits_text(s);
    let n = d.as_str().as_bytes().len();
    let fmt = if n >= 14 {
        "%Y%m%d%H%M%S"
    } else {
        "%Y%m%d000000"
    };
    if n == 8 {
        let mut t = d;
        t.append("000000");
        parse_naive(t.as_str(), fmt)
    } else if n >= 14 {
        let (head, _) = d.as_str().split_at(14);
        proof {
            vstd::utf8::encode_utf8_decode_utf8(head@);
        }
        parse_naive(head, fmt)
    } else {
        parse_naive(d.as_str(), fmt)
    }
}

/// The event's date-times can be read without a panic.
pub open spec fn caldav_comp_ok(ps: Props) -> bool {
    &&& prop(ps, "DTSTART"@) matches Some(s) ==> cut_ok(s)
    &&& prop(ps, "DTEND"@) matches Some(s) ==> cut_ok(s)
}

/// The start text of an event, empty without one.
pub open spec fn start_text(ps: Props) -> Seq<char> {
    match prop(ps, "DTSTART"@) {
        Some(s) => s,
        None => seq![],
    }
}

/// The event is a new event of the calendar `calendar_id` from a server, with the
/// properties `ps`: the summary as its title ("Termin" without one), its start (now,
/// when it has none that can be read), end, UID, description and place; a date-only
/// start makes it all-day.
pub open spec fn from_caldav(e: EventView, ps: Props, calendar_id: Seq<char>) -> bool {
    &&& e.title == match prop(ps, "SUMMARY"@) {
        Some(t) => t,
        None => "Termin"@,
    }
    &&& match spec_caldav_dt(start_text(ps)) {
        Some(t) => e.start == t,
        None => valid_time(e.start as int),
    }
    &&& match prop(ps, "DTEND"@) {
        Some(s) => match spec_caldav_dt(s) {
            Some(t) => e.end == Some(t as i64),
            None => e.end is None,
        },
        None => e.end is None,
    }
    &&& e.external_uid == prop(ps, "UID"@)
    &&& e.description == prop(ps, "DESCRIPTION"@)
    &&& e.location == prop(ps, "LOCATION"@)
    &&& e.all_day == (encode_utf8(start_text(ps)).len() == 8)
    &&& e.calendar_id == Some(calendar_id)
    &&& e.source == EventSource::CalDav
    &&& e.status == EventStatus::Confirmed
    &&& e.recurrence is None
    &&& e.id.len() == 36
    &&& e.linked_task_ids.len() == 0
    &&& e.linked_doc_ids.len() == 0
    &&& e.tags.len() == 0
    &&& e.created_at == e.updated_at
    &&& valid_time(e.created_at as int)
}

fn caldav_comp_ok_of(ps: &Vec<(String, Option<String>)>) -> (b: bool)
    ensures
        b == caldav_comp_ok(prop_views(ps@)),
{
    let start_ok = match get_prop(ps, "DTSTART") {
        Some(s) => cut_ok_of(s.as_str()),
        None => true,
    };
    let end_ok = match get_prop(ps, "DTEND") {
        Some(s) => cut_ok_of(s.as_str()),
        None => true,
    };
    start_ok && end_ok
}

/// One event of a server's answer.
fn caldav_event(ps: &Vec<(String, Option<String>)>, calendar_id: &str) -> (e: Event)
    requires
        caldav_comp_ok(prop_views(ps@)),
    ensures
        from_caldav(e@, prop_views(ps@), calendar_id@),
{
    let title = match get_prop(ps, "SUMMARY") {
        Some(t) => t,
        None => "Termin".to_owned(),
    };
    let start_str = match get_prop(ps, "DTSTART") {
        Some(s) => s,
        None => String::new(),
    };
    proof {
        if prop(prop_views(ps@), "DTSTART"@) is None {
            assert(ical_digits(Seq::<char>::empty()) =~= Seq::<char>::empty());
            assert(encode_utf8(Seq::<char>::empty()) =~= Seq::<u8>::empty()) by {
                vstd::utf8::encode_utf8_decode_utf8(Seq::<char>::empty());
            }
        }
    }
    let start = match parse_dt(start_str.as_str()) {
        Some(t) => t,
        None => utc_now(),
    };
    let end = match get_prop(ps, "DTEND") {
        Some(s) => parse_dt(s.as_str()),
        None => None,
    };
    let all_day = start_str.as_str().as_bytes().len() == 8;
    let mut ev = Event::new(title, start);
    ev.source = EventSource::CalDav;
    ev.calendar_id = Some(calendar_id.to_owned());
    ev.external_uid = get_prop(ps, "UID");
    ev.description = get_prop(ps, "DESCRIPTION");
    ev.location = get_prop(ps, "LOCATION");
    ev.end = end;
    ev.all_day = all_day;
    ev
}

pub open spec fn data_pattern_text() -> Seq<char> {
    "<.*?calendar-data[^>]*>([\\s\\S]*?)</.*?calendar-data>"@
}

fn data_pattern() -> (p: &'static str)
    ensures
        p@ == data_pattern_text(),
{
    "<.*?calendar-data[^>]*>([\\s\\S]*?)</.*?calendar-data>"
}

/// The events of every `calendar-data` block of an answer, block by block.
pub open spec fn block_events(blocks: Seq<crate::extractor::pattern::CaptureView>) -> Seq<Props>
    decreases blocks.len(),
{
    if blocks.len() == 0 {
        seq![]
    } else {
        block_events(blocks.drop_last()) + ical_events(encode_utf8(trim(group_text(blocks.last(), 1))))
    }
}

/// The events of a server's answer.
pub open spec fn answer_events(xml: Seq<char>) -> Seq<Props> {
    block_events(matches_of(data_pattern_text(), xml))
}

/// The events in the `calendar-data` blocks of a server's answer, each as
/// `from_caldav` describes it; none when a date-time could not be read without a
/// panic.
pub fn parse_caldav_response(xml: &str, calendar_id: &str) -> (r: Option<Vec<Event>>)
    ensures
        r is None <==> !(forall|i: int|
            0 <= i < answer_events(xml@).len() ==> caldav_comp_ok(#[trigger] answer_events(xml@)[i])),
        r matches Some(v) ==> v@.len() == answer_events(xml@).len() && forall|i: int|
            0 <= i < v@.len() ==> from_caldav(#[trigger] v@[i]@, answer_events(xml@)[i], calendar_id@),
{
    let ms = find_all(data_pattern(), xml);
    let ghost bs = capture_views(ms@);
    let ghost all = answer_events(xml@);
    let mut out: Vec<Event> = Vec::new();
    let mut k: usize = 0;
    while k < ms.len()
        invariant
            k <= ms@.len(),
            bs == capture_views(ms@),
            all == block_events(bs),
            all == answer_events(xml@),
            out@.len() == block_events(bs.take(k as int)).len(),
            forall|j: int| 0 <= j < out@.len() ==> caldav_comp_ok(#[trigger] block_events(bs.take(k as int))[j]),
            forall|j: int|
                0 <= j < out@.len() ==> from_caldav(#[trigger] out@[j]@, block_events(bs.take(k as int))[j], calendar_id@),
        decreases ms@.len() - k,
    {
        assert(bs.take(k + 1).drop_last() =~= bs.take(k as int));
        let ghost done = block_events(bs.take(k as int));
        let g = group_string(&ms[k], 1);
        let t = trimmed(g.as_str());
        let comps = parse_ical(t.as_str().as_bytes());
        let ghost cs = comp_views(comps@);
        assert(block_events(bs.take(k + 1)) == done + cs);
        assert(out@.len() == done.len() + 0);
        let mut i: usize = 0;
        while i < comps.len()
            invariant
                i <= comps@.len(),
                k < ms@.len(),
                bs == capture_views(ms@),
                all == block_events(bs),
                all == answer_events(xml@),
                block_events(bs.take(k + 1)) == done + cs,
                cs == comp_views(comps@),
                out@.len() == done.len() + i,
                forall|j: int| 0 <= j < out@.len() ==> caldav_comp_ok(#[trigger] (done + cs)[j]),
                forall|j: int| 0 <= j < out@.len() ==> from_caldav(#[trigger] out@[j]@, (done + cs)[j], calendar_id@),
            decreases comps@.len() - i,
        {
            assert(cs[i as int] == prop_views(comps@[i as int]@));
            assert((done + cs)[done.len() + i] == cs[i as int]);
            if !caldav_comp_ok_of(&comps[i]) {
                proof {
                    lemma_prefix_events(bs, k as int + 1);
                    assert(all[done.len() + i] == cs[i as int]);
                }
                return None;
            }
            out.push(caldav_event(&comps[i], calendar_id));
            i += 1;
        }
        assert(out@.len() == block_events(bs.take(k + 1)).len());
        k += 1;
    }
    assert(bs.take(bs.len() as int) =~= bs);
    Some(out)
}

/// The events of the first `k` blocks come first among those of all blocks.
proof fn lemma_prefix_events(bs: Seq<crate::extractor::pattern::CaptureView>, k: int)
    requires
        0 <= k <= bs.len(),
    ensures
        block_events(bs.take(k)).len() <= block_events(bs).len(),
        forall|j: int| 0 <= j < block_events(bs.take(k)).len() ==> #[trigger] block_events(bs)[j] == block_events(bs.take(k))[j],
    decreases bs.len() - k,
{
    if k < bs.len() {
        lemma_prefix_events(bs, k + 1);
        assert(bs.take(k + 1).drop_last() =~= bs.take(k));
    } else {
        assert(bs.take(k) =~= bs);
    }
}

/// What a server's answer gives: an authentication error for status 401, else the
/// events of its body; none when the body holds a date-time that cannot be read
/// without a panic.
pub fn caldav_outcome(status: u16, xml: &str, calendar_id: &str) -> (r: Option<Result<Vec<Event>, CalDavError>>)
    ensures
        status == 401 ==> r matches Some(Err(CalDavError::Auth)),
        status != 401 ==> (r is None <==> !(forall|i: int|
            0 <= i < answer_events(xml@).len() ==> caldav_comp_ok(#[trigger] answer_events(xml@)[i]))),
        status != 401 ==> (r matches Some(x) ==> x matches Ok(v) && v@.len() == answer_events(xml@).len() && forall|i: int|
            0 <= i < v@.len() ==> from_caldav(#[trigger] v@[i]@, answer_events(xml@)[i], calendar_id@)),
{
    if status == 401 {
        return Some(Err(CalDavError::Auth));
    }
    match parse_caldav_response(xml, calendar_id) {
        Some(v) => Some(Ok(v)),
        None => None,
    }
}

} // verus!
