//! Dates and times in free text: ISO dates, German dates, relative dates
//! ("morgen", "nächsten Montag", "in 3 Tagen") and deadline phrases.
//!
//! A date without a time zone is wall-clock time where the reader lives; turning it
//! into UTC takes the machine's time zone, which the extraction receives as a table
//! from wall-clock readings to UTC seconds.
use crate::analyzer::patterns::{lowercase, lowercased};
use crate::extractor::pattern::{capture_views, find_all, group, group_of, group_string, group_text, groups_in, lemma_group_text_in, matches_of, Capture, CaptureView};
use crate::text::{begins_with, contains_seq, occurs_at, chars_of, copy_string, is_text, parse_i32, parse_i64, parse_u32, spec_parse_i32, spec_parse_i64, spec_parse_u32, starts_with};
use crate::time::{days_from_civil, local_clock, local_to_utc, naive_datetime, spec_naive_datetime, valid_date, valid_time, weekday_of, LocalClock, MAX_TIME, MIN_TIME};
use vstd::prelude::*;
use vstd::string::StringSliceAdditionalSpecFns;
use vstd::utf8::{decode_utf8, encode_utf8, is_char_boundary};

verus! {

pub open spec fn iso_pattern_text() -> Seq<char> {
    "\\b(\\d{4})-(\\d{2})-(\\d{2})(?:[T ](\\d{2}):(\\d{2})(?::(\\d{2}))?)?\\b"@
}

pub open spec fn de_pattern_text() -> Seq<char> {
    "\\b(\\d{1,2})\\.\\s*(\\d{1,2})\\.(?:\\s*(\\d{4}))?\\b"@
}

pub open spec fn time_pattern_text() -> Seq<char> {
    "\\b([01]?\\d|2[0-3]):([0-5]\\d)\\b"@
}

pub open spec fn relative_pattern_text() -> Seq<char> {
    "(?i)\\b(heute|morgen|übermorgen|today|tomorrow|nächste(?:n|r|s)?|next)\\s*(woche|week|montag|dienstag|mittwoch|donnerstag|freitag|samstag|sonntag|monday|tuesday|wednesday|thursday|friday|saturday|sunday)?\\b"@
}

pub open spec fn in_n_pattern_text() -> Seq<char> {
    "(?i)\\bin\\s+(\\d+)\\s+(tag(?:en)?|woche(?:n)?|monat(?:en)?|day(?:s)?|week(?:s)?|month(?:s)?)\\b"@
}

/// The date may contain dots ("bis 10.10.2026"), so the phrase runs to a comma or
/// the end of the line.
pub open spec fn deadline_pattern_text() -> Seq<char> {
    "(?i)\\b(?:bis|deadline|frist|fällig|due|by|until)\\s*:?\\s*([^\\n,]{3,30})"@
}

fn iso_pattern() -> (p: &'static str)
    ensures
        p@ == iso_pattern_text(),
{
    "\\b(\\d{4})-(\\d{2})-(\\d{2})(?:[T ](\\d{2}):(\\d{2})(?::(\\d{2}))?)?\\b"
}

fn de_pattern() -> (p: &'static str)
    ensures
        p@ == de_pattern_text(),
{
    "\\b(\\d{1,2})\\.\\s*(\\d{1,2})\\.(?:\\s*(\\d{4}))?\\b"
}

fn time_pattern() -> (p: &'static str)
    ensures
        p@ == time_pattern_text(),
{
    "\\b([01]?\\d|2[0-3]):([0-5]\\d)\\b"
}

fn relative_pattern() -> (p: &'static str)
    ensures
        p@ == relative_pattern_text(),
{
    "(?i)\\b(heute|morgen|übermorgen|today|tomorrow|nächste(?:n|r|s)?|next)\\s*(woche|week|montag|dienstag|mittwoch|donnerstag|freitag|samstag|sonntag|monday|tuesday|wednesday|thursday|friday|saturday|sunday)?\\b"
}

fn in_n_pattern() -> (p: &'static str)
    ensures
        p@ == in_n_pattern_text(),
{
    "(?i)\\bin\\s+(\\d+)\\s+(tag(?:en)?|woche(?:n)?|monat(?:en)?|day(?:s)?|week(?:s)?|month(?:s)?)\\b"
}

fn deadline_pattern() -> (p: &'static str)
    ensures
        p@ == deadline_pattern_text(),
{
    "(?i)\\b(?:bis|deadline|frist|fällig|due|by|until)\\s*:?\\s*([^\\n,]{3,30})"
}

/// A date found in text.
#[derive(Debug)]
pub struct ExtractedDate {
    /// Seconds since 1970-01-01 UTC.
    pub datetime: i64,
    pub is_deadline: bool,
    /// The text it was read from.
    pub raw: String,
}

pub ghost struct DateView {
    pub datetime: int,
    pub is_deadline: bool,
    pub raw: Seq<char>,
}

impl View for ExtractedDate {
    type V = DateView;

    open spec fn view(&self) -> DateView {
        DateView { datetime: self.datetime as int, is_deadline: self.is_deadline, raw: self.raw@ }
    }
}

pub open spec fn date_views(v: Seq<ExtractedDate>) -> Seq<DateView> {
    v.map_values(|d: ExtractedDate| d@)
}

/// The UTC second for a wall-clock reading, as the table gives it: the first entry
/// for the reading; `None` when the table has none or the reading does not exist.
pub open spec fn zone_lookup(zone: Seq<(i64, Option<i64>)>, naive: int) -> Option<int>
    decreases zone.len(),
{
    if zone.len() == 0 {
        None
    } else if zone[0].0 == naive {
        match zone[0].1 {
            Some(u) => Some(u as int),
            None => None,
        }
    } else {
        zone_lookup(zone.drop_first(), naive)
    }
}

// ---------------------------------------------------------------- the time near a date

/// The largest character boundary at or before byte `i`.
pub open spec fn floor_boundary(b: Seq<u8>, i: int) -> int
    decreases i,
{
    if i <= 0 {
        0
    } else if is_char_boundary(b, i) {
        i
    } else {
        floor_boundary(b, i - 1)
    }
}

/// The smallest character boundary at or after byte `i`.
pub open spec fn ceil_boundary(b: Seq<u8>, i: int) -> int
    decreases b.len() - i,
{
    if i >= b.len() {
        b.len() as int
    } else if is_char_boundary(b, i) {
        i
    } else {
        ceil_boundary(b, i + 1)
    }
}

/// The text from 50 bytes before to 80 bytes after byte `pos`, widened to whole
/// characters.
pub open spec fn window(text: Seq<char>, pos: int) -> Seq<char> {
    let b = encode_utf8(text);
    let from = floor_boundary(b, if pos >= 50 {
        pos - 50
    } else {
        0
    });
    let to = ceil_boundary(b, if pos + 80 <= b.len() {
        pos + 80
    } else {
        b.len() as int
    });
    decode_utf8(b.subrange(from, to))
}

/// Seconds into the day of the first `hh:mm` time near byte `pos`, or 9:00.
pub open spec fn spec_nearby_time(text: Seq<char>, pos: int) -> int {
    let ms = matches_of(time_pattern_text(), window(text, pos));
    let fallback = 32400int;
    if ms.len() == 0 {
        fallback
    } else {
        match (spec_parse_u32(group_text(ms[0], 1)), spec_parse_u32(group_text(ms[0], 2))) {
            (Some(h), Some(m)) => if h < 24 && m < 60 {
                h * 3600 + m * 60
            } else {
                fallback
            },
            _ => fallback,
        }
    }
}

proof fn lemma_floor_boundary(b: Seq<u8>, i: int)
    requires
        vstd::utf8::valid_utf8(b),
        i <= b.len(),
    ensures
        0 <= floor_boundary(b, i) <= (if i >= 0 {
            i
        } else {
            0
        }),
        is_char_boundary(b, floor_boundary(b, i)),
    decreases i,
{
    vstd::utf8::is_char_boundary_start_end_of_seq(b);
    if i > 0 && !is_char_boundary(b, i) {
        lemma_floor_boundary(b, i - 1);
    }
}

proof fn lemma_ceil_boundary(b: Seq<u8>, i: int)
    requires
        vstd::utf8::valid_utf8(b),
        0 <= i,
    ensures
        i <= ceil_boundary(b, i) <= b.len() || (i > b.len() && ceil_boundary(b, i) == b.len()),
        ceil_boundary(b, i) <= b.len(),
        is_char_boundary(b, ceil_boundary(b, i)),
    decreases b.len() - i,
{
    vstd::utf8::is_char_boundary_start_end_of_seq(b);
    if i < b.len() && !is_char_boundary(b, i) {
        lemma_ceil_boundary(b, i + 1);
    }
}

/// A boundary of a text is a boundary of the part after an earlier boundary.
proof fn lemma_boundary_in_suffix(b: Seq<u8>, from: int, to: int)
    requires
        vstd::utf8::valid_utf8(b),
        vstd::utf8::valid_utf8(b.subrange(from, b.len() as int)),
        0 <= from <= to <= b.len(),
        is_char_boundary(b, to),
    ensures
        is_char_boundary(b.subrange(from, b.len() as int), to - from),
{
    let s = b.subrange(from, b.len() as int);
    vstd::utf8::is_char_boundary_start_end_of_seq(s);
    if 0 < to - from < s.len() {
        vstd::utf8::is_char_boundary_iff_not_is_continuation_byte(b, to);
        vstd::utf8::is_char_boundary_iff_not_is_continuation_byte(s, to - from);
        assert(s[to - from] == b[to]);
    }
}

/// The text around byte `pos`: 50 bytes before to 80 bytes after, widened to whole
/// characters.
fn window_at(text: &str, pos: usize) -> (w: &str)
    requires
        pos <= text.spec_bytes().len(),
    ensures
        w@ == window(text@, pos as int),
{
    let ghost b = text.spec_bytes();
    proof {
        vstd::utf8::encode_utf8_valid_utf8(text@);
        vstd::utf8::is_char_boundary_start_end_of_seq(b);
    }
    let len = text.as_bytes().len();
    let mut from = if pos >= 50 {
        pos - 50
    } else {
        0
    };
    let ghost from0 = from as int;
    proof {
        lemma_floor_boundary(b, from0);
    }
    while !text.is_char_boundary(from)
        invariant
            0 <= from <= from0,
            b == text.spec_bytes(),
            vstd::utf8::valid_utf8(b),
            floor_boundary(b, from0) == floor_boundary(b, from as int),
            is_char_boundary(b, 0),
        decreases from,
    {
        from -= 1;
    }
    let mut to = if len - pos >= 80 {
        pos + 80
    } else {
        len
    };
    let ghost to0 = to as int;
    while !text.is_char_boundary(to)
        invariant
            to0 <= to <= b.len(),
            len == b.len(),
            b == text.spec_bytes(),
            vstd::utf8::valid_utf8(b),
            ceil_boundary(b, to0) == ceil_boundary(b, to as int),
            is_char_boundary(b, b.len() as int),
        decreases b.len() - to,
    {
        to += 1;
    }
    proof {
        lemma_floor_boundary(b, from0);
        lemma_ceil_boundary(b, to0);
    }
    let (_, rest) = text.split_at(from);
    proof {
        vstd::utf8::encode_utf8_valid_utf8(rest@);
        lemma_boundary_in_suffix(b, from as int, to as int);
    }
    let (w, _) = rest.split_at(to - from);
    proof {
        assert(w.spec_bytes() =~= b.subrange(from as int, to as int));
        vstd::utf8::encode_utf8_decode_utf8(w@);
    }
    w
}

/// Seconds into the day of the first `hh:mm` time near byte `pos`, or 9:00.
fn nearby_time(text: &str, pos: usize) -> (t: i64)
    requires
        pos <= text.spec_bytes().len(),
    ensures
        t as int == spec_nearby_time(text@, pos as int),
        0 <= t < 86400,
{
    let w = window_at(text, pos);
    let ms = find_all(time_pattern(), w);
    if ms.len() == 0 {
        return 9 * 3600;
    }
    assert(ms@[0]@ == matches_of(time_pattern_text(), window(text@, pos as int))[0]);
    let hs = chars_of(group_string(&ms[0], 1).as_str());
    let mstr = chars_of(group_string(&ms[0], 2).as_str());
    match (parse_u32(hs.as_slice()), parse_u32(mstr.as_slice())) {
        (Some(h), Some(m)) => if h < 24 && m < 60 {
            h as i64 * 3600 + m as i64 * 60
        } else {
            9 * 3600
        },
        _ => 9 * 3600,
    }
}

// ---------------------------------------------------------------- reading one match

pub open spec fn opt_int(o: Option<i64>) -> Option<int> {
    match o {
        Some(v) => Some(v as int),
        None => None,
    }
}

/// `s` read as a `u32`, or `d` when it is not one.
pub open spec fn u32_or(s: Seq<char>, d: int) -> int {
    match spec_parse_u32(s) {
        Some(v) => v as int,
        None => d,
    }
}

/// `s` read as an `i32`, or `d` when it is not one.
pub open spec fn i32_or(s: Seq<char>, d: int) -> int {
    match spec_parse_i32(s) {
        Some(v) => v as int,
        None => d,
    }
}

/// The wall-clock reading of an ISO date `yyyy-mm-dd[ hh:mm[:ss]]` (seconds are
/// dropped), when the date and the time exist.
pub open spec fn iso_naive(c: CaptureView) -> Option<int> {
    spec_naive_datetime(
        i32_or(group_text(c, 1), 0),
        u32_or(group_text(c, 2), 0),
        u32_or(group_text(c, 3), 0),
        u32_or(group_text(c, 4), 0),
        u32_or(group_text(c, 5), 0),
    )
}

/// The wall-clock reading of a German date `dd.mm.[yyyy]`: the year of the clock
/// when none is given, and the time found near the date.
pub open spec fn de_naive(text: Seq<char>, c: CaptureView, clock: LocalClock) -> Option<int> {
    let d = u32_or(group_text(c, 1), 0);
    let m = u32_or(group_text(c, 2), 0);
    let y = i32_or(group_text(c, 3), clock.year as int);
    if valid_date(y, m, d) {
        Some(days_from_civil(y, m, d) * 86400 + spec_nearby_time(text, c.0))
    } else {
        None
    }
}

/// Days ahead for "heute", "morgen" and "übermorgen" (and the English words).
pub open spec fn anchor_days(anchor: Seq<char>) -> Option<int> {
    if anchor == "heute"@ || anchor == "today"@ {
        Some(0)
    } else if anchor == "morgen"@ || anchor == "tomorrow"@ {
        Some(1)
    } else if anchor == "übermorgen"@ {
        Some(2)
    } else {
        None
    }
}

/// Monday is 0, Sunday 6; `None` for a word that names no day.
pub open spec fn weekday_index(name: Seq<char>) -> Option<int> {
    if name == "montag"@ || name == "monday"@ {
        Some(0)
    } else if name == "dienstag"@ || name == "tuesday"@ {
        Some(1)
    } else if name == "mittwoch"@ || name == "wednesday"@ {
        Some(2)
    } else if name == "donnerstag"@ || name == "thursday"@ {
        Some(3)
    } else if name == "freitag"@ || name == "friday"@ {
        Some(4)
    } else if name == "samstag"@ || name == "saturday"@ {
        Some(5)
    } else if name == "sonntag"@ || name == "sunday"@ {
        Some(6)
    } else {
        None
    }
}

/// Days from weekday `today` to the next weekday `target`; a full week when they
/// are the same day.
pub open spec fn days_ahead(today: int, target: int) -> int {
    if target > today {
        target - today
    } else {
        7 - today + target
    }
}

/// Days ahead named by a relative date: "morgen", or "nächsten Montag".
pub open spec fn relative_days(c: CaptureView, clock: LocalClock) -> Option<int> {
    match anchor_days(lowercased(group_text(c, 1))) {
        Some(n) => Some(n),
        None => match group(c, 2) {
            Some(w) => match weekday_index(lowercased(w)) {
                Some(t) => Some(days_ahead(weekday_of(clock.naive as int), t)),
                None => None,
            },
            None => None,
        },
    }
}

/// The wall-clock reading of a relative date: that many days after the clock's
/// day, at the time found near it.
pub open spec fn rel_naive(text: Seq<char>, c: CaptureView, clock: LocalClock) -> Option<int> {
    match relative_days(c, clock) {
        Some(n) => Some((clock.naive / 86400 + n) * 86400 + spec_nearby_time(text, c.0)),
        None => None,
    }
}

proof fn lemma_nearby_time_in_day(text: Seq<char>, pos: int)
    ensures
        0 <= spec_nearby_time(text, pos) < 86400,
{
}

/// Relative days count from the clock's day: a date read from "heute"/"today" lies on
/// the clock's (wall-clock) day, "morgen"/"tomorrow" on the next, "übermorgen" on the
/// one after; so for the same clock and the same place in the text, "übermorgen" is
/// one day after "morgen", which is one day after "heute".
pub proof fn law_relative_days_count_from_today(text: Seq<char>, c: CaptureView, clock: LocalClock)
    ensures
        (lowercased(group_text(c, 1)) == "heute"@ || lowercased(group_text(c, 1)) == "today"@) ==> (rel_naive(text, c, clock)
            is Some && rel_naive(text, c, clock).unwrap() / 86400 == clock.naive / 86400),
        (lowercased(group_text(c, 1)) == "morgen"@ || lowercased(group_text(c, 1)) == "tomorrow"@) ==> (rel_naive(
            text,
            c,
            clock,
        ) is Some && rel_naive(text, c, clock).unwrap() / 86400 == clock.naive / 86400 + 1),
        lowercased(group_text(c, 1)) == "übermorgen"@ ==> (rel_naive(text, c, clock) is Some && rel_naive(text, c, clock).unwrap()
            / 86400 == clock.naive / 86400 + 2),
{
    lemma_nearby_time_in_day(text, c.0);
    let nt = spec_nearby_time(text, c.0);
    let d = clock.naive / 86400;
    assert((d * 86400 + nt) / 86400 == d) by (nonlinear_arith)
        requires
            0 <= nt < 86400,
    ;
    assert(((d + 1) * 86400 + nt) / 86400 == d + 1) by (nonlinear_arith)
        requires
            0 <= nt < 86400,
    ;
    assert(((d + 2) * 86400 + nt) / 86400 == d + 2) by (nonlinear_arith)
        requires
            0 <= nt < 86400,
    ;
    reveal_strlit("heute");
    reveal_strlit("today");
    reveal_strlit("morgen");
    reveal_strlit("tomorrow");
    reveal_strlit("übermorgen");
    let a = lowercased(group_text(c, 1));
    if a == "übermorgen"@ {
        assert(a != "heute"@ && a != "today"@ && a != "morgen"@ && a != "tomorrow"@) by {
            assert(a.len() == 10);
        }
    }
    if a == "morgen"@ || a == "tomorrow"@ {
        assert(a != "heute"@ && a != "today"@) by {
            assert(a[0] != 'h' && a[0] != 't' || a.len() == 8);
        }
    }
}

/// For the same clock and the same place in the text, "übermorgen" is read exactly
/// one day after "morgen".
pub proof fn law_day_after_tomorrow_follows_tomorrow(text: Seq<char>, c1: CaptureView, c2: CaptureView, clock: LocalClock)
    requires
        lowercased(group_text(c1, 1)) == "morgen"@,
        lowercased(group_text(c2, 1)) == "übermorgen"@,
        c1.0 == c2.0,
    ensures
        rel_naive(text, c1, clock) matches Some(t1) && rel_naive(text, c2, clock) matches Some(t2) && t2 == t1 + 86400,
{
    reveal_strlit("heute");
    reveal_strlit("today");
    reveal_strlit("morgen");
    reveal_strlit("tomorrow");
    reveal_strlit("übermorgen");
    let a1 = lowercased(group_text(c1, 1));
    let a2 = lowercased(group_text(c2, 1));
    assert(a1.len() == 6 && a2.len() == 10);
    assert(a1 != "heute"@ && a1 != "today"@);
    assert(a2 != "heute"@ && a2 != "today"@ && a2 != "morgen"@ && a2 != "tomorrow"@);
    assert(anchor_days(a1) == Some(1int));
    assert(anchor_days(a2) == Some(2int));
}

/// Seconds in one of the units of "in N Tagen/Wochen/Monaten" (a month is 30 days).
pub open spec fn unit_secs(unit: Seq<char>) -> int {
    if starts_with(unit, "tag"@) || starts_with(unit, "day"@) {
        86400
    } else if starts_with(unit, "woch"@) || starts_with(unit, "week"@) {
        604800
    } else {
        2592000
    }
}

/// The moment "in N units" from the clock (N is 1 when it cannot be read), when a
/// date-time can hold it.
pub open spec fn in_n_time(c: CaptureView, clock: LocalClock) -> Option<int> {
    let n = match spec_parse_i64(group_text(c, 1)) {
        Some(v) => v as int,
        None => 1,
    };
    let t = clock.utc + n * unit_secs(lowercased(group_text(c, 2)));
    if valid_time(t) {
        Some(t)
    } else {
        None
    }
}

// ---------------------------------------------------------------- the stages

pub open spec fn opt_seq<A>(o: Option<A>) -> Seq<A> {
    match o {
        Some(x) => seq![x],
        None => seq![],
    }
}

/// A wall-clock reading with the text it was read from.
pub open spec fn with_raw(n: Option<int>, c: CaptureView) -> Option<(int, Seq<char>)> {
    match n {
        Some(v) => Some((v, group_text(c, 0))),
        None => None,
    }
}

pub open spec fn iso_found(ms: Seq<CaptureView>) -> Seq<(int, Seq<char>)>
    decreases ms.len(),
{
    if ms.len() == 0 {
        seq![]
    } else {
        iso_found(ms.drop_last()) + opt_seq(with_raw(iso_naive(ms.last()), ms.last()))
    }
}

pub open spec fn de_found(text: Seq<char>, ms: Seq<CaptureView>, clock: LocalClock) -> Seq<(int, Seq<char>)>
    decreases ms.len(),
{
    if ms.len() == 0 {
        seq![]
    } else {
        de_found(text, ms.drop_last(), clock) + opt_seq(with_raw(de_naive(text, ms.last(), clock), ms.last()))
    }
}

pub open spec fn rel_found(text: Seq<char>, ms: Seq<CaptureView>, clock: LocalClock) -> Seq<(int, Seq<char>)>
    decreases ms.len(),
{
    if ms.len() == 0 {
        seq![]
    } else {
        rel_found(text, ms.drop_last(), clock) + opt_seq(with_raw(rel_naive(text, ms.last(), clock), ms.last()))
    }
}

/// Every wall-clock reading in the text, in this order: ISO dates, German dates,
/// relative dates; each with the text it was read from.
pub open spec fn local_found(text: Seq<char>, clock: LocalClock) -> Seq<(int, Seq<char>)> {
    iso_found(matches_of(iso_pattern_text(), text)) + de_found(text, matches_of(de_pattern_text(), text), clock)
        + rel_found(text, matches_of(relative_pattern_text(), text), clock)
}

/// A reading turned into a date by the zone table; none where the table has no
/// moment for it.
pub open spec fn local_date(p: (int, Seq<char>), zone: Seq<(i64, Option<i64>)>) -> Option<DateView> {
    match zone_lookup(zone, p.0) {
        Some(u) => Some(DateView { datetime: u, is_deadline: false, raw: p.1 }),
        None => None,
    }
}

pub open spec fn converted(found: Seq<(int, Seq<char>)>, zone: Seq<(i64, Option<i64>)>) -> Seq<DateView>
    decreases found.len(),
{
    if found.len() == 0 {
        seq![]
    } else {
        converted(found.drop_last(), zone) + opt_seq(local_date(found.last(), zone))
    }
}

pub open spec fn in_n_date(c: CaptureView, clock: LocalClock) -> Option<DateView> {
    match in_n_time(c, clock) {
        Some(t) => Some(DateView { datetime: t, is_deadline: false, raw: group_text(c, 0) }),
        None => None,
    }
}

pub open spec fn in_n_dates(ms: Seq<CaptureView>, clock: LocalClock) -> Seq<DateView>
    decreases ms.len(),
{
    if ms.len() == 0 {
        seq![]
    } else {
        in_n_dates(ms.drop_last(), clock) + opt_seq(in_n_date(ms.last(), clock))
    }
}

/// The dates of the text before deadline phrases are looked at.
pub open spec fn found_in_text(text: Seq<char>, clock: LocalClock, zone: Seq<(i64, Option<i64>)>) -> Seq<DateView> {
    converted(local_found(text, clock), zone) + in_n_dates(matches_of(in_n_pattern_text(), text), clock)
}

/// Two moments less than five minutes apart.
pub open spec fn close(a: int, b: int) -> bool {
    -300 < a - b < 300
}

/// The first date from position `k` on that lies close to `t`.
pub open spec fn first_close_from(s: Seq<DateView>, t: int, k: int) -> Option<int>
    decreases s.len() - k,
{
    if k < 0 || k >= s.len() {
        None
    } else if close(s[k].datetime, t) {
        Some(k)
    } else {
        first_close_from(s, t, k + 1)
    }
}

/// A date found in a deadline phrase: the first date close to it becomes a
/// deadline; when there is none, it is added as a deadline.
pub open spec fn merge_one(s: Seq<DateView>, f: DateView) -> Seq<DateView> {
    match first_close_from(s, f.datetime, 0) {
        Some(i) => s.update(i, DateView { datetime: s[i].datetime, is_deadline: true, raw: s[i].raw }),
        None => s.push(DateView { datetime: f.datetime, is_deadline: true, raw: f.raw }),
    }
}

pub open spec fn merge_all(s: Seq<DateView>, found: Seq<DateView>) -> Seq<DateView>
    decreases found.len(),
{
    if found.len() == 0 {
        s
    } else {
        merge_one(merge_all(s, found.drop_last()), found.last())
    }
}

/// Drops each date that lies close to the last one kept before it.
pub open spec fn dedup_close(s: Seq<DateView>) -> Seq<DateView>
    decreases s.len(),
{
    if s.len() == 0 {
        seq![]
    } else {
        let p = dedup_close(s.drop_last());
        if p.len() > 0 && close(s.last().datetime, p.last().datetime) {
            p
        } else {
            p.push(s.last())
        }
    }
}

/// The dates of the text, with the dates of the first `k` deadline phrases `dl`
/// merged in. A phrase is part of the text and so shorter than it.
pub open spec fn deadline_fold(
    text: Seq<char>,
    clock: LocalClock,
    zone: Seq<(i64, Option<i64>)>,
    dl: Seq<CaptureView>,
    k: int,
) -> Seq<DateView>
    decreases text.len(), 0int, k,
{
    if k <= 0 || k > dl.len() {
        found_in_text(text, clock, zone)
    } else {
        let prev = deadline_fold(text, clock, zone, dl, k - 1);
        let g = group_text(dl[k - 1], 1);
        if g.len() < text.len() {
            merge_all(prev, spec_dates(g, clock, zone))
        } else {
            prev
        }
    }
}

/// The dates in `text` at the moment `clock`, where `zone` gives the UTC second for
/// a wall-clock reading.
pub open spec fn spec_dates(text: Seq<char>, clock: LocalClock, zone: Seq<(i64, Option<i64>)>) -> Seq<DateView>
    decreases text.len(), 1int, 0int,
{
    let dl = matches_of(deadline_pattern_text(), text);
    dedup_close(deadline_fold(text, clock, zone, dl, dl.len() as int))
}

pub open spec fn firsts(s: Seq<(int, Seq<char>)>) -> Seq<int> {
    s.map_values(|p: (int, Seq<char>)| p.0)
}

/// The wall-clock readings of the first `k` deadline phrases.
pub open spec fn deadline_readings(text: Seq<char>, clock: LocalClock, dl: Seq<CaptureView>, k: int) -> Seq<int>
    decreases text.len(), 0int, k,
{
    if k <= 0 || k > dl.len() {
        seq![]
    } else {
        let g = group_text(dl[k - 1], 1);
        deadline_readings(text, clock, dl, k - 1) + if g.len() < text.len() {
            readings(g, clock)
        } else {
            seq![]
        }
    }
}

/// Every wall-clock reading that the dates of `text` are made from: the ones that
/// the zone table must hold.
pub open spec fn readings(text: Seq<char>, clock: LocalClock) -> Seq<int>
    decreases text.len(), 1int, 0int,
{
    let dl = matches_of(deadline_pattern_text(), text);
    firsts(local_found(text, clock)) + deadline_readings(text, clock, dl, dl.len() as int)
}

// ---------------------------------------------------------------- every date's text is part of the text

/// Each reading's text is a piece of `text`.
pub open spec fn found_raws_in(fs: Seq<(int, Seq<char>)>, text: Seq<char>) -> bool {
    forall|i: int| 0 <= i < fs.len() ==> contains_seq(text, (#[trigger] fs[i]).1)
}

/// Each date's text is a piece of `text`.
pub open spec fn raws_in(ds: Seq<DateView>, text: Seq<char>) -> bool {
    forall|i: int| 0 <= i < ds.len() ==> contains_seq(text, (#[trigger] ds[i]).raw)
}

/// Every group of every match is a piece of `text`.
pub open spec fn all_groups_in(text: Seq<char>, ms: Seq<CaptureView>) -> bool {
    forall|i: int| 0 <= i < ms.len() ==> groups_in(text, #[trigger] ms[i])
}

proof fn lemma_contains_trans(a: Seq<char>, b: Seq<char>, c: Seq<char>)
    requires
        contains_seq(a, b),
        contains_seq(b, c),
    ensures
        contains_seq(a, c),
{
    let i = choose|i: int| occurs_at(a, b, i);
    let j = choose|j: int| occurs_at(b, c, j);
    assert(a.subrange(i + j, i + j + c.len()) =~= b.subrange(j, j + c.len()));
    assert(occurs_at(a, c, i + j));
}

proof fn lemma_found_step(prev: Seq<(int, Seq<char>)>, n: Option<int>, c: CaptureView, text: Seq<char>)
    requires
        found_raws_in(prev, text),
        groups_in(text, c),
    ensures
        found_raws_in(prev + opt_seq(with_raw(n, c)), text),
{
    lemma_group_text_in(text, c, 0);
    let s = prev + opt_seq(with_raw(n, c));
    assert forall|i: int| 0 <= i < s.len() implies contains_seq(text, (#[trigger] s[i]).1) by {
        if i < prev.len() {
            assert(s[i] == prev[i]);
        }
    }
}

proof fn lemma_found_concat(a: Seq<(int, Seq<char>)>, b: Seq<(int, Seq<char>)>, text: Seq<char>)
    requires
        found_raws_in(a, text),
        found_raws_in(b, text),
    ensures
        found_raws_in(a + b, text),
{
    assert forall|i: int| 0 <= i < (a + b).len() implies contains_seq(text, (#[trigger] (a + b)[i]).1) by {
        if i < a.len() {
            assert((a + b)[i] == a[i]);
        } else {
            assert((a + b)[i] == b[i - a.len()]);
        }
    }
}

proof fn lemma_iso_found_in(ms: Seq<CaptureView>, text: Seq<char>)
    requires
        all_groups_in(text, ms),
    ensures
        found_raws_in(iso_found(ms), text),
    decreases ms.len(),
{
    if ms.len() > 0 {
        lemma_iso_found_in(ms.drop_last(), text);
        lemma_found_step(iso_found(ms.drop_last()), iso_naive(ms.last()), ms.last(), text);
    }
}

proof fn lemma_de_found_in(ms: Seq<CaptureView>, text: Seq<char>, clock: LocalClock)
    requires
        all_groups_in(text, ms),
    ensures
        found_raws_in(de_found(text, ms, clock), text),
    decreases ms.len(),
{
    if ms.len() > 0 {
        lemma_de_found_in(ms.drop_last(), text, clock);
        lemma_found_step(de_found(text, ms.drop_last(), clock), de_naive(text, ms.last(), clock), ms.last(), text);
    }
}

proof fn lemma_rel_found_in(ms: Seq<CaptureView>, text: Seq<char>, clock: LocalClock)
    requires
        all_groups_in(text, ms),
    ensures
        found_raws_in(rel_found(text, ms, clock), text),
    decreases ms.len(),
{
    if ms.len() > 0 {
        lemma_rel_found_in(ms.drop_last(), text, clock);
        lemma_found_step(rel_found(text, ms.drop_last(), clock), rel_naive(text, ms.last(), clock), ms.last(), text);
    }
}

proof fn lemma_raws_concat(a: Seq<DateView>, b: Seq<DateView>, text: Seq<char>)
    requires
        raws_in(a, text),
        raws_in(b, text),
    ensures
        raws_in(a + b, text),
{
    assert forall|i: int| 0 <= i < (a + b).len() implies contains_seq(text, (#[trigger] (a + b)[i]).raw) by {
        if i < a.len() {
            assert((a + b)[i] == a[i]);
        } else {
            assert((a + b)[i] == b[i - a.len()]);
        }
    }
}

proof fn lemma_converted_in(found: Seq<(int, Seq<char>)>, zone: Seq<(i64, Option<i64>)>, text: Seq<char>)
    requires
        found_raws_in(found, text),
    ensures
        raws_in(converted(found, zone), text),
    decreases found.len(),
{
    if found.len() > 0 {
        assert(found_raws_in(found.drop_last(), text)) by {
            assert forall|i: int| 0 <= i < found.drop_last().len() implies contains_seq(text, (#[trigger] found.drop_last()[i]).1) by {
                assert(found.drop_last()[i] == found[i]);
            }
        }
        lemma_converted_in(found.drop_last(), zone, text);
        assert(contains_seq(text, found[found.len() - 1].1));
        lemma_raws_concat(converted(found.drop_last(), zone), opt_seq(local_date(found.last(), zone)), text);
    }
}

proof fn lemma_in_n_dates_in(ms: Seq<CaptureView>, clock: LocalClock, text: Seq<char>)
    requires
        all_groups_in(text, ms),
    ensures
        raws_in(in_n_dates(ms, clock), text),
    decreases ms.len(),
{
    if ms.len() > 0 {
        lemma_in_n_dates_in(ms.drop_last(), clock, text);
        lemma_group_text_in(text, ms.last(), 0);
        lemma_raws_concat(in_n_dates(ms.drop_last(), clock), opt_seq(in_n_date(ms.last(), clock)), text);
    }
}

proof fn lemma_first_close_in_range(s: Seq<DateView>, t: int, k: int)
    ensures
        first_close_from(s, t, k) matches Some(j) ==> 0 <= j < s.len(),
    decreases s.len() - k,
{
    if 0 <= k < s.len() && !close(s[k].datetime, t) {
        lemma_first_close_in_range(s, t, k + 1);
    }
}

proof fn lemma_merge_all_in(s: Seq<DateView>, found: Seq<DateView>, text: Seq<char>)
    requires
        raws_in(s, text),
        raws_in(found, text),
    ensures
        raws_in(merge_all(s, found), text),
    decreases found.len(),
{
    if found.len() > 0 {
        assert(raws_in(found.drop_last(), text)) by {
            assert forall|i: int| 0 <= i < found.drop_last().len() implies contains_seq(text, (#[trigger] found.drop_last()[i]).raw) by {
                assert(found.drop_last()[i] == found[i]);
            }
        }
        lemma_merge_all_in(s, found.drop_last(), text);
        let p = merge_all(s, found.drop_last());
        let f = found.last();
        assert(contains_seq(text, found[found.len() - 1].raw));
        let m = merge_one(p, f);
        lemma_first_close_in_range(p, f.datetime, 0);
        match first_close_from(p, f.datetime, 0) {
            Some(j) => {
                assert forall|i: int| 0 <= i < m.len() implies contains_seq(text, (#[trigger] m[i]).raw) by {
                    assert(m[i].raw == p[i].raw);
                }
            },
            None => {
                assert forall|i: int| 0 <= i < m.len() implies contains_seq(text, (#[trigger] m[i]).raw) by {
                    if i < p.len() {
                        assert(m[i] == p[i]);
                    }
                }
            },
        }
    }
}

proof fn lemma_dedup_in(s: Seq<DateView>, text: Seq<char>)
    requires
        raws_in(s, text),
    ensures
        raws_in(dedup_close(s), text),
    decreases s.len(),
{
    if s.len() > 0 {
        assert(raws_in(s.drop_last(), text)) by {
            assert forall|i: int| 0 <= i < s.drop_last().len() implies contains_seq(text, (#[trigger] s.drop_last()[i]).raw) by {
                assert(s.drop_last()[i] == s[i]);
            }
        }
        lemma_dedup_in(s.drop_last(), text);
        let p = dedup_close(s.drop_last());
        assert(contains_seq(text, s[s.len() - 1].raw));
        assert forall|i: int| 0 <= i < p.push(s.last()).len() implies contains_seq(text, (#[trigger] p.push(s.last())[i]).raw) by {
            if i < p.len() {
                assert(p.push(s.last())[i] == p[i]);
            }
        }
    }
}

// ---------------------------------------------------------------- reading one match, run

/// Group `i` of a match read as a `u32`, or `d`.
fn u32_group(c: &Capture, i: usize, d: u32) -> (r: u32)
    ensures
        r as int == u32_or(group_text(c@, i as int), d as int),
{
    let s = group_string(c, i);
    let v = chars_of(s.as_str());
    match parse_u32(v.as_slice()) {
        Some(x) => x,
        None => d,
    }
}

/// Group `i` of a match read as an `i32`, or `d`.
fn i32_group(c: &Capture, i: usize, d: i32) -> (r: i32)
    ensures
        r as int == i32_or(group_text(c@, i as int), d as int),
{
    let s = group_string(c, i);
    let v = chars_of(s.as_str());
    match parse_i32(v.as_slice()) {
        Some(x) => x,
        None => d,
    }
}

/// The wall-clock reading of an ISO date match (`2026-03-15 14:00`): year, month,
/// day, hour and minute from its groups; `None` when there is no such date or time.
pub fn iso_naive_of(c: &Capture) -> (r: Option<i64>)
    ensures
        opt_int(r) == iso_naive(c@),
        r matches Some(v) ==> -8_400_000_000_000 <= v <= 8_400_000_000_000,
{
    let y = i32_group(c, 1, 0);
    let m = u32_group(c, 2, 0);
    let d = u32_group(c, 3, 0);
    let h = u32_group(c, 4, 0);
    let min = u32_group(c, 5, 0);
    naive_datetime(y, m, d, h, min)
}

/// The wall-clock reading of a German date match (`15.3.` or `15.03.2026`): the
/// clock's year when the match has none, and the time written near it.
pub fn de_naive_of(text: &str, c: &Capture, clock: &LocalClock) -> (r: Option<i64>)
    requires
        c.start <= text.spec_bytes().len(),
    ensures
        opt_int(r) == de_naive(text@, c@, *clock),
{
    let d = u32_group(c, 1, 0);
    let m = u32_group(c, 2, 0);
    let y = i32_group(c, 3, clock.year);
    match naive_datetime(y, m, d, 0, 0) {
        Some(midnight) => {
            let t = nearby_time(text, c.start);
            Some(midnight + t)
        },
        None => None,
    }
}

/// Whether `s` is one of the two words.
fn is_either(s: &[char], a: &str, b: &str) -> (r: bool)
    ensures
        r == (s@ == a@ || s@ == b@),
{
    is_text(s, a) || is_text(s, b)
}

fn anchor_days_of(anchor: &[char]) -> (r: Option<i64>)
    ensures
        opt_int(r) == anchor_days(anchor@),
{
    if is_either(anchor, "heute", "today") {
        Some(0)
    } else if is_either(anchor, "morgen", "tomorrow") {
        Some(1)
    } else if is_text(anchor, "übermorgen") {
        Some(2)
    } else {
        None
    }
}

fn weekday_index_of(name: &[char]) -> (r: Option<i64>)
    ensures
        opt_int(r) == weekday_index(name@),
{
    if is_either(name, "montag", "monday") {
        Some(0)
    } else if is_either(name, "dienstag", "tuesday") {
        Some(1)
    } else if is_either(name, "mittwoch", "wednesday") {
        Some(2)
    } else if is_either(name, "donnerstag", "thursday") {
        Some(3)
    } else if is_either(name, "freitag", "friday") {
        Some(4)
    } else if is_either(name, "samstag", "saturday") {
        Some(5)
    } else if is_either(name, "sonntag", "sunday") {
        Some(6)
    } else {
        None
    }
}

/// The day (counted from 1970-01-01) that holds the second `t`.
fn day_number(t: i64) -> (d: i64)
    requires
        valid_time(t as int),
    ensures
        d as int == t as int / 86400,
        -100_000_000 <= d <= 100_000_000,
{
    match t.checked_div_euclid(86400) {
        Some(d) => d,
        None => 0,
    }
}

/// How many days ahead a relative match (`morgen`, `next monday`) points.
pub fn relative_days_of(c: &Capture, clock: &LocalClock) -> (r: Option<i64>)
    requires
        clock.wf(),
    ensures
        opt_int(r) == relative_days(c@, *clock),
        r matches Some(n) ==> 0 <= n <= 7,
{
    let g1 = group_string(c, 1);
    let anchor = lowercase(g1.as_str());
    let av = chars_of(anchor.as_str());
    match anchor_days_of(av.as_slice()) {
        Some(n) => Some(n),
        None => match group_of(c, 2) {
            Some(w) => {
                let lw = lowercase(w.as_str());
                let wv = chars_of(lw.as_str());
                match weekday_index_of(wv.as_slice()) {
                    Some(t) => {
                        let day = day_number(clock.naive);
                        let today = match (day + 3).checked_rem_euclid(7) {
                            Some(x) => x,
                            None => 0,
                        };
                        assert(today as int == weekday_of(clock.naive as int));
                        if t > today {
                            Some(t - today)
                        } else {
                            Some(7 - today + t)
                        }
                    },
                    None => None,
                }
            },
            None => None,
        },
    }
}

/// The wall-clock reading of a relative match: that many days after the clock's
/// day, at the time written near it.
pub fn rel_naive_of(text: &str, c: &Capture, clock: &LocalClock) -> (r: Option<i64>)
    requires
        c.start <= text.spec_bytes().len(),
        clock.wf(),
    ensures
        opt_int(r) == rel_naive(text@, c@, *clock),
{
    match relative_days_of(c, clock) {
        Some(n) => {
            let day = day_number(clock.naive);
            let t = nearby_time(text, c.start);
            Some((day + n) * 86400 + t)
        },
        None => None,
    }
}

fn unit_secs_of(unit: &[char]) -> (r: i64)
    ensures
        r as int == unit_secs(unit@),
{
    let tag = chars_of("tag");
    let day = chars_of("day");
    let woch = chars_of("woch");
    let week = chars_of("week");
    if begins_with(unit, tag.as_slice()) || begins_with(unit, day.as_slice()) {
        86400
    } else if begins_with(unit, woch.as_slice()) || begins_with(unit, week.as_slice()) {
        604800
    } else {
        2592000
    }
}

/// The UTC second of an `in N days/weeks/months` match: N units after the clock's
/// UTC second; `None` past the range of date-times.
pub fn in_n_time_of(c: &Capture, clock: &LocalClock) -> (r: Option<i64>)
    requires
        clock.wf(),
    ensures
        opt_int(r) == in_n_time(c@, *clock),
{
    let g1 = group_string(c, 1);
    let nv = chars_of(g1.as_str());
    let n: i64 = match parse_i64(nv.as_slice()) {
        Some(v) => v,
        None => 1,
    };
    let g2 = group_string(c, 2);
    let unit = lowercase(g2.as_str());
    let uv = chars_of(unit.as_str());
    let secs = unit_secs_of(uv.as_slice());
    match n.checked_mul(secs) {
        Some(d) => match clock.utc.checked_add(d) {
            Some(t) => if MIN_TIME <= t && t <= MAX_TIME {
                Some(t)
            } else {
                None
            },
            None => None,
        },
        None => None,
    }
}

// ---------------------------------------------------------------- the stages, run

pub open spec fn found_views(v: Seq<(i64, String)>) -> Seq<(int, Seq<char>)> {
    v.map_values(|p: (i64, String)| (p.0 as int, p.1@))
}

/// The start of every match lies in the text.
pub open spec fn starts_in(ms: Seq<Capture>, text: &str) -> bool {
    forall|i: int| 0 <= i < ms.len() ==> #[trigger] ms[i].start <= text.spec_bytes().len()
}

fn push_found(out: &mut Vec<(i64, String)>, n: Option<i64>, c: &Capture)
    ensures
        found_views(final(out)@) == found_views(old(out)@) + opt_seq(with_raw(opt_int(n), c@)),
{
    let ghost before = found_views(out@);
    match n {
        Some(v) => {
            out.push((v, group_string(c, 0)));
            assert(found_views(out@) =~= before + opt_seq(with_raw(opt_int(n), c@)));
        },
        None => {
            assert(found_views(out@) =~= before + opt_seq(with_raw(opt_int(n), c@)));
        },
    }
}

fn iso_found_of(text: &str) -> (r: Vec<(i64, String)>)
    ensures
        found_views(r@) == iso_found(matches_of(iso_pattern_text(), text@)),
        found_raws_in(found_views(r@), text@),
{
    let ms = find_all(iso_pattern(), text);
    let ghost cs = capture_views(ms@);
    let mut out: Vec<(i64, String)> = Vec::new();
    let mut i: usize = 0;
    while i < ms.len()
        invariant
            i <= ms@.len(),
            cs == capture_views(ms@),
            found_views(out@) == iso_found(cs.take(i as int)),
        decreases ms@.len() - i,
    {
        assert(cs.take(i + 1).drop_last() =~= cs.take(i as int));
        let n = iso_naive_of(&ms[i]);
        push_found(&mut out, n, &ms[i]);
        i += 1;
    }
    assert(cs.take(cs.len() as int) =~= cs);
    proof {
        assert(all_groups_in(text@, cs));
        lemma_iso_found_in(cs, text@);
    }
    out
}

fn de_found_of(text: &str, clock: &LocalClock) -> (r: Vec<(i64, String)>)
    ensures
        found_views(r@) == de_found(text@, matches_of(de_pattern_text(), text@), *clock),
        found_raws_in(found_views(r@), text@),
{
    let ms = find_all(de_pattern(), text);
    let ghost cs = capture_views(ms@);
    let mut out: Vec<(i64, String)> = Vec::new();
    let mut i: usize = 0;
    while i < ms.len()
        invariant
            i <= ms@.len(),
            cs == capture_views(ms@),
            starts_in(ms@, text),
            found_views(out@) == de_found(text@, cs.take(i as int), *clock),
        decreases ms@.len() - i,
    {
        assert(cs.take(i + 1).drop_last() =~= cs.take(i as int));
        let n = de_naive_of(text, &ms[i], clock);
        push_found(&mut out, n, &ms[i]);
        i += 1;
    }
    assert(cs.take(cs.len() as int) =~= cs);
    proof {
        assert(all_groups_in(text@, cs));
        lemma_de_found_in(cs, text@, *clock);
    }
    out
}

fn rel_found_of(text: &str, clock: &LocalClock) -> (r: Vec<(i64, String)>)
    requires
        clock.wf(),
    ensures
        found_views(r@) == rel_found(text@, matches_of(relative_pattern_text(), text@), *clock),
        found_raws_in(found_views(r@), text@),
{
    let ms = find_all(relative_pattern(), text);
    let ghost cs = capture_views(ms@);
    let mut out: Vec<(i64, String)> = Vec::new();
    let mut i: usize = 0;
    while i < ms.len()
        invariant
            i <= ms@.len(),
            cs == capture_views(ms@),
            starts_in(ms@, text),
            clock.wf(),
            found_views(out@) == rel_found(text@, cs.take(i as int), *clock),
        decreases ms@.len() - i,
    {
        assert(cs.take(i + 1).drop_last() =~= cs.take(i as int));
        let n = rel_naive_of(text, &ms[i], clock);
        push_found(&mut out, n, &ms[i]);
        i += 1;
    }
    assert(cs.take(cs.len() as int) =~= cs);
    proof {
        assert(all_groups_in(text@, cs));
        lemma_rel_found_in(cs, text@, *clock);
    }
    out
}

fn local_found_of(text: &str, clock: &LocalClock) -> (r: Vec<(i64, String)>)
    requires
        clock.wf(),
    ensures
        found_views(r@) == local_found(text@, *clock),
        found_raws_in(found_views(r@), text@),
{
    let mut out = iso_found_of(text);
    let mut de = de_found_of(text, clock);
    let mut rel = rel_found_of(text, clock);
    let ghost (a, b, c) = (found_views(out@), found_views(de@), found_views(rel@));
    out.append(&mut de);
    assert(found_views(out@) =~= a + b);
    out.append(&mut rel);
    assert(found_views(out@) =~= a + b + c);
    proof {
        lemma_found_concat(a, b, text@);
        lemma_found_concat(a + b, c, text@);
    }
    out
}

/// The UTC second that the zone table gives for a wall-clock reading.
fn zone_find(zone: &[(i64, Option<i64>)], n: i64) -> (r: Option<i64>)
    ensures
        opt_int(r) == zone_lookup(zone@, n as int),
{
    let mut i: usize = 0;
    assert(zone@.skip(0) =~= zone@);
    while i < zone.len()
        invariant
            i <= zone@.len(),
            zone_lookup(zone@, n as int) == zone_lookup(zone@.skip(i as int), n as int),
        decreases zone@.len() - i,
    {
        assert(zone@.skip(i as int).drop_first() =~= zone@.skip(i + 1));
        if zone[i].0 == n {
            return zone[i].1;
        }
        i += 1;
    }
    None
}

fn convert_found(found: &Vec<(i64, String)>, zone: &[(i64, Option<i64>)]) -> (r: Vec<ExtractedDate>)
    ensures
        date_views(r@) == converted(found_views(found@), zone@),
{
    let ghost fs = found_views(found@);
    let mut out: Vec<ExtractedDate> = Vec::new();
    let mut i: usize = 0;
    while i < found.len()
        invariant
            i <= found@.len(),
            fs == found_views(found@),
            date_views(out@) == converted(fs.take(i as int), zone@),
        decreases found@.len() - i,
    {
        assert(fs.take(i + 1).drop_last() =~= fs.take(i as int));
        let ghost before = date_views(out@);
        match zone_find(zone, found[i].0) {
            Some(u) => {
                out.push(ExtractedDate { datetime: u, is_deadline: false, raw: copy_string(&found[i].1) });
            },
            None => {},
        }
        assert(date_views(out@) =~= before + opt_seq(local_date(fs[i as int], zone@)));
        i += 1;
    }
    assert(fs.take(fs.len() as int) =~= fs);
    out
}

fn in_n_dates_of(text: &str, clock: &LocalClock) -> (r: Vec<ExtractedDate>)
    requires
        clock.wf(),
    ensures
        date_views(r@) == in_n_dates(matches_of(in_n_pattern_text(), text@), *clock),
        raws_in(date_views(r@), text@),
{
    let ms = find_all(in_n_pattern(), text);
    let ghost cs = capture_views(ms@);
    let mut out: Vec<ExtractedDate> = Vec::new();
    let mut i: usize = 0;
    while i < ms.len()
        invariant
            i <= ms@.len(),
            cs == capture_views(ms@),
            clock.wf(),
            date_views(out@) == in_n_dates(cs.take(i as int), *clock),
        decreases ms@.len() - i,
    {
        assert(cs.take(i + 1).drop_last() =~= cs.take(i as int));
        let ghost before = date_views(out@);
        match in_n_time_of(&ms[i], clock) {
            Some(t) => {
                out.push(ExtractedDate { datetime: t, is_deadline: false, raw: group_string(&ms[i], 0) });
            },
            None => {},
        }
        assert(date_views(out@) =~= before + opt_seq(in_n_date(cs[i as int], *clock)));
        i += 1;
    }
    assert(cs.take(cs.len() as int) =~= cs);
    proof {
        assert(all_groups_in(text@, cs));
        lemma_in_n_dates_in(cs, *clock, text@);
    }
    out
}

// ---------------------------------------------------------------- deadlines and duplicates, run

fn is_close(a: i64, b: i64) -> (r: bool)
    ensures
        r == close(a as int, b as int),
{
    let d = a as i128 - b as i128;
    -300 < d && d < 300
}

/// The first date close to `t`.
fn first_close(s: &Vec<ExtractedDate>, t: i64) -> (r: Option<usize>)
    ensures
        r matches Some(i) ==> first_close_from(date_views(s@), t as int, 0) == Some(i as int) && i < s@.len(),
        r is None ==> first_close_from(date_views(s@), t as int, 0) is None,
{
    let ghost ds = date_views(s@);
    let mut i: usize = 0;
    while i < s.len()
        invariant
            i <= s@.len(),
            ds == date_views(s@),
            first_close_from(ds, t as int, 0) == first_close_from(ds, t as int, i as int),
        decreases s@.len() - i,
    {
        if is_close(s[i].datetime, t) {
            return Some(i);
        }
        i += 1;
    }
    None
}

/// Merges the dates of a deadline phrase into `out`.
fn merge_found(out: &mut Vec<ExtractedDate>, found: &Vec<ExtractedDate>)
    ensures
        date_views(final(out)@) == merge_all(date_views(old(out)@), date_views(found@)),
{
    let ghost start = date_views(out@);
    let ghost fs = date_views(found@);
    let mut k: usize = 0;
    while k < found.len()
        invariant
            k <= found@.len(),
            fs == date_views(found@),
            date_views(out@) == merge_all(start, fs.take(k as int)),
        decreases found@.len() - k,
    {
        assert(fs.take(k + 1).drop_last() =~= fs.take(k as int));
        let ghost before = date_views(out@);
        match first_close(out, found[k].datetime) {
            Some(i) => {
                let d = ExtractedDate { datetime: out[i].datetime, is_deadline: true, raw: copy_string(&out[i].raw) };
                out.set(i, d);
                assert(date_views(out@) =~= merge_one(before, fs[k as int]));
            },
            None => {
                out.push(ExtractedDate { datetime: found[k].datetime, is_deadline: true, raw: copy_string(&found[k].raw) });
                assert(date_views(out@) =~= merge_one(before, fs[k as int]));
            },
        }
        k += 1;
    }
    assert(fs.take(fs.len() as int) =~= fs);
}

/// Drops each date close to the last one kept before it.
fn dedup_dates(v: &Vec<ExtractedDate>) -> (r: Vec<ExtractedDate>)
    ensures
        date_views(r@) == dedup_close(date_views(v@)),
{
    let ghost ds = date_views(v@);
    let mut out: Vec<ExtractedDate> = Vec::new();
    let mut i: usize = 0;
    while i < v.len()
        invariant
            i <= v@.len(),
            ds == date_views(v@),
            date_views(out@) == dedup_close(ds.take(i as int)),
        decreases v@.len() - i,
    {
        assert(ds.take(i + 1).drop_last() =~= ds.take(i as int));
        let ghost before = date_views(out@);
        let n = out.len();
        if n > 0 && is_close(v[i].datetime, out[n - 1].datetime) {
        } else {
            out.push(ExtractedDate { datetime: v[i].datetime, is_deadline: v[i].is_deadline, raw: copy_string(&v[i].raw) });
            assert(date_views(out@) =~= before.push(ds[i as int]));
        }
        i += 1;
    }
    assert(ds.take(ds.len() as int) =~= ds);
    out
}

/// The number of characters of a text.
fn char_count(s: &str) -> (n: usize)
    ensures
        n == s@.len(),
{
    chars_of(s).len()
}

/// The dates in `text` at the moment `clock`, where `zone` gives the UTC second for
/// each wall-clock reading (a reading it does not list is taken as one that does
/// not occur).
pub fn extract_dates_in(text: &str, clock: &LocalClock, zone: &[(i64, Option<i64>)]) -> (r: Vec<ExtractedDate>)
    requires
        clock.wf(),
    ensures
        date_views(r@) == spec_dates(text@, *clock, zone@),
        raws_in(date_views(r@), text@),
    decreases text@.len(),
{
    let found = local_found_of(text, clock);
    let mut out = convert_found(&found, zone);
    let mut extra = in_n_dates_of(text, clock);
    let ghost (a, b) = (date_views(out@), date_views(extra@));
    proof {
        lemma_converted_in(found_views(found@), zone@, text@);
        lemma_raws_concat(a, b, text@);
    }
    out.append(&mut extra);
    assert(date_views(out@) =~= a + b);
    let dl = find_all(deadline_pattern(), text);
    let ghost cs = capture_views(dl@);
    let len = char_count(text);
    let mut k: usize = 0;
    while k < dl.len()
        invariant
            k <= dl@.len(),
            clock.wf(),
            len == text@.len(),
            cs == capture_views(dl@),
            cs == matches_of(deadline_pattern_text(), text@),
            all_groups_in(text@, cs),
            date_views(out@) == deadline_fold(text@, *clock, zone@, cs, k as int),
            raws_in(date_views(out@), text@),
        decreases dl@.len() - k,
    {
        let g = group_string(&dl[k], 1);
        if char_count(g.as_str()) < len {
            let sub = extract_dates_in(g.as_str(), clock, zone);
            proof {
                lemma_group_text_in(text@, cs[k as int], 1);
                let sv = date_views(sub@);
                assert forall|i: int| 0 <= i < sv.len() implies contains_seq(text@, (#[trigger] sv[i]).raw) by {
                    lemma_contains_trans(text@, g@, sv[i].raw);
                }
                lemma_merge_all_in(date_views(out@), sv, text@);
            }
            merge_found(&mut out, &sub);
        }
        k += 1;
    }
    proof {
        lemma_dedup_in(date_views(out@), text@);
    }
    dedup_dates(&out)
}

pub open spec fn ints(v: Seq<i64>) -> Seq<int> {
    v.map_values(|x: i64| x as int)
}

/// Every wall-clock reading that the dates of `text` are made from.
pub fn readings_of(text: &str, clock: &LocalClock) -> (r: Vec<i64>)
    requires
        clock.wf(),
    ensures
        ints(r@) == readings(text@, *clock),
    decreases text@.len(),
{
    let found = local_found_of(text, clock);
    let ghost fs = found_views(found@);
    let mut out: Vec<i64> = Vec::new();
    let mut i: usize = 0;
    while i < found.len()
        invariant
            i <= found@.len(),
            fs == found_views(found@),
            ints(out@) == firsts(fs.take(i as int)),
        decreases found@.len() - i,
    {
        let ghost before = ints(out@);
        out.push(found[i].0);
        assert(fs[i as int].0 == found@[i as int].0 as int);
        assert(ints(out@) =~= before.push(fs[i as int].0));
        assert(firsts(fs.take(i + 1)) =~= firsts(fs.take(i as int)).push(fs[i as int].0));
        i += 1;
    }
    assert(fs.take(fs.len() as int) =~= fs);
    let ghost base = ints(out@);
    let dl = find_all(deadline_pattern(), text);
    let ghost cs = capture_views(dl@);
    let len = char_count(text);
    let mut k: usize = 0;
    while k < dl.len()
        invariant
            k <= dl@.len(),
            clock.wf(),
            len == text@.len(),
            cs == capture_views(dl@),
            cs == matches_of(deadline_pattern_text(), text@),
            ints(out@) == base + deadline_readings(text@, *clock, cs, k as int),
        decreases dl@.len() - k,
    {
        let g = group_string(&dl[k], 1);
        let ghost before = ints(out@);
        if char_count(g.as_str()) < len {
            let mut sub = readings_of(g.as_str(), clock);
            let ghost sv = ints(sub@);
            out.append(&mut sub);
            assert(ints(out@) =~= before + sv);
        }
        assert(ints(out@) =~= base + deadline_readings(text@, *clock, cs, k + 1));
        k += 1;
    }
    assert(ints(out@) =~= readings(text@, *clock));
    out
}

/// Every answer of the table is a second a date-time can hold, less than a day away
/// from the reading it answers.
pub open spec fn zone_faithful(zone: Seq<(i64, Option<i64>)>) -> bool {
    forall|j: int|
        0 <= j < zone.len() ==> ((#[trigger] zone[j]).1 matches Some(u) ==> valid_time(u as int) && zone[j].0 - 86400 < u
            < zone[j].0 + 86400)
}

/// The table has an answer for the reading `n`.
pub open spec fn answers(zone: Seq<(i64, Option<i64>)>, n: int) -> bool {
    exists|j: int| 0 <= j < zone.len() && #[trigger] zone[j].0 == n
}

/// The table answers each of the readings.
pub open spec fn covers(zone: Seq<(i64, Option<i64>)>, ns: Seq<int>) -> bool {
    forall|i: int| 0 <= i < ns.len() ==> answers(zone, #[trigger] ns[i])
}

/// The dates in `text`: ISO dates (`2026-10-12 14:30`), German dates (`12.10.` or
/// `12.10.2026`, at the time written near them or 9:00), relative dates ("morgen",
/// "nächsten Montag"), "in N Tagen/Wochen/Monaten", and the dates of deadline
/// phrases ("bis 10.10.2026"), which are marked as deadlines. A date less than five
/// minutes from the one kept before it is dropped.
///
/// Wall-clock readings are in the machine's time zone: the clock is read once, and
/// each reading is turned into a UTC second by the time zone, which the result states
/// as a table.
pub fn extract_dates(text: &str) -> (r: Vec<ExtractedDate>)
    ensures
        exists|clock: LocalClock, zone: Seq<(i64, Option<i64>)>|
            {
                &&& clock.wf()
                &&& zone_faithful(zone)
                &&& covers(zone, readings(text@, clock))
                &&& date_views(r@) == spec_dates(text@, clock, zone)
            },
        forall|i: int| 0 <= i < r@.len() ==> contains_seq(text@, (#[trigger] r@[i]).raw@),
{
    let clock = local_clock();
    let ns = readings_of(text, &clock);
    let mut zone: Vec<(i64, Option<i64>)> = Vec::new();
    let mut i: usize = 0;
    while i < ns.len()
        invariant
            i <= ns@.len(),
            zone@.len() == i,
            forall|j: int| 0 <= j < i ==> (#[trigger] zone@[j]).0 == ns@[j],
            zone_faithful(zone@),
        decreases ns@.len() - i,
    {
        let u = local_to_utc(ns[i]);
        zone.push((ns[i], u));
        i += 1;
    }
    let r = extract_dates_in(text, &clock, zone.as_slice());
    proof {
        let rs = readings(text@, clock);
        assert(rs == ints(ns@));
        assert forall|i: int| 0 <= i < rs.len() implies answers(zone@, #[trigger] rs[i]) by {
            assert(zone@[i].0 == ns@[i]);
            assert(rs[i] == ints(ns@)[i]);
        }
        assert(covers(zone@, rs));
        assert(date_views(r@) == spec_dates(text@, clock, zone@));
        assert forall|i: int| 0 <= i < r@.len() implies contains_seq(text@, (#[trigger] r@[i]).raw@) by {
            assert(date_views(r@)[i] == r@[i]@);
        }
    }
    r
}

// ---------------------------------------------------------------- laws

/// Next to each other in the result, two dates are five minutes apart or more.
pub proof fn law_dedup_keeps_dates_apart(s: Seq<DateView>)
    ensures
        forall|i: int|
            0 <= i < dedup_close(s).len() - 1 ==> !close(
                #[trigger] dedup_close(s)[i + 1].datetime,
                dedup_close(s)[i].datetime,
            ),
    decreases s.len(),
{
    if s.len() > 0 {
        law_dedup_keeps_dates_apart(s.drop_last());
        let p = dedup_close(s.drop_last());
        let r = dedup_close(s);
        assert forall|i: int| 0 <= i < r.len() - 1 implies !close(#[trigger] r[i + 1].datetime, r[i].datetime) by {
            if !(p.len() > 0 && close(s.last().datetime, p.last().datetime)) {
                if i + 1 < p.len() {
                    assert(r[i + 1] == p[i + 1]);
                    assert(r[i] == p[i]);
                }
            }
        }
    }
}

/// The dates found in a text: no two next to each other lie less than five
/// minutes apart.
pub proof fn law_extracted_dates_are_apart(text: Seq<char>, clock: LocalClock, zone: Seq<(i64, Option<i64>)>)
    ensures
        forall|i: int|
            0 <= i < spec_dates(text, clock, zone).len() - 1 ==> !close(
                #[trigger] spec_dates(text, clock, zone)[i + 1].datetime,
                spec_dates(text, clock, zone)[i].datetime,
            ),
{
    let dl = matches_of(deadline_pattern_text(), text);
    law_dedup_keeps_dates_apart(deadline_fold(text, clock, zone, dl, dl.len() as int));
}

/// "Nächsten Montag" is one to seven days ahead, never today, and falls on a Monday.
pub proof fn law_next_weekday_is_within_a_week(today: int, target: int)
    requires
        0 <= today < 7,
        0 <= target < 7,
    ensures
        1 <= days_ahead(today, target) <= 7,
        (today + days_ahead(today, target)) % 7 == target,
{
}

} // verus!
