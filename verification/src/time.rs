//! Points in time as whole seconds since 1970-01-01T00:00:00 UTC, and the
//! calendar arithmetic the planner needs on them.
use chrono::Datelike;
use chrono::TimeZone;
use vstd::prelude::*;

verus! {

/// The first second that a UTC date-time can hold (1 January of year -262143).
pub const MIN_TIME: i64 = -8_334_601_228_800;

/// The last second that a UTC date-time can hold (31 December of year 262142).
pub const MAX_TIME: i64 = 8_210_266_876_799;

pub const MIN_YEAR: i32 = -262143;

pub const MAX_YEAR: i32 = 262142;

pub const SECS_PER_MINUTE: i64 = 60;

pub const SECS_PER_HOUR: i64 = 3600;

pub const SECS_PER_DAY: i64 = 86400;

/// A timestamp that a date-time can hold.
pub open spec fn valid_time(t: int) -> bool {
    MIN_TIME <= t <= MAX_TIME
}

/// Whether a date-time can hold the second `t`.
pub fn is_valid_time(t: i64) -> (b: bool)
    ensures
        b == valid_time(t as int),
{
    MIN_TIME <= t && t <= MAX_TIME
}

pub open spec fn is_leap_year(y: int) -> bool {
    (y % 4 == 0 && y % 100 != 0) || y % 400 == 0
}

pub open spec fn days_in_month(y: int, m: int) -> int {
    if m == 2 {
        if is_leap_year(y) {
            29
        } else {
            28
        }
    } else if m == 4 || m == 6 || m == 9 || m == 11 {
        30
    } else {
        31
    }
}

/// A calendar date that exists.
pub open spec fn valid_date(y: int, m: int, d: int) -> bool {
    &&& MIN_YEAR <= y <= MAX_YEAR
    &&& 1 <= m <= 12
    &&& 1 <= d <= days_in_month(y, m)
}

/// Days from 1970-01-01 to the given proleptic Gregorian date.
pub open spec fn days_from_civil(y: int, m: int, d: int) -> int {
    let y2 = if m <= 2 {
        y - 1
    } else {
        y
    };
    let era = y2 / 400;
    let yoe = y2 - era * 400;
    let mp = if m > 2 {
        m - 3
    } else {
        m + 9
    };
    let doy = (153 * mp + 2) / 5 + d - 1;
    let doe = yoe * 365 + yoe / 4 - yoe / 100 + doy;
    era * 146097 + doe - 719468
}

/// Seconds of a wall-clock reading `y-m-d h:min:00`, counted as if it were UTC.
pub open spec fn naive_secs(y: int, m: int, d: int, h: int, min: int) -> int {
    days_from_civil(y, m, d) * 86400 + h * 3600 + min * 60
}

/// The wall-clock reading, when the date exists and the time of day is a real one.
pub open spec fn spec_naive_datetime(y: int, m: int, d: int, h: int, min: int) -> Option<int> {
    if valid_date(y, m, d) && 0 <= h < 24 && 0 <= min < 60 {
        Some(naive_secs(y, m, d, h, min))
    } else {
        None
    }
}

/// The day number (days since 1970-01-01) that holds the second `t`.
pub open spec fn day_of(t: int) -> int {
    t / 86400
}

/// Monday is 0, Sunday 6.
pub open spec fn weekday_of(t: int) -> int {
    (day_of(t) + 3) % 7
}

proof fn lemma_days_bounds(y: int, m: int, d: int)
    requires
        valid_date(y, m, d),
    ensures
        -97_000_000 <= days_from_civil(y, m, d) <= 96_000_000,
{
    let y2 = if m <= 2 {
        y - 1
    } else {
        y
    };
    let era = y2 / 400;
    let yoe = y2 - era * 400;
    assert(0 <= yoe < 400);
    assert(-657 <= era <= 656);
    let mp = if m > 2 {
        m - 3
    } else {
        m + 9
    };
    assert(0 <= mp <= 11);
    assert(0 <= (153 * mp + 2) / 5 <= 337);
    assert(0 <= yoe * 365 <= 399 * 365) by (nonlinear_arith)
        requires
            0 <= yoe < 400,
    ;
    assert(-657 * 146097 <= era * 146097 <= 656 * 146097) by (nonlinear_arith)
        requires
            -657 <= era <= 656,
    ;
}

proof fn lemma_shifted_era(y2: int)
    requires
        -300_000 <= y2 <= 300_000,
    ensures
        (y2 + 400_000) / 400 - 1000 == y2 / 400,
        0 <= (y2 + 400_000) / 400,
{
    assert((y2 + 400_000) / 400 == y2 / 400 + 1000) by (nonlinear_arith);
}

/// Days from 1970-01-01 to a date that exists.
fn days_from_civil_exec(y: i32, m: u32, d: u32) -> (r: i64)
    requires
        valid_date(y as int, m as int, d as int),
    ensures
        r as int == days_from_civil(y as int, m as int, d as int),
        -97_000_000 <= r <= 96_000_000,
{
    proof {
        lemma_days_bounds(y as int, m as int, d as int);
    }
    // Shift the year by a whole number of 400-year eras so that every division below
    // works on non-negative numbers.
    let y2: i64 = if m <= 2 {
        y as i64 - 1
    } else {
        y as i64
    };
    proof {
        lemma_shifted_era(y2 as int);
    }
    let shifted: i64 = y2 + 400_000;
    let era: i64 = shifted / 400 - 1000;
    let yoe: i64 = y2 - era * 400;
    assert(0 <= yoe < 400);
    let mp: i64 = if m > 2 {
        m as i64 - 3
    } else {
        m as i64 + 9
    };
    let doy: i64 = (153 * mp + 2) / 5 + d as i64 - 1;
    let doe: i64 = yoe * 365 + yoe / 4 - yoe / 100 + doy;
    assert(-657 <= era <= 656);
    era * 146097 + doe - 719468
}

/// Seconds of the wall-clock reading `y-m-d h:min:00` (counted as if UTC), or
/// `None` when there is no such date or time of day.
pub fn naive_datetime(y: i32, m: u32, d: u32, h: u32, min: u32) -> (r: Option<i64>)
    ensures
        r matches Some(v) ==> spec_naive_datetime(y as int, m as int, d as int, h as int, min as int) == Some(v as int),
        r is None ==> spec_naive_datetime(y as int, m as int, d as int, h as int, min as int) is None,
        r matches Some(v) ==> -8_400_000_000_000 <= v <= 8_400_000_000_000,
{
    if y < MIN_YEAR || y > MAX_YEAR || m < 1 || m > 12 || h >= 24 || min >= 60 || d < 1 {
        return None;
    }
    let leap = (y % 4 == 0 && y % 100 != 0) || y % 400 == 0;
    assert(leap == is_leap_year(y as int));
    let dim: u32 = if m == 2 {
        if leap {
            29
        } else {
            28
        }
    } else if m == 4 || m == 6 || m == 9 || m == 11 {
        30
    } else {
        31
    };
    if d > dim {
        return None;
    }
    let days = days_from_civil_exec(y, m, d);
    Some(days * 86400 + h as i64 * 3600 + min as i64 * 60)
}

/// The current moment, as read from the system clock (`std::time::SystemTime::now`,
/// turned into a `chrono::DateTime<Utc>` by its `From`, which, unlike `Utc::now`,
/// also takes a clock set before 1970). The one thing claimed is that the reading
/// is a second a date-time can hold, which every `DateTime<Utc>` is; chrono panics
/// only for a system clock outside its years -262143 to 262142.
#[verifier::external_body]
pub(crate) fn utc_now() -> (t: i64)
    ensures
        valid_time(t as int),
{
    chrono::DateTime::<chrono::Utc>::from(std::time::SystemTime::now()).timestamp()
}

/// One reading of the clock: the UTC second, and the wall-clock reading (counted as
/// if it were UTC) and the year where the machine is.
#[derive(Debug, Clone, Copy)]
pub struct LocalClock {
    pub utc: i64,
    pub naive: i64,
    pub year: i32,
}

impl LocalClock {
    /// Every part lies in the range that a date-time can hold, the year is that of
    /// the wall-clock reading, and the reading is less than a day away from the UTC
    /// second (a time zone's offset is shorter than a day).
    pub open spec fn wf(self) -> bool {
        &&& valid_time(self.utc as int)
        &&& valid_time(self.naive as int)
        &&& MIN_YEAR <= self.year <= MAX_YEAR
        &&& self.year == civil_from_days(self.naive as int / 86400).0
        &&& self.naive - 86400 < self.utc < self.naive + 86400
    }
}

/// Reads the clock once (`std::time::SystemTime::now`, turned into a
/// `chrono::DateTime<Local>` by its `From`, which also takes a clock set before
/// 1970): its UTC second, its wall-clock reading and its year. Claimed (`LocalClock::wf`): each lies in the range of
/// chrono's date-times; the year is that of the local date (`Datelike::year` on a
/// `DateTime<Local>` reads the local date); and the wall-clock reading is less than
/// a day from the UTC second, since chrono's offsets are shorter than a day. What
/// the reading is depends on the time, and is not stated.
#[verifier::external_body]
pub(crate) fn local_clock() -> (c: LocalClock)
    ensures
        c.wf(),
{
    let now = chrono::DateTime::<chrono::Local>::from(std::time::SystemTime::now());
    LocalClock { utc: now.timestamp(), naive: now.naive_local().and_utc().timestamp(), year: now.year() }
}

/// The wall-clock reading `hour:00` on the day of the wall-clock reading `local`.
pub open spec fn hour_of_day(local: int, hour: int) -> int {
    local - local % 86400 + hour * 3600
}

/// `u` is the UTC second at which the wall clock shows `hour:00` on the day of the
/// reading `local`, as far as it can be told without the time zone: less than a day
/// away from that reading; or it is `fallback`, taken where the zone skips the hour.
pub open spec fn at_wall_hour(local: int, hour: int, u: int, fallback: int) -> bool {
    u == fallback || hour_of_day(local, hour) - 86400 < u < hour_of_day(local, hour) + 86400
}

/// The UTC second at which the machine's time zone shows the given wall-clock
/// reading, taking the earlier one where the reading occurs twice and `None` where it
/// is skipped. Calls `chrono::Local::from_local_datetime(..).earliest()`.
/// Claimed: a result is a second a date-time can hold, and lies less than a day away
/// from the reading (chrono's offsets are shorter than a day).
#[verifier::external_body]
pub fn local_to_utc(naive: i64) -> (r: Option<i64>)
    ensures
        r matches Some(u) ==> valid_time(u as int) && naive - 86400 < u < naive + 86400,
{
    let ndt = chrono::DateTime::from_timestamp(naive, 0)?.naive_utc();
    chrono::Local.from_local_datetime(&ndt).earliest().map(|d| d.timestamp())
}

/// The proleptic Gregorian date `(year, month, day)` of the day `n` days after
/// 1970-01-01 (the inverse of `days_from_civil`).
pub open spec fn civil_from_days(n: int) -> (int, int, int) {
    let z = n + 719468;
    let era = z / 146097;
    let doe = z - era * 146097;
    let yoe = (doe - doe / 1460 + doe / 36524 - doe / 146096) / 365;
    let doy = doe - (365 * yoe + yoe / 4 - yoe / 100);
    let mp = (5 * doy + 2) / 153;
    let d = doy - (153 * mp + 2) / 5 + 1;
    let m = if mp < 10 {
        mp + 3
    } else {
        mp - 9
    };
    (yoe + era * 400 + if m <= 2 {
        1int
    } else {
        0
    }, m, d)
}

/// `n` (0..=99) as two digits.
pub open spec fn two_digits(n: int) -> Seq<char> {
    seq![crate::text::digit_char((n / 10) as nat), crate::text::digit_char((n % 10) as nat)]
}

/// `n` (0..=9999) as four digits.
pub open spec fn four_digits(n: int) -> Seq<char> {
    two_digits(n / 100) + two_digits(n % 100)
}

/// The year as `%Y` prints it: four digits from 0 to 9999; outside, a sign and at
/// least four digits.
pub open spec fn year_text(y: int) -> Seq<char> {
    if 0 <= y <= 9999 {
        four_digits(y)
    } else {
        let a = if y < 0 {
            -y
        } else {
            y
        };
        seq![if y < 0 {
            '-'
        } else {
            '+'
        }] + if a <= 9999 {
            four_digits(a)
        } else {
            crate::text::decimal(a as nat)
        }
    }
}

/// What `chrono` prints for the UTC second `t` with one of the strftime patterns
/// of `known_pattern`: `%Y` the year, `%m`, `%d`, `%H`, `%M`, `%S` two digits each,
/// anything else as written.
pub open spec fn strftime_utc(t: int, pattern: Seq<char>) -> Seq<char> {
    let days = t / 86400;
    let secs = t % 86400;
    let (y, m, d) = civil_from_days(days);
    let hh = two_digits(secs / 3600);
    let mm = two_digits(secs % 3600 / 60);
    let ss = two_digits(secs % 60);
    if pattern == "%Y-%m-%d"@ {
        year_text(y) + "-"@ + two_digits(m) + "-"@ + two_digits(d)
    } else if pattern == "%H:%M"@ {
        hh + ":"@ + mm
    } else if pattern == "%d.%m."@ {
        two_digits(d) + "."@ + two_digits(m) + "."@
    } else {
        year_text(y) + two_digits(m) + two_digits(d) + "T"@ + hh + mm + ss + "Z"@
    }
}

/// The strftime patterns this library prints with; each is one chrono can print,
/// so that printing cannot fail.
pub open spec fn known_pattern(p: Seq<char>) -> bool {
    ||| p == "%Y-%m-%d"@
    ||| p == "%H:%M"@
    ||| p == "%d.%m."@
    ||| p == "%Y%m%dT%H%M%SZ"@
}

/// The UTC second `t` printed with a strftime pattern, by
/// `chrono::DateTime::<Utc>::format` and `to_string`, as `strftime_utc` states it.
/// `to_string` panics on a pattern chrono cannot print; the patterns admitted are
/// fixed ones it can.
#[verifier::external_body]
pub(crate) fn format_utc(t: i64, pattern: &str) -> (s: String)
    requires
        valid_time(t as int),
        known_pattern(pattern@),
    ensures
        s@ == strftime_utc(t as int, pattern@),
{
    let dt = chrono::DateTime::from_timestamp(t, 0).unwrap_or_default();
    dt.format(pattern).to_string()
}

/// What `chrono::NaiveDateTime::parse_from_str` reads from `text` with the
/// strftime pattern `pattern`: the wall-clock reading in seconds, or `None`.
pub uninterp spec fn parsed_naive(text: Seq<char>, pattern: Seq<char>) -> Option<int>;

/// Reads a wall-clock date-time from `text` with a strftime pattern by
/// `chrono::NaiveDateTime::parse_from_str`. The result is named, in both
/// directions: `Some(v)` exactly when the name is `Some(v)`, `None` exactly when it
/// is `None`; a reading that chrono gives is one a date-time can hold.
#[verifier::external_body]
pub(crate) fn parse_naive(text: &str, pattern: &str) -> (r: Option<i64>)
    ensures
        r matches Some(v) ==> parsed_naive(text@, pattern@) == Some(v as int) && valid_time(v as int),
        r is None ==> parsed_naive(text@, pattern@) is None,
{
    chrono::NaiveDateTime::parse_from_str(text, pattern).ok().map(|n| n.and_utc().timestamp())
}

} // verus!
