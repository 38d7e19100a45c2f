use chrono::{TimeZone, Utc};
use lifeplanner::calendar::accounts::AccountError;
use lifeplanner::calendar::caldav::{caldav_outcome, parse_caldav_response, parse_dt, report_body, CalDavError};
use lifeplanner::calendar::ics::{events_from_ics, parse_ical_datetime, parse_rrule, split_text, IcsError};
use lifeplanner::calendar::sync::{plan_calendar_sync, replace_calendar_events};
use lifeplanner::models::{EventSource, EventStatus, Event};

fn now() -> i64 {
    Utc::now().timestamp()
}

fn event(uid: &str, title: &str, hours_from_now: i64) -> Event {
    let start = now() + hours_from_now * 3600;
    let mut e = Event::new(title.to_string(), start);
    e.end = Some(start + 3600);
    e.external_uid = Some(uid.to_string());
    e
}

// ---------------------------------------------------------------- sync

#[test]
fn syncing_twice_does_not_double_the_calendar() {
    let feed = || vec![event("a@cal", "Dentist", 2), event("b@cal", "Standup", 5)];
    let (store, _) = replace_calendar_events(Vec::new(), "work", feed());
    let (store, _) = replace_calendar_events(store, "work", feed());
    assert_eq!(store.len(), 2);
}

#[test]
fn changed_events_are_updated_in_place() {
    let (store, _) = replace_calendar_events(Vec::new(), "work", vec![event("a@cal", "Dentist", 2)]);
    let before = store[0].id.clone();
    let (after, _) = replace_calendar_events(store, "work", vec![event("a@cal", "Dentist (moved)", 3)]);
    assert_eq!(after.len(), 1);
    assert_eq!(after[0].id, before);
    assert_eq!(after[0].title, "Dentist (moved)");
}

#[test]
fn events_deleted_in_the_calendar_disappear() {
    let (store, _) = replace_calendar_events(Vec::new(), "work", vec![event("a@cal", "Dentist", 2), event("b@cal", "Gone", 4)]);
    let (store, _) = replace_calendar_events(store, "work", vec![event("a@cal", "Dentist", 2)]);
    let titles: Vec<_> = store.into_iter().map(|e| e.title).collect();
    assert_eq!(titles, vec!["Dentist"]);
}

#[test]
fn other_calendars_and_own_events_are_left_alone() {
    let (mut store, _) = replace_calendar_events(Vec::new(), "private", vec![event("p@cal", "Dinner", 6)]);
    store.push(Event::new("Written by hand".to_string(), now()));
    let (store, _) = replace_calendar_events(store, "work", vec![]);
    assert_eq!(store.len(), 2);
}

#[test]
fn the_sync_count_is_the_size_of_the_feed() {
    let (store, n) = replace_calendar_events(Vec::new(), "work", vec![event("a@cal", "A", 1), event("b@cal", "B", 2)]);
    assert_eq!(n, 2);
    assert!(store.iter().all(|e| e.calendar_id.as_deref() == Some("work")));
}

#[test]
fn a_sync_plan_deletes_what_the_feed_dropped() {
    let (store, _) = replace_calendar_events(Vec::new(), "work", vec![event("a@cal", "A", 1), event("b@cal", "B", 2)]);
    let plan = plan_calendar_sync(&store, "work", vec![event("a@cal", "A", 1)]);
    assert_eq!(plan.upserts.len(), 1);
    assert_eq!(plan.deletions, vec![store[1].id.clone()]);
}

// ---------------------------------------------------------------- ics

const ICS: &str = "BEGIN:VCALENDAR\r\nVERSION:2.0\r\nBEGIN:VEVENT\r\nUID:abc@x\r\nSUMMARY:Dentist\r\nDTSTART:20261012T143000Z\r\nDTEND:20261012T150000Z\r\nSTATUS:TENTATIVE\r\nRRULE:FREQ=WEEKLY;INTERVAL=2;BYDAY=MO,WE\r\nLOCATION:Praxis\r\nEND:VEVENT\r\nBEGIN:VEVENT\r\nDTSTART:20261013\r\nEND:VEVENT\r\nEND:VCALENDAR\r\n";

#[test]
fn ics_events_carry_their_properties() {
    let events = events_from_ics(ICS.as_bytes()).unwrap();
    assert_eq!(events.len(), 2);
    let e = &events[0];
    assert_eq!(e.title, "Dentist");
    assert_eq!(e.external_uid.as_deref(), Some("abc@x"));
    assert_eq!(e.start, Utc.with_ymd_and_hms(2026, 10, 12, 14, 30, 0).unwrap().timestamp());
    assert_eq!(e.end, Some(Utc.with_ymd_and_hms(2026, 10, 12, 15, 0, 0).unwrap().timestamp()));
    assert_eq!(e.status, EventStatus::Tentative);
    assert_eq!(e.source, EventSource::IcsFile);
    assert_eq!(e.location.as_deref(), Some("Praxis"));
    let rule = e.recurrence.as_ref().unwrap();
    assert_eq!(rule.freq, "WEEKLY");
    assert_eq!(rule.interval, 2);
    assert_eq!(rule.by_day, vec!["MO", "WE"]);
    let day = &events[1];
    assert_eq!(day.title, "Unbekannter Termin");
    assert!(day.all_day);
    assert_eq!(day.start, Utc.with_ymd_and_hms(2026, 10, 13, 0, 0, 0).unwrap().timestamp());
    assert_eq!(day.external_uid.as_ref().map(|u| u.len()), Some(36));
}

#[test]
fn ical_date_times_are_read() {
    assert_eq!(parse_ical_datetime("20261012"), Some(Utc.with_ymd_and_hms(2026, 10, 12, 0, 0, 0).unwrap().timestamp()));
    assert_eq!(parse_ical_datetime("20261012T080910Z"), Some(Utc.with_ymd_and_hms(2026, 10, 12, 8, 9, 10).unwrap().timestamp()));
    assert_eq!(parse_ical_datetime("2026"), None);
}

#[test]
fn a_rule_without_a_frequency_is_none() {
    assert!(parse_rrule("INTERVAL=2").is_none());
    let r = parse_rrule("FREQ=DAILY;COUNT=5;INTERVAL=x;UNTIL=20261231").unwrap();
    assert_eq!(r.count, Some(5));
    assert_eq!(r.interval, 1);
    assert_eq!(r.until, Some(Utc.with_ymd_and_hms(2026, 12, 31, 0, 0, 0).unwrap().timestamp()));
}

#[test]
fn text_is_split_like_str_split() {
    assert_eq!(split_text("a;b;", ';'), vec!["a", "b", ""]);
    assert_eq!(split_text("", ';'), vec![""]);
}

// ---------------------------------------------------------------- caldav

#[test]
fn caldav_blocks_become_events_of_the_calendar() {
    let xml = format!("<d:multistatus><d:response><c:calendar-data>\n{}\n</c:calendar-data></d:response></d:multistatus>", ICS);
    let events = parse_caldav_response(&xml, "work").unwrap();
    assert_eq!(events.len(), 2);
    assert_eq!(events[0].calendar_id.as_deref(), Some("work"));
    assert_eq!(events[0].source, EventSource::CalDav);
    assert_eq!(events[1].title, "Termin");
    assert!(events[1].all_day);
}

#[test]
fn a_401_is_an_authentication_error() {
    assert!(matches!(caldav_outcome(401, "", "work"), Some(Err(CalDavError::Auth))));
    assert!(matches!(caldav_outcome(207, "", "work"), Some(Ok(v)) if v.is_empty()));
}

#[test]
fn caldav_date_times_are_read() {
    assert_eq!(parse_dt("20261012T101500Z"), Some(Utc.with_ymd_and_hms(2026, 10, 12, 10, 15, 0).unwrap().timestamp()));
}

#[test]
fn the_report_covers_ninety_days_back_and_a_year_ahead() {
    let now = Utc.with_ymd_and_hms(2026, 10, 12, 0, 0, 0).unwrap().timestamp();
    let body = report_body(now);
    assert!(body.contains("start=\"20260714T000000Z\""));
    assert!(body.contains("end=\"20271012T000000Z\""));
}

#[test]
fn calendar_errors_read_as_sentences() {
    assert_eq!(CalDavError::Auth.message(), "Auth error: invalid credentials");
    assert_eq!(IcsError::Parse("x".to_string()).message(), "Parse error: x");
    assert_eq!(AccountError::Keyring("locked".to_string()).message(), "Keyring error: locked");
}
