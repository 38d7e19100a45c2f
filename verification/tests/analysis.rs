use chrono::{TimeZone, Utc};
use lifeplanner::ai::ollama::{OllamaError, OllamaSettings};
use lifeplanner::ai::prompts::{classify_task_prompt, daily_summary_prompt, extract_events_prompt};
use lifeplanner::analyzer::conflicts::{events_times_ok, find_conflicts};
use lifeplanner::analyzer::patterns::{detect_patterns, most_common, normalize_title};
use lifeplanner::analyzer::priorities::{tasks_times_ok, sort_by_priority, sort_by_priority_at, suggest_schedule, suggest_schedule_at};
use lifeplanner::analyzer::summary::{build_daily_summary, build_daily_summary_at, calculate_day_score};
use lifeplanner::analyzer::time_slots::{find_free_slots, free_slots_between};
use lifeplanner::error::LpError;
use lifeplanner::models::{
    AppSettings, CalendarAccount, CalendarKind, Document, DocumentKind, EnergyLevel, Event, EventStatus, Project, Task,
    TaskPriority, TaskStatus,
};
use lifeplanner::search::fts_query;

fn at(h: u32, m: u32) -> i64 {
    Utc.with_ymd_and_hms(2026, 10, 12, h, m, 0).unwrap().timestamp()
}

fn meeting(title: &str, from: i64, to: i64) -> Event {
    let mut e = Event::new(title.to_string(), from);
    e.end = Some(to);
    e
}

// ---------------------------------------------------------------- conflicts

#[test]
fn overlapping_confirmed_events_conflict_once() {
    let events = vec![
        meeting("A", at(9, 0), at(10, 0)),
        meeting("B", at(9, 30), at(11, 0)),
        meeting("C", at(11, 0), at(12, 0)),
    ];
    let c = find_conflicts(&events);
    assert_eq!(c.len(), 1);
    assert_eq!(c[0].event_a.title, "A");
    assert_eq!(c[0].event_b.title, "B");
    assert_eq!(c[0].overlap_minutes, 30);
}

#[test]
fn cancelled_events_do_not_conflict() {
    let mut b = meeting("B", at(9, 30), at(11, 0));
    b.status = EventStatus::Cancelled;
    assert!(find_conflicts(&[meeting("A", at(9, 0), at(10, 0)), b]).is_empty());
}

#[test]
fn an_event_without_an_end_lasts_an_hour() {
    let a = Event::new("A".to_string(), at(9, 0));
    let b = meeting("B", at(9, 59), at(10, 30));
    assert_eq!(find_conflicts(&[a, b]).len(), 1);
}

// ---------------------------------------------------------------- free time

#[test]
fn free_slots_lie_between_the_events() {
    let events = vec![meeting("A", at(9, 0), at(10, 0)), meeting("B", at(13, 0), at(14, 0))];
    let slots = free_slots_between(&events, 30, at(8, 0), at(8, 0), at(18, 0));
    let spans: Vec<_> = slots.iter().map(|s| (s.start, s.end)).collect();
    assert_eq!(spans, vec![(at(8, 0), at(9, 0)), (at(10, 0), at(13, 0)), (at(14, 0), at(18, 0))]);
    assert_eq!(slots[1].duration_minutes, 180);
}

#[test]
fn short_gaps_and_the_past_are_not_free() {
    let events = vec![meeting("A", at(9, 0), at(10, 0)), meeting("B", at(10, 20), at(17, 0))];
    let slots = free_slots_between(&events, 30, at(12, 0), at(8, 0), at(18, 0));
    let spans: Vec<_> = slots.iter().map(|s| (s.start, s.end)).collect();
    assert_eq!(spans, vec![(at(17, 0), at(18, 0))]);
}

#[test]
fn every_free_hour_lies_inside_a_slot() {
    let events = vec![meeting("A", at(9, 0), at(10, 0)), meeting("B", at(9, 30), at(11, 0)), meeting("C", at(15, 0), at(16, 0))];
    let slots = free_slots_between(&events, 30, at(8, 0), at(8, 0), at(18, 0));
    for (a, z) in [(at(8, 0), at(9, 0)), (at(11, 0), at(12, 0)), (at(13, 0), at(15, 0)), (at(16, 30), at(18, 0))] {
        assert!(slots.iter().any(|s| s.start <= a && z <= s.end), "{a}..{z}");
    }
}

// ---------------------------------------------------------------- priorities

fn task(title: &str, p: TaskPriority, due: Option<i64>) -> Task {
    let mut t = Task::new(title.to_string());
    t.priority = p;
    t.due_date = due;
    t
}

#[test]
fn overdue_tasks_outrank_priority_alone() {
    let now = at(8, 0);
    let mut tasks = vec![
        task("low", TaskPriority::Low, None),
        task("overdue", TaskPriority::Medium, Some(now - 7200)),
        task("critical", TaskPriority::Critical, None),
    ];
    sort_by_priority_at(&mut tasks, now);
    let titles: Vec<_> = tasks.iter().map(|t| t.title.as_str()).collect();
    assert_eq!(titles, ["overdue", "critical", "low"]);
}

#[test]
fn the_schedule_holds_only_open_tasks() {
    let now = at(8, 0);
    let mut done = task("done", TaskPriority::Critical, None);
    done.status = TaskStatus::Done;
    let tasks = vec![done, task("a", TaskPriority::High, None), task("b", TaskPriority::Low, None)];
    let plan = suggest_schedule_at(&tasks, 240, now);
    assert!(plan.iter().all(|t| t.status == TaskStatus::Todo));
    assert!(!plan.is_empty());
}

#[test]
fn the_schedule_fits_its_minutes_and_overdue_tasks_come_first() {
    let now = at(8, 0);
    let mut a = task("a", TaskPriority::High, None);
    a.estimated_minutes = Some(50);
    let mut late = task("late", TaskPriority::Low, Some(now - 3600));
    late.estimated_minutes = Some(40);
    let mut deep = task("deep", TaskPriority::Medium, None);
    deep.energy_level = EnergyLevel::High;
    deep.estimated_minutes = Some(45);
    let tasks = vec![a, deep, late];
    let plan = suggest_schedule_at(&tasks, 120, now);
    let titles: Vec<_> = plan.iter().map(|t| t.title.as_str()).collect();
    assert_eq!(titles, ["late", "deep"]);
    let planned: u32 = plan.iter().map(|t| t.estimated_minutes.unwrap_or(30)).sum();
    assert!(planned <= 120);
}

// ---------------------------------------------------------------- patterns

#[test]
fn the_most_common_value_wins_and_ties_go_to_the_first() {
    assert_eq!(most_common(&vec![3, 1, 3, 2]), Some(3));
    assert_eq!(most_common(&vec![5, 7]), Some(5));
    assert_eq!(most_common(&vec![]), None);
}

#[test]
fn titles_are_normalised_to_three_lower_case_words() {
    assert_eq!(normalize_title("Weekly Team  Sync Meeting"), "weekly team sync");
    assert_eq!(normalize_title("Standup"), "standup");
}

#[test]
fn a_title_seen_three_times_is_a_pattern() {
    let mut events = Vec::new();
    for week in 0..3 {
        let start = at(9, 0) + week * 7 * 86400;
        events.push(meeting("Team Sync", start, start + 1800));
    }
    events.push(meeting("Dentist", at(15, 0), at(16, 0)));
    let p = detect_patterns(&events);
    assert_eq!(p.len(), 1);
    assert_eq!(p[0].title, "team sync");
    assert_eq!(p[0].count, 3);
    assert_eq!(p[0].typical_day_of_week, Some(0));
    assert_eq!(p[0].typical_hour, Some(9));
}

// ---------------------------------------------------------------- the day

#[test]
fn a_calm_day_scores_a_hundred_and_conflicts_cost_fifteen() {
    assert_eq!(calculate_day_score(&[], &[], &[], &[]), 100);
    let events = vec![meeting("A", at(9, 0), at(10, 0)), meeting("B", at(9, 30), at(11, 0))];
    let c = find_conflicts(&events);
    assert_eq!(calculate_day_score(&events, &[], &[], &c), 85);
}

#[test]
fn seven_conflicts_take_the_score_to_zero() {
    let events: Vec<Event> = (0..9).map(|i| meeting("A", at(9, 0), at(10, i))).collect();
    let c = find_conflicts(&events);
    assert_eq!(c.len(), 36);
    assert_eq!(calculate_day_score(&[], &[], &[], &c[..6]), 10);
    assert_eq!(calculate_day_score(&[], &[], &[], &c[..7]), 0);
    assert_eq!(calculate_day_score(&events, &[], &[], &c), 0);
}

#[test]
fn a_long_event_list_still_gets_a_summary() {
    // Far more events than one day holds, none of them today: no cap applies.
    let events: Vec<Event> = (0..20_000).map(|i| meeting("Old", i * 7200, i * 7200 + 3600)).collect();
    let s = build_daily_summary_at(&events, &[], 30, at(7, 0), at(8, 0), at(18, 0));
    assert_eq!(s.events.len(), 0);
    assert_eq!(s.score, 100);
}

#[test]
fn times_are_checked_before_the_analyses() {
    let ok = meeting("A", at(9, 0), at(10, 0));
    assert!(ok.times_ok());
    let mut open_at_the_end = Event::new("B".to_string(), lifeplanner::time::MAX_TIME - 60);
    open_at_the_end.end = None;
    assert!(!open_at_the_end.times_ok());
    assert!(events_times_ok(&[ok]));
    assert!(!events_times_ok(&[meeting("A", at(9, 0), at(10, 0)), open_at_the_end]));
    let mut t = task("T", TaskPriority::Low, Some(at(9, 0)));
    assert!(tasks_times_ok(std::slice::from_ref(&t)));
    t.due_date = Some(lifeplanner::time::MAX_TIME + 1);
    assert!(!t.times_ok());
    assert!(!tasks_times_ok(&[t]));
    assert!(lifeplanner::time::is_valid_time(0));
    assert!(!lifeplanner::time::is_valid_time(lifeplanner::time::MIN_TIME - 1));
}

#[test]
fn the_summary_holds_the_days_events_and_prompt() {
    let now = at(7, 0);
    let events = vec![meeting("Standup", at(9, 0), at(9, 15))];
    let tasks = vec![task("Bericht", TaskPriority::High, Some(at(17, 0)))];
    let s = build_daily_summary_at(&events, &tasks, 30, now, at(8, 0), at(18, 0));
    assert_eq!(s.date, "2026-10-12");
    assert_eq!(s.events.len(), 1);
    assert_eq!(s.tasks_due.len(), 1);
    assert_eq!(s.score, 100);
    let prompt = daily_summary_prompt(&s);
    assert!(prompt.contains("- 09:00 Uhr: Standup (15 Min)"));
    assert!(prompt.contains("- Bericht [High], fällig: 12.10."));
    assert!(!prompt.contains("ÜBERFÄLLIG"));
}

// ---------------------------------------------------------------- prompts

#[test]
fn the_classification_prompt_names_the_task() {
    let p = classify_task_prompt("Steuern", "");
    assert!(p.starts_with("Klassifiziere diese Aufgabe und antworte NUR mit JSON ohne Erklärung:\n\nAufgabe: Steuern\nBeschreibung: —\n"));
    assert!(classify_task_prompt("a", "b").contains("Beschreibung: b\n"));
}

#[test]
fn the_extraction_prompt_sends_at_most_1500_bytes() {
    let long = "x".repeat(2000);
    let p = extract_events_prompt(&long);
    assert!(p.contains(&"x".repeat(1500)));
    assert!(!p.contains(&"x".repeat(1501)));
    assert!(extract_events_prompt("kurz").contains("TEXT:\nkurz\n\nJSON-Format:"));
}

#[test]
fn the_model_server_address_loses_its_trailing_slash() {
    let s = OllamaSettings::new("http://localhost:11434//", "llama3");
    assert_eq!(s.base_url, "http://localhost:11434");
    assert_eq!(s.generate_url(), "http://localhost:11434/api/generate");
    assert_eq!(s.tags_url(), "http://localhost:11434/api/tags");
    assert_eq!(s.answer(true, "  hi \n").unwrap(), "hi");
    assert!(matches!(s.answer(false, "x"), Err(OllamaError::Unavailable(u)) if u == "http://localhost:11434"));
}

// ---------------------------------------------------------------- models and the rest

#[test]
fn priority_scores_and_labels() {
    assert_eq!(TaskPriority::Critical.score(), 5);
    assert_eq!(TaskPriority::Someday.score(), 1);
    assert_eq!(TaskPriority::High.label(), "Hoch");
    assert_eq!(EnergyLevel::Low.label(), "Routine");
}

#[test]
fn overdue_tasks_and_event_lengths() {
    let t = task("x", TaskPriority::Medium, Some(at(8, 0)));
    assert!(t.is_overdue_at(at(9, 0)));
    assert!(!t.is_overdue_at(at(7, 0)));
    assert_eq!(meeting("m", at(9, 0), at(9, 45)).duration_minutes(), Some(45));
    assert_eq!(Event::new("n".to_string(), at(9, 0)).duration_minutes(), None);
}

#[test]
fn new_items_have_fresh_ids() {
    let a = Project::new("P".to_string());
    let b = Project::new("P".to_string());
    assert_ne!(a.id, b.id);
    assert_eq!(Document::new("D".to_string(), DocumentKind::Pdf).kind, DocumentKind::Pdf);
    assert_eq!(CalendarAccount::new_local("L".to_string()).kind, CalendarKind::Local);
    let s = AppSettings::default();
    assert_eq!((s.work_start_hour, s.work_end_hour), (8, 18));
}

#[test]
fn search_queries_lose_their_quotes() {
    assert_eq!(fts_query("say \"hi\""), "say hi*");
    assert_eq!(fts_query(""), "*");
}

#[test]
fn app_errors_read_as_sentences() {
    assert_eq!(LpError::Db("locked".to_string()).message(), "Database error: locked");
    assert_eq!(LpError::Other("plain".to_string()).message(), "plain");
}

#[test]
fn the_entry_points_that_read_the_clock() {
    let mut tasks = vec![task("a", TaskPriority::Low, None), task("b", TaskPriority::Critical, None)];
    sort_by_priority(&mut tasks);
    assert_eq!(tasks[0].title, "b");
    assert!(suggest_schedule(&tasks, 600).len() <= 2);
    assert!(task("x", TaskPriority::Medium, Some(0)).is_overdue());
    let settings = AppSettings::default();
    let s = build_daily_summary(&[], &[], &settings);
    assert_eq!(s.score, 100);
    assert!(s.events.is_empty());
    for slot in find_free_slots(&[], &settings) {
        assert!(slot.start < slot.end);
        assert!(slot.duration_minutes >= 30);
    }
}
