use lifeplanner::calendar::accounts::{mark_synced, sync_source, SyncSource};
use lifeplanner::error::LpError;
use lifeplanner::models::{CalendarAccount, CalendarKind, EventSource, EventStatus, ProjectStatus, TaskPriority, TaskStatus};
use lifeplanner::store::{event_from_columns, project_from_columns, task_from_columns, EventColumns, ProjectColumns, TaskColumns};

const NOW: i64 = 1_790_000_000;

fn s(x: &str) -> Option<String> {
    Some(x.to_string())
}

fn event_row() -> EventColumns {
    EventColumns {
        id: s("e1"),
        title: s("Zahnarzt"),
        description: None,
        start: s("2026-10-12T14:30:00+00:00"),
        end: Some(s("2026-10-12T15:00:00.750Z")),
        all_day: Some(0),
        location: s("Bern"),
        source: None,
        calendar_id: None,
        external_uid: None,
        status: None,
        recurrence: Some(None),
        linked_task_ids: None,
        linked_doc_ids: Some(vec!["d1".to_string()]),
        tags: None,
        created_at: s("not a time"),
        updated_at: s("2026-10-01T08:00:00+02:00"),
    }
}

#[test]
fn an_event_row_is_read_with_its_defaults() {
    let e = event_from_columns(event_row(), NOW).unwrap();
    assert_eq!(e.id, "e1");
    assert_eq!(e.start, 1_791_815_400);
    assert_eq!(e.end, Some(1_791_817_200));
    assert!(!e.all_day);
    assert_eq!(e.source, EventSource::Manual);
    assert_eq!(e.status, EventStatus::Confirmed);
    assert_eq!(e.linked_doc_ids, vec!["d1".to_string()]);
    assert!(e.tags.is_empty());
    assert_eq!(e.created_at, NOW);
    assert_eq!(e.updated_at, 1_790_834_400);
}

#[test]
fn an_event_row_without_id_title_or_readable_start_is_dropped() {
    assert!(event_from_columns(EventColumns { id: None, ..event_row() }, NOW).is_none());
    assert!(event_from_columns(EventColumns { title: None, ..event_row() }, NOW).is_none());
    assert!(event_from_columns(EventColumns { start: s("12.10.2026"), ..event_row() }, NOW).is_none());
    assert!(event_from_columns(EventColumns { end: None, ..event_row() }, NOW).is_none());
    assert!(event_from_columns(EventColumns { recurrence: None, ..event_row() }, NOW).is_none());
    let open = event_from_columns(EventColumns { end: Some(s("garbage")), ..event_row() }, NOW).unwrap();
    assert_eq!(open.end, None);
}

#[test]
fn a_task_row_is_read_with_its_defaults() {
    let row = TaskColumns {
        id: s("t1"),
        title: s("Bericht"),
        description: None,
        due_date: Some(None),
        priority: None,
        energy_level: None,
        status: Some(TaskStatus::Done),
        project_id: None,
        estimated_minutes: Some(Some(4_294_967_296 + 30)),
        linked_event_ids: None,
        tags: None,
        source: None,
        created_at: None,
        updated_at: None,
    };
    let t = task_from_columns(row, NOW).unwrap();
    assert_eq!(t.priority, TaskPriority::Medium);
    assert_eq!(t.status, TaskStatus::Done);
    assert_eq!(t.estimated_minutes, Some(30));
    assert_eq!(t.due_date, None);
    assert_eq!(t.created_at, NOW);
    let dropped = TaskColumns { estimated_minutes: None, id: s("t1"), title: s("x"), description: None, due_date: Some(None),
        priority: None, energy_level: None, status: None, project_id: None, linked_event_ids: None, tags: None, source: None,
        created_at: None, updated_at: None };
    assert!(task_from_columns(dropped, NOW).is_none());
}

#[test]
fn a_project_row_gets_the_default_colour() {
    let row = ProjectColumns {
        id: s("p1"),
        title: s("Umzug"),
        description: None,
        status: None,
        deadline: Some(s("2026-12-01T00:00:00Z")),
        task_ids: None,
        event_ids: None,
        tags: None,
        auto_detected: Some(1),
        color: None,
        created_at: None,
        updated_at: None,
    };
    let p = project_from_columns(row, NOW).unwrap();
    assert_eq!(p.color, "#58a6ff");
    assert_eq!(p.status, ProjectStatus::Active);
    assert_eq!(p.deadline, Some(1_796_083_200));
    assert!(p.auto_detected);
}

fn account(id: &str, kind: CalendarKind, path: Option<&str>) -> CalendarAccount {
    let mut a = CalendarAccount::new_local(id.to_string());
    a.id = id.to_string();
    a.kind = kind;
    a.ics_path = path.map(|p| p.to_string());
    a
}

#[test]
fn the_account_decides_what_a_sync_reads() {
    let accounts = vec![
        account("home", CalendarKind::Local, None),
        account("file", CalendarKind::IcsFile, Some("/tmp/cal.ics")),
        account("nofile", CalendarKind::IcsFile, None),
        account("work", CalendarKind::CalDav, None),
    ];
    assert!(matches!(sync_source(&accounts, "home"), Ok((0, SyncSource::Nothing))));
    match sync_source(&accounts, "file") {
        Ok((1, SyncSource::IcsFile(p))) => assert_eq!(p, "/tmp/cal.ics"),
        other => panic!("{other:?}"),
    }
    match sync_source(&accounts, "nofile") {
        Err(LpError::Calendar(m)) => assert_eq!(m, "No ICS file chosen"),
        other => panic!("{other:?}"),
    }
    assert!(matches!(sync_source(&accounts, "work"), Ok((3, SyncSource::CalDav))));
    match sync_source(&accounts, "gone") {
        Err(LpError::Other(m)) => assert_eq!(m, "Account not found"),
        other => panic!("{other:?}"),
    }
}

#[test]
fn a_synced_account_records_when() {
    let mut accounts = vec![account("home", CalendarKind::Local, None), account("work", CalendarKind::CalDav, None)];
    mark_synced(&mut accounts, "work", NOW);
    assert_eq!(accounts[1].last_synced, Some(NOW));
    assert_eq!(accounts[0].last_synced, None);
    mark_synced(&mut accounts, "gone", NOW + 1);
    assert_eq!(accounts[1].last_synced, Some(NOW));
}
