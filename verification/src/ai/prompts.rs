//! The prompts sent to the language model: a day's summary, a task to classify,
//! a text to search for events and tasks.
use crate::analyzer::conflicts::{ConflictView, EventConflict};
use crate::analyzer::summary::{DailySummary, SummaryView};
use crate::models::{minutes_between, Event, EventView, Task, TaskPriority, TaskView};
use crate::text::{chars_of, decimal, push_decimal, push_signed, signed_decimal};
use crate::time::{format_utc, strftime_utc};
use vstd::prelude::*;
use vstd::string::{StringExecFns, StringSliceAdditionalSpecFns};
use vstd::utf8::{decode_utf8, encode_utf8, is_char_boundary};

verus! {

// ---------------------------------------------------------------- classifying a task

/// The prompt that asks for a task's priority, energy, length and tags; "—" stands
/// for an empty description.
pub open spec fn spec_classify_task_prompt(title: Seq<char>, description: Seq<char>) -> Seq<char> {
    "Klassifiziere diese Aufgabe und antworte NUR mit JSON ohne Erklärung:\n\nAufgabe: "@ + title
        + "\nBeschreibung: "@ + (if description.len() == 0 {
        "—"@
    } else {
        description
    })
        + "\n\nJSON-Format:\n{\"priority\": \"critical|high|medium|low|someday\", \"energy_level\": \"high|medium|low\", \"estimated_minutes\": 30, \"tags\": [\"tag1\", \"tag2\"]}\n\n- energy_level high = Fokus/Tiefarbeit, medium = kreativ/Meeting, low = Routine/Admin"@
}

/// The prompt that asks the model to classify a task.
pub fn classify_task_prompt(task_title: &str, description: &str) -> (r: String)
    ensures
        r@ == spec_classify_task_prompt(task_title@, description@),
{
    let mut r = String::new();
    r.append("Klassifiziere diese Aufgabe und antworte NUR mit JSON ohne Erklärung:\n\nAufgabe: ");
    r.append(task_title);
    r.append("\nBeschreibung: ");
    if chars_of(description).len() == 0 {
        r.append("—");
    } else {
        r.append(description);
    }
    r.append(
        "\n\nJSON-Format:\n{\"priority\": \"critical|high|medium|low|someday\", \"energy_level\": \"high|medium|low\", \"estimated_minutes\": 30, \"tags\": [\"tag1\", \"tag2\"]}\n\n- energy_level high = Fokus/Tiefarbeit, medium = kreativ/Meeting, low = Routine/Admin",
    );
    r
}

// ---------------------------------------------------------------- searching a text

/// How many bytes of a text go into the prompt: the first 1500 at most.
pub open spec fn prompt_cut(text: Seq<char>) -> int {
    let n = encode_utf8(text).len() as int;
    if n < 1500 {
        n
    } else {
        1500
    }
}

/// The prompt that asks for the events and tasks in the first 1500 bytes of `text`.
pub open spec fn spec_extract_events_prompt(text: Seq<char>) -> Seq<char> {
    "Extrahiere Termine und Aufgaben aus dem folgenden Text. Antworte NUR mit JSON:\n\nTEXT:\n"@ + decode_utf8(
        encode_utf8(text).subrange(0, prompt_cut(text)),
    )
        + "\n\nJSON-Format:\n{\"events\": [{\"title\": \"...\", \"start\": \"2026-06-12T14:00:00Z\", \"duration_minutes\": 60, \"location\": \"...\"}], \"tasks\": [{\"title\": \"...\", \"due_date\": \"2026-06-15T00:00:00Z\", \"priority\": \"medium\"}]}"@
}

/// The prompt that asks the model for the events and tasks of a text; only its
/// first 1500 bytes are sent, which must end on a character boundary.
pub fn extract_events_prompt(text: &str) -> (r: String)
    requires
        is_char_boundary(text.spec_bytes(), prompt_cut(text@)),
    ensures
        r@ == spec_extract_events_prompt(text@),
{
    let n = text.as_bytes().len();
    let cut = if n < 1500 {
        n
    } else {
        1500
    };
    let (head, _) = text.split_at(cut);
    proof {
        vstd::utf8::encode_utf8_decode_utf8(head@);
    }
    let mut r = String::new();
    r.append("Extrahiere Termine und Aufgaben aus dem folgenden Text. Antworte NUR mit JSON:\n\nTEXT:\n");
    r.append(head);
    r.append(
        "\n\nJSON-Format:\n{\"events\": [{\"title\": \"...\", \"start\": \"2026-06-12T14:00:00Z\", \"duration_minutes\": 60, \"location\": \"...\"}], \"tasks\": [{\"title\": \"...\", \"due_date\": \"2026-06-15T00:00:00Z\", \"priority\": \"medium\"}]}",
    );
    r
}

// ---------------------------------------------------------------- the day's summary

/// A priority as `{:?}` prints it.
pub open spec fn priority_name(p: TaskPriority) -> Seq<char> {
    match p {
        TaskPriority::Someday => "Someday"@,
        TaskPriority::Low => "Low"@,
        TaskPriority::Medium => "Medium"@,
        TaskPriority::High => "High"@,
        TaskPriority::Critical => "Critical"@,
    }
}

/// `- 14:00 Uhr: Title (30 Min)`; the length only for an event with an end.
pub open spec fn event_line(e: EventView) -> Seq<char> {
    "- "@ + strftime_utc(e.start as int, "%H:%M"@) + " Uhr: "@ + e.title + match e.end {
        Some(x) => " ("@ + signed_decimal(minutes_between(e.start as int, x as int)) + " Min)"@,
        None => seq![],
    }
}

/// `- Title [High], fällig: 12.10.`; the due date only where there is one.
pub open spec fn task_line(t: TaskView) -> Seq<char> {
    "- "@ + t.title + " ["@ + priority_name(t.priority) + "]"@ + match t.due_date {
        Some(d) => ", fällig: "@ + strftime_utc(d as int, "%d.%m."@),
        None => seq![],
    }
}

/// `- Title (seit 12.10.)`.
pub open spec fn overdue_line(t: TaskView) -> Seq<char> {
    "- "@ + t.title + " (seit "@ + match t.due_date {
        Some(d) => strftime_utc(d as int, "%d.%m."@),
        None => seq![],
    } + ")"@
}

/// `- "A" und "B" überschneiden sich 30 Min.`
pub open spec fn conflict_line(c: ConflictView) -> Seq<char> {
    "- \""@ + c.event_a.title + "\" und \""@ + c.event_b.title + "\" überschneiden sich "@ + signed_decimal(
        c.overlap_minutes,
    ) + " Min."@
}

pub open spec fn event_lines(es: Seq<EventView>) -> Seq<char>
    decreases es.len(),
{
    if es.len() == 0 {
        seq![]
    } else if es.len() == 1 {
        event_line(es[0])
    } else {
        event_lines(es.drop_last()) + "\n"@ + event_line(es.last())
    }
}

pub open spec fn task_lines(ts: Seq<TaskView>) -> Seq<char>
    decreases ts.len(),
{
    if ts.len() == 0 {
        seq![]
    } else if ts.len() == 1 {
        task_line(ts[0])
    } else {
        task_lines(ts.drop_last()) + "\n"@ + task_line(ts.last())
    }
}

pub open spec fn overdue_lines(ts: Seq<TaskView>) -> Seq<char>
    decreases ts.len(),
{
    if ts.len() == 0 {
        seq![]
    } else if ts.len() == 1 {
        overdue_line(ts[0])
    } else {
        overdue_lines(ts.drop_last()) + "\n"@ + overdue_line(ts.last())
    }
}

pub open spec fn conflict_lines(cs: Seq<ConflictView>) -> Seq<char>
    decreases cs.len(),
{
    if cs.len() == 0 {
        seq![]
    } else if cs.len() == 1 {
        conflict_line(cs[0])
    } else {
        conflict_lines(cs.drop_last()) + "\n"@ + conflict_line(cs.last())
    }
}

/// The prompt for the day's overview: the events, the priority tasks, the overdue
/// tasks and the conflicts (those two sections only when there are any), and the
/// number of free slots.
pub open spec fn spec_daily_summary_prompt(s: SummaryView) -> Seq<char> {
    let events = if s.events.len() == 0 {
        "Keine Termine heute"@
    } else {
        event_lines(s.events)
    };
    let tasks = if s.priority_tasks.len() == 0 {
        "Keine offenen Aufgaben"@
    } else {
        task_lines(s.priority_tasks)
    };
    let overdue = if s.tasks_overdue.len() == 0 {
        seq![]
    } else {
        "\n\nÜBERFÄLLIG:\n"@ + overdue_lines(s.tasks_overdue)
    };
    let conflicts = if s.conflicts.len() == 0 {
        seq![]
    } else {
        "\n\nKONFLIKTE:\n"@ + conflict_lines(s.conflicts)
    };
    "Du bist ein persönlicher Planer-Assistent. Erstelle eine kurze, motivierende Tagesübersicht auf Deutsch.\n\nHEUTE:\nTermine:\n"@
        + events + "\n\nPrioritäre Aufgaben:\n"@ + tasks + overdue + conflicts + "\n\nFreie Zeitfenster: "@ + decimal(
        s.free_slots.len(),
    )
        + " verfügbar\n\nAntworte in maximal 5 kurzen Sätzen: Was steht heute an, was ist wichtig, und gibt es Probleme die sofort beachtet werden müssen? Sei direkt und klar."@
}

/// The times in the overview are ones a date-time can hold.
pub open spec fn summary_times_ok(s: SummaryView) -> bool {
    &&& forall|i: int| 0 <= i < s.events.len() ==> (#[trigger] s.events[i]).wf()
    &&& forall|i: int| 0 <= i < s.priority_tasks.len() ==> (#[trigger] s.priority_tasks[i]).wf()
    &&& forall|i: int| 0 <= i < s.tasks_overdue.len() ==> (#[trigger] s.tasks_overdue[i]).wf()
}

fn push_priority(r: &mut String, p: TaskPriority)
    ensures
        final(r)@ == old(r)@ + priority_name(p),
{
    match p {
        TaskPriority::Someday => r.append("Someday"),
        TaskPriority::Low => r.append("Low"),
        TaskPriority::Medium => r.append("Medium"),
        TaskPriority::High => r.append("High"),
        TaskPriority::Critical => r.append("Critical"),
    }
}

fn push_event_line(r: &mut String, e: &Event)
    requires
        e@.wf(),
    ensures
        final(r)@ == old(r)@ + event_line(e@),
{
    let ghost start = r@;
    r.append("- ");
    let t = format_utc(e.start, "%H:%M");
    r.append(t.as_str());
    r.append(" Uhr: ");
    r.append(e.title.as_str());
    match e.duration_minutes() {
        Some(m) => {
            r.append(" (");
            push_signed(r, m);
            r.append(" Min)");
        },
        None => {},
    }
    assert(r@ =~= start + event_line(e@));
}

fn push_task_line(r: &mut String, t: &Task)
    requires
        t@.wf(),
    ensures
        final(r)@ == old(r)@ + task_line(t@),
{
    let ghost start = r@;
    r.append("- ");
    r.append(t.title.as_str());
    r.append(" [");
    push_priority(r, t.priority);
    r.append("]");
    match t.due_date {
        Some(d) => {
            r.append(", fällig: ");
            let s = format_utc(d, "%d.%m.");
            r.append(s.as_str());
        },
        None => {},
    }
    assert(r@ =~= start + task_line(t@));
}

fn push_overdue_line(r: &mut String, t: &Task)
    requires
        t@.wf(),
    ensures
        final(r)@ == old(r)@ + overdue_line(t@),
{
    let ghost start = r@;
    r.append("- ");
    r.append(t.title.as_str());
    r.append(" (seit ");
    match t.due_date {
        Some(d) => {
            let s = format_utc(d, "%d.%m.");
            r.append(s.as_str());
        },
        None => {},
    }
    r.append(")");
    assert(r@ =~= start + overdue_line(t@));
}

fn push_conflict_line(r: &mut String, c: &EventConflict)
    ensures
        final(r)@ == old(r)@ + conflict_line(c@),
{
    let ghost start = r@;
    r.append("- \"");
    r.append(c.event_a.title.as_str());
    r.append("\" und \"");
    r.append(c.event_b.title.as_str());
    r.append("\" überschneiden sich ");
    push_signed(r, c.overlap_minutes);
    r.append(" Min.");
    assert(r@ =~= start + conflict_line(c@));
}

/// The prompt that asks the model for a short, motivating overview of the day.
pub fn daily_summary_prompt(summary: &DailySummary) -> (r: String)
    requires
        summary_times_ok(summary@),
    ensures
        r@ == spec_daily_summary_prompt(summary@),
{
    let ghost sv = summary@;
    let mut r = String::new();
    r.append(
        "Du bist ein persönlicher Planer-Assistent. Erstelle eine kurze, motivierende Tagesübersicht auf Deutsch.\n\nHEUTE:\nTermine:\n",
    );
    let ghost head = r@;
    if summary.events.len() == 0 {
        r.append("Keine Termine heute");
    } else {
        let mut i: usize = 0;
        while i < summary.events.len()
            invariant
                i <= summary.events@.len(),
                sv == summary@,
                summary_times_ok(sv),
                r@ == head + event_lines(sv.events.take(i as int)),
            decreases summary.events@.len() - i,
        {
            assert(sv.events.take(i + 1).drop_last() =~= sv.events.take(i as int));
            assert(sv.events[i as int] == summary.events@[i as int]@);
            if i > 0 {
                r.append("\n");
            }
            push_event_line(&mut r, &summary.events[i]);
            assert(r@ =~= head + event_lines(sv.events.take(i + 1)));
            i += 1;
        }
        assert(sv.events.take(sv.events.len() as int) =~= sv.events);
    }
    let ghost part = r@;
    r.append("\n\nPrioritäre Aufgaben:\n");
    let ghost head2 = r@;
    if summary.priority_tasks.len() == 0 {
        r.append("Keine offenen Aufgaben");
    } else {
        let mut i: usize = 0;
        while i < summary.priority_tasks.len()
            invariant
                i <= summary.priority_tasks@.len(),
                sv == summary@,
                summary_times_ok(sv),
                r@ == head2 + task_lines(sv.priority_tasks.take(i as int)),
            decreases summary.priority_tasks@.len() - i,
        {
            assert(sv.priority_tasks.take(i + 1).drop_last() =~= sv.priority_tasks.take(i as int));
            assert(sv.priority_tasks[i as int] == summary.priority_tasks@[i as int]@);
            if i > 0 {
                r.append("\n");
            }
            push_task_line(&mut r, &summary.priority_tasks[i]);
            assert(r@ =~= head2 + task_lines(sv.priority_tasks.take(i + 1)));
            i += 1;
        }
        assert(sv.priority_tasks.take(sv.priority_tasks.len() as int) =~= sv.priority_tasks);
    }
    let ghost part2 = r@;
    if summary.tasks_overdue.len() > 0 {
        r.append("\n\nÜBERFÄLLIG:\n");
        let ghost head3 = r@;
        let mut i: usize = 0;
        while i < summary.tasks_overdue.len()
            invariant
                i <= summary.tasks_overdue@.len(),
                sv == summary@,
                summary_times_ok(sv),
                r@ == head3 + overdue_lines(sv.tasks_overdue.take(i as int)),
            decreases summary.tasks_overdue@.len() - i,
        {
            assert(sv.tasks_overdue.take(i + 1).drop_last() =~= sv.tasks_overdue.take(i as int));
            assert(sv.tasks_overdue[i as int] == summary.tasks_overdue@[i as int]@);
            if i > 0 {
                r.append("\n");
            }
            push_overdue_line(&mut r, &summary.tasks_overdue[i]);
            assert(r@ =~= head3 + overdue_lines(sv.tasks_overdue.take(i + 1)));
            i += 1;
        }
        assert(sv.tasks_overdue.take(sv.tasks_overdue.len() as int) =~= sv.tasks_overdue);
    }
    let ghost part3 = r@;
    if summary.conflicts.len() > 0 {
        r.append("\n\nKONFLIKTE:\n");
        let ghost head4 = r@;
        let mut i: usize = 0;
        while i < summary.conflicts.len()
            invariant
                i <= summary.conflicts@.len(),
                sv == summary@,
                r@ == head4 + conflict_lines(sv.conflicts.take(i as int)),
            decreases summary.conflicts@.len() - i,
        {
            assert(sv.conflicts.take(i + 1).drop_last() =~= sv.conflicts.take(i as int));
            assert(sv.conflicts[i as int] == summary.conflicts@[i as int]@);
            if i > 0 {
                r.append("\n");
            }
            push_conflict_line(&mut r, &summary.conflicts[i]);
            assert(r@ =~= head4 + conflict_lines(sv.conflicts.take(i + 1)));
            i += 1;
        }
        assert(sv.conflicts.take(sv.conflicts.len() as int) =~= sv.conflicts);
    }
    r.append("\n\nFreie Zeitfenster: ");
    push_decimal(&mut r, summary.free_slots.len() as u64);
    r.append(
        " verfügbar\n\nAntworte in maximal 5 kurzen Sätzen: Was steht heute an, was ist wichtig, und gibt es Probleme die sofort beachtet werden müssen? Sei direkt und klar.",
    );
    assert(r@ =~= spec_daily_summary_prompt(sv));
    r
}

} // verus!
