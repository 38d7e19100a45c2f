use chrono::{Local, TimeZone, Timelike, Utc};
use lifeplanner::extractor::date_parser::{extract_dates, extract_dates_in};
use lifeplanner::extractor::email::{email_text_of, extract_from_email};
use lifeplanner::extractor::pattern::{find_all, has_match, remove_first, Capture};
use lifeplanner::extractor::pdf::{check_pdf_size, extract_from_pdf, pdf_message, pdf_text, PdfError, MAX_PDF_BYTES};
use lifeplanner::extractor::preview::{
    event_from_model, extraction_from_model, json_object, preview, task_from_model, ModelAnswer, ModelEvent, ModelTask,
};
use lifeplanner::extractor::text::{
    clean_line, event_title, extract_from_text, extract_location, infer_energy, line_containing, priority_of,
};
use lifeplanner::extractor::ExtractionResult;
use lifeplanner::models::{EnergyLevel, Event, EventSource, Task, TaskPriority, TaskSource};
use lifeplanner::time::LocalClock;

fn at(h: u32) -> i64 {
    Utc.with_ymd_and_hms(2026, 10, 12, h, 0, 0).unwrap().timestamp()
}

fn local_hm(t: i64) -> (u32, u32) {
    let local = chrono::DateTime::from_timestamp(t, 0).unwrap().with_timezone(&Local);
    (local.hour(), local.minute())
}

// ---------------------------------------------------------------- dates

#[test]
fn a_time_in_the_text_is_local_time() {
    let found = extract_dates("Termin am 12.10.2026 um 14:30");
    assert_eq!(local_hm(found[0].datetime), (14, 30));
}

#[test]
fn umlauts_around_a_date_do_not_panic() {
    let text = format!("{} 12.10.2026 um 9:15 {}", "ä".repeat(40), "ü".repeat(60));
    assert_eq!(local_hm(extract_dates(&text)[0].datetime), (9, 15));
}

/// A fixed clock and a zone table that reads every wall-clock reading as UTC.
fn utc_clock() -> LocalClock {
    let now = at(12);
    LocalClock { utc: now, naive: now, year: 2026 }
}

#[test]
fn iso_and_german_dates_with_a_fixed_clock() {
    let clock = utc_clock();
    let naive = Utc.with_ymd_and_hms(2026, 3, 15, 10, 0, 0).unwrap().timestamp();
    let zone = [(naive, Some(naive))];
    let found = extract_dates_in("Abgabe 2026-03-15 10:00", &clock, &zone);
    assert_eq!(found.len(), 1);
    assert_eq!(found[0].datetime, naive);
    assert_eq!(found[0].raw, "2026-03-15 10:00");
    assert!(!found[0].is_deadline);
}

#[test]
fn a_reading_the_zone_table_lacks_is_dropped() {
    let clock = utc_clock();
    assert!(extract_dates_in("Abgabe 2026-03-15 10:00", &clock, &[]).is_empty());
}

#[test]
fn in_three_days_counts_from_the_clock() {
    let clock = utc_clock();
    let found = extract_dates_in("Bitte in 3 Tagen melden", &clock, &[]);
    assert_eq!(found.len(), 1);
    assert_eq!(found[0].datetime, clock.utc + 3 * 86400);
    let weeks = extract_dates_in("in 2 Wochen", &clock, &[]);
    assert_eq!(weeks[0].datetime, clock.utc + 2 * 604800);
    let months = extract_dates_in("in 1 Monat", &clock, &[]);
    assert_eq!(months[0].datetime, clock.utc + 2592000);
}

#[test]
fn a_deadline_marks_the_date_it_repeats() {
    let clock = utc_clock();
    let naive = Utc.with_ymd_and_hms(2026, 10, 10, 9, 0, 0).unwrap().timestamp();
    let zone = [(naive, Some(naive))];
    let found = extract_dates_in("Bericht bis 10.10.2026 abgeben", &clock, &zone);
    assert_eq!(found.len(), 1);
    assert!(found[0].is_deadline);
    assert_eq!(found[0].datetime, naive);
}

#[test]
fn tomorrow_is_the_next_day_at_nine() {
    let clock = utc_clock();
    let naive = Utc.with_ymd_and_hms(2026, 10, 13, 9, 0, 0).unwrap().timestamp();
    let zone = [(naive, Some(naive))];
    let found = extract_dates_in("morgen kommt der Techniker", &clock, &zone);
    assert_eq!(found.len(), 1);
    assert_eq!(found[0].datetime, naive);
}

#[test]
fn next_monday_is_never_today() {
    // 2026-10-12 is a Monday: "nächsten Montag" is a week later.
    let clock = utc_clock();
    let naive = Utc.with_ymd_and_hms(2026, 10, 19, 9, 0, 0).unwrap().timestamp();
    let zone = [(naive, Some(naive))];
    let found = extract_dates_in("nächsten Montag", &clock, &zone);
    assert_eq!(found.len(), 1);
    assert_eq!(found[0].datetime, naive);
}

#[test]
fn dates_minutes_apart_are_kept_once() {
    let clock = utc_clock();
    let a = Utc.with_ymd_and_hms(2026, 3, 15, 10, 0, 0).unwrap().timestamp();
    let b = Utc.with_ymd_and_hms(2026, 3, 15, 10, 2, 0).unwrap().timestamp();
    let c = Utc.with_ymd_and_hms(2026, 3, 15, 11, 0, 0).unwrap().timestamp();
    let zone = [(a, Some(a)), (b, Some(b)), (c, Some(c))];
    let found = extract_dates_in("2026-03-15 10:00, 2026-03-15 10:02, 2026-03-15 11:00", &clock, &zone);
    let times: Vec<_> = found.iter().map(|d| d.datetime).collect();
    assert_eq!(times, vec![a, c]);
}

// ---------------------------------------------------------------- text

#[test]
fn the_appointment_line_names_the_event_not_the_greeting() {
    let r = extract_from_text("Hallo zusammen\n\nBesprechung am 12.10.2026 um 16:30 im Sitzungszimmer.");
    assert_eq!(r.events[0].title, "Besprechung");
    assert_eq!(r.events[0].location.as_deref(), Some("Sitzungszimmer"));
}

#[test]
fn a_deadline_with_a_full_date_becomes_one_task_with_its_due_date() {
    let r = extract_from_text("Hallo\nBitte den Bericht bis 10.10.2026 abgeben.");
    assert_eq!(r.tasks.len(), 1, "{:?}", r.tasks);
    assert_eq!(r.tasks[0].title, "Den Bericht bis 10.10.2026 abgeben");
    assert!(r.tasks[0].due_date.is_some());
    assert!(r.events.is_empty(), "a deadline is not an appointment");
}

#[test]
fn meeting_and_deadline_in_one_mail() {
    let text = "Hallo zusammen\n\nBesprechung am 12.10.2026 um 16:30 im Sitzungszimmer.\nBitte den Bericht bis 10.10.2026 abgeben.";
    let r = extract_from_text(text);
    assert_eq!((r.events.len(), r.tasks.len()), (1, 1));
    assert!(r.events[0].start > r.tasks[0].due_date.unwrap());
}

#[test]
fn english_deadlines_read_the_same_way() {
    let r = extract_from_text("Please send the report by 10.10.2026.");
    assert_eq!(r.tasks[0].title, "Send the report by 10.10.2026");
    assert!(r.tasks[0].due_date.is_some());
}

#[test]
fn bullet_points_become_tasks() {
    let r = extract_from_text("- Folien vorbereiten\n- Raum buchen");
    let titles: Vec<_> = r.tasks.iter().map(|t| t.title.as_str()).collect();
    assert_eq!(titles, ["Folien vorbereiten", "Raum buchen"]);
}

#[test]
fn capitalised_relative_dates_are_found() {
    assert_eq!(extract_from_text("Morgen um 10:00 Call mit Anna").events.len(), 1);
}

#[test]
fn extracted_items_are_marked_as_extracted() {
    let r = extract_from_text("Besprechung am 12.10.2026 um 16:30\n- Folien vorbereiten");
    assert_eq!(r.events[0].source, EventSource::Extracted);
    assert_eq!(r.tasks[0].source, TaskSource::Extracted);
    assert_eq!(r.source_text, "Besprechung am 12.10.2026 um 16:30\n- Folien vorbereiten");
    assert!(!r.is_empty());
    assert!(extract_from_text("nichts").is_empty());
}

#[test]
fn the_line_holding_a_text_is_found_and_trimmed() {
    assert_eq!(line_containing("a\n  b 12 \r\nc", "12"), "b 12");
    assert_eq!(line_containing("a\nb", "x"), "");
}

#[test]
fn a_line_is_cleaned_into_a_title() {
    assert_eq!(clean_line("- todo: rechnung bezahlen."), "Rechnung bezahlen");
    assert_eq!(clean_line("bitte anrufen"), "Anrufen");
    assert_eq!(clean_line(&"x".repeat(100)).chars().count(), 80);
    assert_eq!(clean_line("  "), "");
}

#[test]
fn the_title_is_what_stands_before_the_date() {
    assert_eq!(event_title("Besprechung am 12.10.", "12.10."), "Besprechung");
    assert_eq!(event_title("12.10. Zahnarzt", "12.10."), "12.10. Zahnarzt");
}

#[test]
fn a_place_is_read_after_in_or_bei() {
    assert_eq!(extract_location("Treffen im Raum B.").as_deref(), Some("Raum B"));
    assert_eq!(extract_location("Treffen morgen"), None);
}

#[test]
fn priorities_and_energy_follow_the_words() {
    assert_eq!(priority_of("Dringend: Server neu starten"), TaskPriority::High);
    assert_eq!(priority_of("Server neu starten"), TaskPriority::Medium);
    assert_eq!(infer_energy("Konzept schreiben"), EnergyLevel::High);
    assert_eq!(infer_energy("Formular ausfüllen"), EnergyLevel::Low);
    assert_eq!(infer_energy("Aufräumen"), EnergyLevel::Medium);
}

#[test]
fn regex_matches_are_found_and_removed() {
    assert_eq!(find_all("\\d+", "a1b22").len(), 2);
    assert!(has_match("b", "abc"));
    assert!(!has_match("(", "abc"));
    assert_eq!(remove_first("\\d+", "a1b22"), "ab22");
}

// ---------------------------------------------------------------- e-mail

#[test]
fn the_subject_comes_before_the_body() {
    let mail = "From: a@b\nSubject: Quartalsbericht \n\nHallo\nBitte bis 10.10.2026 abgeben.";
    assert_eq!(email_text_of(mail), "Quartalsbericht\n\nHallo\nBitte bis 10.10.2026 abgeben.");
    let r = extract_from_email(mail);
    assert_eq!(r.tasks.len(), 1);
}

#[test]
fn a_mail_without_a_blank_line_is_read_whole() {
    assert_eq!(email_text_of("nur eine Zeile"), "nur eine Zeile");
}

// ---------------------------------------------------------------- preview

#[test]
fn a_new_event_that_overlaps_the_calendar_is_flagged() {
    let mut existing = Event::new("Team meeting".to_string(), at(14));
    existing.end = Some(at(15));
    let mut new = Event::new("Dentist".to_string(), at(14));
    new.end = Some(at(15));
    let found = ExtractionResult { events: vec![new.duplicate()], tasks: vec![], source_text: String::new() };
    let p = preview(found, &vec![existing], 60);
    assert_eq!(p.conflicts.len(), 1);
    assert_eq!(p.conflicts[0].event_id, new.id);
    assert_eq!(p.conflicts[0].existing_title, "Team meeting");
}

#[test]
fn events_that_only_touch_the_calendar_are_not_flagged() {
    let mut existing = Event::new("Team meeting".to_string(), at(14));
    existing.end = Some(at(15));
    let mut new = Event::new("Dentist".to_string(), at(15));
    new.end = Some(at(16));
    let found = ExtractionResult { events: vec![new], tasks: vec![], source_text: String::new() };
    assert!(preview(found, &vec![existing], 60).conflicts.is_empty());
}

#[test]
fn events_without_an_end_get_the_default_length() {
    let start = Utc.with_ymd_and_hms(2026, 10, 12, 9, 0, 0).unwrap().timestamp();
    let found = ExtractionResult { events: vec![Event::new("Call".to_string(), start)], tasks: vec![], source_text: String::new() };
    let p = preview(found, &vec![], 30);
    assert_eq!(p.result.events[0].end, Some(start + 30 * 60));
}

#[test]
fn the_default_length_is_kept_within_five_minutes_and_a_day() {
    let start = at(9);
    let short = preview(
        ExtractionResult { events: vec![Event::new("a".to_string(), start)], tasks: vec![], source_text: String::new() },
        &vec![],
        1,
    );
    assert_eq!(short.result.events[0].end, Some(start + 5 * 60));
    let long = preview(
        ExtractionResult { events: vec![Event::new("b".to_string(), start)], tasks: vec![], source_text: String::new() },
        &vec![],
        5000,
    );
    assert_eq!(long.result.events[0].end, Some(start + 1440 * 60));
}

#[test]
fn the_json_object_is_cut_out_of_the_answer() {
    let answer = "Here you go:\n```json\n{\"events\":[]}\n```";
    assert_eq!(json_object(answer), "{\"events\":[]}");
    assert_eq!(json_object("sorry, no idea"), "sorry, no idea");
    assert_eq!(json_object("}{"), "");
}

#[test]
fn model_values_become_events_and_tasks_with_ids() {
    let answer = ModelAnswer {
        events: vec![ModelEvent {
            title: "Dentist".to_string(),
            start: Utc.with_ymd_and_hms(2026, 10, 12, 14, 30, 0).unwrap().timestamp(),
            duration_minutes: Some(30),
            location: Some("...".to_string()),
        }],
        tasks: vec![ModelTask { title: "Bring insurance card".to_string(), due_date: None, priority: Some("high".to_string()) }],
    };
    let r = extraction_from_model(answer, "src");
    assert_eq!(r.events[0].title, "Dentist");
    assert_eq!(r.events[0].end, Some(Utc.with_ymd_and_hms(2026, 10, 12, 15, 0, 0).unwrap().timestamp()));
    assert_eq!(r.events[0].location, None);
    assert!(!r.events[0].id.is_empty());
    assert_eq!(r.tasks[0].priority, TaskPriority::High);
    assert_eq!(r.source_text, "src");
}

#[test]
fn model_durations_are_clamped_and_places_kept() {
    let e = event_from_model(ModelEvent {
        title: "Call".to_string(),
        start: at(10),
        duration_minutes: Some(1),
        location: Some("Zürich".to_string()),
    });
    assert_eq!(e.end, Some(at(10) + 5 * 60));
    assert_eq!(e.location.as_deref(), Some("Zürich"));
    let t: Task = task_from_model(ModelTask { title: "x".to_string(), due_date: Some(at(8)), priority: Some("urgent".to_string()) });
    assert_eq!(t.priority, TaskPriority::Medium);
    assert_eq!(t.due_date, Some(at(8)));
}

// ---------------------------------------------------------------- pdf

/// What the PDF reader gives for a file, as the library takes it.
fn read_pdf(bytes: &[u8]) -> Result<String, String> {
    pdf_extract::extract_text_from_mem(bytes).map_err(|e| e.to_string())
}

/// A one-page PDF that shows `line` in Helvetica.
fn one_page_pdf(line: &str) -> Vec<u8> {
    let content = format!("BT /F1 12 Tf 72 720 Td ({}) Tj ET", line);
    let objects = [
        "<< /Type /Catalog /Pages 2 0 R >>".to_string(),
        "<< /Type /Pages /Kids [3 0 R] /Count 1 >>".to_string(),
        "<< /Type /Page /Parent 2 0 R /MediaBox [0 0 612 792] /Contents 4 0 R /Resources << /Font << /F1 5 0 R >> >> >>".to_string(),
        format!("<< /Length {} >>\nstream\n{}\nendstream", content.len(), content),
        "<< /Type /Font /Subtype /Type1 /BaseFont /Helvetica /Encoding /WinAnsiEncoding >>".to_string(),
    ];
    let mut pdf = b"%PDF-1.4\n".to_vec();
    let mut offsets = Vec::new();
    for (i, body) in objects.iter().enumerate() {
        offsets.push(pdf.len());
        pdf.extend_from_slice(format!("{} 0 obj\n{}\nendobj\n", i + 1, body).as_bytes());
    }
    let xref = pdf.len();
    let mut tail = format!("xref\n0 {}\n0000000000 65535 f \n", objects.len() + 1);
    for o in &offsets {
        tail.push_str(&format!("{:010} 00000 n \n", o));
    }
    tail.push_str(&format!("trailer\n<< /Size {} /Root 1 0 R >>\nstartxref\n{}\n%%EOF\n", objects.len() + 1, xref));
    pdf.extend_from_slice(tail.as_bytes());
    pdf
}

fn appointment_pdf() -> Vec<u8> {
    one_page_pdf("Termin beim Zahnarzt am 12.10.2026 um 14:30")
}

#[test]
fn reads_the_text_of_a_pdf() {
    let pdf = appointment_pdf();
    assert!(check_pdf_size(&pdf).is_ok());
    let text = pdf_text(read_pdf(&pdf)).unwrap();
    assert!(text.contains("Zahnarzt"), "{text}");
    assert!(text.contains("12.10.2026"), "{text}");
}

#[test]
fn finds_the_appointment_in_a_pdf() {
    let pdf = appointment_pdf();
    let result = extract_from_pdf(read_pdf(&pdf)).unwrap();
    assert_eq!(result.events.len(), 1, "{result:?}");
    let start = chrono::DateTime::from_timestamp(result.events[0].start, 0).unwrap().to_rfc3339();
    assert!(start.starts_with("2026-10-12"), "{start}");
}

#[test]
fn garbage_is_refused_not_a_panic() {
    assert!(matches!(extract_from_pdf(read_pdf(b"not a pdf")), Err(PdfError::Unreadable(_))));
}

#[test]
fn a_pdf_over_the_limit_is_refused() {
    let big = vec![0u8; MAX_PDF_BYTES + 1];
    assert!(matches!(check_pdf_size(&big), Err(PdfError::TooLarge)));
    assert!(check_pdf_size(&big[..MAX_PDF_BYTES]).is_ok());
}

#[test]
fn a_pdf_without_text_and_an_unread_one_are_refused() {
    assert!(matches!(pdf_text(Ok("  \n\t ".to_string())), Err(PdfError::NoText)));
    assert!(matches!(extract_from_pdf(Ok(String::new())), Err(PdfError::NoText)));
    match pdf_text(Err("broken xref".to_string())) {
        Err(PdfError::Unreadable(m)) => assert_eq!(m, "broken xref"),
        other => panic!("{other:?}"),
    }
    assert_eq!(pdf_text(Ok(" Zahnarzt ".to_string())).unwrap(), " Zahnarzt ");
}

#[test]
fn pdf_errors_have_keys_and_messages() {
    assert_eq!(pdf_message(&PdfError::TooLarge), "pdfTooLarge");
    assert_eq!(pdf_message(&PdfError::Unreadable("x".to_string())), "pdfUnreadable");
    assert_eq!(pdf_message(&PdfError::NoText), "pdfNoText");
    assert_eq!(PdfError::Unreadable("bad".to_string()).message(), "the PDF could not be read: bad");
}

// ---------------------------------------------------------------- reading one match

#[test]
fn a_date_without_a_year_is_read_in_the_clocks_year() {
    let clock = utc_clock();
    let text = "Abgabe am 15.3. um 10:00";
    let m = Capture {
        start: 10,
        end: 15,
        groups: vec![Some("15.3.".to_string()), Some("15".to_string()), Some("3".to_string()), None],
    };
    let naive = lifeplanner::extractor::date_parser::de_naive_of(text, &m, &clock).unwrap();
    assert_eq!(naive, Utc.with_ymd_and_hms(2026, 3, 15, 10, 0, 0).unwrap().timestamp());
}

#[test]
fn every_date_is_read_from_a_piece_of_the_text() {
    let text = "Bitte bis 20.10.2026 abgeben, Treffen morgen um 9:00 und in 3 Tagen";
    let found = extract_dates(text);
    assert!(!found.is_empty());
    for d in found {
        assert!(text.contains(&d.raw), "{}", d.raw);
    }
}
