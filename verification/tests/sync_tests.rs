use logfine::date::Date;
use logfine::sync::{SyncSession, TaskAction};

fn v(lines: &[&str]) -> Vec<String> {
    lines.iter().map(|s| s.to_string()).collect()
}

fn today() -> Date {
    Date { year: 2026, month: 9, day: 7 }
}

fn describe(a: &TaskAction) -> (String, String, String) {
    match a {
        TaskAction::Added { raw_line, .. } => ("added".into(), String::new(), raw_line.clone()),
        TaskAction::Completed { old_raw, new_raw, .. } => ("completed".into(), old_raw.clone(), new_raw.clone()),
        TaskAction::Reopened { old_raw, new_raw, .. } => ("reopened".into(), old_raw.clone(), new_raw.clone()),
        TaskAction::Modified { old_raw, new_raw, .. } => ("modified".into(), old_raw.clone(), new_raw.clone()),
    }
}

fn run(cache: &[&str], file: &[&str], auto: bool, answers: &[bool]) -> (Vec<(String, String, String)>, Vec<String>, Vec<String>, Vec<(String, String)>, usize) {
    let mut s = SyncSession::new(&v(cache), &v(file), auto, today());
    let mut asked = 0;
    while let Some(_q) = s.next_question() {
        s.answer(answers[asked]);
        asked += 1;
    }
    let st = s.finish();
    (st.actions.iter().map(describe).collect(), st.cache_inserts, st.cache_deletes, st.file_rewrites, asked)
}

#[test]
fn new_lines_are_added_and_blank_lines_ignored() {
    let (actions, inserts, deletes, rewrites, asked) = run(&[], &["Buy milk", "  ", "", "Call mom"], false, &[]);
    assert_eq!(actions, vec![
        ("added".to_string(), String::new(), "Buy milk".to_string()),
        ("added".to_string(), String::new(), "Call mom".to_string()),
    ]);
    assert_eq!(inserts, v(&["Buy milk", "Call mom"]));
    assert!(deletes.is_empty());
    assert!(rewrites.is_empty());
    assert_eq!(asked, 0);
}

#[test]
fn completing_a_task_is_a_completion() {
    let (actions, inserts, deletes, _, asked) =
        run(&["Write report +work"], &["x 2026-09-07 Write report +work"], false, &[]);
    assert_eq!(actions, vec![(
        "completed".to_string(),
        "Write report +work".to_string(),
        "x 2026-09-07 Write report +work".to_string(),
    )]);
    assert_eq!(inserts, v(&["x 2026-09-07 Write report +work"]));
    assert_eq!(deletes, v(&["Write report +work"]));
    assert_eq!(asked, 0);
}

#[test]
fn automatic_completion_date_is_written_after_the_mark_and_priority() {
    let (actions, inserts, _, rewrites, _) = run(&["(B) Pay rent"], &["x (B) Pay rent"], true, &[]);
    assert_eq!(rewrites, vec![("x (B) Pay rent".to_string(), "x (B) 2026-09-07 Pay rent".to_string())]);
    assert_eq!(inserts, v(&["x (B) 2026-09-07 Pay rent"]));
    assert_eq!(actions[0].2, "x (B) 2026-09-07 Pay rent");
}

#[test]
fn reopening_is_a_reopening() {
    let (actions, _, _, _, _) = run(&["x 2026-09-01 Water plants"], &["Water plants"], false, &[]);
    assert_eq!(actions[0].0, "reopened");
}

#[test]
fn edits_ask_and_a_no_makes_a_new_task() {
    let (actions, inserts, deletes, _, asked) =
        run(&["Buy milk and bread"], &["Buy milk and brad"], false, &[false]);
    assert_eq!(asked, 1);
    assert_eq!(actions, vec![("added".to_string(), String::new(), "Buy milk and brad".to_string())]);
    assert_eq!(inserts, v(&["Buy milk and brad"]));
    assert_eq!(deletes, v(&["Buy milk and bread"]));
    let (actions, _, _, _, _) = run(&["Buy milk and bread"], &["Buy milk and brad"], false, &[true]);
    assert_eq!(actions[0].0, "modified");
}

#[test]
fn unrelated_lines_do_not_match() {
    let (actions, _, deletes, _, asked) = run(&["Dentist appointment"], &["Quantum physics homework"], false, &[]);
    assert_eq!(asked, 0);
    assert_eq!(actions, vec![("added".to_string(), String::new(), "Quantum physics homework".to_string())]);
    assert_eq!(deletes, v(&["Dentist appointment"]));
}

#[test]
fn unchanged_lines_do_nothing() {
    let (actions, inserts, deletes, _, _) = run(&["Keep me"], &["Keep me", "Keep me"], false, &[]);
    assert!(actions.is_empty());
    assert!(inserts.is_empty());
    assert!(deletes.is_empty());
}

#[test]
fn automatic_date_keeps_the_creation_date_of_the_completed_task() {
    let mut s = SyncSession::new(&v(&["2026-09-01 Pay rent"]), &v(&["x 2026-09-01 Pay rent"]), true, today());
    assert!(s.next_question().is_none());
    let st = s.finish();
    assert_eq!(st.file_rewrites, vec![(
        "x 2026-09-01 Pay rent".to_string(),
        "x 2026-09-07 2026-09-01 Pay rent".to_string(),
    )]);
    match &st.actions[0] {
        TaskAction::Completed { new_raw, new_task, .. } => {
            assert_eq!(new_raw, "x 2026-09-07 2026-09-01 Pay rent");
            assert_eq!(new_task.completion_date, Some(today()));
            assert_eq!(new_task.creation_date, Some(Date { year: 2026, month: 9, day: 1 }));
            assert_eq!(new_task.description, "Pay rent");
        }
        other => panic!("expected a completion, got {:?}", other),
    }
}

#[test]
fn the_closest_vanished_line_is_matched_first() {
    let (actions, _, deletes, _, asked) = run(
        &["Buy milk tomorrow", "Buy milk today"],
        &["x Buy milk today"],
        false,
        &[],
    );
    assert_eq!(asked, 0);
    assert_eq!(actions, vec![(
        "completed".to_string(),
        "Buy milk today".to_string(),
        "x Buy milk today".to_string(),
    )]);
    assert_eq!(deletes, v(&["Buy milk tomorrow", "Buy milk today"]));
}

#[test]
fn automatic_dates_are_zero_padded_and_read_back_as_the_same_day() {
    for d in [
        Date { year: 2024, month: 2, day: 29 },
        Date { year: 33, month: 1, day: 5 },
        Date { year: 9999, month: 12, day: 31 },
    ] {
        let mut s = SyncSession::new(&v(&["Call the bank"]), &v(&["x Call the bank"]), true, d);
        assert!(s.next_question().is_none());
        let st = s.finish();
        let expected = format!("x {:04}-{:02}-{:02} Call the bank", d.year, d.month, d.day);
        match &st.actions[0] {
            TaskAction::Completed { new_raw, new_task, .. } => {
                assert_eq!(new_raw, &expected);
                assert_eq!(new_task.completion_date, Some(d));
                assert_eq!(new_task.creation_date, None);
            }
            other => panic!("expected a completion, got {:?}", other),
        }
    }
}

#[test]
fn a_second_sync_after_applying_the_first_changes_nothing() {
    let cache = v(&["(B) Pay rent", "Buy milk and bread", "Old task"]);
    let file = v(&["x (B) Pay rent", "Buy milk and brad", "", "New task"]);
    let mut s = SyncSession::new(&cache, &file, true, today());
    while s.next_question().is_some() {
        s.answer(true);
    }
    let st = s.finish();
    let mut cache2: Vec<String> = cache.iter().filter(|l| !st.cache_deletes.contains(l)).cloned().collect();
    cache2.extend(st.cache_inserts.iter().cloned());
    let file2: Vec<String> = file
        .iter()
        .map(|l| st.file_rewrites.iter().find(|(k, _)| k == l).map(|(_, v)| v.clone()).unwrap_or_else(|| l.clone()))
        .collect();
    let mut s2 = SyncSession::new(&cache2, &file2, true, today());
    assert!(s2.next_question().is_none());
    let st2 = s2.finish();
    assert!(st2.actions.is_empty());
    assert!(st2.cache_inserts.is_empty());
    assert!(st2.cache_deletes.is_empty());
    assert!(st2.file_rewrites.is_empty());
}
