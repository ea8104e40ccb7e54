use logfine::date::Date;
use logfine::export::{export_logs, export_request, select_logs, ExportFilter, ExportRequestError, LogRecord, TaskRecord};

fn log(id: i32, date: &str, energy: i32, mvos: &str) -> LogRecord {
    LogRecord {
        id,
        log_date: date.to_string(),
        energy,
        mvos: mvos.to_string(),
        worked: "[]".to_string(),
        failed: "[]".to_string(),
        output: "[]".to_string(),
    }
}

fn d(year: i32, month: u32, day: u32) -> Date {
    Date { year, month, day }
}

#[test]
fn test_export_by_range_and_inclusivity() {
    let logs: Vec<LogRecord> = ["2026-08-01", "2026-08-15", "2026-09-01"]
        .iter()
        .enumerate()
        .map(|(i, date)| log(i as i32 + 1, date, 4, "[\"Exercise\"]"))
        .collect();
    let tasks = vec![TaskRecord {
        id: 1,
        log_id: 2,
        priority: Some("A".to_string()),
        completion_date: None,
        creation_date: Some("2026-08-15".to_string()),
        project_tag: None,
        context_tag: None,
        key_value_tags: "{}".to_string(),
        raw_line: "(A) Mid-month task".to_string(),
        is_completed: false,
    }];
    let filter = ExportFilter::Range { start: Some(d(2026, 8, 1)), end: d(2026, 8, 15) };
    let selected = select_logs(logs, filter);
    let parsed = export_logs(&selected, &tasks);
    let count = parsed.len();
    assert_eq!(count, 2);
    assert_eq!(parsed.len(), 2);
    assert_eq!(parsed[0].date, "2026-08-01");
    assert_eq!(parsed[1].date, "2026-08-15");
    assert_eq!(parsed[1].tasks.len(), 1);
    assert_eq!(parsed[1].tasks[0].raw_line, "(A) Mid-month task");
    assert_eq!(parsed[0].mvos, vec!["Exercise".to_string()]);
}

#[test]
fn test_export_empty_range_does_not_create_file() {
    let filter = ExportFilter::Range { start: Some(d(2026, 1, 1)), end: d(2026, 1, 31) };
    let count = select_logs(Vec::new(), filter).len();
    assert_eq!(count, 0);
}

#[test]
fn test_export_until_end_only() {
    let logs: Vec<LogRecord> = ["2026-07-01", "2026-08-01", "2026-09-01"]
        .iter()
        .enumerate()
        .map(|(i, date)| log(i as i32 + 1, date, 3, "[]"))
        .collect();
    let filter = ExportFilter::Range { start: None, end: d(2026, 8, 1) };
    let parsed = export_logs(&select_logs(logs, filter), &Vec::new());
    assert_eq!(parsed.len(), 2);
    assert_eq!(parsed[0].date, "2026-07-01");
    assert_eq!(parsed[1].date, "2026-08-01");
}

#[test]
fn days_filter_keeps_the_latest_logs_in_order() {
    let logs: Vec<LogRecord> = ["2026-07-01", "2026-08-01", "2026-09-01"]
        .iter()
        .enumerate()
        .map(|(i, date)| log(i as i32 + 1, date, 3, "[]"))
        .collect();
    let dates: Vec<String> = select_logs(logs, ExportFilter::Days(2)).into_iter().map(|l| l.log_date).collect();
    assert_eq!(dates, vec!["2026-08-01", "2026-09-01"]);
}

#[test]
fn unreadable_lists_export_as_empty() {
    let logs = vec![log(1, "2026-01-01", 2, "not json")];
    let tasks = vec![TaskRecord {
        id: 1,
        log_id: 1,
        priority: None,
        completion_date: None,
        creation_date: None,
        project_tag: Some("[\"a\",\"b\"]".to_string()),
        context_tag: Some("{".to_string()),
        key_value_tags: "due:soon".to_string(),
        raw_line: "t".to_string(),
        is_completed: false,
    }];
    let out = export_logs(&logs, &tasks);
    assert_eq!(out[0].tasks[0].key_value_tags, "{}");
    assert!(out[0].mvos.is_empty());
    assert_eq!(out[0].tasks[0].project_tags, vec!["a".to_string(), "b".to_string()]);
    assert!(out[0].tasks[0].context_tags.is_empty());
}

#[test]
fn export_requests_pick_filter_and_file_name() {
    let today = d(2026, 9, 10);
    let (f, name) = export_request(None, None, None, today).unwrap();
    assert_eq!(f, ExportFilter::Days(7));
    assert_eq!(name, "logfine_export_7_days.json");
    let (f, name) = export_request(Some(30), Some(d(2026, 1, 1)), None, today).unwrap();
    assert_eq!(f, ExportFilter::Days(30));
    assert_eq!(name, "logfine_export_30_days.json");
    let (f, name) = export_request(None, Some(d(2026, 9, 1)), Some(d(2026, 9, 14)), today).unwrap();
    assert_eq!(f, ExportFilter::Range { start: Some(d(2026, 9, 1)), end: d(2026, 9, 14) });
    assert_eq!(name, "logfine_export_2026-09-01_to_2026-09-14.json");
    let (_, name) = export_request(None, Some(d(2026, 9, 1)), None, today).unwrap();
    assert_eq!(name, "logfine_export_2026-09-01_to_2026-09-10.json");
    let (_, name) = export_request(None, None, Some(d(2026, 8, 1)), today).unwrap();
    assert_eq!(name, "logfine_export_until_2026-08-01.json");
    assert_eq!(
        export_request(None, Some(d(2026, 9, 2)), Some(d(2026, 9, 1)), today),
        Err(ExportRequestError::StartAfterEnd { start: d(2026, 9, 2), end: d(2026, 9, 1) })
    );
    assert_eq!(
        export_request(None, Some(d(2026, 9, 11)), None, today),
        Err(ExportRequestError::StartAfterToday { start: d(2026, 9, 11), today })
    );
}

#[test]
fn readable_key_value_tags_export_as_stored() {
    let logs = vec![log(1, "2026-01-01", 2, "[]")];
    let tasks = vec![TaskRecord {
        id: 1,
        log_id: 1,
        priority: None,
        completion_date: None,
        creation_date: None,
        project_tag: None,
        context_tag: None,
        key_value_tags: "{\"due\":\"soon\"}".to_string(),
        raw_line: "t due:soon".to_string(),
        is_completed: false,
    }];
    let out = export_logs(&logs, &tasks);
    assert_eq!(out[0].tasks[0].key_value_tags, "{\"due\":\"soon\"}");
}
