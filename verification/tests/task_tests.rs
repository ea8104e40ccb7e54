use logfine::date::Date;
use logfine::task::parse_task;

#[test]
fn test_parse_simple_task() {
    let task = parse_task("Buy milk").unwrap();
    assert_eq!(task.description, "Buy milk");
    assert_eq!(task.priority, None);
    assert_eq!(task.creation_date, None);
    assert_eq!(task.completion_date, None);
    assert!(task.project_tags.is_empty());
    assert!(task.context_tags.is_empty());
}

#[test]
fn test_parse_task_with_priority_and_tags() {
    let task = parse_task("(A) Complete report +work @office due:2026-09-03").unwrap();
    assert_eq!(task.priority, Some('A'));
    assert_eq!(task.project_tags, vec!["work".to_string()]);
    assert_eq!(task.context_tags, vec!["office".to_string()]);
    assert_eq!(task.key_value_tag("due"), Some("2026-09-03".to_string()));
}

#[test]
fn test_parse_completed_task_with_dates() {
    let task = parse_task("x 2026-09-02 2026-09-01 Read rust book").unwrap();
    assert!(task.completion_date.is_some());
    assert!(task.creation_date.is_some());
    assert_eq!(task.description, "Read rust book");
}

#[test]
fn test_parse_empty_line() {
    assert!(parse_task("").is_none());
    assert!(parse_task("   ").is_none());
}

#[test]
fn completed_task_dates_are_read_in_order() {
    let task = parse_task("x 2026-09-02 2026-09-01 Read rust book").unwrap();
    assert_eq!(task.completion_date, Some(Date { year: 2026, month: 9, day: 2 }));
    assert_eq!(task.creation_date, Some(Date { year: 2026, month: 9, day: 1 }));
}

#[test]
fn open_task_first_date_is_creation_and_second_is_dropped() {
    let task = parse_task("2026-01-05 2026-01-06 Call mom").unwrap();
    assert_eq!(task.creation_date, Some(Date { year: 2026, month: 1, day: 5 }));
    assert_eq!(task.completion_date, None);
    assert_eq!(task.description, "Call mom");
}

#[test]
fn invalid_calendar_date_is_no_date() {
    let task = parse_task("x 2026-02-30 2026-01-01 Odd").unwrap();
    assert_eq!(task.completion_date, None);
    assert_eq!(task.creation_date, None);
    assert_eq!(task.description, "Odd");
    let leap = parse_task("2024-02-29 Leap day").unwrap();
    assert_eq!(leap.creation_date, Some(Date { year: 2024, month: 2, day: 29 }));
    let not_leap = parse_task("2100-02-29 Not a leap day").unwrap();
    assert_eq!(not_leap.creation_date, None);
}

#[test]
fn priority_needs_a_capital_and_a_space() {
    assert_eq!(parse_task("(a) lower").unwrap().priority, None);
    assert_eq!(parse_task("(B)no space").unwrap().priority, None);
    let t = parse_task("x (C) done thing").unwrap();
    assert_eq!(t.priority, Some('C'));
    assert_eq!(t.description, "done thing");
}

#[test]
fn text_with_line_feed_is_no_task() {
    assert!(parse_task("one\ntwo").is_none());
}

#[test]
fn later_key_value_tag_wins_and_tags_need_text() {
    let t = parse_task("a:1 b:2 a:3 + @ :x y: +p@q @c+d").unwrap();
    assert_eq!(t.key_value_tag("a"), Some("3".to_string()));
    assert_eq!(t.key_value_tag("b"), Some("2".to_string()));
    assert_eq!(t.key_value_tag("x"), None);
    assert_eq!(t.key_value_tags.len(), 2);
    assert_eq!(t.project_tags, vec!["p@q".to_string()]);
    assert_eq!(t.context_tags, vec!["c+d".to_string()]);
}

#[test]
fn tag_columns_are_json_arrays() {
    let t = parse_task("Plan +home +garden \"quoted\" @desk k:v").unwrap();
    assert_eq!(t.project_tags_json(), Some("[\"home\",\"garden\"]".to_string()));
    assert_eq!(t.context_tags_json(), Some("[\"desk\"]".to_string()));
    assert_eq!(t.key_value_tags_json(), "{\"k\":\"v\"}".to_string());
    let bare = parse_task("Nothing tagged").unwrap();
    assert_eq!(bare.project_tags_json(), None);
    assert_eq!(bare.context_tags_json(), None);
    assert_eq!(bare.key_value_tags_json(), "{}".to_string());
}

#[test]
fn tag_columns_escape_quotes_backslashes_and_control_characters() {
    let t = parse_task("Plan +a\"b +c\\d +e\u{1}f").unwrap();
    assert_eq!(
        t.project_tags_json(),
        Some("[\"a\\\"b\",\"c\\\\d\",\"e\\u0001f\"]".to_string())
    );
}
