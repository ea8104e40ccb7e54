use logfine::db_plan::{choose_log, new_log_row, plan_task_writes, LogChoice, TaskOp, TaskWrite};
use logfine::export::LogRecord;
use logfine::sync::TaskAction;
use logfine::task::parse_task;

#[derive(Clone, Debug, PartialEq)]
struct Row {
    log_id: i32,
    priority: Option<String>,
    completion_date: Option<String>,
    creation_date: Option<String>,
    project_tag: Option<String>,
    context_tag: Option<String>,
    key_value_tags: String,
    raw_line: String,
    is_completed: bool,
}

/// Applies writes as the database does: inserts add a row, updates change the
/// columns they name on every row with the given raw line and flag.
fn apply(rows: &mut Vec<Row>, writes: &[TaskWrite]) {
    for w in writes {
        match &w.op {
            TaskOp::Insert(r) => rows.push(Row {
                log_id: r.log_id,
                priority: r.priority.clone(),
                completion_date: r.completion_date.clone(),
                creation_date: r.creation_date.clone(),
                project_tag: r.project_tag.clone(),
                context_tag: r.context_tag.clone(),
                key_value_tags: r.key_value_tags.clone(),
                raw_line: r.raw_line.clone(),
                is_completed: r.is_completed,
            }),
            TaskOp::Update { raw_line, is_completed, changes } => {
                for row in rows.iter_mut() {
                    if &row.raw_line == raw_line && row.is_completed == *is_completed {
                        if let Some(v) = changes.log_id { row.log_id = v; }
                        if let Some(v) = &changes.priority { row.priority = v.clone(); }
                        if let Some(v) = &changes.completion_date { row.completion_date = v.clone(); }
                        if let Some(v) = &changes.creation_date { row.creation_date = v.clone(); }
                        if let Some(v) = &changes.project_tag { row.project_tag = v.clone(); }
                        if let Some(v) = &changes.context_tag { row.context_tag = v.clone(); }
                        if let Some(v) = &changes.key_value_tags { row.key_value_tags = v.clone(); }
                        if let Some(v) = &changes.raw_line { row.raw_line = v.clone(); }
                        if let Some(v) = changes.is_completed { row.is_completed = v; }
                    }
                }
            }
        }
    }
}

fn find<'a>(rows: &'a [Row], raw: &str) -> &'a Row {
    rows.iter().find(|r| r.raw_line == raw).unwrap()
}

#[test]
fn test_completed_task_preserves_priority() {
    let log_id = 1;
    let mut rows: Vec<Row> = Vec::new();
    let initial_raw = "(A) Important meeting +work";
    let task_a = parse_task(initial_raw).unwrap();

    // 1. Add new task with priority A
    let writes = plan_task_writes(log_id, &vec![TaskAction::Added {
        raw_line: initial_raw.to_string(),
        task: task_a,
    }]);
    apply(&mut rows, &writes);
    let db_task = find(&rows, initial_raw);
    assert_eq!(db_task.priority, Some("A".to_string()));
    assert!(!db_task.is_completed);

    // 2. Complete task in todo.txt: standard completion line removes (A)
    let completed_raw = "x 2026-09-05 Important meeting +work";
    let task_completed = parse_task(completed_raw).unwrap();
    assert_eq!(task_completed.priority, None);
    let writes = plan_task_writes(log_id, &vec![TaskAction::Completed {
        old_raw: initial_raw.to_string(),
        new_raw: completed_raw.to_string(),
        new_task: task_completed,
    }]);
    apply(&mut rows, &writes);
    let updated_task = find(&rows, completed_raw);
    assert!(updated_task.is_completed);
    assert_eq!(
        updated_task.priority,
        Some("A".to_string()),
        "Priority should NOT be overwritten with NULL on completion"
    );

    // 3. Modify completed task typo
    let modified_raw = "x 2026-09-05 Important meeting with team +work";
    let task_modified = parse_task(modified_raw).unwrap();
    assert_eq!(task_modified.priority, None);
    let writes = plan_task_writes(log_id, &vec![TaskAction::Modified {
        old_raw: completed_raw.to_string(),
        new_raw: modified_raw.to_string(),
        new_task: task_modified,
    }]);
    apply(&mut rows, &writes);
    let modified_task = find(&rows, modified_raw);
    assert_eq!(
        modified_task.priority,
        Some("A".to_string()),
        "Priority should NOT be overwritten with NULL on completed task typo modification"
    );

    // 4. Reopen task without priority -> priority becomes None
    let reopened_raw = "Important meeting with team +work";
    let task_reopened = parse_task(reopened_raw).unwrap();
    assert_eq!(task_reopened.priority, None);
    let writes = plan_task_writes(log_id, &vec![TaskAction::Reopened {
        old_raw: modified_raw.to_string(),
        new_raw: reopened_raw.to_string(),
        new_task: task_reopened,
    }]);
    apply(&mut rows, &writes);
    let reopened_task = find(&rows, reopened_raw);
    assert!(!reopened_task.is_completed);
    assert_eq!(reopened_task.priority, None, "Priority becomes None when reopened without priority");
}

#[test]
fn added_row_holds_every_column() {
    let raw = "x 2026-09-05 2026-09-01 Ship it +work @office due:soon";
    let writes = plan_task_writes(7, &vec![TaskAction::Added {
        raw_line: raw.to_string(),
        task: parse_task(raw).unwrap(),
    }]);
    let mut rows = Vec::new();
    apply(&mut rows, &writes);
    assert_eq!(rows, vec![Row {
        log_id: 7,
        priority: None,
        completion_date: Some("2026-09-05T00:00:00+00:00".to_string()),
        creation_date: Some("2026-09-01T00:00:00+00:00".to_string()),
        project_tag: Some("[\"work\"]".to_string()),
        context_tag: Some("[\"office\"]".to_string()),
        key_value_tags: "{\"due\":\"soon\"}".to_string(),
        raw_line: raw.to_string(),
        is_completed: true,
    }]);
}

#[test]
fn typo_fix_of_open_task_does_not_move_it_to_todays_log() {
    let old = "Buy milk";
    let new = "Buy oat milk";
    let mut rows = Vec::new();
    apply(&mut rows, &plan_task_writes(1, &vec![TaskAction::Added { raw_line: old.to_string(), task: parse_task(old).unwrap() }]));
    apply(&mut rows, &plan_task_writes(2, &vec![TaskAction::Modified {
        old_raw: old.to_string(),
        new_raw: new.to_string(),
        new_task: parse_task(new).unwrap(),
    }]));
    let row = find(&rows, new);
    assert_eq!(row.log_id, 1);
    assert!(!row.is_completed);
}

#[test]
fn a_new_daily_log_starts_at_middle_energy_with_nothing_logged() {
    let row = new_log_row("2026-09-05");
    assert_eq!(row.log_date, "2026-09-05");
    assert_eq!(row.energy, 3);
    assert_eq!(row.mvos, "[]");
    assert_eq!(row.worked, "[]");
    assert_eq!(row.failed, "[]");
    assert_eq!(row.output, "[]");
}

#[test]
fn todays_log_is_created_once_and_found_afterwards() {
    let row = match choose_log(None, "2026-09-05") {
        LogChoice::Create(row) => row,
        other => panic!("expected a new log, got {:?}", other),
    };
    assert_eq!(row.log_date, "2026-09-05");
    assert_eq!(row.energy, 3);
    let stored = LogRecord {
        id: 7,
        log_date: row.log_date,
        energy: row.energy,
        mvos: row.mvos,
        worked: row.worked,
        failed: row.failed,
        output: row.output,
    };
    match choose_log(Some(stored), "2026-09-05") {
        LogChoice::Found(log) => {
            assert_eq!(log.id, 7);
            assert_eq!(log.mvos, "[]");
        }
        other => panic!("expected the stored log, got {:?}", other),
    }
}
