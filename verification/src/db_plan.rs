use vstd::prelude::*;
use crate::date::{date_text, midnight_rfc3339, midnight_rfc3339_text, Date};
use crate::export::LogRecord;
use crate::json::{json_array_text, json_object_text};
use crate::sync::{is_done_line, ActionKind, ActionView, TaskAction};
use crate::task::TaskView;
use vstd::string::StrSliceExecFns;

verus! {

/// A row to insert into the table of tasks.
#[derive(Debug)]
pub struct NewTaskRow {
    pub log_id: i32,
    pub priority: Option<String>,
    pub completion_date: Option<String>,
    pub creation_date: Option<String>,
    pub project_tag: Option<String>,
    pub context_tag: Option<String>,
    pub key_value_tags: String,
    pub raw_line: String,
    pub is_completed: bool,
}

/// A daily log to insert into the table of logs.
#[derive(Debug)]
pub struct NewLogRow {
    pub log_date: String,
    pub energy: i32,
    pub mvos: String,
    pub worked: String,
    pub failed: String,
    pub output: String,
}

/// The log first recorded for a day: the middle energy state 3 and nothing
/// logged yet (each list an empty JSON array).
pub fn new_log_row(date: &str) -> (r: NewLogRow)
    ensures
        r.log_date@ == date@,
        r.energy == 3,
        r.mvos@ == seq!['[', ']'],
        r.worked@ == seq!['[', ']'],
        r.failed@ == seq!['[', ']'],
        r.output@ == seq!['[', ']'],
{
    proof {
        reveal_strlit("[]");
    }
    NewLogRow {
        log_date: date.to_owned(),
        energy: 3,
        mvos: "[]".to_owned(),
        worked: "[]".to_owned(),
        failed: "[]".to_owned(),
        output: "[]".to_owned(),
    }
}

/// Whether `row` is the log first recorded for the day `date`.
pub open spec fn is_new_log_row(row: NewLogRow, date: Seq<char>) -> bool {
    &&& row.log_date@ == date
    &&& row.energy == 3
    &&& row.mvos@ == seq!['[', ']']
    &&& row.worked@ == seq!['[', ']']
    &&& row.failed@ == seq!['[', ']']
    &&& row.output@ == seq!['[', ']']
}

/// Today's log: the one the database holds, or a new one to insert.
#[derive(Debug)]
pub enum LogChoice {
    Found(LogRecord),
    Create(NewLogRow),
}

/// Whether `r` is the choice for the day `date`, given the log that the
/// database holds for it (`None` when there is none).
pub open spec fn log_choice(found: Option<LogRecord>, date: Seq<char>, r: LogChoice) -> bool {
    match found {
        Some(l) => r == LogChoice::Found(l),
        None => r matches LogChoice::Create(row) && is_new_log_row(row, date),
    }
}

/// Decides the log of the day `date`, given the log the database holds for
/// that day: that log as it is, or, when there is none, the new log to insert.
pub fn choose_log(found: Option<LogRecord>, date: &str) -> (r: LogChoice)
    ensures
        log_choice(found, date@, r),
{
    match found {
        Some(l) => LogChoice::Found(l),
        None => LogChoice::Create(new_log_row(date)),
    }
}

/// The log the database holds once `row` was inserted with the key `id`.
pub open spec fn stored_log(id: i32, row: NewLogRow) -> LogRecord {
    LogRecord {
        id,
        log_date: row.log_date,
        energy: row.energy,
        mvos: row.mvos,
        worked: row.worked,
        failed: row.failed,
        output: row.output,
    }
}

/// Looking the day up a second time finds the log the first lookup created:
/// with no log for the day, the first lookup creates the new log (dated that
/// day, energy 3, nothing logged); once it is stored, a second lookup takes
/// that very log and creates nothing.
pub proof fn law_created_log_is_found_again(date: Seq<char>, first: LogChoice, id: i32, second: LogChoice)
    requires
        log_choice(None, date, first),
        first matches LogChoice::Create(row) && log_choice(Some(stored_log(id, row)), date, second),
    ensures
        first matches LogChoice::Create(row) && {
            &&& second == LogChoice::Found(stored_log(id, row))
            &&& stored_log(id, row).log_date@ == date
            &&& stored_log(id, row).energy == 3
            &&& stored_log(id, row).mvos@ == seq!['[', ']']
        },
{
}

/// The columns to set on the rows an update matches; `None` leaves a column as it is.
#[derive(Debug)]
pub struct TaskChanges {
    pub log_id: Option<i32>,
    pub priority: Option<Option<String>>,
    pub completion_date: Option<Option<String>>,
    pub creation_date: Option<Option<String>>,
    pub project_tag: Option<Option<String>>,
    pub context_tag: Option<Option<String>>,
    pub key_value_tags: Option<String>,
    pub raw_line: Option<String>,
    pub is_completed: Option<bool>,
}

/// A write to the table of tasks: an insertion, or an update of the rows with
/// the given raw line and completion flag.
#[derive(Debug)]
pub enum TaskOp {
    Insert(NewTaskRow),
    Update { raw_line: String, is_completed: bool, changes: TaskChanges },
}

/// A write to the table of tasks, with the kind of action it records.
#[derive(Debug)]
pub struct TaskWrite {
    pub kind: ActionKind,
    pub op: TaskOp,
}

pub struct RowView {
    pub log_id: i32,
    pub priority: Option<Seq<char>>,
    pub completion_date: Option<Seq<char>>,
    pub creation_date: Option<Seq<char>>,
    pub project_tag: Option<Seq<char>>,
    pub context_tag: Option<Seq<char>>,
    pub key_value_tags: Seq<char>,
    pub raw_line: Seq<char>,
    pub is_completed: bool,
}

pub struct ChangesView {
    pub log_id: Option<i32>,
    pub priority: Option<Option<Seq<char>>>,
    pub completion_date: Option<Option<Seq<char>>>,
    pub creation_date: Option<Option<Seq<char>>>,
    pub project_tag: Option<Option<Seq<char>>>,
    pub context_tag: Option<Option<Seq<char>>>,
    pub key_value_tags: Option<Seq<char>>,
    pub raw_line: Option<Seq<char>>,
    pub is_completed: Option<bool>,
}

pub enum OpView {
    Insert(RowView),
    Update { raw_line: Seq<char>, is_completed: bool, changes: ChangesView },
}

pub struct WriteView {
    pub kind: ActionKind,
    pub op: OpView,
}

pub open spec fn opt_view(s: Option<String>) -> Option<Seq<char>> {
    match s {
        Some(x) => Some(x@),
        None => None,
    }
}

pub open spec fn opt_opt_view(s: Option<Option<String>>) -> Option<Option<Seq<char>>> {
    match s {
        Some(x) => Some(opt_view(x)),
        None => None,
    }
}

impl View for NewTaskRow {
    type V = RowView;

    open spec fn view(&self) -> RowView {
        RowView {
            log_id: self.log_id,
            priority: opt_view(self.priority),
            completion_date: opt_view(self.completion_date),
            creation_date: opt_view(self.creation_date),
            project_tag: opt_view(self.project_tag),
            context_tag: opt_view(self.context_tag),
            key_value_tags: self.key_value_tags@,
            raw_line: self.raw_line@,
            is_completed: self.is_completed,
        }
    }
}

impl View for TaskChanges {
    type V = ChangesView;

    open spec fn view(&self) -> ChangesView {
        ChangesView {
            log_id: self.log_id,
            priority: opt_opt_view(self.priority),
            completion_date: opt_opt_view(self.completion_date),
            creation_date: opt_opt_view(self.creation_date),
            project_tag: opt_opt_view(self.project_tag),
            context_tag: opt_opt_view(self.context_tag),
            key_value_tags: opt_view(self.key_value_tags),
            raw_line: opt_view(self.raw_line),
            is_completed: self.is_completed,
        }
    }
}

impl View for TaskWrite {
    type V = WriteView;

    open spec fn view(&self) -> WriteView {
        WriteView {
            kind: self.kind,
            op: match &self.op {
                TaskOp::Insert(row) => OpView::Insert(row@),
                TaskOp::Update { raw_line, is_completed, changes } => OpView::Update {
                    raw_line: raw_line@,
                    is_completed: *is_completed,
                    changes: changes@,
                },
            },
        }
    }
}

/// The text of a priority column: the letter alone.
pub open spec fn priority_column(p: Option<char>) -> Option<Seq<char>> {
    match p {
        Some(c) => Some(seq![c]),
        None => None,
    }
}

/// The text of a date column: the RFC 3339 text of midnight UTC of the day.
pub open spec fn date_column(d: Option<Date>) -> Option<Seq<char>> {
    match d {
        Some(x) => Some(midnight_rfc3339_text(x)),
        None => None,
    }
}

/// The text of a tag column: the JSON array of the tags, or nothing when there are none.
pub open spec fn tags_column(tags: Seq<Seq<char>>) -> Option<Seq<char>> {
    if tags.len() == 0 {
        None
    } else {
        Some(json_array_text(tags))
    }
}

/// Whether the dates of a task are days with four-digit years.
pub open spec fn has_valid_dates(t: TaskView) -> bool {
    &&& (t.completion_date matches Some(d) ==> d.is_valid())
    &&& (t.creation_date matches Some(d) ==> d.is_valid())
}

/// The row that records a new task.
pub open spec fn new_row(log_id: i32, t: TaskView, raw: Seq<char>, done: bool) -> RowView {
    RowView {
        log_id,
        priority: priority_column(t.priority),
        completion_date: date_column(t.completion_date),
        creation_date: date_column(t.creation_date),
        project_tag: tags_column(t.project_tags),
        context_tag: tags_column(t.context_tags),
        key_value_tags: json_object_text(t.key_value_tags),
        raw_line: raw,
        is_completed: done,
    }
}

/// The write that records an action in the log `log_id`. A completion keeps
/// the priority the row had (todo.txt drops it from completed lines); a
/// reopening takes the reopened line's priority and clears the completion
/// date; a typo correction of a completed line that shows no priority keeps
/// the row's priority.
pub open spec fn write_for(log_id: i32, a: ActionView) -> WriteView {
    let t = a.task;
    let op = match a.kind {
        ActionKind::Added => OpView::Insert(new_row(log_id, t, a.new_raw, is_done_line(a.new_raw))),
        ActionKind::Completed => OpView::Update {
            raw_line: a.old_raw,
            is_completed: false,
            changes: ChangesView {
                log_id: Some(log_id),
                priority: None,
                completion_date: Some(date_column(t.completion_date)),
                creation_date: Some(date_column(t.creation_date)),
                project_tag: Some(tags_column(t.project_tags)),
                context_tag: Some(tags_column(t.context_tags)),
                key_value_tags: Some(json_object_text(t.key_value_tags)),
                raw_line: Some(a.new_raw),
                is_completed: Some(true),
            },
        },
        ActionKind::Reopened => OpView::Update {
            raw_line: a.old_raw,
            is_completed: true,
            changes: ChangesView {
                log_id: Some(log_id),
                priority: Some(priority_column(t.priority)),
                completion_date: Some(None),
                creation_date: Some(date_column(t.creation_date)),
                project_tag: Some(tags_column(t.project_tags)),
                context_tag: Some(tags_column(t.context_tags)),
                key_value_tags: Some(json_object_text(t.key_value_tags)),
                raw_line: Some(a.new_raw),
                is_completed: Some(false),
            },
        },
        ActionKind::Modified => {
            let new_done = is_done_line(a.new_raw);
            let old_done = is_done_line(a.old_raw);
            let keep_priority = old_done && new_done && t.priority is None;
            OpView::Update {
                raw_line: a.old_raw,
                is_completed: old_done,
                changes: ChangesView {
                    log_id: None,
                    priority: if keep_priority {
                        None
                    } else {
                        Some(priority_column(t.priority))
                    },
                    completion_date: Some(date_column(t.completion_date)),
                    creation_date: Some(date_column(t.creation_date)),
                    project_tag: Some(tags_column(t.project_tags)),
                    context_tag: Some(tags_column(t.context_tags)),
                    key_value_tags: Some(json_object_text(t.key_value_tags)),
                    raw_line: Some(a.new_raw),
                    is_completed: Some(new_done),
                },
            }
        },
    };
    WriteView { kind: a.kind, op }
}

/// Calls `char::to_string`: the one-character string.
#[verifier::external_body]
fn char_string(c: char) -> (r: String)
    ensures
        r@ == seq![c],
{
    c.to_string()
}

fn priority_text(p: Option<char>) -> (r: Option<String>)
    ensures
        opt_view(r) == priority_column(p),
{
    match p {
        Some(c) => Some(char_string(c)),
        None => None,
    }
}

fn date_text_of(d: Option<Date>) -> (r: Option<String>)
    requires
        d matches Some(x) ==> x.is_valid(),
    ensures
        opt_view(r) == date_column(d),
{
    match d {
        Some(x) => Some(midnight_rfc3339(x)),
        None => None,
    }
}

fn is_done(s: &String) -> (r: bool)
    ensures
        r == is_done_line(s@),
{
    let n = s.as_str().unicode_len();
    let r = n >= 2 && s.as_str().get_char(0) == 'x' && s.as_str().get_char(1) == ' ';
    proof {
        if r {
            assert(s@.take(2) =~= seq!['x', ' ']);
        }
        if is_done_line(s@) {
            assert(s@.take(2)[0] == s@[0] && s@.take(2)[1] == s@[1]);
        }
    }
    r
}

/// The write that records `action` in the log `log_id`.
pub fn write_for_action(log_id: i32, action: &TaskAction) -> (r: TaskWrite)
    requires
        has_valid_dates(action@.task),
    ensures
        r@ == write_for(log_id, action@),
{
    match action {
        TaskAction::Added { raw_line, task } => {
            let row = NewTaskRow {
                log_id,
                priority: priority_text(task.priority),
                completion_date: date_text_of(task.completion_date),
                creation_date: date_text_of(task.creation_date),
                project_tag: task.project_tags_json(),
                context_tag: task.context_tags_json(),
                key_value_tags: task.key_value_tags_json(),
                raw_line: raw_line.clone(),
                is_completed: is_done(raw_line),
            };
            TaskWrite { kind: ActionKind::Added, op: TaskOp::Insert(row) }
        },
        TaskAction::Completed { old_raw, new_raw, new_task } => {
            let changes = TaskChanges {
                log_id: Some(log_id),
                priority: None,
                completion_date: Some(date_text_of(new_task.completion_date)),
                creation_date: Some(date_text_of(new_task.creation_date)),
                project_tag: Some(new_task.project_tags_json()),
                context_tag: Some(new_task.context_tags_json()),
                key_value_tags: Some(new_task.key_value_tags_json()),
                raw_line: Some(new_raw.clone()),
                is_completed: Some(true),
            };
            TaskWrite {
                kind: ActionKind::Completed,
                op: TaskOp::Update { raw_line: old_raw.clone(), is_completed: false, changes },
            }
        },
        TaskAction::Reopened { old_raw, new_raw, new_task } => {
            let changes = TaskChanges {
                log_id: Some(log_id),
                priority: Some(priority_text(new_task.priority)),
                completion_date: Some(None),
                creation_date: Some(date_text_of(new_task.creation_date)),
                project_tag: Some(new_task.project_tags_json()),
                context_tag: Some(new_task.context_tags_json()),
                key_value_tags: Some(new_task.key_value_tags_json()),
                raw_line: Some(new_raw.clone()),
                is_completed: Some(false),
            };
            TaskWrite {
                kind: ActionKind::Reopened,
                op: TaskOp::Update { raw_line: old_raw.clone(), is_completed: true, changes },
            }
        },
        TaskAction::Modified { old_raw, new_raw, new_task } => {
            let new_done = is_done(new_raw);
            let old_done = is_done(old_raw);
            let keep_priority = old_done && new_done && new_task.priority.is_none();
            let changes = TaskChanges {
                log_id: None,
                priority: if keep_priority {
                    None
                } else {
                    Some(priority_text(new_task.priority))
                },
                completion_date: Some(date_text_of(new_task.completion_date)),
                creation_date: Some(date_text_of(new_task.creation_date)),
                project_tag: Some(new_task.project_tags_json()),
                context_tag: Some(new_task.context_tags_json()),
                key_value_tags: Some(new_task.key_value_tags_json()),
                raw_line: Some(new_raw.clone()),
                is_completed: Some(new_done),
            };
            TaskWrite {
                kind: ActionKind::Modified,
                op: TaskOp::Update { raw_line: old_raw.clone(), is_completed: old_done, changes },
            }
        },
    }
}

/// The writes that record `actions`, in order, in the log `log_id`.
pub fn plan_task_writes(log_id: i32, actions: &Vec<TaskAction>) -> (r: Vec<TaskWrite>)
    requires
        forall|k: int| 0 <= k < actions@.len() ==> has_valid_dates(#[trigger] actions@[k]@.task),
    ensures
        r@.len() == actions@.len(),
        forall|k: int| 0 <= k < actions@.len() ==> (#[trigger] r@[k])@ == write_for(log_id, actions@[k]@),
{
    let mut out: Vec<TaskWrite> = Vec::new();
    let mut i: usize = 0;
    while i < actions.len()
        invariant
            i <= actions@.len(),
            forall|k: int| 0 <= k < actions@.len() ==> has_valid_dates(#[trigger] actions@[k]@.task),
            out@.len() == i,
            forall|k: int| 0 <= k < i ==> (#[trigger] out@[k])@ == write_for(log_id, actions@[k]@),
        decreases actions@.len() - i,
    {
        out.push(write_for_action(log_id, &actions[i]));
        i = i + 1;
    }
    out
}

/// Completing a task never overwrites its stored priority: todo.txt drops the
/// priority from completed lines, and the record keeps the one it had.
pub proof fn law_completion_keeps_priority(log_id: i32, a: ActionView)
    requires
        a.kind == ActionKind::Completed,
    ensures
        write_for(log_id, a).op matches OpView::Update { raw_line, is_completed, changes } && {
            &&& changes.priority is None
            &&& raw_line == a.old_raw
            &&& !is_completed
            &&& changes.is_completed == Some(true)
            &&& changes.log_id == Some(log_id)
        },
{
}

/// A typo correction of a completed line that shows no priority keeps the
/// stored priority.
pub proof fn law_done_typo_keeps_priority(log_id: i32, a: ActionView)
    requires
        a.kind == ActionKind::Modified,
        is_done_line(a.old_raw),
        is_done_line(a.new_raw),
        a.task.priority is None,
    ensures
        write_for(log_id, a).op matches OpView::Update { changes, .. } && changes.priority is None,
{
}

/// Reopening a task takes the priority of the reopened line (none when it
/// shows none) and clears the completion date.
pub proof fn law_reopening_takes_line_priority(log_id: i32, a: ActionView)
    requires
        a.kind == ActionKind::Reopened,
    ensures
        write_for(log_id, a).op matches OpView::Update { raw_line, is_completed, changes } && {
            &&& changes.priority == Some(priority_column(a.task.priority))
            &&& changes.completion_date == Some(None::<Seq<char>>)
            &&& changes.is_completed == Some(false)
            &&& raw_line == a.old_raw
            &&& is_completed
        },
{
}

/// A task's record always takes the new line and the task's key/value tags.
pub proof fn law_write_takes_new_line(log_id: i32, a: ActionView)
    ensures
        match write_for(log_id, a).op {
            OpView::Insert(row) => row.raw_line == a.new_raw && row.key_value_tags == json_object_text(
                a.task.key_value_tags,
            ),
            OpView::Update { changes, .. } => changes.raw_line == Some(a.new_raw)
                && changes.key_value_tags == Some(json_object_text(a.task.key_value_tags)),
        },
{
}

/// The RFC 3339 text of midnight UTC of a day, when there is one.
pub open spec fn midnight_of(d: Option<Date>) -> Option<Seq<char>> {
    match d {
        Some(x) => Some(
            date_text(x) + seq!['T', '0', '0', ':', '0', '0', ':', '0', '0', '+', '0', '0', ':', '0', '0'],
        ),
        None => None,
    }
}

/// Every write records the task's own dates: a new row holds the task's
/// completion and creation dates; an update sets the creation date to the
/// task's, and the completion date to the task's for a completion or a typo
/// correction, while a reopening clears it.
pub proof fn law_writes_record_the_task_dates(log_id: i32, a: ActionView)
    ensures
        match write_for(log_id, a).op {
            OpView::Insert(row) => row.completion_date == midnight_of(a.task.completion_date)
                && row.creation_date == midnight_of(a.task.creation_date),
            OpView::Update { changes, .. } => {
                &&& changes.creation_date == Some(midnight_of(a.task.creation_date))
                &&& changes.completion_date == if a.kind == ActionKind::Reopened {
                    Some(None::<Seq<char>>)
                } else {
                    Some(midnight_of(a.task.completion_date))
                }
            },
        },
        a.kind == ActionKind::Added <==> write_for(log_id, a).op is Insert,
        write_for(log_id, a).kind == a.kind,
{
}

} // verus!
