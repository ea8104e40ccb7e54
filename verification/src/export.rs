use vstd::prelude::*;
use crate::date::{date_text, format_date, Date};
use crate::json::{is_json_value, json_string_list, json_value_text, parse_json_string_list};
use crate::sections::string_views;
use crate::date::{date_le, date_not_after};
use crate::text::{chars_of, decimal, decimal_text};

verus! {

/// Which logs to export: the latest `n` days that have a log, or those whose
/// date lies in a range (the start is open when absent; both ends count).
#[derive(Clone, Copy, Debug, PartialEq, Eq, Structural)]
pub enum ExportFilter {
    Days(usize),
    Range { start: Option<Date>, end: Date },
}

/// A daily log as the database holds it.
#[derive(Debug)]
pub struct LogRecord {
    pub id: i32,
    pub log_date: String,
    pub energy: i32,
    pub mvos: String,
    pub worked: String,
    pub failed: String,
    pub output: String,
}

/// A task as the database holds it.
#[derive(Debug)]
pub struct TaskRecord {
    pub id: i32,
    pub log_id: i32,
    pub priority: Option<String>,
    pub completion_date: Option<String>,
    pub creation_date: Option<String>,
    pub project_tag: Option<String>,
    pub context_tag: Option<String>,
    pub key_value_tags: String,
    pub raw_line: String,
    pub is_completed: bool,
}

/// A task as it is exported. Its key/value tags are JSON text, to be read as
/// a JSON value when written out: the text the database holds, or an empty
/// object when that text is no JSON value.
#[derive(Debug)]
pub struct ExportedTask {
    pub priority: Option<String>,
    pub completion_date: Option<String>,
    pub creation_date: Option<String>,
    pub project_tags: Vec<String>,
    pub context_tags: Vec<String>,
    pub key_value_tags: String,
    pub raw_line: String,
    pub is_completed: bool,
}

/// A daily log as it is exported, with its tasks.
#[derive(Debug)]
pub struct ExportedLog {
    pub date: String,
    pub energy: i32,
    pub mvos: Vec<String>,
    pub worked: Vec<String>,
    pub failed: Vec<String>,
    pub output: Vec<String>,
    pub tasks: Vec<ExportedTask>,
}

/// Whether text `a` comes before text `b` or equals it, character by
/// character (as SQLite compares UTF-8 text byte by byte).
pub open spec fn text_le(a: Seq<char>, b: Seq<char>) -> bool
    decreases a.len(),
{
    if a.len() == 0 {
        true
    } else if b.len() == 0 {
        false
    } else if a[0] < b[0] {
        true
    } else if a[0] == b[0] {
        text_le(a.drop_first(), b.drop_first())
    } else {
        false
    }
}

/// Whether the dates of a filter are days with four-digit years.
pub open spec fn filter_dates_valid(f: ExportFilter) -> bool {
    match f {
        ExportFilter::Days(_) => true,
        ExportFilter::Range { start, end } => end.is_valid() && (start matches Some(s) ==> s.is_valid()),
    }
}

/// Whether a log dated `date` lies in the range of a filter.
pub open spec fn in_range(date: Seq<char>, start: Option<Date>, end: Date) -> bool {
    &&& (start matches Some(s) ==> text_le(date_text(s), date))
    &&& text_le(date, date_text(end))
}

/// Whether a filter selects the log at position `k` among logs dated
/// `dates` in ascending order: one of the last `n` for `Days(n)`, one dated
/// within the range otherwise.
pub open spec fn is_selected(dates: Seq<Seq<char>>, f: ExportFilter, k: int) -> bool {
    match f {
        ExportFilter::Days(n) => k >= dates.len() - n,
        ExportFilter::Range { start, end } => in_range(dates[k], start, end),
    }
}

/// The positions below `k` that a filter selects, in order.
pub open spec fn selected_upto(dates: Seq<Seq<char>>, f: ExportFilter, k: int) -> Seq<int>
    decreases k,
{
    if k <= 0 {
        seq![]
    } else if is_selected(dates, f, k - 1) {
        selected_upto(dates, f, k - 1).push(k - 1)
    } else {
        selected_upto(dates, f, k - 1)
    }
}

/// The positions that a filter selects, in order.
pub open spec fn selected(dates: Seq<Seq<char>>, f: ExportFilter) -> Seq<int> {
    selected_upto(dates, f, dates.len() as int)
}

/// The dates of a sequence of logs.
pub open spec fn log_dates(logs: Seq<LogRecord>) -> Seq<Seq<char>> {
    logs.map_values(|l: LogRecord| l.log_date@)
}

proof fn lemma_days_upto(dates: Seq<Seq<char>>, n: usize, k: int)
    requires
        0 <= k <= dates.len(),
    ensures
        ({
            let s = if n < dates.len() { dates.len() - n } else { 0 };
            let c = if k > s { k - s } else { 0 };
            selected_upto(dates, ExportFilter::Days(n), k) == Seq::new(c as nat, |i: int| s + i)
        }),
    decreases k,
{
    let s = if n < dates.len() { dates.len() - n } else { 0 };
    if k > 0 {
        lemma_days_upto(dates, n, k - 1);
        let c = if k - 1 > s { k - 1 - s } else { 0 };
        let prev = Seq::new(c as nat, |i: int| s + i);
        if k - 1 >= s {
            assert(prev.push(k - 1) =~= Seq::new((c + 1) as nat, |i: int| s + i));
        }
    } else {
        assert(selected_upto(dates, ExportFilter::Days(n), k) =~= Seq::new(0, |i: int| s + i));
    }
}

/// Exporting the last `n` days selects the latest `n` logs (all of them when
/// there are fewer), oldest first.
pub proof fn law_days_filter_takes_the_latest(dates: Seq<Seq<char>>, n: usize)
    ensures
        ({
            let m = if n < dates.len() { n as int } else { dates.len() as int };
            selected(dates, ExportFilter::Days(n)) == Seq::new(m as nat, |i: int| dates.len() - m + i)
        }),
{
    lemma_days_upto(dates, n, dates.len() as int);
    let m = if n < dates.len() { n as int } else { dates.len() as int };
    let s = if n < dates.len() { dates.len() - n } else { 0 };
    assert(Seq::new(m as nat, |i: int| dates.len() - m + i) =~= Seq::new(m as nat, |i: int| s + i));
}

fn text_not_after(a: &Vec<char>, b: &Vec<char>) -> (r: bool)
    ensures
        r == text_le(a@, b@),
{
    let mut i: usize = 0;
    proof {
        assert(a@.skip(0) =~= a@);
        assert(b@.skip(0) =~= b@);
    }
    while i < a.len()
        invariant
            i <= a@.len(),
            i <= b@.len(),
            text_le(a@, b@) == text_le(a@.skip(i as int), b@.skip(i as int)),
        decreases a@.len() - i,
    {
        proof {
            assert(a@.skip(i as int).drop_first() =~= a@.skip(i + 1));
        }
        if i >= b.len() {
            return false;
        }
        proof {
            assert(b@.skip(i as int).drop_first() =~= b@.skip(i + 1));
            assert(a@.skip(i as int)[0] == a@[i as int]);
            assert(b@.skip(i as int)[0] == b@[i as int]);
        }
        if a[i] < b[i] {
            return true;
        }
        if a[i] != b[i] {
            return false;
        }
        i = i + 1;
    }
    true
}

/// The logs that `filter` selects among `logs`, which the database hands over
/// in ascending date order; they keep that order.
pub fn select_logs(logs: Vec<LogRecord>, filter: ExportFilter) -> (r: Vec<LogRecord>)
    requires
        filter_dates_valid(filter),
    ensures
        r@ == selected(log_dates(logs@), filter).map_values(|k: int| logs@[k]),
{
    let ghost all = logs@;
    let ghost dates = log_dates(logs@);
    let n = logs.len();
    let (start_text, end_text) = match filter {
        ExportFilter::Days(_) => (None, Vec::new()),
        ExportFilter::Range { start, end } => {
            let s = match start {
                Some(d) => Some(chars_of(format_date(d).as_str())),
                None => None,
            };
            (s, chars_of(format_date(end).as_str()))
        },
    };
    let mut out: Vec<LogRecord> = Vec::new();
    let mut rest = logs;
    let mut k: usize = 0;
    while k < n
        invariant
            n == all.len(),
            dates == log_dates(all),
            k <= n,
            rest@ == all.skip(k as int),
            out@ == selected_upto(dates, filter, k as int).map_values(|q: int| all[q]),
            match filter {
                ExportFilter::Days(_) => true,
                ExportFilter::Range { start, end } => {
                    &&& end_text@ == date_text(end)
                    &&& match start {
                        Some(s) => start_text matches Some(t) && t@ == date_text(s),
                        None => start_text is None,
                    }
                },
            },
        decreases n - k,
    {
        proof {
            assert(rest@.len() == n - k);
        }
        let log = rest.remove(0);
        assert(log == all[k as int]);
        assert(dates[k as int] == log.log_date@);
        let take = match filter {
            ExportFilter::Days(days) => days >= n - k,
            ExportFilter::Range { start: _, end: _ } => {
                let date = chars_of(log.log_date.as_str());
                let after_start = match &start_text {
                    Some(t) => text_not_after(t, &date),
                    None => true,
                };
                after_start && text_not_after(&date, &end_text)
            },
        };
        proof {
            assert(take == is_selected(dates, filter, k as int));
            assert(rest@ =~= all.skip(k + 1));
        }
        let ghost prev = out@;
        if take {
            out.push(log);
            proof {
                assert(out@ =~= selected_upto(dates, filter, k + 1).map_values(|q: int| all[q]));
            }
        } else {
            proof {
                assert(out@ =~= selected_upto(dates, filter, k + 1).map_values(|q: int| all[q]));
            }
        }
        k = k + 1;
    }
    out
}

/// The strings of a JSON array of strings, or none when the text is not one.
pub open spec fn list_or_empty(text: Seq<char>) -> Seq<Seq<char>> {
    match json_string_list(text) {
        Some(v) => v,
        None => seq![],
    }
}

/// The tags that a tag column holds: none when it is empty or not a JSON array of strings.
pub open spec fn tag_list(col: Option<String>) -> Seq<Seq<char>> {
    match col {
        Some(t) => list_or_empty(t@),
        None => seq![],
    }
}

pub open spec fn opt_text(s: Option<String>) -> Option<Seq<char>> {
    match s {
        Some(x) => Some(x@),
        None => None,
    }
}

pub struct ExportedTaskView {
    pub priority: Option<Seq<char>>,
    pub completion_date: Option<Seq<char>>,
    pub creation_date: Option<Seq<char>>,
    pub project_tags: Seq<Seq<char>>,
    pub context_tags: Seq<Seq<char>>,
    pub key_value_tags: Seq<char>,
    pub raw_line: Seq<char>,
    pub is_completed: bool,
}

pub struct ExportedLogView {
    pub date: Seq<char>,
    pub energy: i32,
    pub mvos: Seq<Seq<char>>,
    pub worked: Seq<Seq<char>>,
    pub failed: Seq<Seq<char>>,
    pub output: Seq<Seq<char>>,
    pub tasks: Seq<ExportedTaskView>,
}

impl View for ExportedTask {
    type V = ExportedTaskView;

    open spec fn view(&self) -> ExportedTaskView {
        ExportedTaskView {
            priority: opt_text(self.priority),
            completion_date: opt_text(self.completion_date),
            creation_date: opt_text(self.creation_date),
            project_tags: string_views(self.project_tags@),
            context_tags: string_views(self.context_tags@),
            key_value_tags: self.key_value_tags@,
            raw_line: self.raw_line@,
            is_completed: self.is_completed,
        }
    }
}

impl View for ExportedLog {
    type V = ExportedLogView;

    open spec fn view(&self) -> ExportedLogView {
        ExportedLogView {
            date: self.date@,
            energy: self.energy,
            mvos: string_views(self.mvos@),
            worked: string_views(self.worked@),
            failed: string_views(self.failed@),
            output: string_views(self.output@),
            tasks: self.tasks@.map_values(|t: ExportedTask| t@),
        }
    }
}

/// How a stored task is exported: its columns as they are, its tag columns
/// read as JSON arrays (none when absent or unreadable), and its key/value
/// tags as they are when they form a JSON value, else an empty object.
pub open spec fn exported_task(t: TaskRecord) -> ExportedTaskView {
    ExportedTaskView {
        priority: opt_text(t.priority),
        completion_date: opt_text(t.completion_date),
        creation_date: opt_text(t.creation_date),
        project_tags: tag_list(t.project_tag),
        context_tags: tag_list(t.context_tag),
        key_value_tags: if json_value_text(t.key_value_tags@) {
            t.key_value_tags@
        } else {
            seq!['{', '}']
        },
        raw_line: t.raw_line@,
        is_completed: t.is_completed,
    }
}

/// The tasks of the log `log_id`, in the order given.
pub open spec fn tasks_of_log(tasks: Seq<TaskRecord>, log_id: i32) -> Seq<TaskRecord>
    decreases tasks.len(),
{
    if tasks.len() == 0 {
        seq![]
    } else if tasks.last().log_id == log_id {
        tasks_of_log(tasks.drop_last(), log_id).push(tasks.last())
    } else {
        tasks_of_log(tasks.drop_last(), log_id)
    }
}

/// How a stored log is exported: its lists read as JSON arrays (none when
/// unreadable) and its tasks among `tasks`.
pub open spec fn exported_log(l: LogRecord, tasks: Seq<TaskRecord>) -> ExportedLogView {
    ExportedLogView {
        date: l.log_date@,
        energy: l.energy,
        mvos: list_or_empty(l.mvos@),
        worked: list_or_empty(l.worked@),
        failed: list_or_empty(l.failed@),
        output: list_or_empty(l.output@),
        tasks: tasks_of_log(tasks, l.id).map_values(|t: TaskRecord| exported_task(t)),
    }
}

/// The strings of a JSON array of strings stored in a column, or none when
/// the text is not one.
pub fn string_list_or_empty(text: &String) -> (r: Vec<String>)
    ensures
        string_views(r@) == list_or_empty(text@),
{
    match parse_json_string_list(text.as_str()) {
        Some(v) => v,
        None => {
            let v: Vec<String> = Vec::new();
            proof {
                assert(string_views(v@) =~= Seq::<Seq<char>>::empty());
            }
            v
        },
    }
}

fn tag_strings(col: &Option<String>) -> (r: Vec<String>)
    ensures
        string_views(r@) == tag_list(*col),
{
    match col {
        Some(t) => string_list_or_empty(t),
        None => {
            let v: Vec<String> = Vec::new();
            proof {
                assert(string_views(v@) =~= Seq::<Seq<char>>::empty());
            }
            v
        },
    }
}

fn copy_text(s: &Option<String>) -> (r: Option<String>)
    ensures
        opt_text(r) == opt_text(*s),
{
    match s {
        Some(x) => Some(x.clone()),
        None => None,
    }
}

fn export_task(t: &TaskRecord) -> (r: ExportedTask)
    ensures
        r@ == exported_task(*t),
{
    ExportedTask {
        priority: copy_text(&t.priority),
        completion_date: copy_text(&t.completion_date),
        creation_date: copy_text(&t.creation_date),
        project_tags: tag_strings(&t.project_tag),
        context_tags: tag_strings(&t.context_tag),
        key_value_tags: if is_json_value(t.key_value_tags.as_str()) {
            t.key_value_tags.clone()
        } else {
            let empty = "{}".to_owned();
            proof {
                reveal_strlit("{}");
                assert(empty@ =~= seq!['{', '}']);
            }
            empty
        },
        raw_line: t.raw_line.clone(),
        is_completed: t.is_completed,
    }
}

/// The exported form of each log, with the tasks among `tasks` that belong to it.
pub fn export_logs(logs: &Vec<LogRecord>, tasks: &Vec<TaskRecord>) -> (r: Vec<ExportedLog>)
    ensures
        r@.len() == logs@.len(),
        forall|k: int| 0 <= k < logs@.len() ==> (#[trigger] r@[k])@ == exported_log(logs@[k], tasks@),
{
    let mut out: Vec<ExportedLog> = Vec::new();
    let mut i: usize = 0;
    while i < logs.len()
        invariant
            i <= logs@.len(),
            out@.len() == i,
            forall|k: int| 0 <= k < i ==> (#[trigger] out@[k])@ == exported_log(logs@[k], tasks@),
        decreases logs@.len() - i,
    {
        let log = &logs[i];
        let mut log_tasks: Vec<ExportedTask> = Vec::new();
        let mut j: usize = 0;
        while j < tasks.len()
            invariant
                j <= tasks@.len(),
                log_tasks@.map_values(|t: ExportedTask| t@) == tasks_of_log(tasks@.take(j as int), log.id).map_values(
                    |t: TaskRecord| exported_task(t),
                ),
            decreases tasks@.len() - j,
        {
            proof {
                assert(tasks@.take(j + 1).drop_last() =~= tasks@.take(j as int));
                assert(tasks@.take(j + 1).last() == tasks@[j as int]);
            }
            let ghost before = log_tasks@.map_values(|t: ExportedTask| t@);
            if tasks[j].log_id == log.id {
                let e = export_task(&tasks[j]);
                log_tasks.push(e);
                proof {
                    assert(tasks_of_log(tasks@.take(j + 1), log.id) == tasks_of_log(tasks@.take(j as int), log.id).push(tasks@[j as int]));
                    assert(log_tasks@.map_values(|t: ExportedTask| t@) =~= before.push(exported_task(tasks@[j as int])));
                    assert(log_tasks@.map_values(|t: ExportedTask| t@) =~= tasks_of_log(tasks@.take(j + 1), log.id).map_values(
                        |t: TaskRecord| exported_task(t),
                    ));
                }
            }
            j = j + 1;
        }
        proof {
            assert(tasks@.take(tasks@.len() as int) =~= tasks@);
        }
        let e = ExportedLog {
            date: log.log_date.clone(),
            energy: log.energy,
            mvos: string_list_or_empty(&log.mvos),
            worked: string_list_or_empty(&log.worked),
            failed: string_list_or_empty(&log.failed),
            output: string_list_or_empty(&log.output),
            tasks: log_tasks,
        };
        proof {
            assert(e@ =~= exported_log(logs@[i as int], tasks@));
        }
        out.push(e);
        i = i + 1;
    }
    out
}

/// Why the dates asked for an export cannot be used.
#[derive(Clone, Copy, Debug, PartialEq, Eq, Structural)]
pub enum ExportRequestError {
    /// The start date lies after the end date.
    StartAfterEnd { start: Date, end: Date },
    /// The start date lies after today, with no end date given.
    StartAfterToday { start: Date, today: Date },
}

/// The name of the file written for an export of the last `n` days.
pub open spec fn days_file_name(n: nat) -> Seq<char> {
    "logfine_export_"@ + decimal(n) + "_days.json"@
}

/// The name of the file written for an export of a closed range.
pub open spec fn range_file_name(start: Date, end: Date) -> Seq<char> {
    "logfine_export_"@ + date_text(start) + "_to_"@ + date_text(end) + ".json"@
}

/// The name of the file written for an export up to a date.
pub open spec fn until_file_name(end: Date) -> Seq<char> {
    "logfine_export_until_"@ + date_text(end) + ".json"@
}

/// The filter and default file name of an export, or why the request is
/// refused: a number of days wins over dates; a start date after the end date
/// (or, without an end date, after today) is refused; a start date alone runs
/// to today; no days and no dates means the last 7 days.
pub open spec fn export_plan(
    days: Option<usize>,
    start: Option<Date>,
    end: Option<Date>,
    today: Date,
) -> Result<(ExportFilter, Seq<char>), ExportRequestError> {
    match (days, start, end) {
        (Some(d), _, _) => Ok((ExportFilter::Days(d), days_file_name(d as nat))),
        (None, Some(s), Some(e)) => if !date_le(s, e) {
            Err(ExportRequestError::StartAfterEnd { start: s, end: e })
        } else {
            Ok((ExportFilter::Range { start: Some(s), end: e }, range_file_name(s, e)))
        },
        (None, Some(s), None) => if !date_le(s, today) {
            Err(ExportRequestError::StartAfterToday { start: s, today })
        } else {
            Ok((ExportFilter::Range { start: Some(s), end: today }, range_file_name(s, today)))
        },
        (None, None, Some(e)) => Ok((ExportFilter::Range { start: None, end: e }, until_file_name(e))),
        (None, None, None) => Ok((ExportFilter::Days(7), days_file_name(7))),
    }
}

/// Decides what an `export` command asks for: the filter and the default
/// name of the file to write, or why the dates given cannot be used.
pub fn export_request(
    days: Option<usize>,
    start: Option<Date>,
    end: Option<Date>,
    today: Date,
) -> (r: Result<(ExportFilter, String), ExportRequestError>)
    requires
        start matches Some(s) ==> s.is_valid(),
        end matches Some(e) ==> e.is_valid(),
        today.is_valid(),
    ensures
        match (r, export_plan(days, start, end, today)) {
            (Ok((f, name)), Ok((g, spec_name))) => f == g && name@ == spec_name,
            (Err(e), Err(g)) => e == g,
            _ => false,
        },
{
    proof {
        reveal_strlit("logfine_export_");
        reveal_strlit("_days.json");
        reveal_strlit("_to_");
        reveal_strlit(".json");
        reveal_strlit("logfine_export_until_");
    }
    match (days, start, end) {
        (Some(d), _, _) => {
            let mut name = String::from_str("logfine_export_");
            name.append(decimal_text(d).as_str());
            name.append("_days.json");
            Ok((ExportFilter::Days(d), name))
        },
        (None, Some(s), Some(e)) => {
            if !date_not_after(s, e) {
                Err(ExportRequestError::StartAfterEnd { start: s, end: e })
            } else {
                let mut name = String::from_str("logfine_export_");
                name.append(format_date(s).as_str());
                name.append("_to_");
                name.append(format_date(e).as_str());
                name.append(".json");
                Ok((ExportFilter::Range { start: Some(s), end: e }, name))
            }
        },
        (None, Some(s), None) => {
            if !date_not_after(s, today) {
                Err(ExportRequestError::StartAfterToday { start: s, today })
            } else {
                let mut name = String::from_str("logfine_export_");
                name.append(format_date(s).as_str());
                name.append("_to_");
                name.append(format_date(today).as_str());
                name.append(".json");
                Ok((ExportFilter::Range { start: Some(s), end: today }, name))
            }
        },
        (None, None, Some(e)) => {
            let mut name = String::from_str("logfine_export_until_");
            name.append(format_date(e).as_str());
            name.append(".json");
            Ok((ExportFilter::Range { start: None, end: e }, name))
        },
        (None, None, None) => {
            let mut name = String::from_str("logfine_export_");
            name.append(decimal_text(7).as_str());
            name.append("_days.json");
            Ok((ExportFilter::Days(7), name))
        },
    }
}

} // verus!
