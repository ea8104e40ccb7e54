use vstd::prelude::*;
use crate::date::{date_text, format_date, Date};
use crate::sections::string_views;
use crate::similarity::{jaro_winkler_bits, jaro_winkler_score};
use crate::task::{parse_task, task_of_line, Task, TaskView};
use crate::text::{chars_of, lemma_not_blank, starts_with, substring, trim, trim_range};
use vstd::string::StrSliceExecFns;

verus! {

/// The bit pattern of the double 0.79: a new line and a vanished line whose
/// similarity lies above it may be the same task.
pub const MATCH_THRESHOLD_BITS: u64 = 0x3FE9_47AE_147A_E148;

/// The lines of `ls` that are not blank.
pub open spec fn nonblank_lines(ls: Seq<Seq<char>>) -> Seq<Seq<char>>
    decreases ls.len(),
{
    if ls.len() == 0 {
        seq![]
    } else if trim(ls.last()).len() > 0 {
        nonblank_lines(ls.drop_last()).push(ls.last())
    } else {
        nonblank_lines(ls.drop_last())
    }
}

/// The cached lines that the todo file no longer holds, each once, in cache order.
pub open spec fn vanished_lines(cache: Seq<Seq<char>>, todo: Seq<Seq<char>>) -> Seq<Seq<char>>
    decreases cache.len(),
{
    if cache.len() == 0 {
        seq![]
    } else {
        let r = vanished_lines(cache.drop_last(), todo);
        let l = cache.last();
        if !todo.contains(l) && !r.contains(l) {
            r.push(l)
        } else {
            r
        }
    }
}

/// The todo lines that the cache does not hold, each once, in file order.
pub open spec fn fresh_lines(cache: Seq<Seq<char>>, todo: Seq<Seq<char>>) -> Seq<Seq<char>>
    decreases todo.len(),
{
    if todo.len() == 0 {
        seq![]
    } else {
        let r = fresh_lines(cache, todo.drop_last());
        let l = todo.last();
        if !cache.contains(l) && !r.contains(l) {
            r.push(l)
        } else {
            r
        }
    }
}

/// A possible match between a new line and a vanished one.
#[derive(Clone, Copy, Debug, PartialEq, Eq, Structural)]
pub struct Candidate {
    pub new_idx: usize,
    pub missing_idx: usize,
    /// The bit pattern of the similarity score.
    pub score: u64,
}

/// The similarity of a new line and a vanished line: that of their
/// descriptions when both parse as tasks, else that of the raw lines.
pub open spec fn line_score(new_line: Seq<char>, old_line: Seq<char>) -> u64 {
    match (task_of_line(new_line), task_of_line(old_line)) {
        (Some(nt), Some(ot)) => jaro_winkler_bits(nt.description, ot.description),
        _ => jaro_winkler_bits(new_line, old_line),
    }
}

/// The candidates that pair new line `i` with one of the first `j` vanished
/// lines, in order: those where the new line parses and the score lies above
/// the threshold.
pub open spec fn row_candidates(
    new_lines: Seq<Seq<char>>,
    missing: Seq<Seq<char>>,
    i: int,
    j: int,
) -> Seq<Candidate>
    decreases j,
{
    if j <= 0 {
        seq![]
    } else {
        let r = row_candidates(new_lines, missing, i, j - 1);
        let s = line_score(new_lines[i], missing[j - 1]);
        if task_of_line(new_lines[i]) is Some && s > MATCH_THRESHOLD_BITS {
            r.push(Candidate { new_idx: i as usize, missing_idx: (j - 1) as usize, score: s })
        } else {
            r
        }
    }
}

/// The candidates of the first `i` new lines, new line by new line.
pub open spec fn candidates_upto(new_lines: Seq<Seq<char>>, missing: Seq<Seq<char>>, i: int) -> Seq<
    Candidate,
>
    decreases i,
{
    if i <= 0 {
        seq![]
    } else {
        candidates_upto(new_lines, missing, i - 1) + row_candidates(
            new_lines,
            missing,
            i - 1,
            missing.len() as int,
        )
    }
}

/// `c` placed into `s` after every candidate that scores at least as high.
pub open spec fn insert_by_score(s: Seq<Candidate>, c: Candidate) -> Seq<Candidate>
    decreases s.len(),
{
    if s.len() == 0 {
        seq![c]
    } else if s.last().score >= c.score {
        s.push(c)
    } else {
        insert_by_score(s.drop_last(), c).push(s.last())
    }
}

/// `s` sorted by descending score, keeping the order of equal scores (a stable sort).
pub open spec fn sort_by_score(s: Seq<Candidate>) -> Seq<Candidate>
    decreases s.len(),
{
    if s.len() == 0 {
        seq![]
    } else {
        insert_by_score(sort_by_score(s.drop_last()), s.last())
    }
}

/// Whether `s` is ordered by descending score.
pub open spec fn best_first(s: Seq<Candidate>) -> bool {
    forall|a: int, b: int| 0 <= a < b < s.len() ==> s[a].score >= s[b].score
}

proof fn lemma_insert_sorted(s: Seq<Candidate>, c: Candidate)
    requires
        best_first(s),
    ensures
        best_first(insert_by_score(s, c)),
        insert_by_score(s, c).len() == s.len() + 1,
        forall|k: int| 0 <= k < insert_by_score(s, c).len() ==> (#[trigger] insert_by_score(s, c)[k] == c
            || s.contains(insert_by_score(s, c)[k])),
    decreases s.len(),
{
    if s.len() == 0 {
    } else if s.last().score >= c.score {
        let r = s.push(c);
        assert forall|k: int| 0 <= k < r.len() implies (#[trigger] r[k] == c || s.contains(r[k])) by {
            if k < s.len() {
                assert(r[k] == s[k]);
            }
        }
    } else {
        let init = s.drop_last();
        assert(best_first(init)) by {
            assert forall|a: int, b: int| 0 <= a < b < init.len() implies init[a].score >= init[b].score by {
                assert(init[a] == s[a] && init[b] == s[b]);
            }
        }
        lemma_insert_sorted(init, c);
        let r0 = insert_by_score(init, c);
        let r = r0.push(s.last());
        assert forall|k: int| 0 <= k < r0.len() implies r0[k].score >= s.last().score by {
            if r0[k] == c {
            } else {
                assert(init.contains(r0[k]));
                let q = choose|q: int| 0 <= q < init.len() && init[q] == r0[k];
                assert(s[q] == r0[k]);
                assert(s[s.len() - 1] == s.last());
            }
        }
        assert forall|k: int| 0 <= k < r.len() implies (#[trigger] r[k] == c || s.contains(r[k])) by {
            if k < r0.len() {
                assert(r[k] == r0[k]);
                if r0[k] != c {
                    let q = choose|q: int| 0 <= q < init.len() && init[q] == r0[k];
                    assert(s[q] == r0[k]);
                }
            } else {
                assert(s[s.len() - 1] == r[k]);
            }
        }
        assert forall|a: int, b: int| 0 <= a < b < r.len() implies r[a].score >= r[b].score by {
            if b < r0.len() {
                assert(r[a] == r0[a] && r[b] == r0[b]);
            } else {
                assert(r[a] == r0[a]);
            }
        }
    }
}

/// The matches between new and vanished lines are considered best first:
/// sorting puts them in descending order of similarity, so a closer match
/// takes its lines before a weaker one can.
pub proof fn law_candidates_best_first(s: Seq<Candidate>)
    ensures
        best_first(sort_by_score(s)),
    decreases s.len(),
{
    if s.len() > 0 {
        law_candidates_best_first(s.drop_last());
        lemma_insert_sorted(sort_by_score(s.drop_last()), s.last());
    }
}

/// Whether `v` holds `s`.
fn holds_line(v: &Vec<String>, s: &String) -> (r: bool)
    ensures
        r == string_views(v@).contains(s@),
{
    let mut i: usize = 0;
    while i < v.len()
        invariant
            i <= v@.len(),
            forall|j: int| 0 <= j < i ==> v@[j]@ != s@,
        decreases v@.len() - i,
    {
        if v[i] == *s {
            assert(string_views(v@)[i as int] == s@);
            return true;
        }
        i = i + 1;
    }
    proof {
        assert forall|j: int| 0 <= j < string_views(v@).len() implies string_views(v@)[j] != s@ by {}
    }
    false
}

/// The non-blank lines of a todo file.
pub fn nonblank(lines: &Vec<String>) -> (r: Vec<String>)
    ensures
        string_views(r@) == nonblank_lines(string_views(lines@)),
{
    let mut out: Vec<String> = Vec::new();
    let mut i: usize = 0;
    while i < lines.len()
        invariant
            i <= lines@.len(),
            string_views(out@) == nonblank_lines(string_views(lines@).take(i as int)),
        decreases lines@.len() - i,
    {
        let v = chars_of(lines[i].as_str());
        let (a, b) = trim_range(&v, 0, v.len());
        proof {
            let t = string_views(lines@).take(i + 1);
            assert(t.drop_last() =~= string_views(lines@).take(i as int));
            assert(v@.subrange(0, v@.len() as int) =~= v@);
        }
        if a < b {
            out.push(lines[i].clone());
            proof {
                assert(string_views(out@) =~= nonblank_lines(string_views(lines@).take(i as int)).push(lines@[i as int]@));
            }
        }
        i = i + 1;
    }
    proof {
        assert(string_views(lines@).take(lines@.len() as int) =~= string_views(lines@));
    }
    out
}

/// The cached lines that `todo` no longer holds, each once, in cache order.
pub fn vanished(cache: &Vec<String>, todo: &Vec<String>) -> (r: Vec<String>)
    ensures
        string_views(r@) == vanished_lines(string_views(cache@), string_views(todo@)),
{
    let mut out: Vec<String> = Vec::new();
    let mut i: usize = 0;
    while i < cache.len()
        invariant
            i <= cache@.len(),
            string_views(out@) == vanished_lines(string_views(cache@).take(i as int), string_views(todo@)),
        decreases cache@.len() - i,
    {
        proof {
            let t = string_views(cache@).take(i + 1);
            assert(t.drop_last() =~= string_views(cache@).take(i as int));
        }
        if !holds_line(todo, &cache[i]) && !holds_line(&out, &cache[i]) {
            out.push(cache[i].clone());
            proof {
                assert(string_views(out@) =~= vanished_lines(string_views(cache@).take(i as int), string_views(todo@)).push(cache@[i as int]@));
            }
        }
        i = i + 1;
    }
    proof {
        assert(string_views(cache@).take(cache@.len() as int) =~= string_views(cache@));
    }
    out
}

/// The lines of `todo` that `cache` does not hold, each once, in file order.
pub fn fresh(cache: &Vec<String>, todo: &Vec<String>) -> (r: Vec<String>)
    ensures
        string_views(r@) == fresh_lines(string_views(cache@), string_views(todo@)),
{
    let mut out: Vec<String> = Vec::new();
    let mut i: usize = 0;
    while i < todo.len()
        invariant
            i <= todo@.len(),
            string_views(out@) == fresh_lines(string_views(cache@), string_views(todo@).take(i as int)),
        decreases todo@.len() - i,
    {
        proof {
            let t = string_views(todo@).take(i + 1);
            assert(t.drop_last() =~= string_views(todo@).take(i as int));
        }
        if !holds_line(cache, &todo[i]) && !holds_line(&out, &todo[i]) {
            out.push(todo[i].clone());
            proof {
                assert(string_views(out@) =~= fresh_lines(string_views(cache@), string_views(todo@).take(i as int)).push(todo@[i as int]@));
            }
        }
        i = i + 1;
    }
    proof {
        assert(string_views(todo@).take(todo@.len() as int) =~= string_views(todo@));
    }
    out
}

proof fn lemma_insert_at(s: Seq<Candidate>, c: Candidate, p: int)
    requires
        0 <= p <= s.len(),
        p > 0 ==> s[p - 1].score >= c.score,
        forall|k: int| p <= k < s.len() ==> s[k].score < c.score,
    ensures
        insert_by_score(s, c) == s.insert(p, c),
    decreases s.len(),
{
    if s.len() == 0 {
        assert(s.insert(p, c) =~= seq![c]);
    } else if s.last().score >= c.score {
        assert(p == s.len());
        assert(s.insert(p, c) =~= s.push(c));
    } else {
        lemma_insert_at(s.drop_last(), c, p);
        assert(s.drop_last().insert(p, c).push(s.last()) =~= s.insert(p, c));
    }
}

/// `v` sorted by descending score, equal scores kept in their order.
fn sort_candidates(v: Vec<Candidate>) -> (r: Vec<Candidate>)
    ensures
        r@ == sort_by_score(v@),
{
    let mut out: Vec<Candidate> = Vec::new();
    let mut i: usize = 0;
    while i < v.len()
        invariant
            i <= v@.len(),
            out@ == sort_by_score(v@.take(i as int)),
            out@.len() == i,
        decreases v@.len() - i,
    {
        let c = v[i];
        let mut p: usize = out.len();
        while p > 0 && out[p - 1].score < c.score
            invariant
                p <= out@.len(),
                forall|k: int| p <= k < out@.len() ==> out@[k].score < c.score,
            decreases p,
        {
            p = p - 1;
        }
        proof {
            lemma_insert_at(out@, c, p as int);
            let t = v@.take(i + 1);
            assert(t.drop_last() =~= v@.take(i as int));
            assert(t.last() == c);
        }
        out.insert(p, c);
        i = i + 1;
    }
    proof {
        assert(v@.take(v@.len() as int) =~= v@);
    }
    out
}

/// Whether `parsed[i]` is the parse of `lines[i]` for every `i`.
pub open spec fn parsed_as(lines: Seq<Seq<char>>, parsed: Seq<Option<Task>>) -> bool {
    &&& parsed.len() == lines.len()
    &&& forall|i: int|
        0 <= i < lines.len() ==> match #[trigger] parsed[i] {
            Some(t) => task_of_line(lines[i]) == Some(t@),
            None => task_of_line(lines[i]) is None,
        }
}

/// The parse of every line of `lines`.
fn parse_all(lines: &Vec<String>) -> (r: Vec<Option<Task>>)
    ensures
        parsed_as(string_views(lines@), r@),
{
    let mut out: Vec<Option<Task>> = Vec::new();
    let mut i: usize = 0;
    while i < lines.len()
        invariant
            i <= lines@.len(),
            out@.len() == i,
            forall|j: int|
                0 <= j < i ==> match #[trigger] out@[j] {
                    Some(t) => task_of_line(lines@[j]@) == Some(t@),
                    None => task_of_line(lines@[j]@) is None,
                },
        decreases lines@.len() - i,
    {
        out.push(parse_task(lines[i].as_str()));
        i = i + 1;
    }
    out
}

/// The similarity of new line `i` and vanished line `j`.
fn score_of(
    new_lines: &Vec<String>,
    missing: &Vec<String>,
    parsed_new: &Vec<Option<Task>>,
    parsed_missing: &Vec<Option<Task>>,
    i: usize,
    j: usize,
) -> (r: u64)
    requires
        parsed_as(string_views(new_lines@), parsed_new@),
        parsed_as(string_views(missing@), parsed_missing@),
        i < new_lines@.len(),
        j < missing@.len(),
    ensures
        r == line_score(new_lines@[i as int]@, missing@[j as int]@),
{
    assert(string_views(new_lines@)[i as int] == new_lines@[i as int]@);
    assert(string_views(missing@)[j as int] == missing@[j as int]@);
    match (&parsed_new[i], &parsed_missing[j]) {
        (Some(nt), Some(mt)) => jaro_winkler_score(nt.description.as_str(), mt.description.as_str()),
        _ => jaro_winkler_score(new_lines[i].as_str(), missing[j].as_str()),
    }
}

/// All candidates, new line by new line and, within one, vanished line by vanished line.
fn gather_candidates(
    new_lines: &Vec<String>,
    missing: &Vec<String>,
    parsed_new: &Vec<Option<Task>>,
    parsed_missing: &Vec<Option<Task>>,
) -> (r: Vec<Candidate>)
    requires
        parsed_as(string_views(new_lines@), parsed_new@),
        parsed_as(string_views(missing@), parsed_missing@),
    ensures
        r@ == candidates_upto(string_views(new_lines@), string_views(missing@), new_lines@.len() as int),
{
    let ghost nl = string_views(new_lines@);
    let ghost ml = string_views(missing@);
    let mut out: Vec<Candidate> = Vec::new();
    let mut i: usize = 0;
    while i < new_lines.len()
        invariant
            i <= new_lines@.len(),
            nl == string_views(new_lines@),
            ml == string_views(missing@),
            parsed_as(nl, parsed_new@),
            parsed_as(ml, parsed_missing@),
            out@ == candidates_upto(nl, ml, i as int),
        decreases new_lines@.len() - i,
    {
        let ghost before = out@;
        let mut j: usize = 0;
        while j < missing.len()
            invariant
                i < new_lines@.len(),
                j <= missing@.len(),
                nl == string_views(new_lines@),
                ml == string_views(missing@),
                parsed_as(nl, parsed_new@),
                parsed_as(ml, parsed_missing@),
                out@ == before + row_candidates(nl, ml, i as int, j as int),
            decreases missing@.len() - j,
        {
            assert(nl[i as int] == new_lines@[i as int]@);
            if parsed_new[i].is_some() {
                let s = score_of(new_lines, missing, parsed_new, parsed_missing, i, j);
                if s > MATCH_THRESHOLD_BITS {
                    out.push(Candidate { new_idx: i, missing_idx: j, score: s });
                    proof {
                        assert(out@ =~= before + row_candidates(nl, ml, i as int, j + 1));
                    }
                }
            }
            j = j + 1;
        }
        i = i + 1;
    }
    out
}

/// Actions representing task status changes after a sync
#[derive(Debug)]
pub enum TaskAction {
    Added { raw_line: String, task: Task },
    Completed { old_raw: String, new_raw: String, new_task: Task },
    Reopened { old_raw: String, new_raw: String, new_task: Task },
    Modified { old_raw: String, new_raw: String, new_task: Task },
}

/// The kind of a task action.
#[derive(Clone, Copy, Debug, PartialEq, Eq, Structural)]
pub enum ActionKind {
    Added,
    Completed,
    Reopened,
    Modified,
}

/// The content of a task action; an added task has an empty old line.
pub struct ActionView {
    pub kind: ActionKind,
    pub old_raw: Seq<char>,
    pub new_raw: Seq<char>,
    pub task: TaskView,
}

impl View for TaskAction {
    type V = ActionView;

    open spec fn view(&self) -> ActionView {
        match self {
            TaskAction::Added { raw_line, task } => ActionView {
                kind: ActionKind::Added,
                old_raw: seq![],
                new_raw: raw_line@,
                task: task@,
            },
            TaskAction::Completed { old_raw, new_raw, new_task } => ActionView {
                kind: ActionKind::Completed,
                old_raw: old_raw@,
                new_raw: new_raw@,
                task: new_task@,
            },
            TaskAction::Reopened { old_raw, new_raw, new_task } => ActionView {
                kind: ActionKind::Reopened,
                old_raw: old_raw@,
                new_raw: new_raw@,
                task: new_task@,
            },
            TaskAction::Modified { old_raw, new_raw, new_task } => ActionView {
                kind: ActionKind::Modified,
                old_raw: old_raw@,
                new_raw: new_raw@,
                task: new_task@,
            },
        }
    }
}

/// Views of a vector of actions.
pub open spec fn action_views(v: Seq<TaskAction>) -> Seq<ActionView> {
    v.map_values(|a: TaskAction| a@)
}

/// The state of a sync between the todo file and the cache of its lines.
pub struct SyncModel {
    /// Lines of the file that the cache does not hold.
    pub new_lines: Seq<Seq<char>>,
    /// Cached lines that the file no longer holds.
    pub missing: Seq<Seq<char>>,
    /// Possible matches, best first.
    pub candidates: Seq<Candidate>,
    /// The next candidate to consider.
    pub next: int,
    pub matched_new: Seq<bool>,
    pub matched_missing: Seq<bool>,
    /// The new lines as they will stand in the file.
    pub final_new: Seq<Seq<char>>,
    pub actions: Seq<ActionView>,
    /// Lines of the file to replace, and their replacements.
    pub rewrites: Seq<(Seq<char>, Seq<char>)>,
    /// Whether the user is to say whether candidate `next` was a typo correction.
    pub awaiting: bool,
    pub auto_date: bool,
    pub today: Date,
}

/// Whether a line marks its task as done.
pub open spec fn is_done_line(s: Seq<char>) -> bool {
    starts_with(s, seq!['x', ' '])
}

/// A newly completed line with today's date written after its completion
/// mark and its priority, as the line's `x ` (or `x (P) `) prefix is replaced
/// by the same prefix followed by the date.
pub open spec fn dated_completion(line: Seq<char>, t: TaskView, today: Date) -> Seq<char> {
    let k = if t.priority is Some { 6int } else { 2int };
    line.take(k) + date_text(today) + seq![' '] + line.skip(k)
}

/// Whether a newly completed task lacks a completion date that automatic
/// dating should add: the new line has none (when the old task had no
/// creation date), or its only date is the old task's creation date.
pub open spec fn needs_completion_date(new_task: TaskView, old_task: Option<TaskView>) -> bool {
    match old_task {
        Some(ot) => if ot.creation_date is Some {
            new_task.completion_date == ot.creation_date && new_task.creation_date is None
        } else {
            new_task.completion_date is None
        },
        None => new_task.completion_date is None,
    }
}

/// The model after considering candidate `next`, which is not awaiting an answer.
pub open spec fn consider(m: SyncModel) -> SyncModel {
    let c = m.candidates[m.next];
    let i = c.new_idx as int;
    let j = c.missing_idx as int;
    if m.matched_new[i] || m.matched_missing[j] {
        SyncModel { next: m.next + 1, ..m }
    } else {
        let old_line = m.missing[j];
        let new_line = m.new_lines[i];
        let task = task_of_line(new_line).unwrap();
        if is_done_line(old_line) && !is_done_line(new_line) {
            SyncModel {
                next: m.next + 1,
                matched_new: m.matched_new.update(i, true),
                matched_missing: m.matched_missing.update(j, true),
                actions: m.actions.push(
                    ActionView { kind: ActionKind::Reopened, old_raw: old_line, new_raw: new_line, task },
                ),
                ..m
            }
        } else if !is_done_line(old_line) && is_done_line(new_line) {
            if m.auto_date && needs_completion_date(task, task_of_line(old_line)) {
                let dated = dated_completion(new_line, task, m.today);
                SyncModel {
                    next: m.next + 1,
                    matched_new: m.matched_new.update(i, true),
                    matched_missing: m.matched_missing.update(j, true),
                    final_new: m.final_new.update(i, dated),
                    rewrites: m.rewrites.push((new_line, dated)),
                    actions: m.actions.push(
                        ActionView {
                            kind: ActionKind::Completed,
                            old_raw: old_line,
                            new_raw: dated,
                            task: task_of_line(dated).unwrap(),
                        },
                    ),
                    ..m
                }
            } else {
                SyncModel {
                    next: m.next + 1,
                    matched_new: m.matched_new.update(i, true),
                    matched_missing: m.matched_missing.update(j, true),
                    actions: m.actions.push(
                        ActionView { kind: ActionKind::Completed, old_raw: old_line, new_raw: new_line, task },
                    ),
                    ..m
                }
            }
        } else {
            SyncModel { awaiting: true, ..m }
        }
    }
}

/// The model after considering candidates until one needs the user's answer
/// or none is left.
pub open spec fn advance(m: SyncModel) -> SyncModel
    decreases m.candidates.len() - m.next,
{
    if m.awaiting || m.next < 0 || m.next >= m.candidates.len() {
        m
    } else {
        let m2 = consider(m);
        if m2.awaiting || m2.next != m.next + 1 {
            m2
        } else {
            advance(m2)
        }
    }
}

/// The model after the user said whether the awaited candidate was a typo
/// correction: the new line then replaces the old one, or else is a new task
/// and the old line stays free for other candidates.
pub open spec fn answered(m: SyncModel, is_typo: bool) -> SyncModel {
    if !m.awaiting {
        m
    } else {
        let c = m.candidates[m.next];
        let i = c.new_idx as int;
        let j = c.missing_idx as int;
        let new_line = m.new_lines[i];
        let task = task_of_line(new_line).unwrap();
        if is_typo {
            SyncModel {
                next: m.next + 1,
                awaiting: false,
                matched_new: m.matched_new.update(i, true),
                matched_missing: m.matched_missing.update(j, true),
                actions: m.actions.push(
                    ActionView {
                        kind: ActionKind::Modified,
                        old_raw: m.missing[j],
                        new_raw: new_line,
                        task,
                    },
                ),
                ..m
            }
        } else {
            SyncModel {
                next: m.next + 1,
                awaiting: false,
                matched_new: m.matched_new.update(i, true),
                actions: m.actions.push(
                    ActionView { kind: ActionKind::Added, old_raw: seq![], new_raw: new_line, task },
                ),
                ..m
            }
        }
    }
}

/// The actions for the first `i` new lines that no candidate matched: each
/// that parses is an added task.
pub open spec fn unmatched_added(m: SyncModel, i: int) -> Seq<ActionView>
    decreases i,
{
    if i <= 0 {
        seq![]
    } else {
        let r = unmatched_added(m, i - 1);
        if !m.matched_new[i - 1] && task_of_line(m.new_lines[i - 1]) is Some {
            r.push(
                ActionView {
                    kind: ActionKind::Added,
                    old_raw: seq![],
                    new_raw: m.final_new[i - 1],
                    task: task_of_line(m.new_lines[i - 1]).unwrap(),
                },
            )
        } else {
            r
        }
    }
}

/// The lines to add to the cache among the first `i` new lines: those that
/// parse, as they will stand in the file.
pub open spec fn lines_to_cache(m: SyncModel, i: int) -> Seq<Seq<char>>
    decreases i,
{
    if i <= 0 {
        seq![]
    } else if task_of_line(m.new_lines[i - 1]) is Some {
        lines_to_cache(m, i - 1).push(m.final_new[i - 1])
    } else {
        lines_to_cache(m, i - 1)
    }
}

/// The model that a session starts from.
pub open spec fn initial_model(
    cache: Seq<Seq<char>>,
    file_lines: Seq<Seq<char>>,
    auto_date: bool,
    today: Date,
) -> SyncModel {
    let todo = nonblank_lines(file_lines);
    let new_lines = fresh_lines(cache, todo);
    let missing = vanished_lines(cache, todo);
    SyncModel {
        new_lines,
        missing,
        candidates: sort_by_score(candidates_upto(new_lines, missing, new_lines.len() as int)),
        next: 0,
        matched_new: Seq::new(new_lines.len(), |k: int| false),
        matched_missing: Seq::new(missing.len(), |k: int| false),
        final_new: new_lines,
        actions: seq![],
        rewrites: seq![],
        awaiting: false,
        auto_date,
        today,
    }
}

/// What a sync hands back: the actions on tasks, the lines to add to and to
/// remove from the cache, and the rewrites of file lines.
pub struct SyncState {
    pub actions: Vec<TaskAction>,
    pub cache_inserts: Vec<String>,
    pub cache_deletes: Vec<String>,
    pub file_rewrites: Vec<(String, String)>,
}

/// A sync of the todo file with the cache, which asks the user about each
/// match that may be a typo correction.
pub struct SyncSession {
    new_lines: Vec<String>,
    missing: Vec<String>,
    parsed_new: Vec<Option<Task>>,
    parsed_missing: Vec<Option<Task>>,
    candidates: Vec<Candidate>,
    next: usize,
    matched_new: Vec<bool>,
    matched_missing: Vec<bool>,
    final_new: Vec<String>,
    actions: Vec<TaskAction>,
    rewrites: Vec<(String, String)>,
    awaiting: bool,
    auto_date: bool,
    today: Date,
}

/// The content of a vector of string pairs.
pub open spec fn rewrite_views(v: Seq<(String, String)>) -> Seq<(Seq<char>, Seq<char>)> {
    v.map_values(|p: (String, String)| (p.0@, p.1@))
}

impl SyncSession {
    /// The state of the session.
    pub closed spec fn model(&self) -> SyncModel {
        SyncModel {
            new_lines: string_views(self.new_lines@),
            missing: string_views(self.missing@),
            candidates: self.candidates@,
            next: self.next as int,
            matched_new: self.matched_new@,
            matched_missing: self.matched_missing@,
            final_new: string_views(self.final_new@),
            actions: action_views(self.actions@),
            rewrites: rewrite_views(self.rewrites@),
            awaiting: self.awaiting,
            auto_date: self.auto_date,
            today: self.today,
        }
    }

    /// The session's invariant.
    pub closed spec fn wf(&self) -> bool {
        let nl = string_views(self.new_lines@);
        let ml = string_views(self.missing@);
        &&& parsed_as(nl, self.parsed_new@)
        &&& parsed_as(ml, self.parsed_missing@)
        &&& self.matched_new@.len() == nl.len()
        &&& self.final_new@.len() == nl.len()
        &&& self.matched_missing@.len() == ml.len()
        &&& forall|k: int|
            0 <= k < self.candidates@.len() ==> {
                &&& (#[trigger] self.candidates@[k]).new_idx < nl.len()
                &&& self.candidates@[k].missing_idx < ml.len()
                &&& task_of_line(nl[self.candidates@[k].new_idx as int]) is Some
            }
        &&& self.next <= self.candidates@.len()
        &&& self.awaiting ==> {
            let c = self.candidates@[self.next as int];
            &&& self.next < self.candidates@.len()
            &&& !self.matched_new@[c.new_idx as int]
            &&& !self.matched_missing@[c.missing_idx as int]
        }
        &&& self.today.is_valid()
    }
}

/// The task of a line known to hold one.
fn parse_known(line: &str) -> (t: Task)
    requires
        task_of_line(line@) is Some,
    ensures
        task_of_line(line@) == Some(t@),
{
    match parse_task(line) {
        Some(t) => t,
        None => {
            proof {
                assert(false);
            }
            Task {
                description: String::new(),
                priority: None,
                completion_date: None,
                creation_date: None,
                project_tags: Vec::new(),
                context_tags: Vec::new(),
                key_value_tags: Vec::new(),
            }
        },
    }
}

pub proof fn lemma_date_text_has_no_newline(d: Date)
    requires
        d.is_valid(),
    ensures
        !date_text(d).contains('\n'),
        date_text(d).len() == 10,
{
    let t = date_text(d);
    assert(t.len() == 10);
    assert forall|k: int| 0 <= k < t.len() implies t[k] != '\n' by {
        assert(t[k] == '-' || ('0' <= t[k] && t[k] <= '9'));
    }
}

/// A dated completion of a line that holds a task still holds a task.
pub proof fn lemma_dated_parses(line: Seq<char>, t: TaskView, today: Date)
    requires
        task_of_line(line) == Some(t),
        is_done_line(line),
        today.is_valid(),
    ensures
        task_of_line(dated_completion(line, t, today)) is Some,
{
    let r = dated_completion(line, t, today);
    let k: int = if t.priority is Some { 6 } else { 2 };
    assert(line.take(2) =~= seq!['x', ' ']);
    lemma_date_text_has_no_newline(today);
    assert(r[0] == 'x');
    lemma_not_blank(r);
    assert forall|i: int| 0 <= i < r.len() implies r[i] != '\n' by {
        if i < k {
            assert(r[i] == line[i]);
        } else if i < k + 10 {
            assert(r[i] == date_text(today)[i - k]);
        } else if i == k + 10 {
        } else {
            assert(r[i] == line[i - 11]);
        }
    }
}

/// A done line with today's date written after its completion mark and priority.
fn dated_line(line: &String, t: &Task, today: Date) -> (r: String)
    requires
        task_of_line(line@) == Some(t@),
        is_done_line(line@),
        today.is_valid(),
    ensures
        r@ == dated_completion(line@, t@, today),
        task_of_line(r@) is Some,
{
    let n = line.as_str().unicode_len();
    let k: usize = if t.priority.is_some() { 6 } else { 2 };
    proof {
        assert(line@.take(2) =~= seq!['x', ' ']);
    }
    let mut r = substring(line.as_str(), 0, k);
    let date = format_date(today);
    r.append(date.as_str());
    r.append(" ");
    let rest = substring(line.as_str(), k, n);
    r.append(rest.as_str());
    proof {
        reveal_strlit(" ");
        assert(line@.subrange(0, k as int) =~= line@.take(k as int));
        assert(line@.subrange(k as int, n as int) =~= line@.skip(k as int));
        assert(r@ =~= dated_completion(line@, t@, today));
        lemma_dated_parses(line@, t@, today);
    }
    r
}

impl SyncSession {
    /// Starts a sync of the lines of the todo file with the cached lines:
    /// finds the new lines and the vanished ones and the possible matches
    /// between them, best first. `today` is the date written into newly
    /// completed lines when `auto_date` asks for it.
    pub fn new(cache: &Vec<String>, file_lines: &Vec<String>, auto_date: bool, today: Date) -> (r:
        SyncSession)
        requires
            today.is_valid(),
        ensures
            r.wf(),
            r.model() == initial_model(
                string_views(cache@),
                string_views(file_lines@),
                auto_date,
                today,
            ),
    {
        let todo = nonblank(file_lines);
        let new_lines = fresh(cache, &todo);
        let missing = vanished(cache, &todo);
        let parsed_new = parse_all(&new_lines);
        let parsed_missing = parse_all(&missing);
        let gathered = gather_candidates(&new_lines, &missing, &parsed_new, &parsed_missing);
        let ghost nl = string_views(new_lines@);
        let ghost ml = string_views(missing@);
        let new_count = new_lines.len();
        let missing_count = missing.len();
        proof {
            lemma_candidates_upto_bounds(nl, ml, nl.len() as int);
            lemma_sort_keeps(gathered@);
        }
        let ghost g = gathered@;
        let candidates = sort_candidates(gathered);
        proof {
            assert forall|k: int| 0 <= k < candidates@.len() implies {
                &&& (#[trigger] candidates@[k]).new_idx < nl.len()
                &&& candidates@[k].missing_idx < ml.len()
                &&& task_of_line(nl[candidates@[k].new_idx as int]) is Some
            } by {
                assert(sort_by_score(g).contains(candidates@[k]));
                let q = choose|q: int| 0 <= q < g.len() && g[q] == candidates@[k];
                assert(candidates_in_bounds(g, nl, ml));
                assert(g[q] == candidates@[k]);
            }
        }
        let mut matched_new: Vec<bool> = Vec::new();
        let mut final_new: Vec<String> = Vec::new();
        let mut i: usize = 0;
        while i < new_count
            invariant
                new_count == new_lines@.len(),
                i <= new_count,
                matched_new@ == Seq::new(i as nat, |k: int| false),
                final_new@.len() == i,
                forall|k: int| 0 <= k < i ==> (#[trigger] final_new@[k])@ == new_lines@[k]@,
            decreases new_count - i,
        {
            matched_new.push(false);
            let line = new_lines[i].clone();
            final_new.push(line);
            proof {
                assert(matched_new@ =~= Seq::new((i + 1) as nat, |k: int| false));
            }
            i = i + 1;
        }
        proof {
            assert(string_views(final_new@) =~= string_views(new_lines@));
        }
        let mut matched_missing: Vec<bool> = Vec::new();
        let mut j: usize = 0;
        while j < missing.len()
            invariant
                j <= missing@.len(),
                matched_missing@ == Seq::new(j as nat, |k: int| false),
            decreases missing@.len() - j,
        {
            matched_missing.push(false);
            proof {
                assert(matched_missing@ =~= Seq::new((j + 1) as nat, |k: int| false));
            }
            j = j + 1;
        }
        let r = SyncSession {
            new_lines,
            missing,
            parsed_new,
            parsed_missing,
            candidates,
            next: 0,
            matched_new,
            matched_missing,
            final_new,
            actions: Vec::new(),
            rewrites: Vec::new(),
            awaiting: false,
            auto_date,
            today,
        };
        proof {
            assert(action_views(r.actions@) =~= Seq::<ActionView>::empty());
            assert(rewrite_views(r.rewrites@) =~= Seq::<(Seq<char>, Seq<char>)>::empty());
        }
        r
    }
}

/// Every candidate pairs an existing new line that parses with an existing vanished line.
pub open spec fn candidates_in_bounds(c: Seq<Candidate>, nl: Seq<Seq<char>>, ml: Seq<Seq<char>>) -> bool {
    forall|k: int|
        0 <= k < c.len() ==> {
            &&& (#[trigger] c[k]).new_idx < nl.len()
            &&& c[k].missing_idx < ml.len()
            &&& task_of_line(nl[c[k].new_idx as int]) is Some
        }
}

proof fn lemma_row_candidates_bounds(nl: Seq<Seq<char>>, ml: Seq<Seq<char>>, i: int, j: int)
    requires
        nl.len() <= usize::MAX,
        ml.len() <= usize::MAX,
        0 <= i < nl.len(),
        j <= ml.len(),
    ensures
        candidates_in_bounds(row_candidates(nl, ml, i, j), nl, ml),
    decreases j,
{
    if j > 0 {
        lemma_row_candidates_bounds(nl, ml, i, j - 1);
        let r = row_candidates(nl, ml, i, j - 1);
        let rr = row_candidates(nl, ml, i, j);
        assert forall|k: int| 0 <= k < rr.len() implies {
            &&& (#[trigger] rr[k]).new_idx < nl.len()
            &&& rr[k].missing_idx < ml.len()
            &&& task_of_line(nl[rr[k].new_idx as int]) is Some
        } by {
            if k < r.len() {
                assert(rr[k] == r[k]);
            }
        }
    }
}

pub proof fn lemma_candidates_upto_bounds(nl: Seq<Seq<char>>, ml: Seq<Seq<char>>, i: int)
    requires
        nl.len() <= usize::MAX,
        ml.len() <= usize::MAX,
        i <= nl.len(),
    ensures
        candidates_in_bounds(candidates_upto(nl, ml, i), nl, ml),
    decreases i,
{
    if i > 0 {
        lemma_candidates_upto_bounds(nl, ml, i - 1);
        lemma_row_candidates_bounds(nl, ml, i - 1, ml.len() as int);
        let a = candidates_upto(nl, ml, i - 1);
        let b = row_candidates(nl, ml, i - 1, ml.len() as int);
        assert forall|k: int| 0 <= k < (a + b).len() implies #[trigger] (a + b)[k] == if k < a.len() {
            a[k]
        } else {
            b[k - a.len()]
        } by {}
    }
}

proof fn lemma_insert_keeps(s: Seq<Candidate>, c: Candidate)
    ensures
        forall|x: Candidate| #[trigger] insert_by_score(s, c).contains(x) <==> (s.contains(x) || x == c),
        insert_by_score(s, c).len() == s.len() + 1,
    decreases s.len(),
{
    if s.len() > 0 && s.last().score < c.score {
        lemma_insert_keeps(s.drop_last(), c);
        assert forall|x: Candidate| #[trigger] insert_by_score(s, c).contains(x) <==> (s.contains(x) || x == c) by {
            let r = insert_by_score(s.drop_last(), c);
            if insert_by_score(s, c).contains(x) {
                let k = choose|k: int| 0 <= k < insert_by_score(s, c).len() && insert_by_score(s, c)[k] == x;
                if k < r.len() {
                    assert(r.contains(x));
                    if s.drop_last().contains(x) {
                        let q = choose|q: int| 0 <= q < s.drop_last().len() && s.drop_last()[q] == x;
                        assert(s[q] == x);
                    }
                }
            }
            if s.contains(x) {
                let q = choose|q: int| 0 <= q < s.len() && s[q] == x;
                if q < s.len() - 1 {
                    assert(s.drop_last()[q] == x);
                    assert(r.contains(x));
                    let k = choose|k: int| 0 <= k < r.len() && r[k] == x;
                    assert(insert_by_score(s, c)[k] == x);
                } else {
                    assert(insert_by_score(s, c)[r.len() as int] == x);
                }
            }
            if x == c {
                assert(r.contains(x));
                let k = choose|k: int| 0 <= k < r.len() && r[k] == x;
                assert(insert_by_score(s, c)[k] == x);
            }
        }
    } else if s.len() > 0 {
        assert forall|x: Candidate| #[trigger] insert_by_score(s, c).contains(x) <==> (s.contains(x) || x == c) by {
            if s.contains(x) {
                let q = choose|q: int| 0 <= q < s.len() && s[q] == x;
                assert(s.push(c)[q] == x);
            }
            if x == c {
                assert(s.push(c)[s.len() as int] == x);
            }
            if s.push(c).contains(x) {
                let k = choose|k: int| 0 <= k < s.push(c).len() && s.push(c)[k] == x;
                if k < s.len() {
                    assert(s[k] == x);
                }
            }
        }
    } else {
        assert forall|x: Candidate| #[trigger] insert_by_score(s, c).contains(x) <==> (s.contains(x) || x == c) by {
            if seq![c].contains(x) {
                let k = choose|k: int| 0 <= k < 1 && seq![c][k] == x;
            }
            if x == c {
                assert(seq![c][0] == x);
            }
        }
    }
}

pub proof fn lemma_sort_keeps(s: Seq<Candidate>)
    ensures
        forall|x: Candidate| #[trigger] sort_by_score(s).contains(x) <==> s.contains(x),
        sort_by_score(s).len() == s.len(),
    decreases s.len(),
{
    if s.len() > 0 {
        lemma_sort_keeps(s.drop_last());
        lemma_insert_keeps(sort_by_score(s.drop_last()), s.last());
        assert forall|x: Candidate| #[trigger] sort_by_score(s).contains(x) <==> s.contains(x) by {
            if s.contains(x) {
                let q = choose|q: int| 0 <= q < s.len() && s[q] == x;
                if q < s.len() - 1 {
                    assert(s.drop_last()[q] == x);
                    assert(s.drop_last().contains(x));
                }
            }
            if s.drop_last().contains(x) {
                let q = choose|q: int| 0 <= q < s.drop_last().len() && s.drop_last()[q] == x;
                assert(s[q] == x);
            }
        }
    }
}

/// Whether a line marks its task as done (begins with `x `).
fn done_line(s: &String) -> (r: bool)
    ensures
        r == is_done_line(s@),
{
    let n = s.as_str().unicode_len();
    let r = n >= 2 && s.as_str().get_char(0) == 'x' && s.as_str().get_char(1) == ' ';
    proof {
        if r {
            assert(s@.take(2) =~= seq!['x', ' ']);
        }
        if is_done_line(s@) {
            assert(s@.take(2)[0] == s@[0] && s@.take(2)[1] == s@[1]);
        }
    }
    r
}

fn same_date(a: Option<Date>, b: Option<Date>) -> (r: bool)
    ensures
        r == (a == b),
{
    match (a, b) {
        (Some(x), Some(y)) => x == y,
        (None, None) => true,
        _ => false,
    }
}

/// The view of an optional task.
pub open spec fn task_view_of(t: Option<Task>) -> Option<TaskView> {
    match t {
        Some(x) => Some(x@),
        None => None,
    }
}

fn needs_date(new_task: &Task, old_task: &Option<Task>) -> (r: bool)
    ensures
        r == needs_completion_date(new_task@, task_view_of(*old_task)),
{
    match old_task {
        Some(ot) => if ot.creation_date.is_some() {
            same_date(new_task.completion_date, ot.creation_date) && new_task.creation_date.is_none()
        } else {
            new_task.completion_date.is_none()
        },
        None => new_task.completion_date.is_none(),
    }
}

impl SyncSession {
    /// Considers candidate `next`.
    fn consider_next(&mut self)
        requires
            old(self).wf(),
            !old(self).model().awaiting,
            0 <= old(self).model().next < old(self).model().candidates.len(),
        ensures
            final(self).wf(),
            final(self).model() == consider(old(self).model()),
    {
        let ghost m = self.model();
        let count = self.candidates.len();
        assert(self.next < count);
        let c = self.candidates[self.next];
        let i = c.new_idx;
        let j = c.missing_idx;
        assert(self.wf());
        assert(c == self.candidates@[self.next as int]);
        if self.matched_new[i] || self.matched_missing[j] {
            self.next = self.next + 1;
            return;
        }
        assert(string_views(self.new_lines@)[i as int] == self.new_lines@[i as int]@);
        assert(string_views(self.missing@)[j as int] == self.missing@[j as int]@);
        let old_done = done_line(&self.missing[j]);
        let new_done = done_line(&self.new_lines[i]);
        if old_done && !new_done {
            let task = parse_known(self.new_lines[i].as_str());
            let action = TaskAction::Reopened {
                old_raw: self.missing[j].clone(),
                new_raw: self.new_lines[i].clone(),
                new_task: task,
            };
            self.actions.push(action);
            self.matched_new.set(i, true);
            self.matched_missing.set(j, true);
            self.next = self.next + 1;
            proof {
                assert(action_views(self.actions@) =~= m.actions.push(self.actions@.last()@));
                assert(self.model() =~= consider(m));
            }
        } else if !old_done && new_done {
            let task = parse_known(self.new_lines[i].as_str());
            proof {
                assert(task_view_of(self.parsed_missing@[j as int]) == task_of_line(m.missing[j as int]));
            }
            if self.auto_date && needs_date(&task, &self.parsed_missing[j]) {
                let dated = dated_line(&self.new_lines[i], &task, self.today);
                let dated_task = parse_known(dated.as_str());
                self.rewrites.push((self.new_lines[i].clone(), dated.clone()));
                self.final_new.set(i, dated.clone());
                let action = TaskAction::Completed {
                    old_raw: self.missing[j].clone(),
                    new_raw: dated,
                    new_task: dated_task,
                };
                self.actions.push(action);
                self.matched_new.set(i, true);
                self.matched_missing.set(j, true);
                self.next = self.next + 1;
                proof {
                    assert(action_views(self.actions@) =~= m.actions.push(self.actions@.last()@));
                    assert(rewrite_views(self.rewrites@) =~= m.rewrites.push(
                        (m.new_lines[i as int], dated_completion(m.new_lines[i as int], task@, m.today)),
                    ));
                    assert(string_views(self.final_new@) =~= m.final_new.update(
                        i as int,
                        dated_completion(m.new_lines[i as int], task@, m.today),
                    ));
                    assert(self.model() =~= consider(m));
                }
            } else {
                let action = TaskAction::Completed {
                    old_raw: self.missing[j].clone(),
                    new_raw: self.new_lines[i].clone(),
                    new_task: task,
                };
                self.actions.push(action);
                self.matched_new.set(i, true);
                self.matched_missing.set(j, true);
                self.next = self.next + 1;
                proof {
                    assert(action_views(self.actions@) =~= m.actions.push(self.actions@.last()@));
                    assert(self.model() =~= consider(m));
                }
            }
        } else {
            self.awaiting = true;
        }
    }
}

impl SyncSession {
    /// Considers the remaining candidates until one may be a typo correction:
    /// hands back its vanished (old) line and new line for the user to judge,
    /// or `None` when every candidate has been considered.
    pub fn next_question(&mut self) -> (r: Option<(String, String)>)
        requires
            old(self).wf(),
        ensures
            final(self).wf(),
            final(self).model() == advance(old(self).model()),
            match r {
                Some(q) => {
                    let m = final(self).model();
                    let c = m.candidates[m.next];
                    &&& m.awaiting
                    &&& q.0@ == m.missing[c.missing_idx as int]
                    &&& q.1@ == m.new_lines[c.new_idx as int]
                },
                None => !final(self).model().awaiting && final(self).model().next
                    == final(self).model().candidates.len(),
            },
    {
        let ghost start = self.model();
        while !self.awaiting && self.next < self.candidates.len()
            invariant
                self.wf(),
                advance(self.model()) == advance(start),
            decreases self.candidates@.len() - self.next, if self.awaiting { 0int } else { 1int },
        {
            let ghost before = self.model();
            self.consider_next();
            proof {
                let after = self.model();
                assert(after.awaiting || after.next == before.next + 1);
                if after.awaiting {
                    assert(advance(after) == after);
                }
            }
        }
        if self.awaiting {
            let c = self.candidates[self.next];
            assert(string_views(self.new_lines@)[c.new_idx as int] == self.new_lines@[c.new_idx as int]@);
            assert(string_views(self.missing@)[c.missing_idx as int] == self.missing@[c.missing_idx as int]@);
            Some((self.missing[c.missing_idx].clone(), self.new_lines[c.new_idx].clone()))
        } else {
            None
        }
    }

    /// Records the user's judgement of the match awaiting it: a typo
    /// correction makes the new line replace the old one; otherwise the new
    /// line is a new task. Without a match awaiting, nothing changes.
    pub fn answer(&mut self, is_typo: bool)
        requires
            old(self).wf(),
        ensures
            final(self).wf(),
            final(self).model() == answered(old(self).model(), is_typo),
    {
        if !self.awaiting {
            return;
        }
        let ghost m = self.model();
        let count = self.candidates.len();
        assert(self.next < count);
        let c = self.candidates[self.next];
        let i = c.new_idx;
        let j = c.missing_idx;
        assert(string_views(self.new_lines@)[i as int] == self.new_lines@[i as int]@);
        assert(string_views(self.missing@)[j as int] == self.missing@[j as int]@);
        let task = parse_known(self.new_lines[i].as_str());
        if is_typo {
            let action = TaskAction::Modified {
                old_raw: self.missing[j].clone(),
                new_raw: self.new_lines[i].clone(),
                new_task: task,
            };
            self.actions.push(action);
            self.matched_missing.set(j, true);
        } else {
            let action = TaskAction::Added { raw_line: self.new_lines[i].clone(), task };
            self.actions.push(action);
        }
        self.matched_new.set(i, true);
        self.awaiting = false;
        self.next = self.next + 1;
        proof {
            assert(action_views(self.actions@) =~= m.actions.push(self.actions@.last()@));
            assert(self.model() =~= answered(m, is_typo));
        }
    }

    /// Ends the sync: the actions decided so far followed by an added task for
    /// every new line that no match took, the new lines to cache (those that
    /// parse, as they will stand in the file), the vanished lines to drop from
    /// the cache, and the file lines to rewrite. A session finishes once every
    /// match has been considered (`next_question` gave `None`).
    pub fn finish(self) -> (r: SyncState)
        requires
            self.wf(),
            !self.model().awaiting,
            self.model().next == self.model().candidates.len(),
        ensures
            action_views(r.actions@) == self.model().actions + unmatched_added(
                self.model(),
                self.model().new_lines.len() as int,
            ),
            string_views(r.cache_inserts@) == lines_to_cache(
                self.model(),
                self.model().new_lines.len() as int,
            ),
            string_views(r.cache_deletes@) == self.model().missing,
            rewrite_views(r.file_rewrites@) == self.model().rewrites,
    {
        let ghost m = self.model();
        let SyncSession { new_lines, missing, parsed_new, matched_new, final_new, actions, rewrites, .. } =
            self;
        let mut actions = actions;
        let mut inserts: Vec<String> = Vec::new();
        let mut i: usize = 0;
        while i < new_lines.len()
            invariant
                i <= new_lines@.len(),
                m.new_lines == string_views(new_lines@),
                m.final_new == string_views(final_new@),
                m.matched_new == matched_new@,
                matched_new@.len() == new_lines@.len(),
                final_new@.len() == new_lines@.len(),
                parsed_as(m.new_lines, parsed_new@),
                action_views(actions@) == m.actions + unmatched_added(m, i as int),
                string_views(inserts@) == lines_to_cache(m, i as int),
            decreases new_lines@.len() - i,
        {
            assert(m.new_lines[i as int] == new_lines@[i as int]@);
            assert(m.final_new[i as int] == final_new@[i as int]@);
            if parsed_new[i].is_some() {
                inserts.push(final_new[i].clone());
                proof {
                    assert(string_views(inserts@) =~= lines_to_cache(m, i + 1));
                }
                if !matched_new[i] {
                    let task = parse_known(new_lines[i].as_str());
                    let action = TaskAction::Added { raw_line: final_new[i].clone(), task };
                    let ghost before = action_views(actions@);
                    actions.push(action);
                    proof {
                        assert(action_views(actions@) =~= before.push(actions@.last()@));
                        assert(m.actions + unmatched_added(m, i + 1) =~= before.push(actions@.last()@));
                    }
                }
            }
            i = i + 1;
        }
        SyncState { actions, cache_inserts: inserts, cache_deletes: missing, file_rewrites: rewrites }
    }
}

} // verus!
