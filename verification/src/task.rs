use vstd::prelude::*;
use crate::date::{
    date_of_text, digit_value, digits_value, is_date_shaped, is_digit, parse_date, Date,
};
use crate::json::{json_array, json_array_text, json_object, json_object_text, pair_views};
use crate::sections::string_views;
use crate::text::{
    chars_of, contains_char, find_char_in, find_word_end, index_of_char, lemma_skip_ws_bounds,
    lemma_word_end_bounds, skip_whitespace, starts_with, substring, trim, trim_range,
    words_from,
};

verus! {

/// Represents a parsed todo.txt task
#[derive(Debug)]
pub struct Task {
    pub description: String,
    pub priority: Option<char>,
    pub completion_date: Option<Date>,
    pub creation_date: Option<Date>,
    pub project_tags: Vec<String>,
    pub context_tags: Vec<String>,
    /// The `key:value` tags in the order their keys first appeared; a later
    /// pair with the same key stands for the value that the key has.
    pub key_value_tags: Vec<(String, String)>,
}

/// The mathematical content of a task.
pub struct TaskView {
    pub description: Seq<char>,
    pub priority: Option<char>,
    pub completion_date: Option<Date>,
    pub creation_date: Option<Date>,
    pub project_tags: Seq<Seq<char>>,
    pub context_tags: Seq<Seq<char>>,
    pub key_value_tags: Seq<(Seq<char>, Seq<char>)>,
}

impl View for Task {
    type V = TaskView;

    open spec fn view(&self) -> TaskView {
        TaskView {
            description: self.description@,
            priority: self.priority,
            completion_date: self.completion_date,
            creation_date: self.creation_date,
            project_tags: string_views(self.project_tags@),
            context_tags: string_views(self.context_tags@),
            key_value_tags: pair_views(self.key_value_tags@),
        }
    }
}

/// The value of `key` in the pairs `m`: that of its last pair.
pub open spec fn pair_lookup(m: Seq<(Seq<char>, Seq<char>)>, key: Seq<char>) -> Option<Seq<char>>
    decreases m.len(),
{
    if m.len() == 0 {
        None
    } else if m.last().0 == key {
        Some(m.last().1)
    } else {
        pair_lookup(m.drop_last(), key)
    }
}

/// The pairs `m` with `key` given `value`: the pair of `key` replaced in place,
/// or a new pair at the end (what `HashMap::insert` does to the map they stand for).
pub open spec fn pair_insert(m: Seq<(Seq<char>, Seq<char>)>, key: Seq<char>, value: Seq<char>) -> Seq<
    (Seq<char>, Seq<char>),
> {
    let i = key_position(m, key);
    if i < m.len() {
        m.update(i, (key, value))
    } else {
        m.push((key, value))
    }
}

/// The position of the first pair with `key`, or `m.len()`.
pub open spec fn key_position(m: Seq<(Seq<char>, Seq<char>)>, key: Seq<char>) -> int
    decreases m.len(),
{
    if m.len() == 0 {
        0
    } else if m[0].0 == key {
        0
    } else {
        1 + key_position(m.drop_first(), key)
    }
}

/// A `+project` word.
pub open spec fn is_project_word(w: Seq<char>) -> bool {
    w.len() > 1 && w[0] == '+'
}

/// A `@context` word.
pub open spec fn is_context_word(w: Seq<char>) -> bool {
    w.len() > 1 && w[0] == '@'
}

/// A `key:value` word: split at its first colon, with both sides non-empty.
pub open spec fn is_key_value_word(w: Seq<char>) -> bool {
    let c = index_of_char(w, ':');
    0 < c && c < w.len() - 1
}

/// The project tags among the words `ws`, in order.
pub open spec fn project_tags_of(ws: Seq<Seq<char>>) -> Seq<Seq<char>>
    decreases ws.len(),
{
    if ws.len() == 0 {
        seq![]
    } else if is_project_word(ws.last()) {
        project_tags_of(ws.drop_last()).push(ws.last().skip(1))
    } else {
        project_tags_of(ws.drop_last())
    }
}

/// The context tags among the words `ws`, in order.
pub open spec fn context_tags_of(ws: Seq<Seq<char>>) -> Seq<Seq<char>>
    decreases ws.len(),
{
    if ws.len() == 0 {
        seq![]
    } else if !is_project_word(ws.last()) && is_context_word(ws.last()) {
        context_tags_of(ws.drop_last()).push(ws.last().skip(1))
    } else {
        context_tags_of(ws.drop_last())
    }
}

/// The key/value tags among the words `ws`, each inserted in turn.
pub open spec fn key_value_tags_of(ws: Seq<Seq<char>>) -> Seq<(Seq<char>, Seq<char>)>
    decreases ws.len(),
{
    if ws.len() == 0 {
        seq![]
    } else {
        let m = key_value_tags_of(ws.drop_last());
        let w = ws.last();
        if !is_project_word(w) && !is_context_word(w) && is_key_value_word(w) {
            let c = index_of_char(w, ':');
            pair_insert(m, w.take(c), w.skip(c + 1))
        } else {
            m
        }
    }
}

/// Whether `s` holds a `(X) ` priority marker at `i`, with `X` an ASCII capital.
pub open spec fn has_priority_at(s: Seq<char>, i: int) -> bool {
    0 <= i && i + 4 <= s.len() && s[i] == '(' && 'A' <= s[i + 1] && s[i + 1] <= 'Z' && s[i + 2]
        == ')' && s[i + 3] == ' '
}

/// Whether `s` holds a `DDDD-DD-DD ` date at `i`.
pub open spec fn has_date_at(s: Seq<char>, i: int) -> bool {
    0 <= i && i + 11 <= s.len() && is_date_shaped(s.subrange(i, i + 10)) && s[i + 10] == ' '
}

/// Where the optional prefixes of a todo.txt line end: after `x `, the
/// priority and up to two dates, each taken when present.
pub open spec fn prefix_ends(s: Seq<char>) -> (int, int, int, int) {
    let p1 = if starts_with(s, seq!['x', ' ']) { 2int } else { 0int };
    let p2 = if has_priority_at(s, p1) { p1 + 4 } else { p1 };
    let p3 = if has_date_at(s, p2) { p2 + 11 } else { p2 };
    let p4 = if has_date_at(s, p2) && has_date_at(s, p3) { p3 + 11 } else { p3 };
    (p1, p2, p3, p4)
}

/// The task that a todo.txt line stands for: none for a blank line or a text
/// spanning several lines; otherwise the optional `x ` completion mark, `(X) `
/// priority and dates, then a description whose `+project`, `@context` and
/// `key:value` words are its tags. A completed task's first date is its
/// completion date and its second the creation date (the second counts only
/// when the first is a valid day); an open task's first date is its creation
/// date.
pub open spec fn task_of_line(s: Seq<char>) -> Option<TaskView> {
    if trim(s).len() == 0 || s.contains('\n') {
        None
    } else {
        let (p1, p2, p3, p4) = prefix_ends(s);
        let done = starts_with(s, seq!['x', ' ']);
        let date1 = if has_date_at(s, p2) { date_of_text(s.subrange(p2, p2 + 10)) } else { None };
        let date2 = if has_date_at(s, p2) && has_date_at(s, p3) {
            date_of_text(s.subrange(p3, p3 + 10))
        } else {
            None
        };
        let words = words_from(s, p4);
        Some(
            TaskView {
                description: s.skip(p4),
                priority: if has_priority_at(s, p1) { Some(s[p1 + 1]) } else { None },
                completion_date: if done { date1 } else { None },
                creation_date: if done {
                    if date1 is Some { date2 } else { None }
                } else {
                    date1
                },
                project_tags: project_tags_of(words),
                context_tags: context_tags_of(words),
                key_value_tags: key_value_tags_of(words),
            },
        )
    }
}

fn priority_at(v: &Vec<char>, i: usize) -> (r: bool)
    requires
        i <= v@.len(),
    ensures
        r == has_priority_at(v@, i as int),
{
    v.len() - i >= 4 && v[i] == '(' && 'A' <= v[i + 1] && v[i + 1] <= 'Z' && v[i + 2] == ')' && v[i
        + 3] == ' '
}

fn date_at(v: &Vec<char>, i: usize) -> (r: bool)
    requires
        i <= v@.len(),
    ensures
        r == has_date_at(v@, i as int),
{
    if v.len() - i < 11 {
        return false;
    }
    let d = |c: char| -> (b: bool)
        ensures
            b == is_digit(c),
        { '0' <= c && c <= '9' };
    let r = d(v[i]) && d(v[i + 1]) && d(v[i + 2]) && d(v[i + 3]) && v[i + 4] == '-' && d(v[i + 5])
        && d(v[i + 6]) && v[i + 7] == '-' && d(v[i + 8]) && d(v[i + 9]) && v[i + 10] == ' ';
    proof {
        let w = v@.subrange(i as int, i + 10);
        assert(r == (is_date_shaped(w) && v@[i + 10] == ' '));
    }
    r
}

/// The date written at `i` of `line`, if it names a day.
fn date_in(line: &str, i: usize, j: usize) -> (r: Option<Date>)
    requires
        j == i + 10,
        j <= line@.len(),
        is_date_shaped(line@.subrange(i as int, i + 10)),
    ensures
        r == date_of_text(line@.subrange(i as int, i + 10)),
{
    let text = substring(line, i, j);
    parse_date(text.as_str())
}

proof fn lemma_key_position(m: Seq<(Seq<char>, Seq<char>)>, key: Seq<char>)
    ensures
        0 <= key_position(m, key) <= m.len(),
        key_position(m, key) < m.len() ==> m[key_position(m, key)].0 == key,
        forall|j: int| 0 <= j < key_position(m, key) ==> m[j].0 != key,
    decreases m.len(),
{
    if m.len() > 0 && m[0].0 != key {
        lemma_key_position(m.drop_first(), key);
        assert forall|j: int| 0 <= j < key_position(m, key) implies m[j].0 != key by {
            if j > 0 {
                assert(m[j] == m.drop_first()[j - 1]);
            }
        }
    }
}

proof fn lemma_key_position_is(m: Seq<(Seq<char>, Seq<char>)>, key: Seq<char>, j: int)
    requires
        0 <= j <= m.len(),
        j < m.len() ==> m[j].0 == key,
        forall|i: int| 0 <= i < j ==> m[i].0 != key,
    ensures
        key_position(m, key) == j,
    decreases m.len(),
{
    if m.len() > 0 && m[0].0 != key {
        assert forall|i: int| 0 <= i < j - 1 implies m.drop_first()[i].0 != key by {
            assert(m.drop_first()[i] == m[i + 1]);
        }
        lemma_key_position_is(m.drop_first(), key, j - 1);
    }
}

/// Gives `key` the value `value` among the pairs `m`, as a map insertion does.
fn insert_pair(m: &mut Vec<(String, String)>, key: String, value: String)
    ensures
        pair_views(final(m)@) == pair_insert(pair_views(old(m)@), key@, value@),
{
    let ghost pv = pair_views(m@);
    let mut i: usize = 0;
    while i < m.len()
        invariant
            i <= m@.len(),
            pv == pair_views(m@),
            pv == pair_views(old(m)@),
            forall|j: int| 0 <= j < i ==> pv[j].0 != key@,
        decreases m@.len() - i,
    {
        if m[i].0 == key {
            proof {
                lemma_key_position_is(pv, key@, i as int);
            }
            m.set(i, (key, value));
            proof {
                assert(pair_views(m@) =~= pv.update(i as int, (key@, value@)));
            }
            return;
        }
        i = i + 1;
    }
    proof {
        lemma_key_position_is(pv, key@, m@.len() as int);
    }
    m.push((key, value));
    proof {
        assert(pair_views(m@) =~= pv.push((key@, value@)));
    }
}

/// Parses one todo.txt line into a task: `None` for a blank line or for a
/// text that holds a line feed.
pub fn parse_task(line: &str) -> (r: Option<Task>)
    ensures
        match r {
            Some(t) => task_of_line(line@) == Some(t@),
            None => task_of_line(line@) is None,
        },
{
    let v = chars_of(line);
    let n = v.len();
    let (ta, tb) = trim_range(&v, 0, n);
    proof {
        assert(v@.subrange(0, n as int) =~= v@);
    }
    if ta == tb || contains_char(&v, '\n') {
        return None;
    }
    let done = n >= 2 && v[0] == 'x' && v[1] == ' ';
    proof {
        if starts_with(v@, seq!['x', ' ']) {
            assert(v@.take(2)[0] == v@[0] && v@.take(2)[1] == v@[1]);
        }
        if done {
            assert(v@.take(2) =~= seq!['x', ' ']);
        }
    }
    let p1: usize = if done { 2 } else { 0 };
    let has_priority = priority_at(&v, p1);
    let p2: usize = if has_priority { p1 + 4 } else { p1 };
    let has_date1 = date_at(&v, p2);
    let p3: usize = if has_date1 { p2 + 11 } else { p2 };
    let has_date2 = has_date1 && date_at(&v, p3);
    let p4: usize = if has_date2 { p3 + 11 } else { p3 };
    let priority = if has_priority { Some(v[p1 + 1]) } else { None };
    let date1 = if has_date1 { date_in(line, p2, p2 + 10) } else { None };
    let date2 = if has_date2 { date_in(line, p3, p3 + 10) } else { None };
    let completion_date = if done { date1 } else { None };
    let creation_date = if done {
        if date1.is_some() { date2 } else { None }
    } else {
        date1
    };
    let description = substring(line, p4, n);

    let mut project_tags: Vec<String> = Vec::new();
    let mut context_tags: Vec<String> = Vec::new();
    let mut key_value_tags: Vec<(String, String)> = Vec::new();
    let ghost mut seen: Seq<Seq<char>> = seq![];
    let mut i: usize = p4;
    while i < n
        invariant
            n == v@.len(),
            v@ == line@,
            p4 <= i <= n,
            seen + words_from(v@, i as int) == words_from(v@, p4 as int),
            string_views(project_tags@) == project_tags_of(seen),
            string_views(context_tags@) == context_tags_of(seen),
            pair_views(key_value_tags@) == key_value_tags_of(seen),
        decreases n - i,
    {
        let j = skip_whitespace(&v, i);
        if j == n {
            proof {
                assert(words_from(v@, i as int) =~= Seq::<Seq<char>>::empty());
                assert(words_from(v@, n as int) =~= Seq::<Seq<char>>::empty());
            }
            i = n;
        } else {
            proof {
                lemma_skip_ws_bounds(v@, i as int);
                lemma_word_end_bounds(v@, j as int);
            }
            let k = find_word_end(&v, j);
            let ghost w = v@.subrange(j as int, k as int);
            proof {
                assert(words_from(v@, i as int) == seq![w] + words_from(v@, k as int));
            }
            if v[j] == '+' && k - j > 1 {
                project_tags.push(substring(line, j + 1, k));
                proof {
                    assert(w.skip(1) =~= v@.subrange(j + 1, k as int));
                }
            } else if v[j] == '@' && k - j > 1 {
                context_tags.push(substring(line, j + 1, k));
                proof {
                    assert(w.skip(1) =~= v@.subrange(j + 1, k as int));
                }
            } else {
                let c = find_char_in(&v, j, k, ':');
                if c > 0 && c < k - j - 1 {
                    let key = substring(line, j, j + c);
                    let value = substring(line, j + c + 1, k);
                    proof {
                        assert(key@ =~= w.take(c as int));
                        assert(value@ =~= w.skip(c + 1));
                    }
                    insert_pair(&mut key_value_tags, key, value);
                }
            }
            proof {
                let s2 = seen.push(w);
                assert(s2.drop_last() =~= seen);
                assert(s2.last() == w);
                assert(string_views(project_tags@) =~= project_tags_of(s2));
                assert(string_views(context_tags@) =~= context_tags_of(s2));
                assert(pair_views(key_value_tags@) =~= key_value_tags_of(s2));
                assert(s2 + words_from(v@, k as int) =~= seen + words_from(v@, i as int));
                seen = s2;
            }
            i = k;
        }
    }
    proof {
        if i == n {
            assert(words_from(v@, n as int) =~= Seq::<Seq<char>>::empty());
        }
        assert(seen + words_from(v@, i as int) =~= seen);
    }
    Some(
        Task {
            description,
            priority,
            completion_date,
            creation_date,
            project_tags,
            context_tags,
            key_value_tags,
        },
    )
}

impl Task {
    /// Serializes project tags to JSON for database storage, returns None if empty
    pub fn project_tags_json(&self) -> (r: Option<String>)
        ensures
            match r {
                None => self.project_tags@.len() == 0,
                Some(j) => self.project_tags@.len() > 0 && j@ == json_array_text(
                    string_views(self.project_tags@),
                ),
            },
    {
        if self.project_tags.len() == 0 {
            None
        } else {
            Some(json_array(&self.project_tags))
        }
    }

    /// Serializes context tags to JSON for database storage, returns None if empty
    pub fn context_tags_json(&self) -> (r: Option<String>)
        ensures
            match r {
                None => self.context_tags@.len() == 0,
                Some(j) => self.context_tags@.len() > 0 && j@ == json_array_text(
                    string_views(self.context_tags@),
                ),
            },
    {
        if self.context_tags.len() == 0 {
            None
        } else {
            Some(json_array(&self.context_tags))
        }
    }

    /// Serializes the key/value tags to a JSON object for database storage.
    pub fn key_value_tags_json(&self) -> (r: String)
        ensures
            r@ == json_object_text(pair_views(self.key_value_tags@)),
    {
        json_object(&self.key_value_tags)
    }

    /// The value of the key/value tag `key`, if the task has one.
    pub fn key_value_tag(&self, key: &str) -> (r: Option<String>)
        ensures
            match r {
                None => pair_lookup(pair_views(self.key_value_tags@), key@) is None,
                Some(v) => pair_lookup(pair_views(self.key_value_tags@), key@) == Some(v@),
            },
    {
        let ghost pv = pair_views(self.key_value_tags@);
        let wanted = key.to_owned();
        let mut i: usize = self.key_value_tags.len();
        proof {
            assert(pv.take(i as int) =~= pv);
        }
        while i > 0
            invariant
                i <= self.key_value_tags@.len(),
                pv == pair_views(self.key_value_tags@),
                wanted@ == key@,
                pair_lookup(pv, key@) == pair_lookup(pv.take(i as int), key@),
            decreases i,
        {
            let ghost t = pv.take(i as int);
            proof {
                assert(t.drop_last() =~= pv.take(i - 1));
            }
            assert(t.last() == pv[i - 1]);
            if self.key_value_tags[i - 1].0 == wanted {
                return Some(self.key_value_tags[i - 1].1.clone());
            }
            i = i - 1;
        }
        None
    }
}

/// A line stands for a task exactly when it holds a character other than
/// whitespace and no line feed.
pub proof fn law_task_iff_not_blank(line: Seq<char>)
    ensures
        task_of_line(line) is Some <==> (trim(line).len() > 0 && !line.contains('\n')),
{
}

/// Only a line marked done (`x ` first) gives a task a completion date.
pub proof fn law_completion_date_needs_done_mark(line: Seq<char>)
    ensures
        task_of_line(line) matches Some(t) && t.completion_date is Some ==> starts_with(
            line,
            seq!['x', ' '],
        ),
{
}

proof fn lemma_four_digits(s: Seq<char>, lo: int)
    requires
        0 <= lo,
        lo + 4 <= s.len(),
        is_digit(s[lo]) && is_digit(s[lo + 1]) && is_digit(s[lo + 2]) && is_digit(s[lo + 3]),
    ensures
        0 <= digits_value(s, lo, lo + 4) <= 9999,
{
    assert(digits_value(s, lo, lo) == 0);
    assert(digits_value(s, lo, lo + 1) == digit_value(s[lo]));
    assert(digits_value(s, lo, lo + 2) == digits_value(s, lo, lo + 1) * 10 + digit_value(s[lo + 1]));
    assert(digits_value(s, lo, lo + 3) == digits_value(s, lo, lo + 2) * 10 + digit_value(s[lo + 2]));
    assert(digits_value(s, lo, lo + 4) == digits_value(s, lo, lo + 3) * 10 + digit_value(s[lo + 3]));
}

/// The day a date-shaped text names has a four-digit year.
pub proof fn law_text_dates_are_valid(s: Seq<char>)
    requires
        is_date_shaped(s),
    ensures
        date_of_text(s) matches Some(d) ==> d.is_valid(),
{
    lemma_four_digits(s, 0);
}

/// Every date of a parsed task is a day with a four-digit year.
pub proof fn law_task_dates_are_valid(line: Seq<char>)
    ensures
        task_of_line(line) matches Some(t) ==> {
            &&& (t.completion_date matches Some(d) ==> d.is_valid())
            &&& (t.creation_date matches Some(d) ==> d.is_valid())
        },
{
    if task_of_line(line) is Some {
        let (p1, p2, p3, p4) = prefix_ends(line);
        if has_date_at(line, p2) {
            law_text_dates_are_valid(line.subrange(p2, p2 + 10));
        }
        if has_date_at(line, p2) && has_date_at(line, p3) {
            law_text_dates_are_valid(line.subrange(p3, p3 + 10));
        }
    }
}

/// An open task's first date is its creation date, whether or not a priority
/// comes before it: in a line not marked done, a `DDDD-DD-DD ` date at the
/// start, or right after a leading `(X) ` priority, gives the task that
/// creation date (when it names a day) and no completion date, and the
/// priority is the letter of the marker, if any.
pub proof fn law_open_task_first_date_is_creation(s: Seq<char>, i: int)
    requires
        !s.contains('\n'),
        !starts_with(s, seq!['x', ' ']),
        i == 0 || (i == 4 && has_priority_at(s, 0)),
        has_date_at(s, i),
    ensures
        task_of_line(s) matches Some(t) && {
            &&& t.creation_date == date_of_text(s.subrange(i, i + 10))
            &&& t.completion_date is None
            &&& t.priority == if i == 4 { Some(s[1]) } else { None::<char> }
        },
{
    let d = s.subrange(i, i + 10);
    assert(d[0] == s[i]);
    crate::text::lemma_not_blank(s);
    if i == 0 {
        assert(!has_priority_at(s, 0));
    }
}

/// A done task's first date is its completion date and its second date (read
/// only when the first names a day) its creation date, whether or not a
/// priority comes between the `x ` mark and the dates.
pub proof fn law_done_task_dates(s: Seq<char>, i: int)
    requires
        !s.contains('\n'),
        starts_with(s, seq!['x', ' ']),
        i == 2 || (i == 6 && has_priority_at(s, 2)),
        has_date_at(s, i),
    ensures
        task_of_line(s) matches Some(t) && {
            &&& t.completion_date == date_of_text(s.subrange(i, i + 10))
            &&& t.creation_date == if date_of_text(s.subrange(i, i + 10)) is Some && has_date_at(
                s,
                i + 11,
            ) {
                date_of_text(s.subrange(i + 11, i + 21))
            } else {
                None
            }
            &&& t.priority == if i == 6 { Some(s[3]) } else { None::<char> }
        },
{
    let d = s.subrange(i, i + 10);
    assert(d[0] == s[i]);
    assert(s.take(2)[0] == s[0]);
    crate::text::lemma_not_blank(s);
    if i == 2 {
        assert(!has_priority_at(s, 2));
    }
}

} // verus!
