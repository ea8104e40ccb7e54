use vstd::prelude::*;
use crate::sections::string_views;
use crate::sync::{is_done_line, rewrite_views};
use crate::text::{
    chars_of, lemma_lines_of_text, lines, no_line_feeds, text_of_lines, trim, trim_range,
};
use vstd::string::StrSliceExecFns;

verus! {

/// `lines` joined by line feeds.
pub open spec fn joined_lines(lines: Seq<Seq<char>>) -> Seq<char>
    decreases lines.len(),
{
    if lines.len() == 0 {
        seq![]
    } else if lines.len() == 1 {
        lines[0]
    } else {
        joined_lines(lines.drop_last()) + seq!['\n'] + lines.last()
    }
}

/// The text of a file holding `lines`: joined by line feeds, with a final
/// line feed unless the text is empty.
pub open spec fn file_text(lines: Seq<Seq<char>>) -> Seq<char> {
    let j = joined_lines(lines);
    if j.len() > 0 {
        j + seq!['\n']
    } else {
        j
    }
}

/// The lines that do not mark a completed task (`x ` at their very start).
pub open spec fn open_lines(lines: Seq<Seq<char>>) -> Seq<Seq<char>>
    decreases lines.len(),
{
    if lines.len() == 0 {
        seq![]
    } else if is_done_line(lines.last()) {
        open_lines(lines.drop_last())
    } else {
        open_lines(lines.drop_last()).push(lines.last())
    }
}

/// The replacement that `rewrites` gives `line`: the value of its first pair
/// with `line` as key, or the line itself.
pub open spec fn rewritten(line: Seq<char>, rewrites: Seq<(Seq<char>, Seq<char>)>) -> Seq<char>
    decreases rewrites.len(),
{
    if rewrites.len() == 0 {
        line
    } else if rewrites[0].0 == line {
        rewrites[0].1
    } else {
        rewritten(line, rewrites.drop_first())
    }
}

/// The number of lines holding a task still to do: not blank, and not
/// beginning with `x ` once trimmed.
pub open spec fn remaining_count(lines: Seq<Seq<char>>) -> nat
    decreases lines.len(),
{
    if lines.len() == 0 {
        0
    } else {
        let t = trim(lines.last());
        remaining_count(lines.drop_last()) + if t.len() > 0 && !is_done_line(t) {
            1nat
        } else {
            0nat
        }
    }
}

/// The text of a file holding `lines`.
pub fn file_content(lines: &Vec<String>) -> (r: String)
    ensures
        r@ == file_text(string_views(lines@)),
{
    let mut out = String::new();
    let mut i: usize = 0;
    while i < lines.len()
        invariant
            i <= lines@.len(),
            out@ == joined_lines(string_views(lines@).take(i as int)),
        decreases lines@.len() - i,
    {
        proof {
            let t = string_views(lines@).take(i + 1);
            assert(t.drop_last() =~= string_views(lines@).take(i as int));
            reveal_strlit("\n");
        }
        if i > 0 {
            out.append("\n");
        }
        out.append(lines[i].as_str());
        i = i + 1;
    }
    proof {
        assert(string_views(lines@).take(lines@.len() as int) =~= string_views(lines@));
        reveal_strlit("\n");
    }
    if out.as_str().unicode_len() > 0 {
        out.append("\n");
    }
    out
}

/// The file text without the lines of completed tasks, as the todo file is
/// rewritten when completed tasks are deleted.
pub fn without_completed(lines: &Vec<String>) -> (r: String)
    ensures
        r@ == file_text(open_lines(string_views(lines@))),
{
    let mut kept: Vec<String> = Vec::new();
    let mut i: usize = 0;
    while i < lines.len()
        invariant
            i <= lines@.len(),
            string_views(kept@) == open_lines(string_views(lines@).take(i as int)),
        decreases lines@.len() - i,
    {
        proof {
            let t = string_views(lines@).take(i + 1);
            assert(t.drop_last() =~= string_views(lines@).take(i as int));
        }
        let s = lines[i].as_str();
        let done = s.unicode_len() >= 2 && s.get_char(0) == 'x' && s.get_char(1) == ' ';
        proof {
            let l = lines@[i as int]@;
            if done {
                assert(l.take(2) =~= seq!['x', ' ']);
            }
            if is_done_line(l) {
                assert(l.take(2)[0] == l[0] && l.take(2)[1] == l[1]);
            }
        }
        if !done {
            kept.push(lines[i].clone());
            proof {
                assert(string_views(kept@) =~= open_lines(string_views(lines@).take(i as int)).push(lines@[i as int]@));
            }
        }
        i = i + 1;
    }
    proof {
        assert(string_views(lines@).take(lines@.len() as int) =~= string_views(lines@));
    }
    file_content(&kept)
}

/// The replacement that `rewrites` gives `line`.
fn rewrite_line(line: &String, rewrites: &Vec<(String, String)>) -> (r: String)
    ensures
        r@ == rewritten(line@, rewrite_views(rewrites@)),
{
    let ghost rv = rewrite_views(rewrites@);
    let mut i: usize = 0;
    proof {
        assert(rv.skip(0) =~= rv);
    }
    while i < rewrites.len()
        invariant
            i <= rewrites@.len(),
            rv == rewrite_views(rewrites@),
            rewritten(line@, rv) == rewritten(line@, rv.skip(i as int)),
        decreases rewrites@.len() - i,
    {
        proof {
            assert(rv.skip(i as int).drop_first() =~= rv.skip(i + 1));
            assert(rv.skip(i as int)[0] == rv[i as int]);
        }
        if rewrites[i].0 == *line {
            return rewrites[i].1.clone();
        }
        i = i + 1;
    }
    proof {
        assert(rv.skip(i as int).len() == 0);
    }
    line.clone()
}

/// The file text with each line replaced as `rewrites` says, as the todo file
/// is rewritten after completion dates were added.
pub fn with_rewrites(lines: &Vec<String>, rewrites: &Vec<(String, String)>) -> (r: String)
    ensures
        r@ == file_text(
            string_views(lines@).map_values(
                |l: Seq<char>| rewritten(l, rewrite_views(rewrites@)),
            ),
        ),
{
    let ghost rv = rewrite_views(rewrites@);
    let mut out: Vec<String> = Vec::new();
    let mut i: usize = 0;
    while i < lines.len()
        invariant
            i <= lines@.len(),
            rv == rewrite_views(rewrites@),
            out@.len() == i,
            forall|k: int| 0 <= k < i ==> (#[trigger] out@[k])@ == rewritten(lines@[k]@, rv),
        decreases lines@.len() - i,
    {
        out.push(rewrite_line(&lines[i], rewrites));
        i = i + 1;
    }
    proof {
        assert(string_views(out@) =~= string_views(lines@).map_values(
            |l: Seq<char>| rewritten(l, rv),
        ));
    }
    file_content(&out)
}

/// The number of tasks still to do among the lines of a todo file.
pub fn remaining_tasks(lines: &Vec<String>) -> (r: usize)
    ensures
        r == remaining_count(string_views(lines@)),
{
    let mut count: usize = 0;
    let mut i: usize = 0;
    while i < lines.len()
        invariant
            i <= lines@.len(),
            count == remaining_count(string_views(lines@).take(i as int)),
            count <= i,
        decreases lines@.len() - i,
    {
        proof {
            let t = string_views(lines@).take(i + 1);
            assert(t.drop_last() =~= string_views(lines@).take(i as int));
        }
        let v = chars_of(lines[i].as_str());
        let (a, b) = trim_range(&v, 0, v.len());
        proof {
            assert(v@.subrange(0, v@.len() as int) =~= v@);
        }
        let ghost t = v@.subrange(a as int, b as int);
        let done = b - a >= 2 && v[a] == 'x' && v[a + 1] == ' ';
        proof {
            if done {
                assert(t.take(2) =~= seq!['x', ' ']);
            }
            if is_done_line(t) {
                assert(t.take(2)[0] == t[0] && t.take(2)[1] == t[1]);
            }
        }
        if b > a && !done {
            count = count + 1;
        }
        i = i + 1;
    }
    proof {
        assert(string_views(lines@).take(lines@.len() as int) =~= string_views(lines@));
    }
    count
}

/// The name of the temporary file that a file is written through: the
/// file's name (or `todo`) between a leading dot and a `.tmp` suffix.
pub fn temp_file_name(file_name: Option<&str>) -> (r: String)
    ensures
        r@ == seq!['.'] + match file_name {
            Some(n) => n@,
            None => "todo"@,
        } + seq!['.', 't', 'm', 'p'],
{
    let mut r = String::from_str(".");
    match file_name {
        Some(n) => r.append(n),
        None => r.append("todo"),
    }
    r.append(".tmp");
    proof {
        reveal_strlit(".");
        reveal_strlit(".tmp");
        assert(r@ =~= seq!['.'] + match file_name {
            Some(n) => n@,
            None => "todo"@,
        } + seq!['.', 't', 'm', 'p']);
    }
    r
}

proof fn lemma_joined_text(ls: Seq<Seq<char>>)
    requires
        ls.len() > 0,
    ensures
        joined_lines(ls) + seq!['\n'] == text_of_lines(ls),
    decreases ls.len(),
{
    if ls.len() == 1 {
        assert(ls.drop_last() =~= Seq::<Seq<char>>::empty());
        assert(text_of_lines(Seq::<Seq<char>>::empty()) == Seq::<char>::empty());
        assert(text_of_lines(ls) == text_of_lines(Seq::<Seq<char>>::empty()) + ls.last() + seq!['\n']);
        assert(ls.last() == ls[0]);
        assert(joined_lines(ls) + seq!['\n'] =~= text_of_lines(ls));
    } else {
        lemma_joined_text(ls.drop_last());
        assert(joined_lines(ls) + seq!['\n'] =~= text_of_lines(ls));
    }
}

/// A file written from lines reads back as those lines, when none holds a
/// line feed. The one exception is a single empty line, which is written as
/// an empty file and so reads back as no line.
pub proof fn law_written_lines_read_back(ls: Seq<Seq<char>>)
    requires
        no_line_feeds(ls),
        !(ls.len() == 1 && ls[0].len() == 0),
    ensures
        lines(file_text(ls)) == ls,
{
    if ls.len() == 0 {
        assert(lines(file_text(ls)) =~= ls);
    } else {
        lemma_joined_text(ls);
        if ls.len() == 1 {
            assert(joined_lines(ls) == ls[0]);
        } else {
            assert(joined_lines(ls).len() > 0);
        }
        lemma_lines_of_text(ls);
    }
}

proof fn lemma_open_lines(ls: Seq<Seq<char>>)
    ensures
        forall|k: int| 0 <= k < open_lines(ls).len() ==> {
            &&& !is_done_line(#[trigger] open_lines(ls)[k])
            &&& ls.contains(open_lines(ls)[k])
        },
        forall|k: int| 0 <= k < ls.len() && !is_done_line(#[trigger] ls[k]) ==> open_lines(ls).contains(ls[k]),
    decreases ls.len(),
{
    if ls.len() > 0 {
        let init = ls.drop_last();
        lemma_open_lines(init);
        let o = open_lines(ls);
        let oi = open_lines(init);
        assert forall|k: int| 0 <= k < o.len() implies {
            &&& !is_done_line(#[trigger] o[k])
            &&& ls.contains(o[k])
        } by {
            if k < oi.len() {
                assert(o[k] == oi[k]);
                let q = choose|q: int| 0 <= q < init.len() && init[q] == oi[k];
                assert(ls[q] == o[k]);
            } else {
                assert(o[k] == ls.last());
                assert(ls[ls.len() - 1] == o[k]);
            }
        }
        assert forall|k: int| 0 <= k < ls.len() && !is_done_line(#[trigger] ls[k]) implies o.contains(ls[k]) by {
            if k < init.len() {
                assert(init[k] == ls[k]);
                let q = choose|q: int| 0 <= q < oi.len() && oi[q] == ls[k];
                assert(o[q] == ls[k]);
            } else {
                assert(ls[k] == ls.last());
                assert(o[o.len() - 1] == ls[k]);
            }
        }
    }
}

/// After completed tasks are deleted, the todo file reads back as the lines
/// that do not mark a completed task, in their order: none of them marks one,
/// and every such line of the file is still there. (A file whose only kept
/// line is empty is written empty.)
pub proof fn law_deleting_completed_keeps_open_lines(ls: Seq<Seq<char>>)
    requires
        no_line_feeds(ls),
        !(open_lines(ls).len() == 1 && open_lines(ls)[0].len() == 0),
    ensures
        lines(file_text(open_lines(ls))) == open_lines(ls),
        forall|k: int| 0 <= k < open_lines(ls).len() ==> !is_done_line(#[trigger] open_lines(ls)[k]),
        forall|k: int| 0 <= k < ls.len() && !is_done_line(#[trigger] ls[k]) ==> open_lines(ls).contains(ls[k]),
{
    lemma_open_lines(ls);
    let o = open_lines(ls);
    assert forall|k: int| 0 <= k < o.len() implies !(#[trigger] o[k]).contains('\n') by {
        assert(ls.contains(o[k]));
        let q = choose|q: int| 0 <= q < ls.len() && ls[q] == o[k];
        assert(!ls[q].contains('\n'));
    }
    law_written_lines_read_back(o);
}

proof fn lemma_open_lines_of_open(ls: Seq<Seq<char>>)
    requires
        forall|k: int| 0 <= k < ls.len() ==> !is_done_line(#[trigger] ls[k]),
    ensures
        open_lines(ls) == ls,
    decreases ls.len(),
{
    if ls.len() > 0 {
        assert forall|k: int| 0 <= k < ls.drop_last().len() implies !is_done_line(#[trigger] ls.drop_last()[k]) by {
            assert(ls.drop_last()[k] == ls[k]);
        }
        lemma_open_lines_of_open(ls.drop_last());
        assert(ls[ls.len() - 1] == ls.last());
        assert(ls.drop_last().push(ls.last()) =~= ls);
    }
}

/// Deleting completed tasks a second time leaves the todo file as the first
/// deletion wrote it: reading the written text back and deleting again writes
/// the same text.
pub proof fn law_deleting_completed_twice_changes_nothing(ls: Seq<Seq<char>>)
    requires
        no_line_feeds(ls),
    ensures
        file_text(open_lines(lines(file_text(open_lines(ls))))) == file_text(open_lines(ls)),
{
    let o = open_lines(ls);
    let t = file_text(o);
    if o.len() == 1 && o[0].len() == 0 {
        assert(joined_lines(o) == o[0]);
        assert(t =~= Seq::<char>::empty());
        assert(lines(t) =~= Seq::<Seq<char>>::empty());
        assert(open_lines(lines(t)) =~= Seq::<Seq<char>>::empty());
        assert(joined_lines(Seq::<Seq<char>>::empty()) =~= Seq::<char>::empty());
    } else {
        law_deleting_completed_keeps_open_lines(ls);
        lemma_open_lines_of_open(o);
    }
}

} // verus!
