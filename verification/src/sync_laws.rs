use vstd::prelude::*;
use crate::date::{date_text, law_date_text_reads_back, Date};
use crate::sync::{
    advance, answered, candidates_in_bounds, consider, dated_completion, fresh_lines,
    initial_model, is_done_line, lemma_date_text_has_no_newline, lemma_dated_parses,
    lines_to_cache, needs_completion_date, nonblank_lines, unmatched_added, vanished_lines,
    ActionKind, ActionView, SyncModel,
};
use crate::task::{has_date_at, has_priority_at, task_of_line, TaskView};
use crate::text::{no_line_feeds, trim};
use crate::todo_file::rewritten;

verus! {

/// Whether no element of `s` occurs twice.
pub open spec fn no_repeats(s: Seq<Seq<char>>) -> bool {
    forall|a: int, b: int| 0 <= a < b < s.len() ==> s[a] != s[b]
}

proof fn lemma_fresh(cache: Seq<Seq<char>>, todo: Seq<Seq<char>>)
    ensures
        forall|l: Seq<char>| #[trigger] fresh_lines(cache, todo).contains(l) <==> (todo.contains(l) && !cache.contains(l)),
        no_repeats(fresh_lines(cache, todo)),
    decreases todo.len(),
{
    if todo.len() > 0 {
        let r = fresh_lines(cache, todo.drop_last());
        lemma_fresh(cache, todo.drop_last());
        assert forall|l: Seq<char>| #[trigger] fresh_lines(cache, todo).contains(l) <==> (todo.contains(l) && !cache.contains(l)) by {
            if todo.contains(l) {
                let q = choose|q: int| 0 <= q < todo.len() && todo[q] == l;
                if q < todo.len() - 1 {
                    assert(todo.drop_last()[q] == l);
                }
            }
            if todo.drop_last().contains(l) {
                let q = choose|q: int| 0 <= q < todo.drop_last().len() && todo.drop_last()[q] == l;
                assert(todo[q] == l);
            }
            let f = fresh_lines(cache, todo);
            if f.contains(l) && f != r {
                let q = choose|q: int| 0 <= q < f.len() && f[q] == l;
                if q < r.len() {
                    assert(r[q] == l);
                }
            }
            if r.contains(l) && f != r {
                let q = choose|q: int| 0 <= q < r.len() && r[q] == l;
                assert(f[q] == l);
            }
            if f != r && l == todo.last() {
                assert(f[r.len() as int] == l);
            }
        }
    }
}

proof fn lemma_vanished(cache: Seq<Seq<char>>, todo: Seq<Seq<char>>)
    ensures
        forall|l: Seq<char>| #[trigger] vanished_lines(cache, todo).contains(l) <==> (cache.contains(l) && !todo.contains(l)),
    decreases cache.len(),
{
    if cache.len() > 0 {
        let r = vanished_lines(cache.drop_last(), todo);
        lemma_vanished(cache.drop_last(), todo);
        assert forall|l: Seq<char>| #[trigger] vanished_lines(cache, todo).contains(l) <==> (cache.contains(l) && !todo.contains(l)) by {
            if cache.contains(l) {
                let q = choose|q: int| 0 <= q < cache.len() && cache[q] == l;
                if q < cache.len() - 1 {
                    assert(cache.drop_last()[q] == l);
                }
            }
            if cache.drop_last().contains(l) {
                let q = choose|q: int| 0 <= q < cache.drop_last().len() && cache.drop_last()[q] == l;
                assert(cache[q] == l);
            }
            let f = vanished_lines(cache, todo);
            if f.contains(l) && f != r {
                let q = choose|q: int| 0 <= q < f.len() && f[q] == l;
                if q < r.len() {
                    assert(r[q] == l);
                }
            }
            if r.contains(l) && f != r {
                let q = choose|q: int| 0 <= q < r.len() && r[q] == l;
                assert(f[q] == l);
            }
            if f != r && l == cache.last() {
                assert(f[r.len() as int] == l);
            }
        }
    }
}

proof fn lemma_nonblank(file: Seq<Seq<char>>)
    ensures
        forall|l: Seq<char>| #[trigger] nonblank_lines(file).contains(l) ==> (file.contains(l) && trim(l).len() > 0),
    decreases file.len(),
{
    if file.len() > 0 {
        let r = nonblank_lines(file.drop_last());
        lemma_nonblank(file.drop_last());
        assert forall|l: Seq<char>| #[trigger] nonblank_lines(file).contains(l) implies (file.contains(l) && trim(l).len() > 0) by {
            let f = nonblank_lines(file);
            let q = choose|q: int| 0 <= q < f.len() && f[q] == l;
            if trim(file.last()).len() > 0 && q == r.len() {
                assert(f[q] == file.last());
                assert(file[file.len() - 1] == l);
            } else {
                assert(r[q] == l);
                assert(r.contains(l));
                let p = choose|p: int| 0 <= p < file.drop_last().len() && file.drop_last()[p] == l;
                assert(file[p] == l);
            }
        }
    }
}

proof fn lemma_vanished_no_repeats(cache: Seq<Seq<char>>, todo: Seq<Seq<char>>)
    ensures
        no_repeats(vanished_lines(cache, todo)),
    decreases cache.len(),
{
    if cache.len() > 0 {
        lemma_vanished_no_repeats(cache.drop_last(), todo);
    }
}

proof fn lemma_lengths(cache: Seq<Seq<char>>, todo: Seq<Seq<char>>, file: Seq<Seq<char>>)
    ensures
        fresh_lines(cache, todo).len() <= todo.len(),
        vanished_lines(cache, todo).len() <= cache.len(),
        nonblank_lines(file).len() <= file.len(),
    decreases cache.len() + todo.len() + file.len(),
{
    if todo.len() > 0 {
        lemma_lengths(cache, todo.drop_last(), seq![]);
    }
    if cache.len() > 0 {
        lemma_lengths(cache.drop_last(), todo, seq![]);
    }
    if file.len() > 0 {
        lemma_lengths(seq![], seq![], file.drop_last());
    }
}

/// The number of `true` flags.
pub open spec fn count_true(s: Seq<bool>) -> nat
    decreases s.len(),
{
    if s.len() == 0 {
        0
    } else {
        count_true(s.drop_last()) + if s.last() {
            1nat
        } else {
            0nat
        }
    }
}

proof fn lemma_count_set(s: Seq<bool>, i: int)
    requires
        0 <= i < s.len(),
        !s[i],
    ensures
        count_true(s.update(i, true)) == count_true(s) + 1,
    decreases s.len(),
{
    let u = s.update(i, true);
    if i == s.len() - 1 {
        assert(u.drop_last() =~= s.drop_last());
    } else {
        lemma_count_set(s.drop_last(), i);
        assert(u.drop_last() =~= s.drop_last().update(i, true));
    }
}

proof fn lemma_count_none(n: nat)
    ensures
        count_true(Seq::new(n, |k: int| false)) == 0,
    decreases n,
{
    if n > 0 {
        lemma_count_none((n - 1) as nat);
        assert(Seq::new(n, |k: int| false).drop_last() =~= Seq::new((n - 1) as nat, |k: int| false));
    }
}

proof fn lemma_count_bound(s: Seq<bool>)
    ensures
        count_true(s) <= s.len(),
    decreases s.len(),
{
    if s.len() > 0 {
        lemma_count_bound(s.drop_last());
    }
}

/// Whether some pair of `rewrites` has `line` as key.
pub open spec fn has_key(rewrites: Seq<(Seq<char>, Seq<char>)>, line: Seq<char>) -> bool {
    exists|k: int| 0 <= k < rewrites.len() && rewrites[k].0 == line
}

proof fn lemma_rewritten_push(line: Seq<char>, rs: Seq<(Seq<char>, Seq<char>)>, p: (Seq<char>, Seq<char>))
    ensures
        rewritten(line, rs.push(p)) == if has_key(rs, line) {
            rewritten(line, rs)
        } else if p.0 == line {
            p.1
        } else {
            line
        },
        !has_key(rs, line) ==> rewritten(line, rs) == line,
    decreases rs.len(),
{
    let q = rs.push(p);
    if rs.len() == 0 {
        assert(q.drop_first() =~= rs);
        assert(q[0] == p);
        assert(!has_key(rs, line));
        if p.0 != line {
            assert(rewritten(line, q) == rewritten(line, q.drop_first()));
            assert(rewritten(line, rs) == line);
        }
    } else {
        assert(q[0] == rs[0]);
        assert(q.drop_first() =~= rs.drop_first().push(p));
        lemma_rewritten_push(line, rs.drop_first(), p);
        if rs[0].0 != line {
            assert(has_key(rs, line) == has_key(rs.drop_first(), line)) by {
                if has_key(rs, line) {
                    let k = choose|k: int| 0 <= k < rs.len() && rs[k].0 == line;
                    assert(rs.drop_first()[k - 1].0 == line);
                }
                if has_key(rs.drop_first(), line) {
                    let k = choose|k: int| 0 <= k < rs.drop_first().len() && rs.drop_first()[k].0 == line;
                    assert(rs[k + 1].0 == line);
                }
            }
            assert(rewritten(line, q) == rewritten(line, rs.drop_first().push(p)));
            assert(rewritten(line, rs) == rewritten(line, rs.drop_first()));
        } else {
            assert(has_key(rs, line));
            assert(rewritten(line, q) == rs[0].1);
        }
    }
}

/// Whether the old line of every action that replaces a vanished line is a
/// matched vanished line, and no two such actions share their old line.
pub open spec fn replacements_matched(m: SyncModel) -> bool {
    &&& forall|k: int|
        0 <= k < m.actions.len() && (#[trigger] m.actions[k]).kind != ActionKind::Added ==> exists|j: int|
            0 <= j < m.missing.len() && m.matched_missing[j] && m.missing[j] == m.actions[k].old_raw
    &&& forall|k1: int, k2: int|
        0 <= k1 < k2 < m.actions.len() && (#[trigger] m.actions[k1]).kind != ActionKind::Added
            && (#[trigger] m.actions[k2]).kind != ActionKind::Added ==> m.actions[k1].old_raw
            != m.actions[k2].old_raw
}

/// Whether an action's kind fits the status of its lines: a completion turns
/// an open line into a done one, a reopening a done line into an open one, and
/// a typo correction keeps the status.
pub open spec fn kind_fits(a: ActionView) -> bool {
    match a.kind {
        ActionKind::Completed => !is_done_line(a.old_raw) && is_done_line(a.new_raw),
        ActionKind::Reopened => is_done_line(a.old_raw) && !is_done_line(a.new_raw),
        ActionKind::Modified => is_done_line(a.old_raw) == is_done_line(a.new_raw),
        ActionKind::Added => true,
    }
}

/// What holds of every state of a sync between the cache `cache` and the
/// non-blank todo lines `todo`.
pub open spec fn sync_inv(m: SyncModel, cache: Seq<Seq<char>>, todo: Seq<Seq<char>>) -> bool {
    &&& m.new_lines == fresh_lines(cache, todo)
    &&& m.missing == vanished_lines(cache, todo)
    &&& m.matched_new.len() == m.new_lines.len()
    &&& m.final_new.len() == m.new_lines.len()
    &&& m.matched_missing.len() == m.missing.len()
    &&& candidates_in_bounds(m.candidates, m.new_lines, m.missing)
    &&& 0 <= m.next <= m.candidates.len()
    &&& m.awaiting ==> {
        &&& m.next < m.candidates.len()
        &&& !m.matched_new[m.candidates[m.next].new_idx as int]
        &&& !m.matched_missing[m.candidates[m.next].missing_idx as int]
        &&& is_done_line(m.missing[m.candidates[m.next].missing_idx as int]) == is_done_line(
            m.new_lines[m.candidates[m.next].new_idx as int],
        )
    }
    &&& m.today.is_valid()
    &&& forall|k: int| 0 <= k < m.actions.len() ==> kind_fits(#[trigger] m.actions[k])
    &&& forall|i: int|
        0 <= i < m.new_lines.len() && !m.matched_new[i] ==> #[trigger] m.final_new[i] == m.new_lines[i]
    &&& forall|i: int|
        0 <= i < m.new_lines.len() ==> rewritten(#[trigger] m.new_lines[i], m.rewrites) == m.final_new[i]
    &&& forall|k: int|
        0 <= k < m.rewrites.len() ==> exists|i: int|
            0 <= i < m.new_lines.len() && m.matched_new[i] && m.new_lines[i] == (#[trigger] m.rewrites[k]).0
    &&& forall|k: int|
        0 <= k < m.actions.len() ==> task_of_line((#[trigger] m.actions[k]).new_raw) == Some(
            m.actions[k].task,
        )
    &&& m.actions.len() == count_true(m.matched_new)
    &&& replacements_matched(m)
}

/// The invariant after recording an action for candidate `next`, which
/// matches the new line `i` (and, unless the action adds a task, the vanished
/// line `j`), sets the new line's final form, and possibly adds a rewrite.
proof fn lemma_record_inv(
    m: SyncModel,
    m2: SyncModel,
    cache: Seq<Seq<char>>,
    todo: Seq<Seq<char>>,
    a: ActionView,
)
    requires
        sync_inv(m, cache, todo),
        m.next < m.candidates.len(),
        ({
            let c = m.candidates[m.next];
            let i = c.new_idx as int;
            let j = c.missing_idx as int;
            &&& !m.matched_new[i]
            &&& !m.matched_missing[j]
            &&& m2.new_lines == m.new_lines
            &&& m2.missing == m.missing
            &&& m2.candidates == m.candidates
            &&& m2.next == m.next + 1
            &&& !m2.awaiting
            &&& m2.today == m.today
            &&& m2.matched_new == m.matched_new.update(i, true)
            &&& m2.matched_missing == if a.kind == ActionKind::Added {
                m.matched_missing
            } else {
                m.matched_missing.update(j, true)
            }
            &&& a.kind != ActionKind::Added ==> a.old_raw == m.missing[j]
            &&& m2.actions == m.actions.push(a)
            &&& task_of_line(a.new_raw) == Some(a.task)
            &&& kind_fits(a)
            &&& (m2.final_new == m.final_new && m2.rewrites == m.rewrites) || (m2.final_new
                == m.final_new.update(i, a.new_raw) && m2.rewrites == m.rewrites.push(
                (m.new_lines[i], a.new_raw),
            ))
        }),
    ensures
        sync_inv(m2, cache, todo),
{
    let c = m.candidates[m.next];
    let i = c.new_idx as int;
    let j = c.missing_idx as int;
    lemma_fresh(cache, todo);
    lemma_vanished_no_repeats(cache, todo);
    lemma_count_set(m.matched_new, i);
    // Final forms of unmatched new lines.
    assert forall|k: int| 0 <= k < m2.new_lines.len() && !m2.matched_new[k] implies #[trigger] m2.final_new[k] == m2.new_lines[k] by {
        assert(k != i);
    }
    // Rewrites: keys stay at matched new lines.
    assert forall|k: int| 0 <= k < m2.rewrites.len() implies exists|q: int|
        0 <= q < m2.new_lines.len() && m2.matched_new[q] && m2.new_lines[q] == (#[trigger] m2.rewrites[k]).0 by {
        if k < m.rewrites.len() {
            assert(m2.rewrites[k] == m.rewrites[k]);
            let q = choose|q: int| 0 <= q < m.new_lines.len() && m.matched_new[q] && m.new_lines[q] == m.rewrites[k].0;
            assert(m2.matched_new[q]);
        } else {
            assert(m2.matched_new[i]);
        }
    }
    // Rewritten forms.
    if m2.rewrites != m.rewrites {
        let p = (m.new_lines[i], a.new_raw);
        assert(!has_key(m.rewrites, m.new_lines[i])) by {
            if has_key(m.rewrites, m.new_lines[i]) {
                let k = choose|k: int| 0 <= k < m.rewrites.len() && m.rewrites[k].0 == m.new_lines[i];
                let q = choose|q: int| 0 <= q < m.new_lines.len() && m.matched_new[q] && m.new_lines[q] == (#[trigger] m.rewrites[k]).0;
                assert(q != i);
            }
        }
        assert forall|k: int| 0 <= k < m2.new_lines.len() implies rewritten(#[trigger] m2.new_lines[k], m2.rewrites) == m2.final_new[k] by {
            lemma_rewritten_push(m.new_lines[k], m.rewrites, p);
            assert(rewritten(m.new_lines[k], m.rewrites) == m.final_new[k]);
            if k != i {
                assert(m.new_lines[k] != m.new_lines[i]);
            }
        }
    } else {
        assert forall|k: int| 0 <= k < m2.new_lines.len() implies rewritten(#[trigger] m2.new_lines[k], m2.rewrites) == m2.final_new[k] by {
            assert(rewritten(m.new_lines[k], m.rewrites) == m.final_new[k]);
        }
    }
    // Tasks of actions.
    assert forall|k: int| 0 <= k < m2.actions.len() implies task_of_line((#[trigger] m2.actions[k]).new_raw) == Some(m2.actions[k].task) by {
        if k < m.actions.len() {
            assert(m2.actions[k] == m.actions[k]);
        }
    }
    // Kinds of actions.
    assert forall|k: int| 0 <= k < m2.actions.len() implies kind_fits(#[trigger] m2.actions[k]) by {
        if k < m.actions.len() {
            assert(m2.actions[k] == m.actions[k]);
        }
    }
    // Replacements.
    assert forall|k: int|
        0 <= k < m2.actions.len() && (#[trigger] m2.actions[k]).kind != ActionKind::Added implies exists|q: int|
            0 <= q < m2.missing.len() && m2.matched_missing[q] && m2.missing[q] == m2.actions[k].old_raw by {
        if k < m.actions.len() {
            assert(m2.actions[k] == m.actions[k]);
            let q = choose|q: int| 0 <= q < m.missing.len() && m.matched_missing[q] && m.missing[q] == m.actions[k].old_raw;
            assert(m2.matched_missing[q]);
        } else {
            assert(m2.actions[k] == a);
            assert(m2.matched_missing[j]);
        }
    }
    assert forall|k1: int, k2: int|
        0 <= k1 < k2 < m2.actions.len() && (#[trigger] m2.actions[k1]).kind != ActionKind::Added
            && (#[trigger] m2.actions[k2]).kind != ActionKind::Added implies m2.actions[k1].old_raw
            != m2.actions[k2].old_raw by {
        assert(m2.actions[k1] == m.actions[k1]);
        if k2 < m.actions.len() {
            assert(m2.actions[k2] == m.actions[k2]);
        } else {
            assert(m2.actions[k2] == a);
            let q = choose|q: int| 0 <= q < m.missing.len() && m.matched_missing[q] && m.missing[q] == m.actions[k1].old_raw;
            assert(q != j);
        }
    }
}

/// Considering a candidate keeps the invariant.
proof fn lemma_consider_inv(m: SyncModel, cache: Seq<Seq<char>>, todo: Seq<Seq<char>>)
    requires
        sync_inv(m, cache, todo),
        !m.awaiting,
        m.next < m.candidates.len(),
    ensures
        sync_inv(consider(m), cache, todo),
        consider(m).awaiting || consider(m).next == m.next + 1,
{
    let c = m.candidates[m.next];
    let i = c.new_idx as int;
    let j = c.missing_idx as int;
    let m2 = consider(m);
    if m.matched_new[i] || m.matched_missing[j] {
    } else {
        let old_line = m.missing[j];
        let new_line = m.new_lines[i];
        let task = task_of_line(new_line).unwrap();
        if is_done_line(old_line) && !is_done_line(new_line) {
            lemma_record_inv(m, m2, cache, todo, m2.actions.last());
        } else if !is_done_line(old_line) && is_done_line(new_line) {
            if m.auto_date && needs_completion_date(task, task_of_line(old_line)) {
                crate::sync::lemma_dated_parses(new_line, task, m.today);
                let dated = dated_completion(new_line, task, m.today);
                assert(dated.take(2) =~= new_line.take(2));
                lemma_record_inv(m, m2, cache, todo, m2.actions.last());
            } else {
                lemma_record_inv(m, m2, cache, todo, m2.actions.last());
            }
        }
    }
}

/// Considering candidates until one needs an answer keeps the invariant.
pub proof fn law_advance_keeps_invariant(m: SyncModel, cache: Seq<Seq<char>>, todo: Seq<Seq<char>>)
    requires
        sync_inv(m, cache, todo),
    ensures
        sync_inv(advance(m), cache, todo),
        advance(m).awaiting || advance(m).next >= advance(m).candidates.len(),
    decreases m.candidates.len() - m.next,
{
    if m.awaiting || m.next < 0 || m.next >= m.candidates.len() {
    } else {
        lemma_consider_inv(m, cache, todo);
        let m2 = consider(m);
        if !(m2.awaiting || m2.next != m.next + 1) {
            law_advance_keeps_invariant(m2, cache, todo);
        }
    }
}

/// Answering whether a match was a typo correction keeps the invariant.
pub proof fn law_answer_keeps_invariant(m: SyncModel, is_typo: bool, cache: Seq<Seq<char>>, todo: Seq<Seq<char>>)
    requires
        sync_inv(m, cache, todo),
    ensures
        sync_inv(answered(m, is_typo), cache, todo),
{
    if m.awaiting {
        let m2 = answered(m, is_typo);
        lemma_record_inv(m, m2, cache, todo, m2.actions.last());
    }
}

/// A sync starts in a state where the invariant holds.
pub proof fn law_start_satisfies_invariant(
    cache: Seq<Seq<char>>,
    file: Seq<Seq<char>>,
    auto_date: bool,
    today: Date,
)
    requires
        today.is_valid(),
        cache.len() <= usize::MAX,
        file.len() <= usize::MAX,
    ensures
        sync_inv(initial_model(cache, file, auto_date, today), cache, nonblank_lines(file)),
{
    let todo = nonblank_lines(file);
    let m = initial_model(cache, file, auto_date, today);
    lemma_lengths(cache, todo, file);
    let g = crate::sync::candidates_upto(m.new_lines, m.missing, m.new_lines.len() as int);
    crate::sync::lemma_candidates_upto_bounds(m.new_lines, m.missing, m.new_lines.len() as int);
    crate::sync::lemma_sort_keeps(g);
    assert forall|k: int| 0 <= k < m.candidates.len() implies {
        &&& (#[trigger] m.candidates[k]).new_idx < m.new_lines.len()
        &&& m.candidates[k].missing_idx < m.missing.len()
        &&& task_of_line(m.new_lines[m.candidates[k].new_idx as int]) is Some
    } by {
        assert(crate::sync::sort_by_score(g).contains(m.candidates[k]));
        let q = choose|q: int| 0 <= q < g.len() && g[q] == m.candidates[k];
        assert(candidates_in_bounds(g, m.new_lines, m.missing));
        assert(g[q] == m.candidates[k]);
    }
    lemma_count_none(m.new_lines.len());
    assert forall|i: int| 0 <= i < m.new_lines.len() implies rewritten(#[trigger] m.new_lines[i], m.rewrites) == m.final_new[i] by {}
}

/// The state after the session considers candidates, then, for each answer in
/// turn, takes the answer and considers candidates again.
pub open spec fn run(m: SyncModel, answers: Seq<bool>) -> SyncModel
    decreases answers.len(),
{
    if answers.len() == 0 {
        advance(m)
    } else {
        run(answered(advance(m), answers[0]), answers.drop_first())
    }
}

/// Running a session keeps the invariant, whatever the answers.
pub proof fn law_run_keeps_invariant(m: SyncModel, answers: Seq<bool>, cache: Seq<Seq<char>>, todo: Seq<Seq<char>>)
    requires
        sync_inv(m, cache, todo),
    ensures
        sync_inv(run(m, answers), cache, todo),
    decreases answers.len(),
{
    law_advance_keeps_invariant(m, cache, todo);
    if answers.len() > 0 {
        law_answer_keeps_invariant(advance(m), answers[0], cache, todo);
        law_run_keeps_invariant(answered(advance(m), answers[0]), answers.drop_first(), cache, todo);
    }
}

proof fn lemma_new_lines_parse(cache: Seq<Seq<char>>, file: Seq<Seq<char>>)
    requires
        no_line_feeds(file),
    ensures
        forall|k: int| 0 <= k < fresh_lines(cache, nonblank_lines(file)).len() ==> task_of_line(
            #[trigger] fresh_lines(cache, nonblank_lines(file))[k],
        ) is Some,
{
    let todo = nonblank_lines(file);
    let f = fresh_lines(cache, todo);
    lemma_fresh(cache, todo);
    lemma_nonblank(file);
    assert forall|k: int| 0 <= k < f.len() implies task_of_line(#[trigger] f[k]) is Some by {
        assert(f.contains(f[k]));
        assert(todo.contains(f[k]));
        let p = choose|p: int| 0 <= p < file.len() && file[p] == f[k];
        assert(!file[p].contains('\n'));
    }
}

proof fn lemma_lines_to_cache(m: SyncModel, k: int)
    requires
        0 <= k <= m.new_lines.len(),
        m.final_new.len() == m.new_lines.len(),
        forall|i: int| 0 <= i < m.new_lines.len() ==> task_of_line(#[trigger] m.new_lines[i]) is Some,
    ensures
        lines_to_cache(m, k) == m.final_new.take(k),
    decreases k,
{
    if k > 0 {
        lemma_lines_to_cache(m, k - 1);
        assert(task_of_line(m.new_lines[k - 1]) is Some);
        assert(m.final_new.take(k - 1).push(m.final_new[k - 1]) =~= m.final_new.take(k));
    }
}

/// After a sync, applying its cache changes leaves the cache holding exactly
/// the non-blank lines of the todo file, as rewritten with completion dates:
/// a cached line stays when the file still holds it, and every new line is
/// cached as it will stand in the file. This holds whatever the user answers.
pub proof fn law_cache_follows_file(
    cache: Seq<Seq<char>>,
    file: Seq<Seq<char>>,
    auto_date: bool,
    today: Date,
    answers: Seq<bool>,
    line: Seq<char>,
)
    requires
        today.is_valid(),
        cache.len() <= usize::MAX,
        file.len() <= usize::MAX,
        no_line_feeds(file),
    ensures
        ({
            let m = run(initial_model(cache, file, auto_date, today), answers);
            let todo = nonblank_lines(file);
            ((cache.contains(line) && !m.missing.contains(line)) || lines_to_cache(
                m,
                m.new_lines.len() as int,
            ).contains(line)) <==> todo.map_values(|t: Seq<char>| rewritten(t, m.rewrites)).contains(
                line,
            )
        }),
{
    let todo = nonblank_lines(file);
    let m0 = initial_model(cache, file, auto_date, today);
    let m = run(m0, answers);
    assert({
        &&& m.new_lines == fresh_lines(cache, todo)
        &&& m.missing == vanished_lines(cache, todo)
        &&& m.final_new.len() == m.new_lines.len()
        &&& m.matched_new.len() == m.new_lines.len()
        &&& forall|i: int|
            0 <= i < m.new_lines.len() ==> rewritten(#[trigger] m.new_lines[i], m.rewrites) == m.final_new[i]
        &&& forall|k: int|
            0 <= k < m.rewrites.len() ==> exists|i: int|
                0 <= i < m.new_lines.len() && m.matched_new[i] && m.new_lines[i] == (#[trigger] m.rewrites[k]).0
    }) by {
        law_start_satisfies_invariant(cache, file, auto_date, today);
        law_run_keeps_invariant(m0, answers, cache, todo);
    }
    let n = m.new_lines.len() as int;
    let rw = todo.map_values(|t: Seq<char>| rewritten(t, m.rewrites));
    lemma_fresh(cache, todo);
    lemma_vanished(cache, todo);
    lemma_new_lines_parse(cache, file);
    lemma_lines_to_cache(m, n);
    assert(m.final_new.take(n) =~= m.final_new);
    // A line the cache holds is no key of the rewrites.
    assert forall|l: Seq<char>| cache.contains(l) implies !has_key(m.rewrites, l) by {
        if has_key(m.rewrites, l) {
            let k = choose|k: int| 0 <= k < m.rewrites.len() && m.rewrites[k].0 == l;
            let q = choose|q: int| 0 <= q < m.new_lines.len() && m.matched_new[q] && m.new_lines[q] == (#[trigger] m.rewrites[k]).0;
            assert(m.new_lines.contains(l));
        }
    }
    if (cache.contains(line) && !m.missing.contains(line)) {
        assert(todo.contains(line));
        let q = choose|q: int| 0 <= q < todo.len() && todo[q] == line;
        lemma_rewritten_push(line, m.rewrites, (line, line));
        assert(rw[q] == line);
    }
    if lines_to_cache(m, n).contains(line) {
        let i = choose|i: int| 0 <= i < m.final_new.len() && m.final_new[i] == line;
        assert(m.new_lines.contains(m.new_lines[i]));
        assert(todo.contains(m.new_lines[i]));
        let q = choose|q: int| 0 <= q < todo.len() && todo[q] == m.new_lines[i];
        assert(rewritten(m.new_lines[i], m.rewrites) == m.final_new[i]);
        assert(rw[q] == line);
    }
    if rw.contains(line) {
        let q = choose|q: int| 0 <= q < rw.len() && rw[q] == line;
        let t = todo[q];
        assert(todo.contains(t));
        if cache.contains(t) {
            lemma_rewritten_push(t, m.rewrites, (t, t));
            assert(line == t);
            assert(!m.missing.contains(line));
        } else {
            assert(m.new_lines.contains(t));
            let i = choose|i: int| 0 <= i < m.new_lines.len() && m.new_lines[i] == t;
            assert(rewritten(m.new_lines[i], m.rewrites) == m.final_new[i]);
            assert(m.final_new[i] == line);
        }
    }
}

proof fn lemma_unmatched(m: SyncModel, k: int)
    requires
        0 <= k <= m.new_lines.len(),
        m.final_new.len() == m.new_lines.len(),
        m.matched_new.len() == m.new_lines.len(),
        forall|i: int| 0 <= i < m.new_lines.len() ==> task_of_line(#[trigger] m.new_lines[i]) is Some,
        forall|i: int|
            0 <= i < m.new_lines.len() && !m.matched_new[i] ==> #[trigger] m.final_new[i] == m.new_lines[i],
    ensures
        unmatched_added(m, k).len() + count_true(m.matched_new.take(k)) == k,
        forall|q: int|
            0 <= q < unmatched_added(m, k).len() ==> {
                &&& (#[trigger] unmatched_added(m, k)[q]).kind == ActionKind::Added
                &&& task_of_line(unmatched_added(m, k)[q].new_raw) == Some(unmatched_added(m, k)[q].task)
            },
    decreases k,
{
    if k > 0 {
        lemma_unmatched(m, k - 1);
        assert(m.matched_new.take(k).drop_last() =~= m.matched_new.take(k - 1));
        assert(task_of_line(m.new_lines[k - 1]) is Some);
        let r = unmatched_added(m, k - 1);
        let u = unmatched_added(m, k);
        assert forall|q: int| 0 <= q < u.len() implies {
            &&& (#[trigger] u[q]).kind == ActionKind::Added
            &&& task_of_line(u[q].new_raw) == Some(u[q].task)
        } by {
            if q < r.len() {
                assert(u[q] == r[q]);
            } else {
                assert(m.final_new[k - 1] == m.new_lines[k - 1]);
            }
        }
    }
}

/// A sync accounts for every new line of the todo file with exactly one
/// action: the number of actions it hands back equals the number of new
/// lines, whatever the user answers.
pub proof fn law_one_action_per_new_line(
    cache: Seq<Seq<char>>,
    file: Seq<Seq<char>>,
    auto_date: bool,
    today: Date,
    answers: Seq<bool>,
)
    requires
        today.is_valid(),
        cache.len() <= usize::MAX,
        file.len() <= usize::MAX,
        no_line_feeds(file),
    ensures
        ({
            let m = run(initial_model(cache, file, auto_date, today), answers);
            (m.actions + unmatched_added(m, m.new_lines.len() as int)).len() == m.new_lines.len()
        }),
{
    let todo = nonblank_lines(file);
    let m0 = initial_model(cache, file, auto_date, today);
    let m = run(m0, answers);
    assert({
        &&& m.new_lines == fresh_lines(cache, todo)
        &&& m.matched_new.len() == m.new_lines.len()
        &&& m.final_new.len() == m.new_lines.len()
        &&& m.actions.len() == count_true(m.matched_new)
        &&& forall|i: int|
            0 <= i < m.new_lines.len() && !m.matched_new[i] ==> #[trigger] m.final_new[i] == m.new_lines[i]
    }) by {
        law_start_satisfies_invariant(cache, file, auto_date, today);
        law_run_keeps_invariant(m0, answers, cache, todo);
    }
    lemma_new_lines_parse(cache, file);
    lemma_unmatched(m, m.new_lines.len() as int);
    assert(m.matched_new.take(m.new_lines.len() as int) =~= m.matched_new);
}

/// Every action of a sync carries the task that its new line holds, whatever
/// the user answers.
pub proof fn law_actions_carry_their_line_task(
    cache: Seq<Seq<char>>,
    file: Seq<Seq<char>>,
    auto_date: bool,
    today: Date,
    answers: Seq<bool>,
)
    requires
        today.is_valid(),
        cache.len() <= usize::MAX,
        file.len() <= usize::MAX,
        no_line_feeds(file),
    ensures
        ({
            let m = run(initial_model(cache, file, auto_date, today), answers);
            let all = m.actions + unmatched_added(m, m.new_lines.len() as int);
            forall|k: int| 0 <= k < all.len() ==> task_of_line((#[trigger] all[k]).new_raw) == Some(all[k].task)
        }),
{
    let todo = nonblank_lines(file);
    let m0 = initial_model(cache, file, auto_date, today);
    let m = run(m0, answers);
    assert({
        &&& m.new_lines == fresh_lines(cache, todo)
        &&& m.matched_new.len() == m.new_lines.len()
        &&& m.final_new.len() == m.new_lines.len()
        &&& forall|i: int|
            0 <= i < m.new_lines.len() && !m.matched_new[i] ==> #[trigger] m.final_new[i] == m.new_lines[i]
        &&& forall|k: int|
            0 <= k < m.actions.len() ==> task_of_line((#[trigger] m.actions[k]).new_raw) == Some(m.actions[k].task)
    }) by {
        law_start_satisfies_invariant(cache, file, auto_date, today);
        law_run_keeps_invariant(m0, answers, cache, todo);
    }
    lemma_new_lines_parse(cache, file);
    let u = unmatched_added(m, m.new_lines.len() as int);
    lemma_unmatched(m, m.new_lines.len() as int);
    let all = m.actions + u;
    assert forall|k: int| 0 <= k < all.len() implies task_of_line((#[trigger] all[k]).new_raw) == Some(all[k].task) by {
        if k < m.actions.len() {
            assert(all[k] == m.actions[k]);
        } else {
            assert(all[k] == u[k - m.actions.len()]);
        }
    }
}

/// Every action of a sync fits its kind, whatever the user answers: a
/// completion replaces an open line by a done one, a reopening a done line by
/// an open one, and a typo correction keeps the line's status.
pub proof fn law_actions_fit_their_kind(
    cache: Seq<Seq<char>>,
    file: Seq<Seq<char>>,
    auto_date: bool,
    today: Date,
    answers: Seq<bool>,
)
    requires
        today.is_valid(),
        cache.len() <= usize::MAX,
        file.len() <= usize::MAX,
        no_line_feeds(file),
    ensures
        ({
            let m = run(initial_model(cache, file, auto_date, today), answers);
            let all = m.actions + unmatched_added(m, m.new_lines.len() as int);
            forall|k: int| 0 <= k < all.len() ==> kind_fits(#[trigger] all[k])
        }),
{
    let todo = nonblank_lines(file);
    let m0 = initial_model(cache, file, auto_date, today);
    let m = run(m0, answers);
    assert({
        &&& m.new_lines == fresh_lines(cache, todo)
        &&& m.matched_new.len() == m.new_lines.len()
        &&& m.final_new.len() == m.new_lines.len()
        &&& forall|i: int|
            0 <= i < m.new_lines.len() && !m.matched_new[i] ==> #[trigger] m.final_new[i] == m.new_lines[i]
        &&& forall|k: int| 0 <= k < m.actions.len() ==> kind_fits(#[trigger] m.actions[k])
    }) by {
        law_start_satisfies_invariant(cache, file, auto_date, today);
        law_run_keeps_invariant(m0, answers, cache, todo);
    }
    lemma_new_lines_parse(cache, file);
    let u = unmatched_added(m, m.new_lines.len() as int);
    lemma_unmatched(m, m.new_lines.len() as int);
    let all = m.actions + u;
    assert forall|k: int| 0 <= k < all.len() implies kind_fits(#[trigger] all[k]) by {
        if k < m.actions.len() {
            assert(all[k] == m.actions[k]);
        } else {
            assert(all[k] == u[k - m.actions.len()]);
        }
    }
}

/// In a sync, every action other than an addition replaces a cached line that
/// the todo file no longer holds, and no two actions replace the same one,
/// whatever the user answers.
pub proof fn law_vanished_line_replaced_at_most_once(
    cache: Seq<Seq<char>>,
    file: Seq<Seq<char>>,
    auto_date: bool,
    today: Date,
    answers: Seq<bool>,
)
    requires
        today.is_valid(),
        cache.len() <= usize::MAX,
        file.len() <= usize::MAX,
        no_line_feeds(file),
    ensures
        ({
            let m = run(initial_model(cache, file, auto_date, today), answers);
            let all = m.actions + unmatched_added(m, m.new_lines.len() as int);
            &&& forall|k: int|
                0 <= k < all.len() && (#[trigger] all[k]).kind != ActionKind::Added ==> m.missing.contains(
                    all[k].old_raw,
                )
            &&& forall|k1: int, k2: int|
                0 <= k1 < k2 < all.len() && (#[trigger] all[k1]).kind != ActionKind::Added && (#[trigger] all[k2]).kind
                    != ActionKind::Added ==> all[k1].old_raw != all[k2].old_raw
        }),
{
    let todo = nonblank_lines(file);
    let m0 = initial_model(cache, file, auto_date, today);
    let m = run(m0, answers);
    assert({
        &&& m.new_lines == fresh_lines(cache, todo)
        &&& m.matched_new.len() == m.new_lines.len()
        &&& m.final_new.len() == m.new_lines.len()
        &&& forall|i: int|
            0 <= i < m.new_lines.len() && !m.matched_new[i] ==> #[trigger] m.final_new[i] == m.new_lines[i]
        &&& replacements_matched(m)
    }) by {
        law_start_satisfies_invariant(cache, file, auto_date, today);
        law_run_keeps_invariant(m0, answers, cache, todo);
    }
    lemma_new_lines_parse(cache, file);
    let u = unmatched_added(m, m.new_lines.len() as int);
    lemma_unmatched(m, m.new_lines.len() as int);
    let all = m.actions + u;
    assert forall|k: int| 0 <= k < all.len() && (#[trigger] all[k]).kind != ActionKind::Added implies m.missing.contains(all[k].old_raw) by {
        if k < m.actions.len() {
            assert(all[k] == m.actions[k]);
            let j = choose|j: int| 0 <= j < m.missing.len() && m.matched_missing[j] && m.missing[j] == m.actions[k].old_raw;
        } else {
            assert(all[k] == u[k - m.actions.len()]);
        }
    }
    assert forall|k1: int, k2: int|
        0 <= k1 < k2 < all.len() && (#[trigger] all[k1]).kind != ActionKind::Added && (#[trigger] all[k2]).kind
            != ActionKind::Added implies all[k1].old_raw != all[k2].old_raw by {
        if k2 >= m.actions.len() {
            assert(all[k2] == u[k2 - m.actions.len()]);
        } else {
            assert(all[k1] == m.actions[k1]);
            assert(all[k2] == m.actions[k2]);
        }
    }
}

/// Automatic completion dating gives a newly completed task today as its
/// completion date: the dated line reads as a task with the same priority,
/// today as completion date, and as creation date the day that the line's
/// first date named before (the todo.txt order of a done task's dates).
pub proof fn law_dated_completion_is_today(line: Seq<char>, t: TaskView, today: Date)
    requires
        task_of_line(line) == Some(t),
        is_done_line(line),
        today.is_valid(),
    ensures
        task_of_line(dated_completion(line, t, today)) matches Some(u) && u.completion_date == Some(
            today,
        ) && u.creation_date == t.completion_date && u.priority == t.priority,
{
    let d = dated_completion(line, t, today);
    let k: int = if t.priority is Some { 6 } else { 2 };
    let dt = date_text(today);
    lemma_dated_parses(line, t, today);
    law_date_text_reads_back(today);
    lemma_date_text_has_no_newline(today);
    assert(line.take(2) =~= seq!['x', ' ']);
    assert(has_priority_at(line, 2) == (t.priority is Some));
    assert(d.len() == line.len() + 11);
    assert(forall|i: int| 0 <= i < k ==> d[i] == line[i]);
    assert(forall|i: int| 0 <= i < 10 ==> #[trigger] d[k + i] == dt[i]);
    assert(d[k + 10] == ' ');
    assert(forall|i: int| 0 <= i < line.len() - k ==> #[trigger] d[k + 11 + i] == line[k + i]);
    assert(d.take(2) =~= seq!['x', ' ']);
    assert(has_priority_at(d, 2) == has_priority_at(line, 2)) by {
        if k == 2 {
            assert(d[2] == dt[0]);
        }
    }
    assert(d.subrange(k, k + 10) =~= dt);
    assert(has_date_at(d, k));
    assert(has_date_at(d, k + 11) == has_date_at(line, k)) by {
        if d.len() >= k + 22 {
            assert(d.subrange(k + 11, k + 21) =~= line.subrange(k, k + 10));
            assert(d[k + 21] == line[k + 10]);
        }
    }
    if has_date_at(line, k) {
        assert(d.subrange(k + 11, k + 21) =~= line.subrange(k, k + 10));
    }
}

/// Whether every new line, in the form it will have in the file, is not blank.
pub open spec fn finals_not_blank(m: SyncModel) -> bool {
    forall|i: int| 0 <= i < m.final_new.len() ==> trim(#[trigger] m.final_new[i]).len() > 0
}

proof fn lemma_consider_finals(m: SyncModel, cache: Seq<Seq<char>>, todo: Seq<Seq<char>>)
    requires
        sync_inv(m, cache, todo),
        finals_not_blank(m),
        !m.awaiting,
        m.next < m.candidates.len(),
    ensures
        finals_not_blank(consider(m)),
{
    let c = m.candidates[m.next];
    let i = c.new_idx as int;
    let j = c.missing_idx as int;
    let m2 = consider(m);
    if !(m.matched_new[i] || m.matched_missing[j]) {
        let old_line = m.missing[j];
        let new_line = m.new_lines[i];
        let task = task_of_line(new_line).unwrap();
        if !is_done_line(old_line) && is_done_line(new_line) && m.auto_date && needs_completion_date(
            task,
            task_of_line(old_line),
        ) {
            lemma_dated_parses(new_line, task, m.today);
            let dated = dated_completion(new_line, task, m.today);
            crate::task::law_task_iff_not_blank(dated);
            assert forall|k: int| 0 <= k < m2.final_new.len() implies trim(#[trigger] m2.final_new[k]).len() > 0 by {
                if k != i {
                    assert(m2.final_new[k] == m.final_new[k]);
                }
            }
        }
    }
}

proof fn lemma_advance_finals(m: SyncModel, cache: Seq<Seq<char>>, todo: Seq<Seq<char>>)
    requires
        sync_inv(m, cache, todo),
        finals_not_blank(m),
    ensures
        finals_not_blank(advance(m)),
    decreases m.candidates.len() - m.next,
{
    if !(m.awaiting || m.next < 0 || m.next >= m.candidates.len()) {
        lemma_consider_inv(m, cache, todo);
        lemma_consider_finals(m, cache, todo);
        let m2 = consider(m);
        if !(m2.awaiting || m2.next != m.next + 1) {
            lemma_advance_finals(m2, cache, todo);
        }
    }
}

proof fn lemma_run_finals(m: SyncModel, answers: Seq<bool>, cache: Seq<Seq<char>>, todo: Seq<Seq<char>>)
    requires
        sync_inv(m, cache, todo),
        finals_not_blank(m),
    ensures
        finals_not_blank(run(m, answers)),
    decreases answers.len(),
{
    law_advance_keeps_invariant(m, cache, todo);
    lemma_advance_finals(m, cache, todo);
    if answers.len() > 0 {
        let a = advance(m);
        law_answer_keeps_invariant(a, answers[0], cache, todo);
        assert(answered(a, answers[0]).final_new == a.final_new);
        lemma_run_finals(answered(a, answers[0]), answers.drop_first(), cache, todo);
    }
}

proof fn lemma_nonblank_has(file: Seq<Seq<char>>, l: Seq<char>)
    requires
        file.contains(l),
        trim(l).len() > 0,
    ensures
        nonblank_lines(file).contains(l),
    decreases file.len(),
{
    let q = choose|q: int| 0 <= q < file.len() && file[q] == l;
    if q == file.len() - 1 {
        let r = nonblank_lines(file);
        assert(r[r.len() - 1] == l);
    } else {
        assert(file.drop_last()[q] == l);
        lemma_nonblank_has(file.drop_last(), l);
        let r0 = nonblank_lines(file.drop_last());
        let p = choose|p: int| 0 <= p < r0.len() && r0[p] == l;
        assert(nonblank_lines(file)[p] == l);
    }
}

proof fn lemma_run_idle(m: SyncModel, answers: Seq<bool>)
    requires
        m.candidates.len() == 0,
        m.next == 0,
        !m.awaiting,
    ensures
        run(m, answers) == m,
    decreases answers.len(),
{
    if answers.len() > 0 {
        lemma_run_idle(m, answers.drop_first());
    }
}

/// The cache after a sync's changes are applied: the cached lines that did
/// not vanish, then the new lines to cache.
pub open spec fn cache_after_sync(cache: Seq<Seq<char>>, m: SyncModel) -> Seq<Seq<char>> {
    cache.filter(|l: Seq<char>| !m.missing.contains(l)) + lines_to_cache(m, m.new_lines.len() as int)
}

/// The lines of the todo file after a sync's rewrites.
pub open spec fn file_after_sync(file: Seq<Seq<char>>, m: SyncModel) -> Seq<Seq<char>> {
    file.map_values(|l: Seq<char>| rewritten(l, m.rewrites))
}

proof fn lemma_cache_after_contains(cache: Seq<Seq<char>>, m: SyncModel, l: Seq<char>)
    ensures
        cache_after_sync(cache, m).contains(l) <==> ((cache.contains(l) && !m.missing.contains(l))
            || lines_to_cache(m, m.new_lines.len() as int).contains(l)),
{
    broadcast use vstd::seq_lib::group_seq_properties;
    let pred = |x: Seq<char>| !m.missing.contains(x);
    let f = cache.filter(pred);
    let t = lines_to_cache(m, m.new_lines.len() as int);
    let c2 = f + t;
    if c2.contains(l) {
        let k = choose|k: int| 0 <= k < c2.len() && c2[k] == l;
        if k < f.len() {
            assert(f[k] == l);
            assert(f.contains(l));
            cache.lemma_filter_contains_rev(pred, l);
            cache.filter_lemma(pred);
            assert(pred(f[k]));
        } else {
            assert(t[k - f.len()] == l);
        }
    }
    if cache.contains(l) && !m.missing.contains(l) {
        let q = choose|q: int| 0 <= q < cache.len() && cache[q] == l;
        cache.lemma_filter_contains(pred, q);
        let k = choose|k: int| 0 <= k < f.len() && f[k] == l;
        assert(c2[k] == l);
    }
    if t.contains(l) {
        let k = choose|k: int| 0 <= k < t.len() && t[k] == l;
        assert(c2[f.len() + k] == l);
    }
}

/// Syncing a second time changes nothing: once a sync's changes are applied
/// (the cache updated and the todo file rewritten), a new sync of the same
/// file finds no new line and no vanished one, so it asks nothing and hands
/// back no action, no cache change and no rewrite, whatever was answered.
pub proof fn law_second_sync_changes_nothing(
    cache: Seq<Seq<char>>,
    file: Seq<Seq<char>>,
    auto_date: bool,
    today: Date,
    answers: Seq<bool>,
    answers2: Seq<bool>,
)
    requires
        today.is_valid(),
        cache.len() <= usize::MAX,
        file.len() <= usize::MAX,
        no_line_feeds(file),
    ensures
        ({
            let m = run(initial_model(cache, file, auto_date, today), answers);
            let m2 = run(
                initial_model(cache_after_sync(cache, m), file_after_sync(file, m), auto_date, today),
                answers2,
            );
            &&& m2.new_lines.len() == 0
            &&& m2.missing.len() == 0
            &&& m2.candidates.len() == 0
            &&& m2.actions.len() == 0
            &&& m2.rewrites.len() == 0
        }),
{
    let todo = nonblank_lines(file);
    let m0 = initial_model(cache, file, auto_date, today);
    let m = run(m0, answers);
    law_start_satisfies_invariant(cache, file, auto_date, today);
    lemma_fresh(cache, todo);
    lemma_nonblank(file);
    assert(finals_not_blank(m0)) by {
        assert forall|i: int| 0 <= i < m0.final_new.len() implies trim(#[trigger] m0.final_new[i]).len() > 0 by {
            assert(m0.new_lines.contains(m0.final_new[i]));
        }
    }
    lemma_run_finals(m0, answers, cache, todo);
    assert({
        &&& m.new_lines == fresh_lines(cache, todo)
        &&& m.final_new.len() == m.new_lines.len()
        &&& forall|i: int|
            0 <= i < m.new_lines.len() ==> rewritten(#[trigger] m.new_lines[i], m.rewrites) == m.final_new[i]
        &&& forall|k: int|
            0 <= k < m.rewrites.len() ==> exists|i: int|
                0 <= i < m.new_lines.len() && m.matched_new[i] && m.new_lines[i] == (#[trigger] m.rewrites[k]).0
    }) by {
        law_run_keeps_invariant(m0, answers, cache, todo);
    }
    let c2 = cache_after_sync(cache, m);
    let f2 = file_after_sync(file, m);
    let t2 = nonblank_lines(f2);
    let rw = todo.map_values(|t: Seq<char>| rewritten(t, m.rewrites));
    // The rewritten form of a non-blank file line is not blank, and a blank
    // line is left as it is.
    assert forall|t: Seq<char>| file.contains(t) implies (trim(t).len() > 0 ==> todo.contains(t))
        && (trim(rewritten(t, m.rewrites)).len() > 0 ==> todo.contains(t))
        && (todo.contains(t) ==> trim(rewritten(t, m.rewrites)).len() > 0) by {
        if trim(t).len() > 0 {
            lemma_nonblank_has(file, t);
        }
        if has_key(m.rewrites, t) {
            let k = choose|k: int| 0 <= k < m.rewrites.len() && m.rewrites[k].0 == t;
            let i = choose|i: int|
                0 <= i < m.new_lines.len() && m.matched_new[i] && m.new_lines[i] == (#[trigger] m.rewrites[k]).0;
            assert(m.new_lines.contains(t));
            assert(rewritten(m.new_lines[i], m.rewrites) == m.final_new[i]);
        } else {
            lemma_rewritten_push(t, m.rewrites, (t, t));
            if todo.contains(t) {
                assert(nonblank_lines(file).contains(t));
            }
        }
    }
    // No line is new in the second sync.
    lemma_fresh(c2, t2);
    if fresh_lines(c2, t2).len() > 0 {
        let l = fresh_lines(c2, t2)[0];
        assert(fresh_lines(c2, t2).contains(l));
        lemma_nonblank(f2);
        assert(f2.contains(l));
        let q = choose|q: int| 0 <= q < f2.len() && f2[q] == l;
        let t = file[q];
        assert(file.contains(t));
        assert(todo.contains(t));
        let p = choose|p: int| 0 <= p < todo.len() && todo[p] == t;
        assert(rw[p] == l);
        law_cache_follows_file(cache, file, auto_date, today, answers, l);
        lemma_cache_after_contains(cache, m, l);
        assert(false);
    }
    // No cached line vanishes in the second sync.
    lemma_vanished(c2, t2);
    if vanished_lines(c2, t2).len() > 0 {
        let l = vanished_lines(c2, t2)[0];
        assert(vanished_lines(c2, t2).contains(l));
        lemma_cache_after_contains(cache, m, l);
        law_cache_follows_file(cache, file, auto_date, today, answers, l);
        let p = choose|p: int| 0 <= p < rw.len() && rw[p] == l;
        let t = todo[p];
        assert(todo.contains(t));
        let q = choose|q: int| 0 <= q < file.len() && file[q] == t;
        assert(file.contains(t));
        assert(f2[q] == l);
        assert(f2.contains(l));
        lemma_nonblank_has(f2, l);
        assert(false);
    }
    let n0 = initial_model(c2, f2, auto_date, today);
    assert(n0.new_lines =~= Seq::<Seq<char>>::empty());
    assert(n0.missing =~= Seq::<Seq<char>>::empty());
    assert(crate::sync::candidates_upto(n0.new_lines, n0.missing, 0) =~= Seq::<crate::sync::Candidate>::empty());
    assert(n0.candidates =~= Seq::<crate::sync::Candidate>::empty());
    lemma_run_idle(n0, answers2);
}

} // verus!
