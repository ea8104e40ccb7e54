use vstd::prelude::*;
use indexmap::IndexMap;
use crate::sections::{declared_section, heading_name, parse_section, section_entries, string_views};
use crate::text::{
    lemma_lines_step, chars_of, find_newline, lines, lines_from, strip_leading,
    strip_leading_range, substring, trim, trim_range,
};

verus! {

#[verifier::external_type_specification]
#[verifier::external_body]
#[verifier::reject_recursive_types(K)]
#[verifier::reject_recursive_types(V)]
#[verifier::reject_recursive_types(S)]
pub struct ExIndexMap<K, V, S>(IndexMap<K, V, S>);

/// The entries of a map from section names to their items, in the map's order.
pub uninterp spec fn section_map_entries(m: IndexMap<String, Vec<String>>) -> Seq<(Seq<char>, Seq<Seq<char>>)>;

/// The items that `entries` holds for `key`: those of its first entry with that key.
pub open spec fn entries_lookup(entries: Seq<(Seq<char>, Seq<Seq<char>>)>, key: Seq<char>) -> Option<Seq<Seq<char>>>
    decreases entries.len(),
{
    if entries.len() == 0 {
        None
    } else if entries[0].0 == key {
        Some(entries[0].1)
    } else {
        entries_lookup(entries.drop_first(), key)
    }
}

/// The position of the first entry with `key`, or the number of entries.
pub open spec fn entry_position(entries: Seq<(Seq<char>, Seq<Seq<char>>)>, key: Seq<char>) -> int
    decreases entries.len(),
{
    if entries.len() == 0 {
        0
    } else if entries[0].0 == key {
        0
    } else {
        1 + entry_position(entries.drop_first(), key)
    }
}

/// The entries after `IndexMap::insert(key, items)`: an entry with an equal
/// key keeps its place and takes the items; otherwise the entry comes last.
pub open spec fn entries_insert(
    entries: Seq<(Seq<char>, Seq<Seq<char>>)>,
    key: Seq<char>,
    items: Seq<Seq<char>>,
) -> Seq<(Seq<char>, Seq<Seq<char>>)> {
    let p = entry_position(entries, key);
    if p < entries.len() {
        entries.update(p, (key, items))
    } else {
        entries.push((key, items))
    }
}

/// Calls `IndexMap::new`: a map without entries.
#[verifier::external_body]
pub(crate) fn section_map_new() -> (r: IndexMap<String, Vec<String>>)
    ensures
        section_map_entries(r) == Seq::<(Seq<char>, Seq<Seq<char>>)>::empty(),
{
    IndexMap::new()
}

/// Calls `IndexMap::get`: the items of the entry with key `key`, if there is one.
#[verifier::external_body]
pub(crate) fn section_map_get<'a>(m: &'a IndexMap<String, Vec<String>>, key: &String) -> (r: Option<&'a Vec<String>>)
    ensures
        match r {
            Some(v) => entries_lookup(section_map_entries(*m), key@) == Some(string_views(v@)),
            None => entries_lookup(section_map_entries(*m), key@) is None,
        },
{
    m.get(key)
}

/// Calls `IndexMap::insert`: an entry with key `key` keeps its place and takes
/// `items`; without one, the new entry comes last.
#[verifier::external_body]
pub(crate) fn section_map_insert(m: &mut IndexMap<String, Vec<String>>, key: String, items: Vec<String>)
    ensures
        section_map_entries(*final(m)) == entries_insert(
            section_map_entries(*old(m)),
            key@,
            string_views(items@),
        ),
{
    m.insert(key, items);
}

/// Calls `IndexMap::contains_key`.
#[verifier::external_body]
pub(crate) fn section_map_contains(m: &IndexMap<String, Vec<String>>, key: &String) -> (r: bool)
    ensures
        r == entries_lookup(section_map_entries(*m), key@) is Some,
{
    m.contains_key(key)
}

/// The bullet lines `- item` of `items`, each ended by a line feed.
pub open spec fn bullet_lines(items: Seq<Seq<char>>) -> Seq<char>
    decreases items.len(),
{
    if items.len() == 0 {
        seq![]
    } else {
        bullet_lines(items.drop_last()) + seq!['-', ' '] + items.last() + seq!['\n']
    }
}

/// The block of one section in the log template: its bracketed header, its
/// items as bullets, and a blank line.
pub open spec fn section_block(name: Seq<char>, items: Option<Seq<Seq<char>>>) -> Seq<char> {
    seq!['['] + name + seq![']', '\n'] + match items {
        Some(v) => bullet_lines(v),
        None => seq![],
    } + seq!['\n']
}

/// The log template: the block of each section, in order, with the items
/// already logged under it.
pub open spec fn template_text(
    sections: Seq<Seq<char>>,
    existing: Seq<(Seq<char>, Seq<Seq<char>>)>,
) -> Seq<char>
    decreases sections.len(),
{
    if sections.len() == 0 {
        seq![]
    } else {
        template_text(sections.drop_last(), existing) + section_block(
            sections.last(),
            entries_lookup(existing, sections.last()),
        )
    }
}

/// The text the editor opens with for today's log: a block per section,
/// holding the items already logged under it.
pub fn log_template(sections: &Vec<String>, existing: &IndexMap<String, Vec<String>>) -> (r: String)
    ensures
        r@ == template_text(string_views(sections@), section_map_entries(*existing)),
{
    let ghost ex = section_map_entries(*existing);
    let mut out = String::new();
    let mut i: usize = 0;
    while i < sections.len()
        invariant
            i <= sections@.len(),
            ex == section_map_entries(*existing),
            out@ == template_text(string_views(sections@).take(i as int), ex),
        decreases sections@.len() - i,
    {
        proof {
            let t = string_views(sections@).take(i + 1);
            assert(t.drop_last() =~= string_views(sections@).take(i as int));
            reveal_strlit("[");
            reveal_strlit("]\n");
            reveal_strlit("- ");
            reveal_strlit("\n");
        }
        let ghost before = out@;
        out.append("[");
        out.append(sections[i].as_str());
        out.append("]\n");
        let ghost header = out@;
        match section_map_get(existing, &sections[i]) {
            Some(items) => {
                let mut j: usize = 0;
                while j < items.len()
                    invariant
                        j <= items@.len(),
                        out@ == header + bullet_lines(string_views(items@).take(j as int)),
                    decreases items@.len() - j,
                {
                    proof {
                        let t = string_views(items@).take(j + 1);
                        assert(t.drop_last() =~= string_views(items@).take(j as int));
                        reveal_strlit("- ");
                        reveal_strlit("\n");
                    }
                    out.append("- ");
                    out.append(items[j].as_str());
                    out.append("\n");
                    j = j + 1;
                }
                proof {
                    assert(string_views(items@).take(items@.len() as int) =~= string_views(items@));
                }
            },
            None => {},
        }
        out.append("\n");
        proof {
            assert(out@ =~= before + section_block(
                sections@[i as int]@,
                entries_lookup(ex, sections@[i as int]@),
            ));
        }
        i = i + 1;
    }
    proof {
        assert(string_views(sections@).take(sections@.len() as int) =~= string_views(sections@));
    }
    out
}

/// The entries after recording, for each of `names` in turn, its entries in `content`.
pub open spec fn with_sections(
    base: Seq<(Seq<char>, Seq<Seq<char>>)>,
    names: Seq<Seq<char>>,
    content: Seq<char>,
) -> Seq<(Seq<char>, Seq<Seq<char>>)>
    decreases names.len(),
{
    if names.len() == 0 {
        base
    } else {
        entries_insert(
            with_sections(base, names.drop_last(), content),
            names.last(),
            section_entries(content, names.last()),
        )
    }
}

/// The entries after adding, for each line of `ls` that declares a section
/// not yet present, that section's entries in `content`.
pub open spec fn with_added_sections(
    base: Seq<(Seq<char>, Seq<Seq<char>>)>,
    ls: Seq<Seq<char>>,
    content: Seq<char>,
) -> Seq<(Seq<char>, Seq<Seq<char>>)>
    decreases ls.len(),
{
    if ls.len() == 0 {
        base
    } else {
        let e = with_added_sections(base, ls.drop_last(), content);
        match declared_section(trim(ls.last())) {
            Some(name) => if entries_lookup(e, name) is None {
                entries_insert(e, name, section_entries(content, name))
            } else {
                e
            },
            None => e,
        }
    }
}

/// The log that an edited template records: the entries of each configured
/// section, in order, then those of every further section the text declares,
/// in the order of their first header.
pub open spec fn collected_log(sections: Seq<Seq<char>>, content: Seq<char>) -> Seq<
    (Seq<char>, Seq<Seq<char>>),
> {
    with_added_sections(with_sections(seq![], sections, content), lines(content), content)
}

/// Reads the edited log: the entries of each configured section, then those
/// of every further section the text declares.
pub fn collect_log(sections: &Vec<String>, content: &str) -> (r: IndexMap<String, Vec<String>>)
    ensures
        section_map_entries(r) == collected_log(string_views(sections@), content@),
{
    let mut result = section_map_new();
    let mut i: usize = 0;
    while i < sections.len()
        invariant
            i <= sections@.len(),
            section_map_entries(result) == with_sections(
                seq![],
                string_views(sections@).take(i as int),
                content@,
            ),
        decreases sections@.len() - i,
    {
        proof {
            let t = string_views(sections@).take(i + 1);
            assert(t.drop_last() =~= string_views(sections@).take(i as int));
        }
        let items = parse_section(content, sections[i].as_str());
        section_map_insert(&mut result, sections[i].clone(), items);
        i = i + 1;
    }
    proof {
        assert(string_views(sections@).take(sections@.len() as int) =~= string_views(sections@));
    }
    let ghost base = section_map_entries(result);
    let v = chars_of(content);
    let n = v.len();
    let mut k: usize = 0;
    let ghost mut done: Seq<Seq<char>> = seq![];
    while k < n
        invariant
            n == v@.len(),
            v@ == content@,
            k <= n,
            done + lines_from(v@, k as int) == lines(content@),
            section_map_entries(result) == with_added_sections(base, done, content@),
        decreases n - k,
    {
        proof {
            lemma_lines_step(v@, k as int);
        }
        let e = find_newline(&v, k);
        let (a, b) = trim_range(&v, k, e);
        let ghost line = v@.subrange(k as int, e as int);
        let ghost t = v@.subrange(a as int, b as int);
        let bracketed = b - a >= 2 && v[a] == '[' && v[b - 1] == ']';
        let mut name: Option<String> = None;
        if bracketed && b - a > 2 {
            let s = substring(content, a + 1, b - 1);
            proof {
                assert(s@ =~= t.subrange(1, t.len() - 1));
            }
            name = Some(s);
        } else if b - a >= 1 && v[a] == '#' {
            let h = strip_leading_range(&v, a, b, '#');
            let (ha, hb) = trim_range(&v, h, b);
            proof {
                assert(v@.subrange(h as int, b as int) == strip_leading(t, '#'));
                assert(v@.subrange(ha as int, hb as int) == heading_name(t));
            }
            if hb > ha {
                name = Some(substring(content, ha, hb));
            }
        }
        proof {
            assert(trim(line) == t);
            assert(match declared_section(t) {
                Some(nm) => name matches Some(s) && s@ == nm,
                None => name is None,
            });
        }
        match name {
            Some(s) => {
                if !section_map_contains(&result, &s) {
                    let items = parse_section(content, s.as_str());
                    section_map_insert(&mut result, s, items);
                }
            },
            None => {},
        }
        proof {
            let d2 = done.push(line);
            assert(d2.drop_last() =~= done);
            assert(lines_from(v@, k as int)[0] == line);
            let nk = if e < n { e + 1 } else { n as int };
            assert(lines_from(v@, k as int).drop_first() == lines_from(v@, nk));
            assert(d2 + lines_from(v@, nk) =~= done + lines_from(v@, k as int));
            done = d2;
        }
        k = if e < n { e + 1 } else { n };
    }
    proof {
        assert(lines_from(v@, k as int) =~= Seq::<Seq<char>>::empty());
        assert(done =~= lines(content@));
    }
    result
}

/// The entries a log starts from when the stored lists are shown under the
/// first sections of the template, in order: the `k`-th section gets the
/// `k`-th list, for the first `k` sections.
pub open spec fn prefill_entries(
    sections: Seq<Seq<char>>,
    stored: Seq<Seq<Seq<char>>>,
    k: int,
) -> Seq<(Seq<char>, Seq<Seq<char>>)>
    decreases k,
{
    if k <= 0 {
        seq![]
    } else {
        entries_insert(prefill_entries(sections, stored, k - 1), sections[k - 1], stored[k - 1])
    }
}

/// How many of the stored lists a template shows: one per section, up to three.
pub open spec fn shown_lists(sections: Seq<Seq<char>>) -> int {
    if sections.len() < 3 {
        sections.len() as int
    } else {
        3
    }
}

/// The stored list at position `k` after the log was edited: what the
/// edited log holds under the `k`-th section of the template, or the stored
/// list itself when the template has no such section or the log none of it.
pub open spec fn logged_column(
    sections: Seq<Seq<char>>,
    logged: Seq<(Seq<char>, Seq<Seq<char>>)>,
    stored: Seq<Seq<char>>,
    k: int,
) -> Seq<Seq<char>> {
    if k < sections.len() {
        match entries_lookup(logged, sections[k]) {
            Some(v) => v,
            None => stored,
        }
    } else {
        stored
    }
}

/// A copy of a list of strings.
fn copy_list(v: &Vec<String>) -> (r: Vec<String>)
    ensures
        string_views(r@) == string_views(v@),
{
    let mut out: Vec<String> = Vec::new();
    let mut i: usize = 0;
    while i < v.len()
        invariant
            i <= v@.len(),
            out@.len() == i,
            forall|k: int| 0 <= k < i ==> (#[trigger] out@[k])@ == v@[k]@,
        decreases v@.len() - i,
    {
        out.push(v[i].clone());
        i = i + 1;
    }
    proof {
        assert(string_views(out@) =~= string_views(v@));
    }
    out
}

/// The log that the editor opens with: the stored worked, failed and output
/// lists under the template's first three sections, in that order (a
/// template with fewer sections shows fewer lists).
pub fn prefilled_log(
    sections: &Vec<String>,
    worked: &Vec<String>,
    failed: &Vec<String>,
    output: &Vec<String>,
) -> (r: IndexMap<String, Vec<String>>)
    ensures
        section_map_entries(r) == prefill_entries(
            string_views(sections@),
            seq![string_views(worked@), string_views(failed@), string_views(output@)],
            shown_lists(string_views(sections@)),
        ),
{
    let ghost names = string_views(sections@);
    let ghost stored = seq![string_views(worked@), string_views(failed@), string_views(output@)];
    let mut result = section_map_new();
    let mut k: usize = 0;
    while k < 3 && k < sections.len()
        invariant
            k <= 3,
            k <= sections@.len(),
            names == string_views(sections@),
            stored == seq![string_views(worked@), string_views(failed@), string_views(output@)],
            section_map_entries(result) == prefill_entries(names, stored, k as int),
        decreases 3 - k,
    {
        let items = if k == 0 {
            copy_list(worked)
        } else if k == 1 {
            copy_list(failed)
        } else {
            copy_list(output)
        };
        assert(string_views(items@) == stored[k as int]);
        assert(names[k as int] == sections@[k as int]@);
        section_map_insert(&mut result, sections[k].clone(), items);
        k = k + 1;
    }
    result
}

/// The stored list at position `k` (0, 1 or 2) after editing.
fn column_after(
    sections: &Vec<String>,
    logged: &IndexMap<String, Vec<String>>,
    stored: &Vec<String>,
    k: usize,
) -> (r: Vec<String>)
    ensures
        string_views(r@) == logged_column(
            string_views(sections@),
            section_map_entries(*logged),
            string_views(stored@),
            k as int,
        ),
{
    if k < sections.len() {
        assert(string_views(sections@)[k as int] == sections@[k as int]@);
        match section_map_get(logged, &sections[k]) {
            Some(v) => copy_list(v),
            None => copy_list(stored),
        }
    } else {
        copy_list(stored)
    }
}

/// The worked, failed and output lists after the log was edited: each takes
/// what the edited log holds under the template's first, second and third
/// section, and keeps its stored items when there is no such section or the
/// log holds none of it.
pub fn logged_columns(
    sections: &Vec<String>,
    logged: &IndexMap<String, Vec<String>>,
    worked: &Vec<String>,
    failed: &Vec<String>,
    output: &Vec<String>,
) -> (r: (Vec<String>, Vec<String>, Vec<String>))
    ensures
        string_views(r.0@) == logged_column(
            string_views(sections@),
            section_map_entries(*logged),
            string_views(worked@),
            0,
        ),
        string_views(r.1@) == logged_column(
            string_views(sections@),
            section_map_entries(*logged),
            string_views(failed@),
            1,
        ),
        string_views(r.2@) == logged_column(
            string_views(sections@),
            section_map_entries(*logged),
            string_views(output@),
            2,
        ),
{
    (
        column_after(sections, logged, worked, 0),
        column_after(sections, logged, failed, 1),
        column_after(sections, logged, output, 2),
    )
}

/// The positions of the configured items that were already logged today, in
/// order: those to show as checked.
pub open spec fn checked_positions(items: Seq<Seq<char>>, logged: Seq<Seq<char>>, k: int) -> Seq<usize>
    decreases k,
{
    if k <= 0 {
        seq![]
    } else if logged.contains(items[k - 1]) {
        checked_positions(items, logged, k - 1).push((k - 1) as usize)
    } else {
        checked_positions(items, logged, k - 1)
    }
}

proof fn lemma_checked_positions(items: Seq<Seq<char>>, logged: Seq<Seq<char>>, k: int)
    requires
        0 <= k <= items.len(),
        items.len() <= usize::MAX,
    ensures
        forall|q: int|
            0 <= q < k ==> (checked_positions(items, logged, k).contains(q as usize) <==> logged.contains(
                #[trigger] items[q],
            )),
        forall|p: int|
            0 <= p < checked_positions(items, logged, k).len() ==> (#[trigger] checked_positions(
                items,
                logged,
                k,
            )[p]) < k,
        forall|p1: int, p2: int|
            0 <= p1 < p2 < checked_positions(items, logged, k).len() ==> checked_positions(
                items,
                logged,
                k,
            )[p1] < checked_positions(items, logged, k)[p2],
    decreases k,
{
    if k > 0 {
        lemma_checked_positions(items, logged, k - 1);
        let r0 = checked_positions(items, logged, k - 1);
        let r = checked_positions(items, logged, k);
        assert forall|q: int| 0 <= q < k implies (r.contains(q as usize) <==> logged.contains(
            #[trigger] items[q],
        )) by {
            if logged.contains(items[k - 1]) {
                assert(r == r0.push((k - 1) as usize));
                if q == k - 1 {
                    assert(r[r0.len() as int] == (k - 1) as usize);
                } else {
                    if r.contains(q as usize) {
                        let p = choose|p: int| 0 <= p < r.len() && r[p] == q as usize;
                        if p < r0.len() {
                            assert(r0[p] == q as usize);
                        }
                    }
                    if r0.contains(q as usize) {
                        let p = choose|p: int| 0 <= p < r0.len() && r0[p] == q as usize;
                        assert(r[p] == q as usize);
                    }
                }
            } else {
                if q == k - 1 && r.contains(q as usize) {
                    let p = choose|p: int| 0 <= p < r.len() && r[p] == q as usize;
                    assert(r0[p] < k - 1);
                }
            }
        }
    }
}

/// The outputs shown checked are exactly the configured items that were
/// already logged today, wherever they stand in the log: position `k` is
/// among the checked positions exactly when some logged entry equals item
/// `k`, and the positions come in increasing order, each within the items.
pub proof fn law_checked_items_are_the_logged_ones(items: Seq<Seq<char>>, logged: Seq<Seq<char>>)
    requires
        items.len() <= usize::MAX,
    ensures
        forall|k: int|
            0 <= k < items.len() ==> (checked_positions(items, logged, items.len() as int).contains(
                k as usize,
            ) <==> logged.contains(#[trigger] items[k])),
        forall|p: int|
            0 <= p < checked_positions(items, logged, items.len() as int).len() ==> (
            #[trigger] checked_positions(items, logged, items.len() as int)[p]) < items.len(),
        forall|p1: int, p2: int|
            0 <= p1 < p2 < checked_positions(items, logged, items.len() as int).len() ==> checked_positions(
                items,
                logged,
                items.len() as int,
            )[p1] < checked_positions(items, logged, items.len() as int)[p2],
{
    lemma_checked_positions(items, logged, items.len() as int);
}

/// The positions of the minimum viable outputs already logged today.
pub fn mvo_default_indices(items: &Vec<String>, existing: &Vec<String>) -> (r: Vec<usize>)
    ensures
        r@ == checked_positions(string_views(items@), string_views(existing@), items@.len() as int),
{
    let mut out: Vec<usize> = Vec::new();
    let mut i: usize = 0;
    while i < items.len()
        invariant
            i <= items@.len(),
            out@ == checked_positions(string_views(items@), string_views(existing@), i as int),
        decreases items@.len() - i,
    {
        let mut found = false;
        let mut j: usize = 0;
        while j < existing.len()
            invariant
                i < items@.len(),
                j <= existing@.len(),
                found == (exists|q: int| 0 <= q < j && existing@[q]@ == items@[i as int]@),
            decreases existing@.len() - j,
        {
            if existing[j] == items[i] {
                found = true;
            }
            j = j + 1;
        }
        proof {
            let ev = string_views(existing@);
            let it = items@[i as int]@;
            if found {
                let q = choose|q: int| 0 <= q < existing@.len() && existing@[q]@ == it;
                assert(ev[q] == it);
            }
            if ev.contains(it) {
                let q = choose|q: int| 0 <= q < ev.len() && ev[q] == it;
                assert(existing@[q]@ == it);
            }
            assert(string_views(items@)[i as int] == it);
        }
        if found {
            out.push(i);
        }
        i = i + 1;
    }
    out
}

/// Whether an energy state is one of the accepted values 1 to 3 (low to high).
pub fn is_valid_energy(value: u8) -> (r: bool)
    ensures
        r == (1 <= value && value <= 3),
{
    1 <= value && value <= 3
}

} // verus!
