use vstd::prelude::*;
use crate::daily::{
    bullet_lines, collected_log, entries_lookup, entry_position, section_block, template_text,
    with_added_sections, with_sections,
};
use crate::sections::{
    bracket_name, declared_section, entry_text, is_bracketed, is_header, is_heading,
    lemma_entries_concat, open_after_lines, opens_section, section_entries, section_entries_from,
};
use crate::text::{
    is_ws, lemma_lines_of_text, lemma_text_concat, lines, no_line_feeds, text_of_lines, trim,
    trim_end, trim_start,
};

verus! {

/// The bullet line `- item` of an item.
pub open spec fn bullet(item: Seq<char>) -> Seq<char> {
    seq!['-', ' '] + item
}

/// The lines of the block of one section in the log template.
pub open spec fn block_lines(name: Seq<char>, items: Option<Seq<Seq<char>>>) -> Seq<Seq<char>> {
    seq![seq!['['] + name + seq![']']] + match items {
        Some(v) => v.map_values(|it: Seq<char>| bullet(it)),
        None => seq![],
    } + seq![seq![]]
}

/// The lines of the log template.
pub open spec fn template_lines(
    sections: Seq<Seq<char>>,
    existing: Seq<(Seq<char>, Seq<Seq<char>>)>,
) -> Seq<Seq<char>>
    decreases sections.len(),
{
    if sections.len() == 0 {
        seq![]
    } else {
        template_lines(sections.drop_last(), existing) + block_lines(
            sections.last(),
            entries_lookup(existing, sections.last()),
        )
    }
}

proof fn lemma_bullets_text(items: Seq<Seq<char>>)
    ensures
        bullet_lines(items) == text_of_lines(items.map_values(|it: Seq<char>| bullet(it))),
    decreases items.len(),
{
    if items.len() > 0 {
        lemma_bullets_text(items.drop_last());
        assert(items.map_values(|it: Seq<char>| bullet(it)).drop_last() =~= items.drop_last().map_values(
            |it: Seq<char>| bullet(it),
        ));
        assert(bullet_lines(items) =~= text_of_lines(items.map_values(|it: Seq<char>| bullet(it))));
    }
}

proof fn lemma_block_text(name: Seq<char>, items: Option<Seq<Seq<char>>>)
    ensures
        section_block(name, items) == text_of_lines(block_lines(name, items)),
{
    let head: Seq<Seq<char>> = seq![seq!['['] + name + seq![']']];
    let mid: Seq<Seq<char>> = match items {
        Some(v) => v.map_values(|it: Seq<char>| bullet(it)),
        None => seq![],
    };
    let tail: Seq<Seq<char>> = seq![seq![]];
    lemma_text_concat(head + mid, tail);
    lemma_text_concat(head, mid);
    assert(head.drop_last() =~= Seq::<Seq<char>>::empty());
    assert(tail.drop_last() =~= Seq::<Seq<char>>::empty());
    assert(text_of_lines(Seq::<Seq<char>>::empty()) == Seq::<char>::empty());
    assert(text_of_lines(head) == text_of_lines(Seq::<Seq<char>>::empty()) + head.last() + seq!['\n']);
    assert(text_of_lines(head) =~= seq!['['] + name + seq![']', '\n']);
    assert(text_of_lines(tail) == text_of_lines(Seq::<Seq<char>>::empty()) + tail.last() + seq!['\n']);
    assert(text_of_lines(tail) =~= seq!['\n']);
    match items {
        Some(v) => {
            lemma_bullets_text(v);
        },
        None => {
            assert(text_of_lines(mid) =~= Seq::<char>::empty());
        },
    }
    assert(section_block(name, items) =~= text_of_lines(block_lines(name, items)));
}

proof fn lemma_template_text(sections: Seq<Seq<char>>, existing: Seq<(Seq<char>, Seq<Seq<char>>)>)
    ensures
        template_text(sections, existing) == text_of_lines(template_lines(sections, existing)),
    decreases sections.len(),
{
    if sections.len() > 0 {
        lemma_template_text(sections.drop_last(), existing);
        let b = block_lines(sections.last(), entries_lookup(existing, sections.last()));
        lemma_block_text(sections.last(), entries_lookup(existing, sections.last()));
        lemma_text_concat(template_lines(sections.drop_last(), existing), b);
    }
}

/// A text trims to itself when it neither starts nor ends with whitespace.
proof fn lemma_trim_unchanged(s: Seq<char>)
    requires
        s.len() > 0,
        !is_ws(s[0]),
        !is_ws(s.last()),
    ensures
        trim(s) == s,
{
    assert(trim_start(s) == s);
    assert(trim_end(s) == s);
}

/// Whether an item written as a bullet reads back as itself: it is not
/// empty, holds no line feed and does not end in whitespace (which trimming
/// the line would drop).
pub open spec fn loggable_item(item: Seq<char>) -> bool {
    item.len() > 0 && !item.contains('\n') && !is_ws(item.last())
}

proof fn lemma_bullet_line(item: Seq<char>, name: Seq<char>)
    requires
        loggable_item(item),
    ensures
        trim(bullet(item)) == bullet(item),
        !is_header(bullet(item)),
        !opens_section(bullet(item), name),
        bullet(item).len() > 0,
        entry_text(bullet(item)) == item,
        declared_section(bullet(item)) is None,
{
    let b = bullet(item);
    assert(b.last() == item.last());
    lemma_trim_unchanged(b);
    assert(b.take(2) =~= seq!['-', ' ']);
    assert(b.skip(2) =~= item);
}

proof fn lemma_bullets_entries(items: Seq<Seq<char>>, rest: Seq<Seq<char>>, name: Seq<char>, inside: bool)
    requires
        forall|k: int| 0 <= k < items.len() ==> loggable_item(#[trigger] items[k]),
    ensures
        section_entries_from(items.map_values(|it: Seq<char>| bullet(it)) + rest, name, inside) == (if inside {
            items
        } else {
            seq![]
        }) + section_entries_from(rest, name, inside),
    decreases items.len(),
{
    let bs = items.map_values(|it: Seq<char>| bullet(it));
    if items.len() == 0 {
        assert(bs + rest =~= rest);
        assert((if inside { items } else { seq![] }) + section_entries_from(rest, name, inside)
            =~= section_entries_from(rest, name, inside));
    } else {
        assert(loggable_item(items[0]));
        lemma_bullet_line(items[0], name);
        assert((bs + rest)[0] == bullet(items[0]));
        assert((bs + rest).drop_first() =~= items.drop_first().map_values(|it: Seq<char>| bullet(it)) + rest);
        assert forall|k: int| 0 <= k < items.drop_first().len() implies loggable_item(
            #[trigger] items.drop_first()[k],
        ) by {
            assert(items.drop_first()[k] == items[k + 1]);
        }
        lemma_bullets_entries(items.drop_first(), rest, name, inside);
        if inside {
            assert(seq![items[0]] + items.drop_first() =~= items);
            assert(section_entries_from(bs + rest, name, inside) =~= items + section_entries_from(rest, name, inside));
        } else {
            assert(section_entries_from(bs + rest, name, inside) =~= Seq::<Seq<char>>::empty()
                + section_entries_from(rest, name, inside));
        }
    }
}

/// The items logged under `name`, none when it has no entry.
pub open spec fn logged_items(existing: Seq<(Seq<char>, Seq<Seq<char>>)>, name: Seq<char>) -> Seq<Seq<char>> {
    match entries_lookup(existing, name) {
        Some(v) => v,
        None => seq![],
    }
}

proof fn lemma_header_line(s: Seq<char>, name: Seq<char>)
    ensures
        trim(seq!['['] + s + seq![']']) == seq!['['] + s + seq![']'],
        is_header(seq!['['] + s + seq![']']),
        opens_section(seq!['['] + s + seq![']'], name) == (s == name),
        declared_section(seq!['['] + s + seq![']']) == if s.len() > 0 {
            Some(s)
        } else {
            None::<Seq<char>>
        },
{
    let h = seq!['['] + s + seq![']'];
    lemma_trim_unchanged(h);
    assert(is_bracketed(h));
    assert(bracket_name(h) =~= s);
    assert(!is_heading(h));
}

proof fn lemma_block_entries(
    s: Seq<char>,
    items: Option<Seq<Seq<char>>>,
    name: Seq<char>,
    inside: bool,
)
    requires
        items matches Some(v) ==> forall|k: int| 0 <= k < v.len() ==> loggable_item(#[trigger] v[k]),
    ensures
        section_entries_from(block_lines(s, items), name, inside) == if s == name {
            match items {
                Some(v) => v,
                None => seq![],
            }
        } else {
            seq![]
        },
{
    let head = seq!['['] + s + seq![']'];
    lemma_header_line(s, name);
    let v = match items {
        Some(v) => v,
        None => seq![],
    };
    let bs = v.map_values(|it: Seq<char>| bullet(it));
    let tail: Seq<Seq<char>> = seq![seq![]];
    assert(block_lines(s, items) =~= seq![head] + (bs + tail)) by {
        if items is None {
            assert(bs =~= Seq::<Seq<char>>::empty());
        }
    }
    assert((seq![head] + (bs + tail))[0] == head);
    assert((seq![head] + (bs + tail)).drop_first() =~= bs + tail);
    lemma_bullets_entries(v, tail, name, s == name);
    assert(trim(Seq::<char>::empty()) =~= Seq::<char>::empty());
    assert(tail.drop_first() =~= Seq::<Seq<char>>::empty());
    assert(section_entries_from(Seq::<Seq<char>>::empty(), name, s == name) == Seq::<Seq<char>>::empty());
    assert(section_entries_from(tail, name, s == name) == section_entries_from(
        Seq::<Seq<char>>::empty(),
        name,
        s == name,
    ));
    if s == name {
        assert(section_entries_from(block_lines(s, items), name, inside) =~= v);
    } else {
        assert(section_entries_from(block_lines(s, items), name, inside) =~= Seq::<Seq<char>>::empty());
    }
}

/// Whether no name occurs twice among `s`.
pub open spec fn distinct_names(s: Seq<Seq<char>>) -> bool {
    forall|a: int, b: int| 0 <= a < b < s.len() ==> s[a] != s[b]
}

/// Whether every item that `existing` holds for one of `sections` reads back
/// as itself.
pub open spec fn loggable_entries(sections: Seq<Seq<char>>, existing: Seq<(Seq<char>, Seq<Seq<char>>)>) -> bool {
    forall|k: int|
        0 <= k < sections.len() ==> (entries_lookup(existing, #[trigger] sections[k]) matches Some(v)
            ==> forall|q: int| 0 <= q < v.len() ==> loggable_item(#[trigger] v[q]))
}

proof fn lemma_template_entries(
    sections: Seq<Seq<char>>,
    existing: Seq<(Seq<char>, Seq<Seq<char>>)>,
    name: Seq<char>,
)
    requires
        distinct_names(sections),
        loggable_entries(sections, existing),
    ensures
        section_entries_from(template_lines(sections, existing), name, false) == if sections.contains(name) {
            logged_items(existing, name)
        } else {
            seq![]
        },
    decreases sections.len(),
{
    if sections.len() == 0 {
        assert(section_entries_from(template_lines(sections, existing), name, false) =~= Seq::<Seq<char>>::empty());
    } else {
        let init = sections.drop_last();
        let last = sections.last();
        assert(loggable_entries(init, existing)) by {
            assert forall|k: int| 0 <= k < init.len() implies (entries_lookup(existing, #[trigger] init[k]) matches Some(v)
                ==> forall|q: int| 0 <= q < v.len() ==> loggable_item(#[trigger] v[q])) by {
                assert(init[k] == sections[k]);
            }
        }
        lemma_template_entries(init, existing, name);
        let tl = template_lines(init, existing);
        let items = entries_lookup(existing, last);
        assert(sections[sections.len() - 1] == last);
        lemma_entries_concat(tl, block_lines(last, items), name, false);
        lemma_block_entries(last, items, name, open_after_lines(tl, name, false));
        assert(sections.contains(name) == (init.contains(name) || last == name)) by {
            if sections.contains(name) {
                let q = choose|q: int| 0 <= q < sections.len() && sections[q] == name;
                if q < init.len() {
                    assert(init[q] == name);
                }
            }
            if init.contains(name) {
                let q = choose|q: int| 0 <= q < init.len() && init[q] == name;
                assert(sections[q] == name);
            }
        }
        if last == name {
            assert(!init.contains(name)) by {
                if init.contains(name) {
                    let q = choose|q: int| 0 <= q < init.len() && init[q] == name;
                    assert(sections[q] == sections[sections.len() - 1]);
                }
            }
            assert(section_entries_from(template_lines(sections, existing), name, false) =~= logged_items(
                existing,
                name,
            ));
        } else {
            assert(section_entries_from(template_lines(sections, existing), name, false) =~= (if init.contains(
                name,
            ) {
                logged_items(existing, name)
            } else {
                seq![]
            }));
        }
    }
}

proof fn lemma_position_absent(entries: Seq<(Seq<char>, Seq<Seq<char>>)>, key: Seq<char>)
    requires
        forall|k: int| 0 <= k < entries.len() ==> (#[trigger] entries[k]).0 != key,
    ensures
        entry_position(entries, key) == entries.len(),
        entries_lookup(entries, key) is None,
    decreases entries.len(),
{
    if entries.len() > 0 {
        assert(entries[0].0 != key);
        assert forall|k: int| 0 <= k < entries.drop_first().len() implies (#[trigger] entries.drop_first()[k]).0 != key by {
            assert(entries.drop_first()[k] == entries[k + 1]);
        }
        lemma_position_absent(entries.drop_first(), key);
    }
}

proof fn lemma_lookup_present(entries: Seq<(Seq<char>, Seq<Seq<char>>)>, key: Seq<char>, k: int)
    requires
        0 <= k < entries.len(),
        entries[k].0 == key,
    ensures
        entries_lookup(entries, key) is Some,
    decreases entries.len(),
{
    if entries[0].0 != key {
        assert(entries.drop_first()[k - 1] == entries[k]);
        lemma_lookup_present(entries.drop_first(), key, k - 1);
    }
}

/// Each name of `names` with its entries in `content`, in order.
pub open spec fn named_entries(names: Seq<Seq<char>>, content: Seq<char>) -> Seq<(Seq<char>, Seq<Seq<char>>)> {
    names.map_values(|n: Seq<char>| (n, section_entries(content, n)))
}

proof fn lemma_with_sections(names: Seq<Seq<char>>, content: Seq<char>)
    requires
        distinct_names(names),
    ensures
        with_sections(seq![], names, content) == named_entries(names, content),
    decreases names.len(),
{
    if names.len() > 0 {
        let init = names.drop_last();
        assert(distinct_names(init)) by {
            assert forall|a: int, b: int| 0 <= a < b < init.len() implies init[a] != init[b] by {
                assert(init[a] == names[a] && init[b] == names[b]);
            }
        }
        lemma_with_sections(init, content);
        let e = named_entries(init, content);
        assert forall|k: int| 0 <= k < e.len() implies (#[trigger] e[k]).0 != names.last() by {
            assert(e[k].0 == names[k]);
            assert(names.last() == names[names.len() - 1]);
        }
        lemma_position_absent(e, names.last());
        assert(named_entries(names, content) =~= e.push((names.last(), section_entries(content, names.last()))));
    }
}

proof fn lemma_no_added_sections(
    base: Seq<(Seq<char>, Seq<Seq<char>>)>,
    ls: Seq<Seq<char>>,
    content: Seq<char>,
)
    requires
        forall|k: int|
            0 <= k < ls.len() ==> (declared_section(trim(#[trigger] ls[k])) matches Some(n)
                ==> entries_lookup(base, n) is Some),
    ensures
        with_added_sections(base, ls, content) == base,
    decreases ls.len(),
{
    if ls.len() > 0 {
        assert forall|k: int|
            0 <= k < ls.drop_last().len() implies (declared_section(trim(#[trigger] ls.drop_last()[k])) matches Some(n)
                ==> entries_lookup(base, n) is Some) by {
            assert(ls.drop_last()[k] == ls[k]);
        }
        lemma_no_added_sections(base, ls.drop_last(), content);
        assert(ls.last() == ls[ls.len() - 1]);
    }
}

proof fn lemma_template_declares(
    sections: Seq<Seq<char>>,
    existing: Seq<(Seq<char>, Seq<Seq<char>>)>,
    k: int,
)
    requires
        no_line_feeds(sections),
        loggable_entries(sections, existing),
        0 <= k < template_lines(sections, existing).len(),
    ensures
        declared_section(trim(template_lines(sections, existing)[k])) matches Some(n) ==> sections.contains(n),
        !template_lines(sections, existing)[k].contains('\n'),
    decreases sections.len(),
{
    if sections.len() > 0 {
        let init = sections.drop_last();
        let last = sections.last();
        let tl = template_lines(init, existing);
        let items = entries_lookup(existing, last);
        let bl = block_lines(last, items);
        assert(sections[sections.len() - 1] == last);
        if k < tl.len() {
            assert(loggable_entries(init, existing)) by {
                assert forall|q: int| 0 <= q < init.len() implies (entries_lookup(existing, #[trigger] init[q]) matches Some(v)
                    ==> forall|p: int| 0 <= p < v.len() ==> loggable_item(#[trigger] v[p])) by {
                    assert(init[q] == sections[q]);
                }
            }
            assert(no_line_feeds(init)) by {
                assert forall|q: int| 0 <= q < init.len() implies !(#[trigger] init[q]).contains('\n') by {
                    assert(init[q] == sections[q]);
                }
            }
            lemma_template_declares(init, existing, k);
            assert(template_lines(sections, existing)[k] == tl[k]);
            match declared_section(trim(tl[k])) {
                Some(n) => {
                    let q = choose|q: int| 0 <= q < init.len() && init[q] == n;
                    assert(sections[q] == n);
                },
                None => {},
            }
        } else {
            let j = k - tl.len();
            assert(template_lines(sections, existing)[k] == bl[j]);
            let head = seq!['['] + last + seq![']'];
            lemma_header_line(last, last);
            if j == 0 {
                assert(bl[0] == head);
                assert(!last.contains('\n'));
                assert forall|i: int| 0 <= i < head.len() implies head[i] != '\n' by {
                    if 0 < i < head.len() - 1 {
                        assert(head[i] == last[i - 1]);
                    }
                }
            } else if j == bl.len() - 1 {
                assert(bl[j] =~= Seq::<char>::empty());
                assert(trim(Seq::<char>::empty()) =~= Seq::<char>::empty());
            } else {
                let v = items.unwrap();
                assert(bl[j] == bullet(v[j - 1]));
                assert(loggable_item(v[j - 1]));
                lemma_bullet_line(v[j - 1], last);
                assert forall|i: int| 0 <= i < bl[j].len() implies bl[j][i] != '\n' by {
                    if i >= 2 {
                        assert(bl[j][i] == v[j - 1][i - 2]);
                    }
                }
            }
        }
    }
}

/// Saving the log template unchanged reads back, for each configured section
/// in order, exactly the items already logged under it (none for a section
/// with no entry), and no other section. It holds when the section names are
/// distinct and free of line feeds, and every logged item is one that a
/// bullet line can carry: not empty, without line feeds, and not ending in
/// whitespace.
pub proof fn law_unedited_log_reads_back(
    sections: Seq<Seq<char>>,
    existing: Seq<(Seq<char>, Seq<Seq<char>>)>,
)
    requires
        distinct_names(sections),
        no_line_feeds(sections),
        loggable_entries(sections, existing),
    ensures
        collected_log(sections, template_text(sections, existing)) == sections.map_values(
            |n: Seq<char>| (n, logged_items(existing, n)),
        ),
{
    let content = template_text(sections, existing);
    let tl = template_lines(sections, existing);
    lemma_template_text(sections, existing);
    assert forall|k: int| 0 <= k < tl.len() implies !(#[trigger] tl[k]).contains('\n') by {
        lemma_template_declares(sections, existing, k);
    }
    lemma_lines_of_text(tl);
    assert(lines(content) == tl);
    lemma_with_sections(sections, content);
    let base = named_entries(sections, content);
    assert forall|k: int|
        0 <= k < tl.len() implies (declared_section(trim(#[trigger] tl[k])) matches Some(n) ==> entries_lookup(
            base,
            n,
        ) is Some) by {
        lemma_template_declares(sections, existing, k);
        match declared_section(trim(tl[k])) {
            Some(n) => {
                let q = choose|q: int| 0 <= q < sections.len() && sections[q] == n;
                assert(base[q].0 == n);
                lemma_lookup_present(base, n, q);
            },
            None => {},
        }
    }
    lemma_no_added_sections(base, tl, content);
    assert forall|k: int| 0 <= k < sections.len() implies #[trigger] base[k] == (
        sections[k],
        logged_items(existing, sections[k]),
    ) by {
        lemma_template_entries(sections, existing, sections[k]);
        assert(sections.contains(sections[k]));
    }
    assert(base =~= sections.map_values(|n: Seq<char>| (n, logged_items(existing, n))));
}

} // verus!
