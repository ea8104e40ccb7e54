use vstd::prelude::*;
use crate::text::{
    lemma_lines_concat, lemma_lines_step, chars_of, find_newline, lines, lines_from, range_eq, starts_with,
    strip_leading, strip_leading_range, substring, trim, trim_range,
};

verus! {

/// Whether a trimmed line is a bracketed header such as `[Name]`.
pub open spec fn is_bracketed(t: Seq<char>) -> bool {
    t.len() >= 2 && t[0] == '[' && t[t.len() - 1] == ']'
}

/// The name inside a bracketed header.
pub open spec fn bracket_name(t: Seq<char>) -> Seq<char> {
    t.subrange(1, t.len() - 1)
}

/// Whether a trimmed line is a Markdown heading (starts with `#`).
pub open spec fn is_heading(t: Seq<char>) -> bool {
    t.len() >= 1 && t[0] == '#'
}

/// The name of a Markdown heading: the text after the `#` marks, trimmed.
pub open spec fn heading_name(t: Seq<char>) -> Seq<char> {
    trim(strip_leading(t, '#'))
}

/// Whether a trimmed line opens any section.
pub open spec fn is_header(t: Seq<char>) -> bool {
    is_bracketed(t) || is_heading(t)
}

/// Whether a trimmed line opens the section called `name`.
pub open spec fn opens_section(t: Seq<char>, name: Seq<char>) -> bool {
    (is_bracketed(t) && bracket_name(t) == name) || (is_heading(t) && heading_name(t) == name)
}

/// An entry line with its `- ` bullet removed.
pub open spec fn entry_text(t: Seq<char>) -> Seq<char> {
    if starts_with(t, seq!['-', ' ']) {
        t.skip(2)
    } else {
        t
    }
}

/// The entries of section `name` among `ls`, where `inside` tells whether the
/// lines before `ls` left the section open.
pub open spec fn section_entries_from(ls: Seq<Seq<char>>, name: Seq<char>, inside: bool) -> Seq<
    Seq<char>,
>
    decreases ls.len(),
{
    if ls.len() == 0 {
        seq![]
    } else {
        let t = trim(ls[0]);
        if opens_section(t, name) {
            section_entries_from(ls.drop_first(), name, true)
        } else if is_header(t) {
            section_entries_from(ls.drop_first(), name, false)
        } else if inside && t.len() > 0 {
            seq![entry_text(t)] + section_entries_from(ls.drop_first(), name, inside)
        } else {
            section_entries_from(ls.drop_first(), name, inside)
        }
    }
}

/// The entries of every part of `content` headed by section `name`: its
/// non-blank lines, trimmed and without their `- ` bullet.
pub open spec fn section_entries(content: Seq<char>, name: Seq<char>) -> Seq<Seq<char>> {
    section_entries_from(lines(content), name, false)
}

proof fn lemma_closed_section_entries(ls: Seq<Seq<char>>, name: Seq<char>)
    requires
        forall|k: int| 0 <= k < ls.len() ==> !opens_section(trim(#[trigger] ls[k]), name),
    ensures
        section_entries_from(ls, name, false) == Seq::<Seq<char>>::empty(),
    decreases ls.len(),
{
    if ls.len() > 0 {
        assert(!opens_section(trim(ls[0]), name));
        assert forall|k: int| 0 <= k < ls.drop_first().len() implies !opens_section(
            trim(#[trigger] ls.drop_first()[k]),
            name,
        ) by {
            assert(ls.drop_first()[k] == ls[k + 1]);
        }
        lemma_closed_section_entries(ls.drop_first(), name);
    }
}

/// A section that no line of the content opens has no entries.
pub proof fn law_unopened_section_is_empty(content: Seq<char>, name: Seq<char>)
    requires
        forall|k: int| 0 <= k < lines(content).len() ==> !opens_section(trim(#[trigger] lines(content)[k]), name),
    ensures
        section_entries(content, name) == Seq::<Seq<char>>::empty(),
{
    lemma_closed_section_entries(lines(content), name);
}

/// Whether the section of `name` is open after a trimmed line `t`, when it
/// was open (`inside`) before it.
pub open spec fn open_after(t: Seq<char>, name: Seq<char>, inside: bool) -> bool {
    if opens_section(t, name) {
        true
    } else if is_header(t) {
        false
    } else {
        inside
    }
}

/// Whether the section of `name` is open after the lines `ls`.
pub open spec fn open_after_lines(ls: Seq<Seq<char>>, name: Seq<char>, inside: bool) -> bool
    decreases ls.len(),
{
    if ls.len() == 0 {
        inside
    } else {
        open_after_lines(ls.drop_first(), name, open_after(trim(ls[0]), name, inside))
    }
}

pub proof fn lemma_entries_concat(a: Seq<Seq<char>>, b: Seq<Seq<char>>, name: Seq<char>, inside: bool)
    ensures
        section_entries_from(a + b, name, inside) == section_entries_from(a, name, inside)
            + section_entries_from(b, name, open_after_lines(a, name, inside)),
    decreases a.len(),
{
    if a.len() == 0 {
        assert(a + b =~= b);
        assert(section_entries_from(a, name, inside) + section_entries_from(b, name, inside)
            =~= section_entries_from(b, name, inside));
    } else {
        let t = trim(a[0]);
        assert((a + b)[0] == a[0]);
        assert((a + b).drop_first() =~= a.drop_first() + b);
        lemma_entries_concat(a.drop_first(), b, name, open_after(t, name, inside));
        if opens_section(t, name) {
        } else if is_header(t) {
        } else if inside && t.len() > 0 {
            assert(section_entries_from(a + b, name, inside) =~= section_entries_from(a, name, inside)
                + section_entries_from(b, name, open_after_lines(a, name, inside)));
        } else {
        }
    }
}

/// The entries of a section in two texts put one after the other are those
/// in the first, then those in the second, when the first is empty or ends
/// with a line feed and the second starts with a header line (so that what
/// the first left open does not run on).
pub proof fn law_section_entries_concat(a: Seq<char>, b: Seq<char>, name: Seq<char>)
    requires
        a.len() == 0 || a.last() == '\n',
        lines(b).len() > 0,
        is_header(trim(lines(b)[0])),
    ensures
        section_entries(a + b, name) == section_entries(a, name) + section_entries(b, name),
{
    lemma_lines_concat(a, b);
    lemma_entries_concat(lines(a), lines(b), name, false);
    let st = open_after_lines(lines(a), name, false);
    let lb = lines(b);
    assert(section_entries_from(lb, name, st) == section_entries_from(lb, name, false));
}

/// Views of a vector of strings.
pub open spec fn string_views(v: Seq<String>) -> Seq<Seq<char>> {
    v.map_values(|x: String| x@)
}

/// Parses a section from markdown content.
/// Supports both `[Section Name]` and `#+ Section Name` header formats.
pub fn parse_section(content: &str, section: &str) -> (r: Vec<String>)
    ensures
        string_views(r@) == section_entries(content@, section@),
{
    let v = chars_of(content);
    let name = chars_of(section);
    let n = v.len();
    let mut result: Vec<String> = Vec::new();
    let mut inside = false;
    let mut i: usize = 0;
    while i < n
        invariant
            n == v@.len(),
            v@ == content@,
            name@ == section@,
            i <= n,
            string_views(result@) + section_entries_from(lines_from(v@, i as int), name@, inside)
                == section_entries(content@, section@),
        decreases n - i,
    {
        proof {
            lemma_lines_step(v@, i as int);
        }
        let k = find_newline(&v, i);
        let (a, b) = trim_range(&v, i, k);
        let ghost t = v@.subrange(a as int, b as int);
        let bracketed = b - a >= 2 && v[a] == '[' && v[b - 1] == ']';
        let heading = b - a >= 1 && v[a] == '#';
        let opens_bracket = bracketed && range_eq(&v, a + 1, b - 1, &name);
        let opens_heading = if heading {
            let h = strip_leading_range(&v, a, b, '#');
            let (ha, hb) = trim_range(&v, h, b);
            proof {
                assert(v@.subrange(h as int, b as int) == v@.subrange(a as int, b as int).subrange(
                    h - a,
                    b - a,
                ));
            }
            range_eq(&v, ha, hb, &name)
        } else {
            false
        };
        proof {
            assert(bracketed == is_bracketed(t));
            if bracketed {
                assert(v@.subrange(a + 1, b - 1) =~= bracket_name(t));
            }
            assert(heading == is_heading(t));
            assert(opens_bracket || opens_heading <==> opens_section(t, name@));
        }
        let ghost old_inside = inside;
        let ghost prev = string_views(result@);
        if opens_bracket || opens_heading {
            inside = true;
        } else if bracketed || heading {
            inside = false;
        } else if inside && b > a {
            let dash = b - a >= 2 && v[a] == '-' && v[a + 1] == ' ';
            let start = if dash { a + 2 } else { a };
            proof {
                if dash {
                    assert(t.take(2) =~= seq!['-', ' ']);
                    assert(v@.subrange(start as int, b as int) =~= t.skip(2));
                } else {
                    if starts_with(t, seq!['-', ' ']) {
                        assert(t.take(2)[0] == t[0]);
                        assert(t.take(2)[1] == t[1]);
                    }
                    assert(v@.subrange(start as int, b as int) =~= t);
                }
            }
            let item = substring(content, start, b);
            result.push(item);
            proof {
                assert(string_views(result@) =~= prev + seq![entry_text(t)]);
            }
        }
        proof {
            let ls = lines_from(v@, i as int);
            assert(trim(ls[0]) == t);
            assert(section_entries_from(ls, name@, old_inside) == if opens_section(t, name@) {
                section_entries_from(ls.drop_first(), name@, true)
            } else if is_header(t) {
                section_entries_from(ls.drop_first(), name@, false)
            } else if old_inside && t.len() > 0 {
                seq![entry_text(t)] + section_entries_from(ls.drop_first(), name@, old_inside)
            } else {
                section_entries_from(ls.drop_first(), name@, old_inside)
            });
            if !(opens_bracket || opens_heading) && !(bracketed || heading) && old_inside && b > a {
                assert(string_views(result@) + section_entries_from(ls.drop_first(), name@, inside)
                    =~= prev + (seq![entry_text(t)] + section_entries_from(ls.drop_first(), name@, old_inside)));
            }
        }
        i = if k < n { k + 1 } else { n };
    }
    proof {
        assert(lines_from(v@, i as int) =~= Seq::<Seq<char>>::empty());
        assert(string_views(result@) + Seq::<Seq<char>>::empty() =~= string_views(result@));
    }
    result
}

/// The section that a trimmed template line declares, if any: the name of a
/// non-empty bracketed header or of a heading whose name is not blank.
pub open spec fn declared_section(t: Seq<char>) -> Option<Seq<char>> {
    if is_bracketed(t) && t.len() > 2 {
        Some(bracket_name(t))
    } else if is_heading(t) && heading_name(t).len() > 0 {
        Some(heading_name(t))
    } else {
        None
    }
}

/// The sections that the lines `ls` declare, in order.
pub open spec fn declared_sections_from(ls: Seq<Seq<char>>) -> Seq<Seq<char>>
    decreases ls.len(),
{
    if ls.len() == 0 {
        seq![]
    } else {
        match declared_section(trim(ls[0])) {
            Some(name) => seq![name] + declared_sections_from(ls.drop_first()),
            None => declared_sections_from(ls.drop_first()),
        }
    }
}

/// The sections that a template declares, in order of their lines.
pub open spec fn declared_sections(content: Seq<char>) -> Seq<Seq<char>> {
    declared_sections_from(lines(content))
}

/// The sections used when no template gives any.
pub open spec fn default_sections() -> Seq<Seq<char>> {
    seq!["What worked"@, "What failed"@, "Output"@]
}

/// The default template sections: "What worked", "What failed" and "Output".
pub fn default_template_sections() -> (r: Vec<String>)
    ensures
        string_views(r@) == default_sections(),
{
    let mut r: Vec<String> = Vec::new();
    r.push("What worked".to_owned());
    r.push("What failed".to_owned());
    r.push("Output".to_owned());
    proof {
        assert(string_views(r@) =~= default_sections());
    }
    r
}

/// The sections that a template declares, with bracketed (`[Name]`) and
/// Markdown heading (`# Name`) lines both accepted, in order.
pub fn template_section_names(content: &str) -> (r: Vec<String>)
    ensures
        string_views(r@) == declared_sections(content@),
{
    let v = chars_of(content);
    let n = v.len();
    let mut result: Vec<String> = Vec::new();
    let mut i: usize = 0;
    while i < n
        invariant
            n == v@.len(),
            v@ == content@,
            i <= n,
            string_views(result@) + declared_sections_from(lines_from(v@, i as int))
                == declared_sections(content@),
        decreases n - i,
    {
        proof {
            lemma_lines_step(v@, i as int);
        }
        let k = find_newline(&v, i);
        let (a, b) = trim_range(&v, i, k);
        let ghost t = v@.subrange(a as int, b as int);
        let ghost prev = string_views(result@);
        let bracketed = b - a >= 2 && v[a] == '[' && v[b - 1] == ']';
        if bracketed && b - a > 2 {
            let name = substring(content, a + 1, b - 1);
            proof {
                assert(name@ =~= bracket_name(t));
            }
            result.push(name);
            proof {
                assert(string_views(result@) =~= prev + seq![bracket_name(t)]);
            }
        } else if b - a >= 1 && v[a] == '#' {
            let h = strip_leading_range(&v, a, b, '#');
            let (ha, hb) = trim_range(&v, h, b);
            proof {
                assert(v@.subrange(h as int, b as int) == strip_leading(t, '#'));
                assert(v@.subrange(ha as int, hb as int) == heading_name(t));
            }
            if hb > ha {
                let name = substring(content, ha, hb);
                result.push(name);
                proof {
                    assert(string_views(result@) =~= prev + seq![heading_name(t)]);
                }
            }
        }
        proof {
            let ls = lines_from(v@, i as int);
            assert(trim(ls[0]) == t);
            let rest = declared_sections_from(ls.drop_first());
            match declared_section(t) {
                Some(nm) => {
                    assert(string_views(result@) + rest =~= prev + (seq![nm] + rest));
                },
                None => {},
            }
        }
        i = if k < n { k + 1 } else { n };
    }
    proof {
        assert(lines_from(v@, i as int) =~= Seq::<Seq<char>>::empty());
        assert(string_views(result@) + Seq::<Seq<char>>::empty() =~= string_views(result@));
    }
    result
}

/// The template sections to log under: those `template` declares, or the
/// default ones when there is no template or it declares none. The flag tells
/// whether the default ones were used.
pub fn template_sections(template: Option<&str>) -> (r: (Vec<String>, bool))
    ensures
        r.1 == match template {
            None => true,
            Some(c) => declared_sections(c@).len() == 0,
        },
        string_views(r.0@) == if r.1 {
            default_sections()
        } else {
            declared_sections(template.unwrap()@)
        },
{
    match template {
        None => (default_template_sections(), true),
        Some(content) => {
            let names = template_section_names(content);
            if names.len() == 0 {
                (default_template_sections(), true)
            } else {
                (names, false)
            }
        },
    }
}

} // verus!
