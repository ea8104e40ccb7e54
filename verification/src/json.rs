use vstd::prelude::*;
use crate::sections::string_views;

verus! {

/// The lowercase hexadecimal digit of `n` (0 to 15).
pub open spec fn hex_digit(n: int) -> char {
    if n < 10 {
        (48 + n) as char
    } else {
        (87 + n) as char
    }
}

/// How serde_json writes one character inside a JSON string: a quote, a
/// backslash and the control characters backspace, tab, line feed, form
/// feed and carriage return by their short escapes, the other characters
/// below U+0020 as `\u00` and two lowercase hexadecimal digits, and every
/// other character as itself.
pub open spec fn json_escaped_char(c: char) -> Seq<char> {
    if c == '"' {
        seq!['\\', '"']
    } else if c == '\\' {
        seq!['\\', '\\']
    } else if c == '\u{8}' {
        seq!['\\', 'b']
    } else if c == '\t' {
        seq!['\\', 't']
    } else if c == '\n' {
        seq!['\\', 'n']
    } else if c == '\u{c}' {
        seq!['\\', 'f']
    } else if c == '\r' {
        seq!['\\', 'r']
    } else if (c as int) < 0x20 {
        seq!['\\', 'u', '0', '0', hex_digit((c as int) / 16), hex_digit((c as int) % 16)]
    } else {
        seq![c]
    }
}

/// The characters of `s`, each written as serde_json writes it in a string.
pub open spec fn json_escaped(s: Seq<char>) -> Seq<char>
    decreases s.len(),
{
    if s.len() == 0 {
        seq![]
    } else {
        json_escaped(s.drop_last()) + json_escaped_char(s.last())
    }
}

/// What `serde_json::to_string` writes for a string: the string between
/// quotes, each character escaped as `json_escaped_char` says.
pub open spec fn json_quoted(s: Seq<char>) -> Seq<char> {
    seq!['"'] + json_escaped(s) + seq!['"']
}

/// What `serde_json::from_str::<Vec<String>>` gives back for a text: the
/// strings of a JSON array of strings, or nothing when the text is not one.
pub uninterp spec fn json_string_list(text: Seq<char>) -> Option<Seq<Seq<char>>>;

/// Calls `serde_json::to_string` on a string: serde_json writes a quote, the
/// characters with its escapes (its `ESCAPE` table: `\"`, `\\`, `\b`, `\t`,
/// `\n`, `\f`, `\r`, and `\u00xx` with lowercase hexadecimal digits for the
/// other characters below U+0020), and a closing quote. Serialising a `str`
/// cannot fail: serde_json only fails for maps with non-string keys or for
/// `Serialize` impls that fail, so the error arm is never taken.
#[verifier::external_body]
pub(crate) fn json_quote(s: &str) -> (r: String)
    ensures
        r@ == json_quoted(s@),
{
    match serde_json::to_string(s) {
        Ok(t) => t,
        Err(_) => String::new(),
    }
}

/// Calls `serde_json::from_str::<Vec<String>>` and keeps the value, dropping the error.
#[verifier::external_body]
pub(crate) fn parse_json_string_list(text: &str) -> (r: Option<Vec<String>>)
    ensures
        match r {
            Some(v) => json_string_list(text@) == Some(string_views(v@)),
            None => json_string_list(text@) is None,
        },
{
    match serde_json::from_str::<Vec<String>>(text) {
        Ok(v) => Some(v),
        Err(_) => None,
    }
}

/// Whether `serde_json::from_str::<serde_json::Value>` reads a text as one
/// JSON value.
pub uninterp spec fn json_value_text(text: Seq<char>) -> bool;

/// Calls `serde_json::from_str::<serde_json::Value>` and tells whether it
/// succeeded; the value itself is dropped.
#[verifier::external_body]
pub(crate) fn is_json_value(text: &str) -> (r: bool)
    ensures
        r == json_value_text(text@),
{
    serde_json::from_str::<serde_json::Value>(text).is_ok()
}

/// `items` joined by commas.
pub open spec fn comma_joined(items: Seq<Seq<char>>) -> Seq<char>
    decreases items.len(),
{
    if items.len() == 0 {
        seq![]
    } else if items.len() == 1 {
        items[0]
    } else {
        comma_joined(items.drop_last()) + seq![','] + items.last()
    }
}

/// The compact JSON text of an array of strings, as `serde_json::to_string`
/// writes it.
pub open spec fn json_array_text(v: Seq<Seq<char>>) -> Seq<char> {
    seq!['['] + comma_joined(v.map_values(|s: Seq<char>| json_quoted(s))) + seq![']']
}

/// The compact JSON text of an object with string values, members in the given order.
pub open spec fn json_object_text(m: Seq<(Seq<char>, Seq<char>)>) -> Seq<char> {
    seq!['{'] + comma_joined(
        m.map_values(|p: (Seq<char>, Seq<char>)| json_quoted(p.0) + seq![':'] + json_quoted(p.1)),
    ) + seq!['}']
}

/// Views of a vector of string pairs.
pub open spec fn pair_views(v: Seq<(String, String)>) -> Seq<(Seq<char>, Seq<char>)> {
    v.map_values(|p: (String, String)| (p.0@, p.1@))
}

proof fn lemma_comma_joined_push(items: Seq<Seq<char>>, x: Seq<char>)
    ensures
        comma_joined(items.push(x)) == if items.len() == 0 {
            x
        } else {
            comma_joined(items) + seq![','] + x
        },
{
    assert(items.push(x).drop_last() =~= items);
}

/// The JSON array of `v`, as `serde_json::to_string(&v)` writes it.
pub fn json_array(v: &Vec<String>) -> (r: String)
    ensures
        r@ == json_array_text(string_views(v@)),
{
    let mut out = String::from_str("[");
    let ghost mut parts: Seq<Seq<char>> = seq![];
    proof {
        reveal_strlit("[");
        assert(out@ =~= seq!['['] + comma_joined(parts));
    }
    let mut i: usize = 0;
    while i < v.len()
        invariant
            i <= v@.len(),
            parts == string_views(v@).take(i as int).map_values(|s: Seq<char>| json_quoted(s)),
            out@ == seq!['['] + comma_joined(parts),
        decreases v@.len() - i,
    {
        proof {
            lemma_comma_joined_push(parts, json_quoted(v@[i as int]@));
            reveal_strlit(",");
        }
        if i > 0 {
            out.append(",");
        }
        let q = json_quote(v[i].as_str());
        out.append(q.as_str());
        proof {
            parts = parts.push(json_quoted(v@[i as int]@));
            assert(parts =~= string_views(v@).take(i + 1).map_values(|s: Seq<char>| json_quoted(s)));
        }
        i = i + 1;
    }
    out.append("]");
    proof {
        reveal_strlit("[");
        reveal_strlit("]");
        assert(string_views(v@).take(v@.len() as int) =~= string_views(v@));
    }
    out
}

/// The JSON object with the pairs of `m` as members, in order, written compactly.
pub fn json_object(m: &Vec<(String, String)>) -> (r: String)
    ensures
        r@ == json_object_text(pair_views(m@)),
{
    let mut out = String::from_str("{");
    let ghost mut parts: Seq<Seq<char>> = seq![];
    proof {
        reveal_strlit("{");
        assert(out@ =~= seq!['{'] + comma_joined(parts));
    }
    let mut i: usize = 0;
    while i < m.len()
        invariant
            i <= m@.len(),
            parts == pair_views(m@).take(i as int).map_values(
                |p: (Seq<char>, Seq<char>)| json_quoted(p.0) + seq![':'] + json_quoted(p.1),
            ),
            out@ == seq!['{'] + comma_joined(parts),
        decreases m@.len() - i,
    {
        let ghost member = json_quoted(m@[i as int].0@) + seq![':'] + json_quoted(m@[i as int].1@);
        proof {
            lemma_comma_joined_push(parts, member);
            reveal_strlit(",");
            reveal_strlit(":");
        }
        if i > 0 {
            out.append(",");
        }
        let k = json_quote(m[i].0.as_str());
        let val = json_quote(m[i].1.as_str());
        out.append(k.as_str());
        out.append(":");
        out.append(val.as_str());
        proof {
            parts = parts.push(member);
            assert(parts =~= pair_views(m@).take(i + 1).map_values(
                |p: (Seq<char>, Seq<char>)| json_quoted(p.0) + seq![':'] + json_quoted(p.1),
            ));
        }
        i = i + 1;
    }
    out.append("}");
    proof {
        reveal_strlit("{");
        reveal_strlit("}");
        assert(pair_views(m@).take(m@.len() as int) =~= pair_views(m@));
    }
    out
}

} // verus!
