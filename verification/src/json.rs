//! JSON text for the tool schemas: string literals with escapes, comma
//! separated lists, and the object schema of a tool's parameters.
use crate::text::{chars_of, string_of};
use vstd::prelude::*;

verus! {

/// A lower-case hexadecimal digit for `d` (0 to 15).
pub open spec fn hex_digit(d: nat) -> char {
    if d < 10 {
        (48 + d) as char
    } else {
        (87 + d) as char
    }
}

/// How `c` is written inside a JSON string literal.
pub open spec fn json_escape_char(c: char) -> Seq<char> {
    if c == '"' {
        seq!['\\', '"']
    } else if c == '\\' {
        seq!['\\', '\\']
    } else if c == '\n' {
        seq!['\\', 'n']
    } else if c == '\r' {
        seq!['\\', 'r']
    } else if c == '\t' {
        seq!['\\', 't']
    } else if (c as u32) < 0x20 {
        seq![
            '\\',
            'u',
            '0',
            '0',
            hex_digit((c as u32 / 16) as nat),
            hex_digit((c as u32 % 16) as nat),
        ]
    } else {
        seq![c]
    }
}

/// The characters of `s` as they are written inside a JSON string literal.
pub open spec fn json_escape(s: Seq<char>) -> Seq<char>
    decreases s.len(),
{
    if s.len() == 0 {
        seq![]
    } else {
        json_escape(s.drop_last()) + json_escape_char(s.last())
    }
}

/// `s` as a JSON string literal.
pub open spec fn json_str(s: Seq<char>) -> Seq<char> {
    seq!['"'] + json_escape(s) + seq!['"']
}

/// The items one after another, separated by commas.
pub open spec fn joined(items: Seq<Seq<char>>) -> Seq<char>
    decreases items.len(),
{
    if items.len() == 0 {
        seq![]
    } else if items.len() == 1 {
        items[0]
    } else {
        joined(items.drop_last()) + seq![','] + items.last()
    }
}

/// One entry of a schema's `properties`: the parameter's name, JSON type
/// and description.
pub open spec fn property_json(p: (Seq<char>, Seq<char>, Seq<char>)) -> Seq<char> {
    json_str(p.0) + ":{\"type\":"@ + json_str(p.1) + ",\"description\":"@ + json_str(p.2) + "}"@
}

/// The JSON object schema of a tool's input: its properties and the names
/// of the required ones.
pub open spec fn schema_json(
    props: Seq<(Seq<char>, Seq<char>, Seq<char>)>,
    required: Seq<Seq<char>>,
) -> Seq<char> {
    "{\"type\":\"object\",\"properties\":{"@ + joined(props.map_values(|p| property_json(p)))
        + "},\"required\":["@ + joined(required.map_values(|r: Seq<char>| json_str(r))) + "]}"@
}

/// The views of the strings of a parameter list.
pub open spec fn param_views(v: Seq<(&str, &str, &str)>) -> Seq<(Seq<char>, Seq<char>, Seq<char>)> {
    v.map_values(|p: (&str, &str, &str)| (p.0@, p.1@, p.2@))
}

/// The views of a list of strings.
pub open spec fn str_views(v: Seq<&str>) -> Seq<Seq<char>> {
    v.map_values(|s: &str| s@)
}

fn hex_char(d: u32) -> (c: char)
    requires
        d < 16,
    ensures
        c == hex_digit(d as nat),
{
    if d < 10 {
        ((48 + d) as u8) as char
    } else {
        ((87 + d) as u8) as char
    }
}

fn push_all(out: &mut Vec<char>, s: &str)
    ensures
        final(out)@ == old(out)@ + s@,
{
    let cs = chars_of(s);
    let mut i: usize = 0;
    let ghost start = out@;
    while i < cs.len()
        invariant
            i <= cs@.len(),
            cs@ == s@,
            out@ == start + cs@.take(i as int),
        decreases cs@.len() - i,
    {
        out.push(cs[i]);
        i = i + 1;
        assert(out@ =~= start + cs@.take(i as int));
    }
    assert(cs@.take(cs@.len() as int) =~= cs@);
}

fn push_escaped_char(out: &mut Vec<char>, c: char)
    ensures
        final(out)@ == old(out)@ + json_escape_char(c),
{
    let ghost start = out@;
    if c == '"' {
        out.push('\\');
        out.push('"');
    } else if c == '\\' {
        out.push('\\');
        out.push('\\');
    } else if c == '\n' {
        out.push('\\');
        out.push('n');
    } else if c == '\r' {
        out.push('\\');
        out.push('r');
    } else if c == '\t' {
        out.push('\\');
        out.push('t');
    } else if (c as u32) < 0x20 {
        let u = c as u32;
        out.push('\\');
        out.push('u');
        out.push('0');
        out.push('0');
        out.push(hex_char(u / 16));
        out.push(hex_char(u % 16));
    } else {
        out.push(c);
    }
    assert(out@ =~= start + json_escape_char(c));
}

/// Appends `s` as a JSON string literal.
pub fn push_json_str(out: &mut Vec<char>, s: &str)
    ensures
        final(out)@ == old(out)@ + json_str(s@),
{
    let cs = chars_of(s);
    let ghost start = out@;
    out.push('"');
    let mut i: usize = 0;
    while i < cs.len()
        invariant
            i <= cs@.len(),
            cs@ == s@,
            out@ == start + seq!['"'] + json_escape(cs@.take(i as int)),
        decreases cs@.len() - i,
    {
        let ghost before = out@;
        push_escaped_char(out, cs[i]);
        proof {
            let t = cs@.take(i + 1);
            assert(t.drop_last() =~= cs@.take(i as int));
            assert(t.last() == cs@[i as int]);
        }
        i = i + 1;
        assert(out@ =~= start + seq!['"'] + json_escape(cs@.take(i as int)));
    }
    out.push('"');
    assert(cs@.take(cs@.len() as int) =~= cs@);
    assert(out@ =~= start + json_str(s@));
}

fn push_property(out: &mut Vec<char>, p: (&str, &str, &str))
    ensures
        final(out)@ == old(out)@ + property_json((p.0@, p.1@, p.2@)),
{
    let ghost start = out@;
    push_json_str(out, p.0);
    push_all(out, ":{\"type\":");
    push_json_str(out, p.1);
    push_all(out, ",\"description\":");
    push_json_str(out, p.2);
    push_all(out, "}");
    assert(out@ =~= start + property_json((p.0@, p.1@, p.2@)));
}

proof fn lemma_joined_step(items: Seq<Seq<char>>, i: int)
    requires
        1 <= i < items.len(),
    ensures
        joined(items.take(i + 1)) == joined(items.take(i)) + seq![','] + items[i],
{
    let t = items.take(i + 1);
    assert(t.drop_last() =~= items.take(i));
}

/// The JSON object schema of a tool's input.
pub fn schema_text(props: &Vec<(&str, &str, &str)>, required: &Vec<&str>) -> (s: String)
    ensures
        s@ == schema_json(param_views(props@), str_views(required@)),
{
    let ghost pj = param_views(props@).map_values(|p| property_json(p));
    let ghost rj = str_views(required@).map_values(|r: Seq<char>| json_str(r));
    let mut out: Vec<char> = Vec::new();
    push_all(&mut out, "{\"type\":\"object\",\"properties\":{");
    let ghost head = out@;
    let mut i: usize = 0;
    while i < props.len()
        invariant
            i <= props@.len(),
            pj == param_views(props@).map_values(|p| property_json(p)),
            pj.len() == props@.len(),
            out@ == head + joined(pj.take(i as int)),
        decreases props@.len() - i,
    {
        let ghost before = out@;
        if i > 0 {
            out.push(',');
        }
        push_property(&mut out, props[i]);
        proof {
            assert(pj[i as int] == property_json((props@[i as int].0@, props@[i as int].1@, props@[i as int].2@)));
            if i == 0 {
                assert(pj.take(1) =~= seq![pj[0]]);
            } else {
                lemma_joined_step(pj, i as int);
            }
        }
        i = i + 1;
        assert(out@ =~= head + joined(pj.take(i as int)));
    }
    assert(pj.take(props@.len() as int) =~= pj);
    push_all(&mut out, "},\"required\":[");
    let ghost mid = out@;
    let mut j: usize = 0;
    while j < required.len()
        invariant
            j <= required@.len(),
            rj == str_views(required@).map_values(|r: Seq<char>| json_str(r)),
            rj.len() == required@.len(),
            out@ == mid + joined(rj.take(j as int)),
        decreases required@.len() - j,
    {
        if j > 0 {
            out.push(',');
        }
        push_json_str(&mut out, required[j]);
        proof {
            assert(rj[j as int] == json_str(required@[j as int]@));
            if j == 0 {
                assert(rj.take(1) =~= seq![rj[0]]);
            } else {
                lemma_joined_step(rj, j as int);
            }
        }
        j = j + 1;
        assert(out@ =~= mid + joined(rj.take(j as int)));
    }
    assert(rj.take(required@.len() as int) =~= rj);
    push_all(&mut out, "]}");
    assert(out@ =~= schema_json(param_views(props@), str_views(required@)));
    string_of(out.as_slice())
}

} // verus!
