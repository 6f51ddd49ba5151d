//! The state a Laya question is asked about, serialised the way Python's
//! `json.dumps(obj, ensure_ascii=False)` does: `", "` and `": "`
//! separators, keys in the given order. The model was trained on states
//! Python serialised, and a compact `{"a":"b"}` is a different token
//! sequence.

use vstd::prelude::*;

use crate::text::{chars_of, join, join_exec, push_all, push_str, string_of, vvc};

verus! {

/// A JSON value the state serializer understands: enough for the states
/// engram builds (strings and lists of strings, in insertion order).
#[derive(Debug, Clone)]
pub enum StateValue {
    Text(String),
    List(Vec<String>),
}

/// A lowercase hexadecimal digit.
pub open spec fn hex_digit(d: int) -> char {
    if d < 10 {
        (d + 48) as char
    } else {
        (d + 87) as char
    }
}

/// How a JSON string literal writes one char: `"` and `\` and the control
/// chars below U+0020 escaped (the five with a short escape by it, the
/// others as `\u00XX`), every other char as itself.
pub open spec fn json_char(c: char) -> Seq<char> {
    if c == '"' {
        seq!['\\', '"']
    } else if c == '\\' {
        seq!['\\', '\\']
    } else if c == '\u{8}' {
        seq!['\\', 'b']
    } else if c == '\t' {
        seq!['\\', 't']
    } else if c == '\n' {
        seq!['\\', 'n']
    } else if c == '\u{c}' {
        seq!['\\', 'f']
    } else if c == '\r' {
        seq!['\\', 'r']
    } else if (c as int) < 32 {
        seq!['\\', 'u', '0', '0', hex_digit((c as int) / 16), hex_digit((c as int) % 16)]
    } else {
        seq![c]
    }
}

/// The escaped contents of a JSON string literal.
pub open spec fn json_escaped(s: Seq<char>) -> Seq<char>
    decreases s.len(),
{
    if s.len() == 0 {
        seq![]
    } else {
        json_escaped(s.drop_last()) + json_char(s.last())
    }
}

/// The JSON string literal of `s`.
pub open spec fn json_string(s: Seq<char>) -> Seq<char> {
    seq!['"'] + json_escaped(s) + seq!['"']
}

/// `serde_json::to_string` on a `str`: the compact formatter writes a quote,
/// the contents through its `ESCAPE` table, and a quote. Serialising a
/// `str` into a `String` does not fail, so the error arm keeps the
/// message the caller gave it and is never taken.
#[verifier::external_body]
fn json_quote(s: &str) -> (r: String)
    ensures
        r@ == json_string(s@),
{
    serde_json::to_string(s).expect("strings serialize")
}

/// A state value in JSON: a string, or a list of strings as `[a, b]`.
pub open spec fn value_json(v: StateValue) -> Seq<char> {
    match v {
        StateValue::Text(t) => json_string(t@),
        StateValue::List(items) => "["@ + join(items.deep_view().map_values(|i: Seq<char>| json_string(i)), ", "@)
            + "]"@,
    }
}

/// One `"key": value` member.
pub open spec fn member_json(field: (&str, StateValue)) -> Seq<char> {
    json_string(field.0@) + ": "@ + value_json(field.1)
}

/// The object `{"k1": v1, "k2": v2}` with the keys in the given order.
pub open spec fn spec_state_json(fields: Seq<(&str, StateValue)>) -> Seq<char> {
    "{"@ + join(fields.map_values(|f: (&str, StateValue)| member_json(f)), ", "@) + "}"@
}

fn value_json_exec(v: &StateValue) -> (r: Vec<char>)
    ensures
        r@ == value_json(*v),
{
    match v {
        StateValue::Text(t) => chars_of(json_quote(t.as_str()).as_str()),
        StateValue::List(items) => {
            let mut parts: Vec<Vec<char>> = Vec::new();
            let mut i: usize = 0;
            while i < items.len()
                invariant
                    i <= items@.len(),
                    vvc(parts@) == items.deep_view().map_values(|x: Seq<char>| json_string(x)).take(i as int),
                decreases items@.len() - i,
            {
                let ghost p0 = vvc(parts@);
                parts.push(chars_of(json_quote(items[i].as_str()).as_str()));
                i = i + 1;
                proof {
                    let m = items.deep_view().map_values(|x: Seq<char>| json_string(x));
                    assert(vvc(parts@) =~= p0.push(json_string(items@[i - 1]@)));
                    assert(m.take(i as int) =~= m.take(i - 1).push(m[i - 1]));
                }
            }
            proof {
                let m = items.deep_view().map_values(|x: Seq<char>| json_string(x));
                assert(m.take(items@.len() as int) =~= m);
            }
            let sep = chars_of(", ");
            let joined = join_exec(&parts, sep.as_slice());
            let mut r = chars_of("[");
            push_all(&mut r, joined.as_slice());
            push_str(&mut r, "]");
            r
        },
    }
}

/// Serialize an object the way Python's `json.dumps(obj, ensure_ascii=False)`
/// does: `", "` and `": "` separators, keys in the given order.
pub fn state_json(fields: &[(&str, StateValue)]) -> (r: String)
    ensures
        r@ == spec_state_json(fields@),
{
    let ghost m = fields@.map_values(|f: (&str, StateValue)| member_json(f));
    let mut members: Vec<Vec<char>> = Vec::new();
    let mut i: usize = 0;
    while i < fields.len()
        invariant
            i <= fields@.len(),
            m == fields@.map_values(|f: (&str, StateValue)| member_json(f)),
            vvc(members@) == m.take(i as int),
        decreases fields@.len() - i,
    {
        let (k, v) = &fields[i];
        let mut member = chars_of(json_quote(k).as_str());
        push_str(&mut member, ": ");
        let vj = value_json_exec(v);
        push_all(&mut member, vj.as_slice());
        let ghost p0 = vvc(members@);
        members.push(member);
        i = i + 1;
        proof {
            assert(vvc(members@) =~= p0.push(m[i - 1]));
            assert(m.take(i as int) =~= m.take(i - 1).push(m[i - 1]));
        }
    }
    proof {
        assert(m.take(fields@.len() as int) =~= m);
    }
    let sep = chars_of(", ");
    let joined = join_exec(&members, sep.as_slice());
    let mut r = chars_of("{");
    push_all(&mut r, joined.as_slice());
    push_str(&mut r, "}");
    string_of(r.as_slice())
}

/// The state the three-way NLI judge asks about for one pair.
pub fn nli_state(premise: &str, hypothesis: &str) -> (r: String)
    ensures
        r@ == "{"@ + json_string("premise"@) + ": "@ + json_string(premise@) + ", "@ + json_string("hypothesis"@)
            + ": "@ + json_string(hypothesis@) + "}"@,
{
    let fields = [
        ("premise", StateValue::Text(string_of(chars_of(premise).as_slice()))),
        ("hypothesis", StateValue::Text(string_of(chars_of(hypothesis).as_slice()))),
    ];
    let fs = fields.as_slice();
    let r = state_json(fs);
    proof {
        let m = fs@.map_values(|f: (&str, StateValue)| member_json(f));
        assert(fs@ == fields@);
        assert(m.len() == 2);
        assert(m.drop_last() =~= seq![m[0]]);
        assert(join(m, ", "@) == join(m.drop_last(), ", "@) + ", "@ + m[1]);
    }
    r
}

} // verus!
