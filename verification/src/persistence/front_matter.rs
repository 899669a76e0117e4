//! JSON values as they appear in document front matter, and their YAML flow
//! rendering.

use vstd::prelude::*;

use crate::outside::{hex_digit, json_encode_str, json_escape, json_escape_char, json_string_text};
use crate::persistence::lines::line_free;
use crate::text::{push_char, push_chars, push_str, to_chars};

verus! {

/// A JSON value, with numbers kept as the text `serde_json` prints for them.
#[derive(Debug)]
pub enum JsonValue {
    Null,
    Bool(bool),
    Number(String),
    Str(String),
    Array(Vec<JsonValue>),
    Object(Vec<(String, JsonValue)>),
}

pub open spec fn comma_space() -> Seq<char> {
    seq![',', ' ']
}

pub open spec fn colon_space() -> Seq<char> {
    seq![':', ' ']
}

/// Text of a scalar or empty container as compact JSON.
pub open spec fn json_scalar_text(v: JsonValue) -> Seq<char> {
    match v {
        JsonValue::Null => seq!['n', 'u', 'l', 'l'],
        JsonValue::Bool(b) => if b {
            seq!['t', 'r', 'u', 'e']
        } else {
            seq!['f', 'a', 'l', 's', 'e']
        },
        JsonValue::Number(n) => n@,
        JsonValue::Str(s) => json_string_text(s@),
        JsonValue::Array(_) => seq!['[', ']'],
        JsonValue::Object(_) => seq!['{', '}'],
    }
}

/// YAML flow rendering: arrays and non-empty objects are written as flow
/// collections whose leaves are JSON scalars; everything else is compact JSON.
pub open spec fn flow_text(v: JsonValue) -> Seq<char>
    decreases v, 0nat,
{
    match v {
        JsonValue::Array(items) => seq!['['] + flow_items(items@, items@.len()) + seq![']'],
        JsonValue::Object(fields) => if fields@.len() == 0 {
            seq!['{', '}']
        } else {
            seq!['{'] + flow_fields(fields@, fields@.len()) + seq!['}']
        },
        _ => json_scalar_text(v),
    }
}

/// Flow text of the first `n` items, separated by `, `.
pub open spec fn flow_items(items: Seq<JsonValue>, n: nat) -> Seq<char>
    decreases items, n,
{
    if n == 0 || n > items.len() {
        seq![]
    } else if n == 1 {
        flow_text(items[0])
    } else {
        flow_items(items, (n - 1) as nat) + comma_space() + flow_text(items[n - 1])
    }
}

/// Flow text of the first `n` fields as `"name": value`, separated by `, `.
pub open spec fn flow_fields(fields: Seq<(String, JsonValue)>, n: nat) -> Seq<char>
    decreases fields, n,
{
    if n == 0 || n > fields.len() {
        seq![]
    } else if n == 1 {
        json_string_text(fields[0].0@) + colon_space() + flow_text(fields[0].1)
    } else {
        flow_fields(fields, (n - 1) as nat) + comma_space() + json_string_text(fields[n - 1].0@)
            + colon_space() + flow_text(fields[n - 1].1)
    }
}

/// Appends the flow rendering of `v`; every value renders, so the result is
/// always `true`.
fn push_flow(out: &mut String, v: &JsonValue) -> (ok: bool)
    ensures
        ok,
        final(out)@ == old(out)@ + flow_text(*v),
    decreases v, 1nat,
{
    match v {
        JsonValue::Array(items) => {
            push_char(out, '[');
            let n = items.len();
            let ghost start = out@;
            for i in 0..n
                invariant
                    n == items@.len(),
                    *v == JsonValue::Array(*items),
                    out@ == start + flow_items(items@, i as nat),
            {
                if i > 0 {
                    push_str(out, ", ");
                    proof {
                        reveal_strlit(", ");
                    }
                }
                proof {
                    assert(decreases_to!(*v => v->Array_0));
                    assert(decreases_to!(*items => items@));
                    assert(decreases_to!(items@ => items@[i as int]));
                }
                if !push_flow(out, &items[i]) {
                    return false;
                }
                proof {
                    if i == 0 {
                        assert(out@ =~= start + flow_items(items@, 1));
                    } else {
                        assert(out@ =~= start + flow_items(items@, (i + 1) as nat));
                    }
                }
            }
            push_char(out, ']');
            proof {
                assert(out@ =~= old(out)@ + flow_text(*v));
            }
            true
        },
        JsonValue::Object(fields) => {
            if fields.len() == 0 {
                push_str(out, "{}");
                proof {
                    reveal_strlit("{}");
                    assert(out@ =~= old(out)@ + flow_text(*v));
                }
                return true;
            }
            push_char(out, '{');
            let n = fields.len();
            let ghost start = out@;
            for i in 0..n
                invariant
                    n == fields@.len(),
                    *v == JsonValue::Object(*fields),
                    out@ == start + flow_fields(fields@, i as nat),
            {
                if i > 0 {
                    push_str(out, ", ");
                    proof {
                        reveal_strlit(", ");
                    }
                }
                let name = match json_encode_str(fields[i].0.as_str()) {
                    Some(t) => t,
                    None => return false,
                };
                push_str(out, name.as_str());
                push_str(out, ": ");
                proof {
                    reveal_strlit(": ");
                }
                proof {
                    assert(decreases_to!(*v => v->Object_0));
                    assert(decreases_to!(*fields => fields@));
                    assert(decreases_to!(fields@ => fields@[i as int]));
                    assert(decreases_to!(fields@[i as int] => fields@[i as int].1));
                }
                if !push_flow(out, &fields[i].1) {
                    return false;
                }
                proof {
                    if i == 0 {
                        assert(out@ =~= start + flow_fields(fields@, 1));
                    } else {
                        assert(out@ =~= start + flow_fields(fields@, (i + 1) as nat));
                    }
                }
            }
            push_char(out, '}');
            proof {
                assert(out@ =~= old(out)@ + flow_text(*v));
            }
            true
        },
        JsonValue::Null => {
            push_str(out, "null");
            proof {
                reveal_strlit("null");
                assert(out@ =~= old(out)@ + flow_text(*v));
            }
            true
        },
        JsonValue::Bool(b) => {
            if *b {
                push_str(out, "true");
                proof {
                    reveal_strlit("true");
                    assert(out@ =~= old(out)@ + flow_text(*v));
                }
            } else {
                push_str(out, "false");
                proof {
                    reveal_strlit("false");
                    assert(out@ =~= old(out)@ + flow_text(*v));
                }
            }
            true
        },
        JsonValue::Number(n) => {
            push_str(out, n.as_str());
            true
        },
        JsonValue::Str(s) => {
            match json_encode_str(s.as_str()) {
                Some(t) => {
                    push_str(out, t.as_str());
                    true
                },
                None => false,
            }
        },
    }
}

/// The YAML flow text of `value`; every value renders.
pub fn render_yaml_flow(value: &JsonValue) -> (r: Option<String>)
    ensures
        r matches Some(t) && t@ == flow_text(*value),
{
    let mut out = String::new();
    if push_flow(&mut out, value) {
        proof {
            assert(out@ =~= flow_text(*value));
        }
        Some(out)
    } else {
        None
    }
}


/// A character of the number text `serde_json` prints: a digit, a sign, a
/// decimal point or an exponent mark.
pub open spec fn number_char(c: char) -> bool {
    ('0' <= c && c <= '9') || c == '-' || c == '+' || c == '.' || c == 'e' || c == 'E'
}

/// Every number in `v` is number text, as in any value `serde_json` gives.
pub open spec fn json_value_wf(v: JsonValue) -> bool
    decreases v,
{
    match v {
        JsonValue::Number(n) => n@.len() > 0 && forall|i: int|
            0 <= i < n@.len() ==> number_char(#[trigger] n@[i]),
        JsonValue::Array(items) => forall|i: int|
            0 <= i < items@.len() ==> json_value_wf(#[trigger] items@[i]),
        JsonValue::Object(fields) => forall|i: int|
            0 <= i < fields@.len() ==> json_value_wf(#[trigger] fields@[i].1),
        _ => true,
    }
}

/// Two line-free texts make a line-free text.
pub proof fn lemma_line_free_concat(a: Seq<char>, b: Seq<char>)
    requires
        line_free(a),
        line_free(b),
    ensures
        line_free(a + b),
{
    assert forall|i: int| 0 <= i < (a + b).len() implies #[trigger] (a + b)[i] != '\n' && (a
        + b)[i] != '\r' by {
        if i < a.len() {
            assert((a + b)[i] == a[i]);
        } else {
            assert((a + b)[i] == b[i - a.len()]);
        }
    }
}

/// A hexadecimal digit is no line break.
proof fn lemma_hex_digit_is_printable(d: nat)
    requires
        d < 16,
    ensures
        hex_digit(d) != '\n',
        hex_digit(d) != '\r',
{
}

/// JSON string text never holds a raw line break: `serde_json` escapes both.
pub proof fn lemma_json_string_line_free(s: Seq<char>)
    ensures
        line_free(json_string_text(s)),
    decreases s.len(),
{
    lemma_json_escape_line_free(s);
    lemma_line_free_concat(seq!['"'], json_escape(s));
    lemma_line_free_concat(seq!['"'] + json_escape(s), seq!['"']);
}

proof fn lemma_json_escape_line_free(s: Seq<char>)
    ensures
        line_free(json_escape(s)),
    decreases s.len(),
{
    if s.len() > 0 {
        lemma_json_escape_line_free(s.drop_last());
        let c = s.last();
        let v = c as u32;
        assert(line_free(json_escape_char(c))) by {
            if v < 0x20 && c != '"' && c != '\\' && v != 0x08 && v != 0x09 && v != 0x0a && v
                != 0x0c && v != 0x0d {
                lemma_hex_digit_is_printable((v / 16) as nat);
                lemma_hex_digit_is_printable((v % 16) as nat);
            }
            if v >= 0x20 {
                vstd::utf8::char_u32_cast(c, v);
                assert(c != '\n' && c != '\r');
            }
        }
        lemma_line_free_concat(json_escape(s.drop_last()), json_escape_char(c));
    }
}

/// A front-matter value cannot escape its line: the flow rendering of a
/// well-formed JSON value holds no line break.
pub proof fn flow_values_stay_on_one_line(v: JsonValue)
    requires
        json_value_wf(v),
    ensures
        line_free(flow_text(v)),
    decreases v, 2nat,
{
    match v {
        JsonValue::Array(items) => {
            assert(decreases_to!(v => items));
            assert(decreases_to!(items => items@));
            lemma_items_line_free(items@, items@.len());
            lemma_line_free_concat(seq!['['], flow_items(items@, items@.len()));
            lemma_line_free_concat(seq!['['] + flow_items(items@, items@.len()), seq![']']);
        },
        JsonValue::Object(fields) => {
            if fields@.len() > 0 {
                assert(decreases_to!(v => fields));
                assert(decreases_to!(fields => fields@));
                lemma_fields_line_free(fields@, fields@.len());
                lemma_line_free_concat(seq!['{'], flow_fields(fields@, fields@.len()));
                lemma_line_free_concat(seq!['{'] + flow_fields(fields@, fields@.len()), seq!['}']);
            }
        },
        JsonValue::Str(s) => {
            lemma_json_string_line_free(s@);
        },
        _ => {},
    }
}

proof fn lemma_items_line_free(items: Seq<JsonValue>, n: nat)
    requires
        forall|i: int| 0 <= i < items.len() ==> json_value_wf(#[trigger] items[i]),
    ensures
        line_free(flow_items(items, n)),
    decreases items, n,
{
    if n > 0 && n <= items.len() {
        assert(decreases_to!(items => items[n - 1]));
        flow_values_stay_on_one_line(items[n - 1]);
        if n > 1 {
            lemma_items_line_free(items, (n - 1) as nat);
            lemma_line_free_concat(flow_items(items, (n - 1) as nat), comma_space());
            lemma_line_free_concat(flow_items(items, (n - 1) as nat) + comma_space(), flow_text(
                items[n - 1],
            ));
        }
    }
}

proof fn lemma_fields_line_free(fields: Seq<(String, JsonValue)>, n: nat)
    requires
        forall|i: int| 0 <= i < fields.len() ==> json_value_wf(#[trigger] fields[i].1),
    ensures
        line_free(flow_fields(fields, n)),
    decreases fields, n,
{
    if n > 0 && n <= fields.len() {
        assert(decreases_to!(fields => fields[n - 1]));
        assert(decreases_to!(fields[n - 1] => fields[n - 1].1));
        flow_values_stay_on_one_line(fields[n - 1].1);
        lemma_json_string_line_free(fields[n - 1].0@);
        let entry = json_string_text(fields[n - 1].0@) + colon_space() + flow_text(fields[n - 1].1);
        lemma_line_free_concat(json_string_text(fields[n - 1].0@), colon_space());
        lemma_line_free_concat(json_string_text(fields[n - 1].0@) + colon_space(), flow_text(
            fields[n - 1].1,
        ));
        if n > 1 {
            lemma_fields_line_free(fields, (n - 1) as nat);
            lemma_line_free_concat(flow_fields(fields, (n - 1) as nat), comma_space());
            lemma_line_free_concat(flow_fields(fields, (n - 1) as nat) + comma_space(), entry);
            assert(flow_fields(fields, n) =~= flow_fields(fields, (n - 1) as nat) + comma_space()
                + entry);
        }
    }
}

} // verus!
