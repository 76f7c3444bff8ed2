//! The boundary to the JSON reader, and a printer for [`JsonValue`].
//!
//! Reading JSON text is delegated to `serde_json`; what it returns for a
//! given text is named by the uninterpreted function [`json_tree_of`], so
//! contracts can say exactly "this text parses" or "this is what it parsed
//! to" without restating the JSON grammar.

use vstd::prelude::*;
use crate::jsonval::{JsonValue, JsonV};

verus! {

/// The opaque declaration of `serde_json`'s value type, so that it can
/// appear in the conversion below.
#[verifier::external_type_specification]
#[verifier::external_body]
pub struct ExValue(serde_json::Value);

/// What `serde_json::from_str::<serde_json::Value>` yields for a text:
/// `None` when the text is not valid JSON, otherwise the parsed tree.
/// The result depends on the characters alone.
pub uninterp spec fn json_tree_of(s: Seq<char>) -> Option<JsonV>;

/// Whether a text is valid JSON, as judged by the reader.
pub open spec fn json_parse_ok(s: Seq<char>) -> bool {
    json_tree_of(s) is Some
}

/// Carries `serde_json`'s tree over into [`JsonValue`], variant by
/// variant; a number becomes the text `serde_json` prints for it.
///
/// Relies on `serde_json::Value` (each arm moves one variant's fields) and
/// on `serde_json::Number::to_string`.
#[verifier::external_body]
fn value_tree(v: serde_json::Value) -> JsonValue {
    match v {
        serde_json::Value::Null => JsonValue::Null,
        serde_json::Value::Bool(b) => JsonValue::Bool(b),
        serde_json::Value::Number(n) => JsonValue::Num(n.to_string()),
        serde_json::Value::String(s) => JsonValue::Str(s),
        serde_json::Value::Array(a) => JsonValue::Arr(a.into_iter().map(value_tree).collect()),
        serde_json::Value::Object(m) => JsonValue::Obj(
            m.into_iter().map(|(k, x)| (k, value_tree(x))).collect(),
        ),
    }
}

/// Parse a text as JSON, or report that it is not valid JSON.
///
/// Relies on `serde_json::from_str::<serde_json::Value>`: deterministic in
/// the text, `Ok` exactly on valid JSON; the tree is converted by
/// [`value_tree`].
#[verifier::external_body]
pub fn parse_json_text(s: &str) -> (r: Option<JsonValue>)
    ensures
        match r {
            Some(v) => json_tree_of(s@) == Some(v@),
            None => json_tree_of(s@) is None,
        },
{
    match serde_json::from_str::<serde_json::Value>(s) {
        Ok(v) => Some(value_tree(v)),
        Err(_) => None,
    }
}

/// Whether a text is valid JSON.
pub fn text_parses(s: &str) -> (r: bool)
    ensures
        r == json_parse_ok(s@),
{
    parse_json_text(s).is_some()
}

/// The escape sequence a character becomes inside a printed JSON string.
pub open spec fn esc_char(c: char) -> Seq<char> {
    if c == '"' {
        seq!['\\', '"']
    } else if c == '\\' {
        seq!['\\', '\\']
    } else if c == '\n' {
        seq!['\\', 'n']
    } else if c == '\r' {
        seq!['\\', 'r']
    } else if c == '\t' {
        seq!['\\', 't']
    } else if (c as u32) < 32 {
        seq!['\\', 'u', '0', '0', hex_digit((c as u32) / 16 as u32), hex_digit(
            (c as u32) % 16 as u32,
        )]
    } else {
        seq![c]
    }
}

/// The lower-case hexadecimal digit for a value below 16.
pub open spec fn hex_digit(d: u32) -> char {
    if d < 10 {
        (('0' as u32) + d) as char
    } else if d < 16 {
        (('a' as u32) + (d - 10)) as char
    } else {
        '?'
    }
}

/// A string's characters, each escaped.
pub open spec fn esc_str(s: Seq<char>) -> Seq<char>
    decreases s.len(),
{
    if s.len() == 0 {
        Seq::empty()
    } else {
        esc_str(s.drop_last()) + esc_char(s.last())
    }
}

/// The printed form of a value: JSON text with no added whitespace, a
/// number printed as its stored literal.
pub open spec fn ser(v: JsonV) -> Seq<char>
    decreases v,
{
    match v {
        JsonV::Null => "null"@,
        JsonV::Bool(b) => if b {
            "true"@
        } else {
            "false"@
        },
        JsonV::Num(lit) => lit,
        JsonV::Str(s) => seq!['"'] + esc_str(s) + seq!['"'],
        JsonV::Arr(items) => seq!['['] + ser_items(items) + seq![']'],
        JsonV::Obj(fields) => seq!['{'] + ser_fields(fields) + seq!['}'],
    }
}

/// Array elements joined by commas.
pub open spec fn ser_items(items: Seq<JsonV>) -> Seq<char>
    decreases items,
{
    if items.len() == 0 {
        Seq::empty()
    } else if items.len() == 1 {
        ser(items[0])
    } else {
        ser_items(items.subrange(0, items.len() - 1)) + seq![','] + ser(items.last())
    }
}

/// Object members (`"key":value`) joined by commas.
pub open spec fn ser_fields(fields: Seq<(Seq<char>, JsonV)>) -> Seq<char>
    decreases fields,
{
    if fields.len() == 0 {
        Seq::empty()
    } else if fields.len() == 1 {
        ser_field(fields[0])
    } else {
        ser_fields(fields.subrange(0, fields.len() - 1)) + seq![','] + ser_field(fields.last())
    }
}

/// One object member.
pub open spec fn ser_field(f: (Seq<char>, JsonV)) -> Seq<char>
    decreases f,
{
    seq!['"'] + esc_str(f.0) + seq!['"', ':'] + ser(f.1)
}

/// Append the escaped form of `s` to `out`.
#[verifier::loop_isolation(false)]
fn write_escaped(s: &Vec<char>, out: &mut Vec<char>)
    ensures
        final(out)@ == old(out)@ + esc_str(s@),
{
    let n = s.len();
    let mut i: usize = 0;
    while i < n
        invariant
            n == s@.len(),
            i <= n,
            out@ == old(out)@ + esc_str(s@.subrange(0, i as int)),
        decreases n - i,
    {
        let ghost pre = s@.subrange(0, i as int);
        let c = s[i];
        if c == '"' {
            out.push('\\');
            out.push('"');
        } else if c == '\\' {
            out.push('\\');
            out.push('\\');
        } else if c == '\n' {
            out.push('\\');
            out.push('n');
        } else if c == '\r' {
            out.push('\\');
            out.push('r');
        } else if c == '\t' {
            out.push('\\');
            out.push('t');
        } else if (c as u32) < 32 {
            out.push('\\');
            out.push('u');
            out.push('0');
            out.push('0');
            out.push(hex_digit_pub((c as u32) / 16));
            out.push(hex_digit_pub((c as u32) % 16));
        } else {
            out.push(c);
        }
        proof {
            let cur = s@.subrange(0, i + 1);
            assert(cur.drop_last() =~= pre);
            assert(cur.last() == c);
            assert(out@ =~= old(out)@ + esc_str(cur));
        }
        i = i + 1;
    }
    proof {
        assert(s@.subrange(0, n as int) =~= s@);
    }
}

/// Runtime form of [`hex_digit`].
pub fn hex_digit_pub(d: u32) -> (r: char)
    requires
        d < 16,
    ensures
        r == hex_digit(d),
{
    let digits = ['0', '1', '2', '3', '4', '5', '6', '7', '8', '9', 'a', 'b', 'c', 'd', 'e', 'f'];
    digits[d as usize]
}

/// Append each character of the literal `lit` to `out`.
#[verifier::loop_isolation(false)]
fn write_str_chars(lit: &str, out: &mut Vec<char>)
    ensures
        final(out)@ == old(out)@ + lit@,
{
    let v = crate::text::chars_of(lit);
    crate::text::append_all(out, &v);
}

/// Append the printed form of `v` to `out`.
#[verifier::loop_isolation(false)]
#[verifier::rlimit(60)]
pub fn write_value(v: &JsonValue, out: &mut Vec<char>)
    ensures
        final(out)@ == old(out)@ + ser(v@),
    decreases *v,
{
    match v {
        JsonValue::Null => {
            write_str_chars("null", out);
            proof {
                reveal_strlit("null");
            }
        }
        JsonValue::Bool(b) => {
            if *b {
                write_str_chars("true", out);
                proof {
                    reveal_strlit("true");
                }
            } else {
                write_str_chars("false", out);
                proof {
                    reveal_strlit("false");
                }
            }
        }
        JsonValue::Num(lit) => {
            let cs = crate::text::chars_of(lit.as_str());
            crate::text::append_all(out, &cs);
        }
        JsonValue::Str(s) => {
            out.push('"');
            let cs = crate::text::chars_of(s.as_str());
            write_escaped(&cs, out);
            out.push('"');
            proof {
                assert(out@ =~= old(out)@ + ser(v@));
            }
        }
        JsonValue::Arr(items) => {
            out.push('[');
            let n = items.len();
            let mut i: usize = 0;
            while i < n
                invariant
                    n == items@.len(),
                    i <= n,
                    out@ == old(out)@ + seq!['['] + ser_items(
                        crate::jsonval::JsonValue::jv_seq(items@.subrange(0, i as int)),
                    ),
                decreases n - i,
            {
                proof {
                    assert(decreases_to!(*v => (*v)->Arr_0));
                    assert((*v)->Arr_0 == *items);
                    assert(decreases_to!(*items => items@));
                    assert(decreases_to!(items@ => items@[i as int]));
                }
                if i > 0 {
                    out.push(',');
                }
                let ghost pre_args = items@.subrange(0, i as int);
                write_value(&items[i], out);
                proof {
                    let cur = items@.subrange(0, i + 1);
                    let curv = crate::jsonval::JsonValue::jv_seq(cur);
                    let prev = crate::jsonval::JsonValue::jv_seq(pre_args);
                    crate::jsonval::lemma_jv_seq(cur);
                    crate::jsonval::lemma_jv_seq(pre_args);
                    assert(cur.subrange(0, i as int) =~= pre_args);
                    assert(curv.subrange(0, i as int) =~= prev) by {
                        crate::jsonval::lemma_jv_seq(cur.subrange(0, i as int));
                        assert(forall|k: int| 0 <= k < i
                            ==> curv.subrange(0, i as int)[k] == curv[k]);
                    }
                    if i == 0 {
                        assert(curv.len() == 1);
                        assert(curv[0] == items@[0].jv());
                        assert(ser_items(curv) == ser(items@[0].jv()));
                        assert(out@ =~= old(out)@ + seq!['['] + ser_items(curv));
                    } else {
                        assert(curv.last() == items@[i as int].jv());
                        assert(ser_items(curv) == ser_items(prev) + seq![','] + ser(
                            items@[i as int].jv(),
                        ));
                        assert(out@ =~= old(out)@ + seq!['['] + ser_items(curv));
                    }
                }
                i = i + 1;
            }
            out.push(']');
            proof {
                assert(items@.subrange(0, n as int) =~= items@);
                assert(out@ =~= old(out)@ + ser(v@));
            }
        }
        JsonValue::Obj(fields) => {
            out.push('{');
            let n = fields.len();
            let mut i: usize = 0;
            while i < n
                invariant
                    n == fields@.len(),
                    i <= n,
                    out@ == old(out)@ + seq!['{'] + ser_fields(
                        crate::jsonval::JsonValue::jv_pairs(fields@.subrange(0, i as int)),
                    ),
                decreases n - i,
            {
                proof {
                    assert(decreases_to!(*v => (*v)->Obj_0));
                    assert((*v)->Obj_0 == *fields);
                    assert(decreases_to!(*fields => fields@));
                    assert(decreases_to!(fields@ => fields@[i as int]));
                    assert(decreases_to!(fields@[i as int] => fields@[i as int].1));
                }
                if i > 0 {
                    out.push(',');
                }
                let ghost pre_args = fields@.subrange(0, i as int);
                out.push('"');
                let ks = crate::text::chars_of(fields[i].0.as_str());
                write_escaped(&ks, out);
                out.push('"');
                out.push(':');
                write_value(&fields[i].1, out);
                proof {
                    let cur = fields@.subrange(0, i + 1);
                    let curv = crate::jsonval::JsonValue::jv_pairs(cur);
                    let prev = crate::jsonval::JsonValue::jv_pairs(pre_args);
                    crate::jsonval::lemma_jv_pairs(cur);
                    crate::jsonval::lemma_jv_pairs(pre_args);
                    assert(cur.subrange(0, i as int) =~= pre_args);
                    assert(curv.subrange(0, i as int) =~= prev) by {
                        crate::jsonval::lemma_jv_pairs(cur.subrange(0, i as int));
                        assert(forall|k: int| 0 <= k < i
                            ==> curv.subrange(0, i as int)[k] == curv[k]);
                    }
                    if i == 0 {
                        assert(curv.len() == 1);
                        assert(ser_fields(curv) == ser_field(curv[0]));
                        assert(out@ =~= old(out)@ + seq!['{'] + ser_fields(curv));
                    } else {
                        assert(ser_fields(curv) == ser_fields(prev) + seq![','] + ser_field(
                            curv.last(),
                        ));
                        assert(out@ =~= old(out)@ + seq!['{'] + ser_fields(curv));
                    }
                }
                i = i + 1;
            }
            out.push('}');
            proof {
                assert(fields@.subrange(0, n as int) =~= fields@);
                assert(out@ =~= old(out)@ + ser(v@));
            }
        }
    }
}

/// The printed form of a value as a fresh string.
pub fn to_json_text(v: &JsonValue) -> (r: String)
    ensures
        r@ == ser(v@),
{
    let mut out: Vec<char> = Vec::new();
    write_value(v, &mut out);
    crate::text::string_of(&out)
}

} // verus!
