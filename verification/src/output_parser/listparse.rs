//! String-list extraction: a cascade of strategies that turns a model
//! response into a list of strings — direct JSON array, object with a
//! known list key, fenced block, bracketed array, repair, numbered or
//! bulleted lines, and a comma-split fallback.

use vstd::prelude::*;
use crate::text::{
    chars_of, find_from, is_digit, is_ws, match_at, slice_range, string_of, trim_chars,
    trim_spec,
};
use crate::jsonval::{JsonValue, JsonV};
use crate::json::{json_parse_ok, json_tree_of, parse_json_text};
use crate::output_parser::extract::{
    best_region_spec, code_block_spec, find_bracketed, extract_code_block, lower_seq,
    preprocess, preprocess_spec, strip_think_spec,
};
use crate::output_parser::repair::{repair_chain_spec, try_repair_json};
use crate::output_parser::error::{truncate, ParseError};
use crate::output_parser::choice::{lower_chars, trim_pred};

verus! {

/// The strings of an all-string array value, if `v` is one.
pub open spec fn arr_strings(v: JsonV) -> Option<Seq<Seq<char>>> {
    match v {
        JsonV::Arr(items) => if forall|j: int| 0 <= j < items.len() ==> items[j] is Str {
            Some(Seq::new(items.len(), |j: int| items[j]->Str_0))
        } else {
            None
        },
        _ => None,
    }
}

/// A parsed all-string array of a text, if it parses to one.
pub open spec fn direct_strings(t: Seq<char>) -> Option<Seq<Seq<char>>> {
    match json_tree_of(t) {
        Some(v) => arr_strings(v),
        None => None,
    }
}

/// The first value under `key` in an object's fields.
pub open spec fn obj_lookup(fields: Seq<(Seq<char>, JsonV)>, key: Seq<char>) -> Option<JsonV>
    decreases fields.len(),
{
    if fields.len() == 0 {
        None
    } else if fields[0].0 == key {
        Some(fields[0].1)
    } else {
        obj_lookup(fields.drop_first(), key)
    }
}

/// The string elements of an array value, non-strings skipped.
pub open spec fn strings_in(items: Seq<JsonV>) -> Seq<Seq<char>>
    decreases items.len(),
{
    if items.len() == 0 {
        Seq::empty()
    } else {
        let rest = strings_in(items.drop_first());
        match items[0] {
            JsonV::Str(s) => seq![s] + rest,
            _ => rest,
        }
    }
}

/// The common list keys, in the order they are tried.
pub open spec fn list_keys() -> Seq<Seq<char>> {
    seq!["tags"@, "items"@, "results"@, "list"@]
}

/// The non-empty string list found under the first matching list key of
/// an object value, if any.
pub open spec fn object_list(v: JsonV, k: int) -> Option<Seq<Seq<char>>>
    decreases list_keys().len() - k
        when 0 <= k
{
    if k >= list_keys().len() {
        None
    } else {
        let found = match v {
            JsonV::Obj(fields) => match obj_lookup(fields, list_keys()[k]) {
                Some(JsonV::Arr(items)) => {
                    let ss = strings_in(items);
                    if ss.len() > 0 {
                        Some(ss)
                    } else {
                        None
                    }
                },
                _ => None,
            },
            _ => None,
        };
        match found {
            Some(ss) => Some(ss),
            None => object_list(v, k + 1),
        }
    }
}

/// [`object_list`] applied to the parse of a text.
pub open spec fn object_list_of(t: Seq<char>) -> Option<Seq<Seq<char>>> {
    match json_tree_of(t) {
        Some(v) => object_list(v, 0),
        None => None,
    }
}

/// The list found in the first fenced code block: a direct array, an
/// object with a list key, or — for a `json`-tagged block — the repaired
/// content.
pub open spec fn code_block_list(cleaned: Seq<char>) -> Option<Seq<Seq<char>>> {
    match code_block_spec(cleaned, 0) {
        Some(p) => {
            let content = p.1;
            match direct_strings(content) {
                Some(ss) => Some(ss),
                None => match object_list_of(content) {
                    Some(ss) => Some(ss),
                    None => if p.0 == Some("json"@) && !json_parse_ok(content)
                        && json_parse_ok(repair_chain_spec(content)) {
                        direct_strings(repair_chain_spec(content))
                    } else {
                        None
                    },
                },
            }
        },
        None => None,
    }
}

/// The list found in the last bracketed array region: parsed directly or
/// after repair.
pub open spec fn bracket_list(cleaned: Seq<char>) -> Option<Seq<Seq<char>>> {
    match best_region_spec(cleaned, '[', ']', 0) {
        Some(p) => {
            let region = cleaned.subrange(p.0, p.1 + 1);
            match direct_strings(region) {
                Some(ss) => Some(ss),
                None => if !json_parse_ok(region) && json_parse_ok(repair_chain_spec(region)) {
                    direct_strings(repair_chain_spec(region))
                } else {
                    None
                },
            }
        },
        None => None,
    }
}

/// The list found by repairing the whole cleaned text: a direct array or
/// an object with a list key.
pub open spec fn repair_list(cleaned: Seq<char>) -> Option<Seq<Seq<char>>> {
    if !json_parse_ok(cleaned) && json_parse_ok(repair_chain_spec(cleaned)) {
        let rep = repair_chain_spec(cleaned);
        match direct_strings(rep) {
            Some(ss) => Some(ss),
            None => object_list_of(rep),
        }
    } else {
        None
    }
}

/// The lines of a text, split on line feeds (a final fragment without a
/// line feed counts).
pub open spec fn lines_of(s: Seq<char>) -> Seq<Seq<char>>
    decreases s.len()
        via Self_lines_of_decreases
{
    match find_from(s, seq!['\n'], 0) {
        Some(p) => seq![chop_cr(s.subrange(0, p))] + lines_of(
            s.subrange(p + 1, s.len() as int),
        ),
        None => if s.len() == 0 {
            Seq::empty()
        } else {
            seq![s]
        },
    }
}

#[via_fn]
proof fn Self_lines_of_decreases(s: Seq<char>) {
    crate::text::lemma_find_from(s, seq!['\n'], 0);
    match find_from(s, seq!['\n'], 0) {
        Some(p) => {
            crate::text::lemma_match_single(s, '\n', p);
        }
        None => {}
    }
}

/// A line without its trailing carriage return.
pub open spec fn chop_cr(line: Seq<char>) -> Seq<char> {
    if line.len() > 0 && line.last() == '\r' {
        line.drop_last()
    } else {
        line
    }
}

/// The list item a line yields: the text after a `1.`/`2)` number or a
/// `-`/`*`/bullet marker, trimmed and unquoted, if non-empty.
pub open spec fn line_item(line: Seq<char>) -> Option<Seq<char>> {
    let t = trim_spec(line);
    if t.len() > 0 && is_digit(t[0]) {
        let e = crate::output_parser::number::digit_end(t, 0);
        if e < t.len() && (t[e] == '.' || t[e] == ')') {
            let tag = clean_item(t.subrange(e + 1, t.len() as int));
            if tag.len() > 0 {
                Some(tag)
            } else {
                bullet_item(t)
            }
        } else {
            bullet_item(t)
        }
    } else {
        bullet_item(t)
    }
}

/// The list item a bullet line yields.
pub open spec fn bullet_item(t: Seq<char>) -> Option<Seq<char>> {
    if t.len() > 0 && (t[0] == '-' || t[0] == '*' || t[0] == '\u{2022}') {
        let tag = clean_item(t.subrange(1, t.len() as int));
        if tag.len() > 0 {
            Some(tag)
        } else {
            None
        }
    } else {
        None
    }
}

/// Trim, strip surrounding double quotes, and trim again.
pub open spec fn clean_item(s: Seq<char>) -> Seq<char> {
    trim_spec(trim_pred(trim_spec(s), |c: char| c == '"'))
}

/// Every list item over a sequence of lines.
pub open spec fn line_items(ls: Seq<Seq<char>>) -> Seq<Seq<char>>
    decreases ls.len(),
{
    if ls.len() == 0 {
        Seq::empty()
    } else {
        let rest = line_items(ls.drop_first());
        match line_item(ls[0]) {
            Some(t) => seq![t] + rest,
            None => rest,
        }
    }
}

/// The numbered/bulleted list of the text, when it has at least two
/// items.
pub open spec fn lines_list(cleaned: Seq<char>) -> Option<Seq<Seq<char>>> {
    let items = line_items(lines_of(cleaned));
    if items.len() >= 2 {
        Some(items)
    } else {
        None
    }
}

/// The comma-separated fields of the text, each trimmed and unquoted,
/// empties dropped.
pub open spec fn comma_items(s: Seq<char>) -> Seq<Seq<char>>
    decreases s.len()
        via Self_comma_items_decreases
{
    match find_from(s, seq![','], 0) {
        Some(p) => {
            let item = clean_item(s.subrange(0, p));
            let rest = comma_items(s.subrange(p + 1, s.len() as int));
            if item.len() > 0 {
                seq![item] + rest
            } else {
                rest
            }
        },
        None => {
            let item = clean_item(s);
            if item.len() > 0 {
                seq![item]
            } else {
                Seq::empty()
            }
        },
    }
}

#[via_fn]
proof fn Self_comma_items_decreases(s: Seq<char>) {
    crate::text::lemma_find_from(s, seq![','], 0);
    match find_from(s, seq![','], 0) {
        Some(p) => {
            crate::text::lemma_match_single(s, ',', p);
        }
        None => {}
    }
}

/// What the shared inner list parser yields for a response whose raw and
/// cleaned forms are both non-empty.
pub open spec fn list_inner_spec(raw_trimmed: Seq<char>, cleaned: Seq<char>) -> Option<
    Seq<Seq<char>>,
> {
    match direct_strings(raw_trimmed) {
        Some(ss) => Some(ss),
        None => match direct_strings(cleaned) {
            Some(ss) => Some(ss),
            None => match object_list_of(cleaned) {
                Some(ss) => Some(ss),
                None => match code_block_list(cleaned) {
                    Some(ss) => Some(ss),
                    None => match bracket_list(cleaned) {
                        Some(ss) => Some(ss),
                        None => match repair_list(cleaned) {
                            Some(ss) => Some(ss),
                            None => match lines_list(cleaned) {
                                Some(ss) => Some(ss),
                                None => {
                                    let cs = comma_items(cleaned);
                                    if cs.len() > 0 {
                                        Some(cs)
                                    } else {
                                        None
                                    }
                                },
                            },
                        },
                    },
                },
            },
        },
    }
}

/// Items each trimmed, empties dropped (the "raw" cleaning).
pub open spec fn raw_clean(ss: Seq<Seq<char>>) -> Seq<Seq<char>>
    decreases ss.len(),
{
    if ss.len() == 0 {
        Seq::empty()
    } else {
        let t = trim_spec(ss[0]);
        let rest = raw_clean(ss.drop_first());
        if t.len() > 0 {
            seq![t] + rest
        } else {
            rest
        }
    }
}

/// Items trimmed and lower-cased, deduplicated keeping first occurrences,
/// empties and long items dropped (the "cleaned" variant).
pub open spec fn clean_tags_spec(ss: Seq<Seq<char>>, seen: Seq<Seq<char>>) -> Seq<Seq<char>>
    decreases ss.len(),
{
    if ss.len() == 0 {
        Seq::empty()
    } else {
        let t = lower_seq(trim_spec(ss[0]));
        if t.len() > 0 && t.len() < 50 && !seen.contains(t) {
            seq![t] + clean_tags_spec(ss.drop_first(), seen.push(t))
        } else {
            clean_tags_spec(ss.drop_first(), seen)
        }
    }
}

/// The strings of an all-string array value, if the value is one.
#[verifier::loop_isolation(false)]
fn arr_strings_exec(v: &JsonValue) -> (r: Option<Vec<String>>)
    ensures
        match r {
            Some(ss) => arr_strings(v@) == Some(ss@.map_values(|x: String| x@)),
            None => arr_strings(v@) is None,
        },
{
    match v {
        JsonValue::Arr(items) => {
            let n = items.len();
            proof {
                crate::jsonval::lemma_jv_seq(items@);
            }
            let mut out: Vec<String> = Vec::new();
            let mut i: usize = 0;
            while i < n
                invariant
                    n == items@.len(),
                    0 <= i <= n,
                    v@ == JsonV::Arr(crate::jsonval::JsonValue::jv_seq(items@)),
                    v@->Arr_0.len() == n,
                    forall|j: int| 0 <= j < n ==> v@->Arr_0[j] == items@[j]@,
                    out@.len() == i as int,
                    forall|j: int| 0 <= j < i ==> v@->Arr_0[j] is Str && out@.map_values(
                        |x: String| x@,
                    )[j] == v@->Arr_0[j]->Str_0,
                decreases n - i,
            {
                match &items[i] {
                    JsonValue::Str(s) => {
                        out.push(crate::output_parser::error::string_from(s.as_str()));
                    }
                    _ => {
                        proof {
                            assert(!(v@->Arr_0[i as int] is Str));
                        }
                        return None;
                    }
                }
                i = i + 1;
            }
            proof {
                assert(out@.map_values(|x: String| x@) =~= Seq::new(
                    v@->Arr_0.len(),
                    |j: int| v@->Arr_0[j]->Str_0,
                ));
            }
            Some(out)
        }
        _ => None,
    }
}

/// [`arr_strings`] of a parsed text.
fn direct_strings_exec(t: &str) -> (r: Option<Vec<String>>)
    ensures
        match r {
            Some(ss) => direct_strings(t@) == Some(ss@.map_values(|x: String| x@)),
            None => direct_strings(t@) is None,
        },
{
    match parse_json_text(t) {
        Some(v) => arr_strings_exec(&v),
        None => None,
    }
}

/// The string elements of an array of values, non-strings skipped.
#[verifier::loop_isolation(false)]
fn strings_in_exec(items: &Vec<JsonValue>) -> (r: Vec<String>)
    ensures
        r@.map_values(|x: String| x@) == strings_in(crate::jsonval::JsonValue::jv_seq(items@)),
{
    let n = items.len();
    proof {
        crate::jsonval::lemma_jv_seq(items@);
    }
    let ghost iv = crate::jsonval::JsonValue::jv_seq(items@);
    proof {
        assert(iv.subrange(0, n as int) =~= iv);
    }
    let mut out: Vec<String> = Vec::new();
    let mut i: usize = 0;
    while i < n
        invariant
            n == items@.len(),
            0 <= i <= n,
            iv == crate::jsonval::JsonValue::jv_seq(items@),
            iv.len() == n,
            forall|j: int| 0 <= j < n ==> iv[j] == items@[j]@,
            strings_in(iv) == out@.map_values(|x: String| x@) + strings_in(
                iv.subrange(i as int, n as int),
            ),
        decreases n - i,
    {
        proof {
            assert(iv.subrange(i as int, n as int).drop_first() =~= iv.subrange(i + 1, n as int));
            assert(iv.subrange(i as int, n as int)[0] == iv[i as int]);
        }
        match &items[i] {
            JsonValue::Str(s) => {
                out.push(crate::output_parser::error::string_from(s.as_str()));
                proof {
                    assert(out@.map_values(|x: String| x@) =~= out@.map_values(
                        |x: String| x@,
                    ).subrange(0, out@.len() - 1).push(s@));
                    assert(strings_in(iv) =~= out@.map_values(|x: String| x@) + strings_in(
                        iv.subrange(i + 1, n as int),
                    ));
                }
            }
            _ => {
                proof {
                    assert(strings_in(iv) =~= out@.map_values(|x: String| x@) + strings_in(
                        iv.subrange(i + 1, n as int),
                    ));
                }
            }
        }
        i = i + 1;
    }
    proof {
        assert(iv.subrange(n as int, n as int) =~= Seq::<JsonV>::empty());
        assert(strings_in(iv) =~= out@.map_values(|x: String| x@));
    }
    out
}

/// The non-empty string list under the first matching list key of a
/// parsed object.
#[verifier::loop_isolation(false)]
fn object_list_exec(v: &JsonValue) -> (r: Option<Vec<String>>)
    ensures
        match r {
            Some(ss) => object_list(v@, 0) == Some(ss@.map_values(|x: String| x@)),
            None => object_list(v@, 0) is None,
        },
{
    proof {
        reveal_strlit("tags");
        reveal_strlit("items");
        reveal_strlit("results");
        reveal_strlit("list");
    }
    let keys = ["tags", "items", "results", "list"];
    let mut k: usize = 0;
    while k < 4
        invariant
            0 <= k <= 4,
            object_list(v@, 0) == object_list(v@, k as int),
        decreases 4 - k,
    {
        let ghost keyv = list_keys()[k as int];
        match v {
            JsonValue::Obj(fields) => {
                proof {
                    crate::jsonval::lemma_jv_pairs(fields@);
                }
                let ghost fv = crate::jsonval::JsonValue::jv_pairs(fields@);
                let n = fields.len();
                proof {
                    assert(fv.subrange(0, n as int) =~= fv);
                }
                let mut i: usize = 0;
                let mut found: Option<usize> = None;
                while i < n
                    invariant
                        0 <= i <= n,
                        n == fields@.len(),
                        fv == crate::jsonval::JsonValue::jv_pairs(fields@),
                        fv.len() == n,
                        forall|j: int| 0 <= j < n ==> fv[j] == (
                            fields@[j].0@,
                            fields@[j].1@,
                        ),
                        keyv == list_keys()[k as int],
                        found is None ==> obj_lookup(fv, keyv) == obj_lookup(
                            fv.subrange(i as int, n as int),
                            keyv,
                        ),
                        match found {
                            Some(fi) => fi < n && obj_lookup(fv, keyv) == Some(fv[fi as int].1),
                            None => true,
                        },
                    decreases n - i,
                {
                    if found.is_none() {
                        proof {
                            assert(fv.subrange(i as int, n as int).drop_first() =~= fv.subrange(
                                i + 1,
                                n as int,
                            ));
                            assert(fv.subrange(i as int, n as int)[0] == fv[i as int]);
                        }
                        if str_eq_key(fields[i].0.as_str(), keys[k]) {
                            proof {
                                assert(fields@[i as int].0@ == keyv);
                            }
                            found = Some(i);
                        }
                    }
                    i = i + 1;
                }
                match found {
                    Some(fi) => {
                        match &fields[fi].1 {
                            JsonValue::Arr(items) => {
                                let ss = strings_in_exec(items);
                                if ss.len() > 0 {
                                    proof {
                                        assert(fv[fi as int].1 == fields@[fi as int].1@);
                                        assert(object_list(v@, k as int) == Some(
                                            ss@.map_values(|x: String| x@),
                                        ));
                                    }
                                    return Some(ss);
                                }
                            }
                            _ => {}
                        }
                    }
                    None => {
                        proof {
                            assert(fv.subrange(n as int, n as int)
                                =~= Seq::<(Seq<char>, JsonV)>::empty());
                        }
                    }
                }
            }
            _ => {}
        }
        k = k + 1;
    }
    None
}

/// Whether two string slices hold the same characters.
pub fn str_eq_key(a: &str, b: &str) -> (r: bool)
    ensures
        r == (a@ == b@),
{
    let av = chars_of(a);
    let bv = chars_of(b);
    let n = av.len();
    if n != bv.len() {
        return false;
    }
    let r = crate::text::matches_at(&av, &bv, 0);
    proof {
        assert(av@.subrange(0, n as int) =~= av@);
    }
    r
}

/// [`object_list`] of a parsed text.
fn object_list_of_exec(t: &str) -> (r: Option<Vec<String>>)
    ensures
        match r {
            Some(ss) => object_list_of(t@) == Some(ss@.map_values(|x: String| x@)),
            None => object_list_of(t@) is None,
        },
{
    match parse_json_text(t) {
        Some(v) => object_list_exec(&v),
        None => None,
    }
}

/// Trim, strip surrounding double quotes, trim again.
fn clean_item_exec(s: &Vec<char>) -> (r: Vec<char>)
    ensures
        r@ == clean_item(s@),
{
    let t1 = trim_chars(s);
    let t2 = crate::output_parser::choice::trim_one(&t1, '"');
    trim_chars(&t2)
}

/// The numbered or bulleted items over all lines, when there are at
/// least two.
#[verifier::loop_isolation(false)]
fn lines_list_exec(cleaned: &Vec<char>) -> (r: Option<Vec<String>>)
    ensures
        match r {
            Some(ss) => lines_list(cleaned@) == Some(ss@.map_values(|x: String| x@)),
            None => lines_list(cleaned@) is None,
        },
{
    let mut items: Vec<String> = Vec::new();
    let n = cleaned.len();
    let mut i: usize = 0;
    let ghost full = cleaned@;
    let mut done = false;
    proof {
        assert(full.subrange(0, n as int) =~= full);
    }
    while !done
        invariant
            0 <= i <= n,
            n == cleaned@.len(),
            full == cleaned@,
            !done ==> line_items(lines_of(full)) == items@.map_values(|x: String| x@)
                + line_items(lines_of(full.subrange(i as int, n as int))),
            done ==> line_items(lines_of(full)) == items@.map_values(|x: String| x@),
        decreases n + 1 - i, if done {
            0int
        } else {
            1int
        },
    {
        let ghost rest = full.subrange(i as int, n as int);
        // Take the next line: up to the next line feed, or to the end.
        let (nl, found) = match crate::text::find_char_from(cleaned, '\n', i) {
            Some(p) => (p, true),
            None => (n, false),
        };
        proof {
            if found {
                crate::output_parser::extract::lemma_find_char_sub(full, i as int, nl as int, '\n');
            } else {
                crate::output_parser::extract::lemma_find_char_sub_none(full, i as int, '\n');
            }
        }
        let mut line = crate::text::slice_range(cleaned, i, nl);
        if found {
            let ll = line.len();
            if ll > 0 && line[ll - 1] == '\r' {
                line = crate::text::slice_range(&line, 0, ll - 1);
                proof {
                    assert(full.subrange(i as int, nl as int).drop_last() =~= full.subrange(
                        i as int,
                        nl - 1,
                    ));
                }
            }
        }
        let ghost lv = if found {
            chop_cr(full.subrange(i as int, nl as int))
        } else {
            rest
        };
        proof {
            if found {
                assert(rest.subrange(0, nl - i) =~= full.subrange(i as int, nl as int));
                assert(rest.subrange(nl - i + 1, rest.len() as int) =~= full.subrange(
                    nl + 1,
                    n as int,
                ));
                assert(lines_of(rest) == seq![lv] + lines_of(full.subrange(nl + 1, n as int)));
                assert((seq![lv] + lines_of(full.subrange(nl + 1, n as int)))[0] == lv);
                assert((seq![lv] + lines_of(full.subrange(nl + 1, n as int))).drop_first()
                    =~= lines_of(full.subrange(nl + 1, n as int)));
            } else {
                if rest.len() == 0 {
                    assert(lines_of(rest) =~= Seq::<Seq<char>>::empty());
                } else {
                    assert(lines_of(rest) == seq![rest]);
                    assert((seq![rest])[0] == rest);
                    assert((seq![rest]).drop_first() =~= Seq::<Seq<char>>::empty());
                    assert(rest =~= full.subrange(i as int, nl as int));
                }
            }
            assert(line@ == lv);
        }
        if found || i < n {
            match line_item_exec(&line) {
                Some(t) => {
                    items.push(t);
                    proof {
                        assert(items@.map_values(|x: String| x@) =~= items@.map_values(
                            |x: String| x@,
                        ).subrange(0, items@.len() - 1).push(items@.last()@));
                    }
                }
                None => {}
            }
        }
        proof {
            if found {
                assert(line_items(lines_of(rest)) =~= match line_item(lv) {
                    Some(t) => seq![t] + line_items(lines_of(full.subrange(nl + 1, n as int))),
                    None => line_items(lines_of(full.subrange(nl + 1, n as int))),
                });
                assert(line_items(lines_of(full)) =~= items@.map_values(|x: String| x@)
                    + line_items(lines_of(full.subrange(nl + 1, n as int))));
            } else {
                assert(line_items(Seq::<Seq<char>>::empty()) =~= Seq::<Seq<char>>::empty());
                if rest.len() == 0 {
                    assert(line_items(lines_of(rest)) =~= Seq::<Seq<char>>::empty());
                } else {
                    assert(lines_of(rest)[0] == rest);
                    assert(lines_of(rest).drop_first() =~= Seq::<Seq<char>>::empty());
                    assert(line_items(lines_of(rest)) =~= match line_item(lv) {
                        Some(t) => seq![t],
                        None => Seq::<Seq<char>>::empty(),
                    });
                }
                assert(line_items(lines_of(full)) =~= items@.map_values(|x: String| x@));
            }
        }
        if found {
            i = nl + 1;
        } else {
            done = true;
        }
    }
    if items.len() >= 2 {
        Some(items)
    } else {
        None
    }
}

/// The list item one line yields, if any.
#[verifier::loop_isolation(false)]
fn line_item_exec(line: &Vec<char>) -> (r: Option<String>)
    ensures
        match r {
            Some(t) => line_item(line@) == Some(t@),
            None => line_item(line@) is None,
        },
{
    let t = trim_chars(line);
    let tn = t.len();
    if tn > 0 && crate::text::digit(t[0]) {
        let e = crate::output_parser::number::digit_end_exec(&t, 0);
        if e < tn && (t[e] == '.' || t[e] == ')') {
            let rest = crate::text::slice_range(&t, e + 1, tn);
            let tag = clean_item_exec(&rest);
            if tag.len() > 0 {
                return Some(string_of(&tag));
            }
        }
    }
    if tn > 0 && (t[0] == '-' || t[0] == '*' || t[0] == '\u{2022}') {
        let rest = crate::text::slice_range(&t, 1, tn);
        let tag = clean_item_exec(&rest);
        if tag.len() > 0 {
            return Some(string_of(&tag));
        }
    }
    None
}

/// The comma-separated items of the text.
#[verifier::loop_isolation(false)]
fn comma_items_exec(cleaned: &Vec<char>) -> (r: Vec<String>)
    ensures
        r@.map_values(|x: String| x@) == comma_items(cleaned@),
{
    let mut items: Vec<String> = Vec::new();
    let n = cleaned.len();
    let mut i: usize = 0;
    let ghost full = cleaned@;
    let mut done = false;
    proof {
        assert(full.subrange(0, n as int) =~= full);
    }
    while !done
        invariant
            0 <= i <= n,
            n == cleaned@.len(),
            full == cleaned@,
            !done ==> comma_items(full) == items@.map_values(|x: String| x@) + comma_items(
                full.subrange(i as int, n as int),
            ),
            done ==> comma_items(full) == items@.map_values(|x: String| x@),
        decreases n + 1 - i, if done {
            0int
        } else {
            1int
        },
    {
        let ghost rest = full.subrange(i as int, n as int);
        let (seg_end, found) = match crate::text::find_char_from(cleaned, ',', i) {
            Some(p) => (p, true),
            None => (n, false),
        };
        proof {
            if found {
                crate::output_parser::extract::lemma_find_char_sub(
                    full,
                    i as int,
                    seg_end as int,
                    ',',
                );
                assert(rest.subrange(0, seg_end - i) =~= full.subrange(
                    i as int,
                    seg_end as int,
                ));
                assert(rest.subrange(seg_end - i + 1, rest.len() as int) =~= full.subrange(
                    seg_end + 1,
                    n as int,
                ));
            } else {
                crate::output_parser::extract::lemma_find_char_sub_none(full, i as int, ',');
                assert(rest =~= full.subrange(i as int, seg_end as int));
            }
        }
        let seg = crate::text::slice_range(cleaned, i, seg_end);
        let item = clean_item_exec(&seg);
        if item.len() > 0 {
            items.push(string_of(&item));
            proof {
                assert(items@.map_values(|x: String| x@) =~= items@.map_values(
                    |x: String| x@,
                ).subrange(0, items@.len() - 1).push(items@.last()@));
            }
        }
        proof {
            assert(comma_items(full) =~= items@.map_values(|x: String| x@) + (if found {
                comma_items(full.subrange(seg_end + 1, n as int))
            } else {
                Seq::<Seq<char>>::empty()
            }));
        }
        if found {
            i = seg_end + 1;
        } else {
            done = true;
        }
    }
    items
}

/// The cleaned form the inner parser works on: the trimmed raw text with
/// reasoning stripped and trimmed again.
pub open spec fn list_cleaned(response: Seq<char>) -> Seq<char> {
    trim_spec(strip_think_spec(trim_spec(response)))
}

/// Shared inner logic for both list parsers (before cleaning).
#[verifier::rlimit(60)]
pub fn parse_string_list_inner(response: &str) -> (r: Result<Vec<String>, ParseError>)
    ensures
        match r {
            Ok(ss) => trim_spec(response@).len() > 0 && (direct_strings(
                trim_spec(response@),
            ) is Some || list_cleaned(response@).len() > 0) && list_inner_spec(
                trim_spec(response@),
                list_cleaned(response@),
            ) == Some(ss@.map_values(|x: String| x@)),
            Err(e) => (e is EmptyResponse && (trim_spec(response@).len() == 0 || (
            !(direct_strings(trim_spec(response@)) is Some) && list_cleaned(
                response@,
            ).len() == 0))) || ((e matches ParseError::Unparseable { expected_format, text }
                && expected_format@ == "string list"@ && text@
                == crate::output_parser::error::truncate_spec(list_cleaned(response@), 200))
                && list_inner_spec(trim_spec(response@), list_cleaned(response@)) is None),
        },
{
    proof {
        reveal_strlit("json");
    }
    let rv = chars_of(response);
    let trimmed_v = trim_chars(&rv);
    let trimmed = string_of(&trimmed_v);
    if trimmed_v.len() == 0 {
        return Err(ParseError::EmptyResponse);
    }
    // A direct JSON array of strings, before any other cleaning.
    match direct_strings_exec(trimmed.as_str()) {
        Some(ss) => {
            return Ok(ss);
        }
        None => {}
    }
    let cleaned_s = preprocess(trimmed.as_str());
    let cleaned = chars_of(cleaned_s.as_str());
    if cleaned.len() == 0 {
        return Err(ParseError::EmptyResponse);
    }
    // The array after preprocessing.
    match direct_strings_exec(cleaned_s.as_str()) {
        Some(ss) => {
            return Ok(ss);
        }
        None => {}
    }
    // An object with a common list key.
    match object_list_of_exec(cleaned_s.as_str()) {
        Some(ss) => {
            return Ok(ss);
        }
        None => {}
    }
    // A fenced code block.
    match extract_code_block(cleaned_s.as_str()) {
        Some((hint, content)) => {
            match direct_strings_exec(content.as_str()) {
                Some(ss) => {
                    return Ok(ss);
                }
                None => {}
            }
            match object_list_of_exec(content.as_str()) {
                Some(ss) => {
                    return Ok(ss);
                }
                None => {}
            }
            let is_json_hint = match &hint {
                Some(h) => str_eq_key(h.as_str(), "json"),
                None => false,
            };
            if is_json_hint {
                match try_repair_json(content.as_str()) {
                    Some(rep) => {
                        match direct_strings_exec(rep.as_str()) {
                            Some(ss) => {
                                return Ok(ss);
                            }
                            None => {}
                        }
                    }
                    None => {}
                }
            }
        }
        None => {}
    }
    // The last bracketed array region.
    match find_bracketed(cleaned_s.as_str(), '[', ']') {
        Some(region) => {
            match direct_strings_exec(region.as_str()) {
                Some(ss) => {
                    return Ok(ss);
                }
                None => {}
            }
            match try_repair_json(region.as_str()) {
                Some(rep) => {
                    match direct_strings_exec(rep.as_str()) {
                        Some(ss) => {
                            return Ok(ss);
                        }
                        None => {}
                    }
                }
                None => {}
            }
        }
        None => {}
    }
    // Repairing the whole cleaned text.
    match try_repair_json(cleaned_s.as_str()) {
        Some(rep) => {
            match direct_strings_exec(rep.as_str()) {
                Some(ss) => {
                    return Ok(ss);
                }
                None => {}
            }
            match object_list_of_exec(rep.as_str()) {
                Some(ss) => {
                    return Ok(ss);
                }
                None => {}
            }
        }
        None => {}
    }
    // Numbered or bulleted lines.
    match lines_list_exec(&cleaned) {
        Some(ss) => {
            return Ok(ss);
        }
        None => {}
    }
    // Comma-separated fallback.
    let cs = comma_items_exec(&cleaned);
    if cs.len() > 0 {
        return Ok(cs);
    }
    Err(
        ParseError::Unparseable {
            expected_format: crate::output_parser::error::string_from("string list"),
            text: truncate(cleaned_s.as_str(), 200),
        },
    )
}

/// Parse an LLM response into a cleaned list of strings: lower-cased,
/// trimmed, deduplicated, with empties and long items dropped.
#[verifier::loop_isolation(false)]
pub fn parse_string_list(response: &str) -> (r: Result<Vec<String>, ParseError>)
    ensures
        match r {
            Ok(ss) => trim_spec(response@).len() > 0 && (direct_strings(
                trim_spec(response@),
            ) is Some || list_cleaned(response@).len() > 0) && (list_inner_spec(
                trim_spec(response@),
                list_cleaned(response@),
            ) matches Some(raw) && ss@.map_values(|x: String| x@) == clean_tags_spec(
                raw,
                Seq::empty(),
            )),
            Err(e) => (e is EmptyResponse && (trim_spec(response@).len() == 0 || (
            !(direct_strings(trim_spec(response@)) is Some) && list_cleaned(
                response@,
            ).len() == 0))) || ((e matches ParseError::Unparseable { expected_format, text })
                && list_inner_spec(trim_spec(response@), list_cleaned(response@)) is None),
        },
{
    match parse_string_list_inner(response) {
        Ok(items) => Ok(clean_tags(&items)),
        Err(e) => Err(e),
    }
}

/// Parse into a list without tag-specific cleaning: items trimmed,
/// empties dropped, case and length kept.
#[verifier::loop_isolation(false)]
pub fn parse_string_list_raw(response: &str) -> (r: Result<Vec<String>, ParseError>)
    ensures
        match r {
            Ok(ss) => trim_spec(response@).len() > 0 && (direct_strings(
                trim_spec(response@),
            ) is Some || list_cleaned(response@).len() > 0) && (list_inner_spec(
                trim_spec(response@),
                list_cleaned(response@),
            ) matches Some(raw) && ss@.map_values(|x: String| x@) == raw_clean(raw)),
            Err(e) => (e is EmptyResponse && (trim_spec(response@).len() == 0 || (
            !(direct_strings(trim_spec(response@)) is Some) && list_cleaned(
                response@,
            ).len() == 0))) || ((e matches ParseError::Unparseable { expected_format, text })
                && list_inner_spec(trim_spec(response@), list_cleaned(response@)) is None),
        },
{
    match parse_string_list_inner(response) {
        Ok(items) => {
            let n = items.len();
            let ghost iv = items@.map_values(|x: String| x@);
            let mut out: Vec<String> = Vec::new();
            let mut i: usize = 0;
            proof {
                assert(iv.subrange(0, n as int) =~= iv);
            }
            while i < n
                invariant
                    0 <= i <= n,
                    n == items@.len(),
                    iv == items@.map_values(|x: String| x@),
                    raw_clean(iv) == out@.map_values(|x: String| x@) + raw_clean(
                        iv.subrange(i as int, n as int),
                    ),
                decreases n - i,
            {
                proof {
                    assert(iv.subrange(i as int, n as int)[0] == iv[i as int]);
                    assert(iv.subrange(i as int, n as int).drop_first() =~= iv.subrange(
                        i + 1,
                        n as int,
                    ));
                }
                let cs = chars_of(items[i].as_str());
                let t = trim_chars(&cs);
                if t.len() > 0 {
                    out.push(string_of(&t));
                    proof {
                        assert(out@.map_values(|x: String| x@) =~= out@.map_values(
                            |x: String| x@,
                        ).subrange(0, out@.len() - 1).push(out@.last()@));
                    }
                }
                proof {
                    assert(raw_clean(iv) =~= out@.map_values(|x: String| x@) + raw_clean(
                        iv.subrange(i + 1, n as int),
                    ));
                }
                i = i + 1;
            }
            proof {
                assert(iv.subrange(n as int, n as int) =~= Seq::<Seq<char>>::empty());
                assert(raw_clean(iv) =~= out@.map_values(|x: String| x@));
            }
            Ok(out)
        }
        Err(e) => Err(e),
    }
}

/// Clean a list of tags: lower-case, trim, deduplicate keeping first
/// occurrences, drop empties and items of fifty characters or more.
#[verifier::loop_isolation(false)]
pub fn clean_tags(items: &Vec<String>) -> (r: Vec<String>)
    ensures
        r@.map_values(|x: String| x@) == clean_tags_spec(
            items@.map_values(|x: String| x@),
            Seq::empty(),
        ),
{
    let n = items.len();
    let ghost iv = items@.map_values(|x: String| x@);
    let mut out: Vec<String> = Vec::new();
    let mut seen: Vec<String> = Vec::new();
    let mut i: usize = 0;
    proof {
        assert(iv.subrange(0, n as int) =~= iv);
        assert(seen@.map_values(|x: String| x@) =~= Seq::<Seq<char>>::empty());
    }
    while i < n
        invariant
            0 <= i <= n,
            n == items@.len(),
            iv == items@.map_values(|x: String| x@),
            seen@.len() == out@.len(),
            forall|j: int| 0 <= j < out@.len() ==> (#[trigger] seen@[j])@ == (
            #[trigger] out@[j])@,
            clean_tags_spec(iv, Seq::empty()) == out@.map_values(|x: String| x@)
                + clean_tags_spec(
                iv.subrange(i as int, n as int),
                seen@.map_values(|x: String| x@),
            ),
        decreases n - i,
    {
        proof {
            assert(iv.subrange(i as int, n as int)[0] == iv[i as int]);
            assert(iv.subrange(i as int, n as int).drop_first() =~= iv.subrange(
                i + 1,
                n as int,
            ));
        }
        let cs = chars_of(items[i].as_str());
        let t0 = trim_chars(&cs);
        let tl = lower_chars(&t0);
        let t = string_of(&tl);
        let mut dup = false;
        let m = seen.len();
        let mut k: usize = 0;
        while k < m
            invariant
                0 <= k <= m,
                m == seen@.len(),
                t@ == lower_seq(trim_spec(iv[i as int])),
                dup == exists|j: int| 0 <= j < k && (#[trigger] seen@[j])@ == t@,
            decreases m - k,
        {
            if str_eq_key(seen[k].as_str(), t.as_str()) {
                dup = true;
            }
            k = k + 1;
        }
        proof {
            let sv = seen@.map_values(|x: String| x@);
            if dup {
                let j = choose|j: int| 0 <= j < m && (#[trigger] seen@[j])@ == t@;
                assert(sv[j] == t@);
                assert(sv.contains(t@));
            } else {
                if sv.contains(t@) {
                    let j = choose|j: int| 0 <= j < sv.len() && sv[j] == t@;
                    assert((seen@[j])@ == t@);
                }
            }
            assert(dup == sv.contains(t@));
        }
        let ghost out_pre = out@.map_values(|x: String| x@);
        let ghost seen_pre = seen@.map_values(|x: String| x@);
        if tl.len() > 0 && tl.len() < 50 && !dup {
            seen.push(crate::output_parser::error::string_from(t.as_str()));
            out.push(t);
            proof {
                assert(out@.map_values(|x: String| x@) =~= out_pre.push(tl@));
                assert(seen@.map_values(|x: String| x@) =~= seen_pre.push(tl@));
            }
        }
        proof {
            assert(clean_tags_spec(iv, Seq::empty()) =~= out@.map_values(|x: String| x@)
                + clean_tags_spec(
                iv.subrange(i + 1, n as int),
                seen@.map_values(|x: String| x@),
            ));
        }
        i = i + 1;
    }
    proof {
        assert(iv.subrange(n as int, n as int) =~= Seq::<Seq<char>>::empty());
        assert(clean_tags_spec(iv, Seq::empty()) =~= out@.map_values(|x: String| x@));
    }
    out
}

} // verus!
