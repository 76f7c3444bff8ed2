//! Defensive extraction of JSON and thinking blocks from messy LLM text:
//! the light-weight utilities behind the legacy call helpers.

use vstd::prelude::*;
use crate::text::{
    chars_of, find_from, find_sub, find_sub_from, slice_range, string_of, trim_chars, trim_spec,
};
use crate::jsonval::{JsonValue, JsonV};
use crate::json::{json_parse_ok, json_tree_of, parse_json_text};
use crate::error::PipelineError;
use crate::output_parser::error::truncate;

verus! {

/// What [`extract_thinking`] yields: the trimmed body of the first
/// complete `<think>` block together with the text around the block,
/// trimmed; or the text unchanged when there is no complete block.
pub open spec fn thinking_spec(s: Seq<char>) -> (Option<Seq<char>>, Seq<char>) {
    match find_from(s, "<think>"@, 0) {
        Some(start) => match find_from(s, "</think>"@, start + 7) {
            Some(e) => {
                let body = trim_spec(s.subrange(start + 7, e));
                let cleaned = trim_spec(
                    s.subrange(0, start) + s.subrange(e + 8, s.len() as int),
                );
                (
                    if body.len() == 0 {
                        None
                    } else {
                        Some(body)
                    },
                    cleaned,
                )
            },
            None => (None, s),
        },
        None => (None, s),
    }
}

/// Extract the first complete `<think>` block from a response, returning
/// `(thinking_content, cleaned_text)`.
pub fn extract_thinking(text: &str) -> (r: (Option<String>, String))
    ensures
        ({
            let (tk, cl) = thinking_spec(text@);
            &&& match (r.0, tk) {
                (Some(a), Some(b)) => a@ == b,
                (None, None) => true,
                _ => false,
            }
            &&& r.1@ == cl
        }),
{
    proof {
        reveal_strlit("<think>");
        reveal_strlit("</think>");
    }
    let s = chars_of(text);
    let n = s.len();
    let open = chars_of("<think>");
    let close = chars_of("</think>");
    match find_sub(&s, &open) {
        Some(start) => {
            match find_sub_from(&s, &close, start + 7) {
                Some(e) => {
                    let body_raw = slice_range(&s, start + 7, e);
                    let body = trim_chars(&body_raw);
                    let mut around = slice_range(&s, 0, start);
                    let tail = slice_range(&s, e + 8, n);
                    crate::text::append_all(&mut around, &tail);
                    let cleaned = trim_chars(&around);
                    let tk = if body.len() == 0 {
                        None
                    } else {
                        Some(string_of(&body))
                    };
                    (tk, string_of(&cleaned))
                }
                None => (None, string_of(&s)),
            }
        }
        None => (None, string_of(&s)),
    }
}

/// The markers tried for a fenced JSON block, in order.
pub open spec fn block_markers() -> Seq<Seq<char>> {
    seq!["```json"@, "```JSON"@, "```"@]
}

/// What [`extract_json_block`] yields: the trimmed content between the
/// first marker that occurs with a closing fence after it.
pub open spec fn json_block_spec(s: Seq<char>, k: int) -> Option<Seq<char>>
    decreases block_markers().len() - k
        when 0 <= k
{
    if k >= block_markers().len() {
        None
    } else {
        let m = block_markers()[k];
        match find_from(s, m, 0) {
            Some(start) => {
                let cs = start + m.len();
                match find_from(s.subrange(cs, s.len() as int), "```"@, 0) {
                    Some(e) => Some(trim_spec(s.subrange(cs, cs + e))),
                    None => json_block_spec(s, k + 1),
                }
            },
            None => json_block_spec(s, k + 1),
        }
    }
}

/// Extract JSON content from markdown fenced code blocks, recognizing
/// ` ```json `, ` ```JSON `, and plain fences.
#[verifier::loop_isolation(false)]
pub fn extract_json_block(text: &str) -> (r: Option<String>)
    ensures
        match r {
            Some(t) => json_block_spec(text@, 0) == Some(t@),
            None => json_block_spec(text@, 0) is None,
        },
{
    proof {
        reveal_strlit("```json");
        reveal_strlit("```JSON");
        reveal_strlit("```");
    }
    let s = chars_of(text);
    let n = s.len();
    let fence = chars_of("```");
    let markers = ["```json", "```JSON", "```"];
    let mut k: usize = 0;
    while k < 3
        invariant
            0 <= k <= 3,
            n == s@.len(),
            s@ == text@,
            json_block_spec(text@, 0) == json_block_spec(text@, k as int),
        decreases 3 - k,
    {
        let m = chars_of(markers[k]);
        proof {
            assert(m@ == block_markers()[k as int]);
        }
        match find_sub(&s, &m) {
            Some(start) => {
                let cs = start + m.len();
                let rest = slice_range(&s, cs, n);
                match find_sub(&rest, &fence) {
                    Some(e) => {
                        let content_raw = slice_range(&rest, 0, e);
                        proof {
                            assert(rest@.subrange(0, e as int) =~= s@.subrange(
                                cs as int,
                                cs + e,
                            ));
                        }
                        let content = trim_chars(&content_raw);
                        return Some(string_of(&content));
                    }
                    None => {}
                }
            }
            None => {}
        }
        k = k + 1;
    }
    None
}

/// What [`extract_json_candidate`] yields: a fenced block's content, or
/// the valid JSON from the first `{` or `[` onward (whole or cut at the
/// last closer), if any parses.
pub open spec fn candidate_here_spec(trimmed: Seq<char>) -> Option<Seq<char>> {
    match json_block_spec(trimmed, 0) {
        Some(b) => Some(b),
        None => {
            let idx = match find_from(trimmed, seq!['{'], 0) {
                Some(i) => Some(i),
                None => find_from(trimmed, seq!['['], 0),
            };
            match idx {
                Some(i) => {
                    let cand = trimmed.subrange(i, trimmed.len() as int);
                    if json_parse_ok(cand) {
                        Some(cand)
                    } else {
                        let close = if trimmed[i] == '{' {
                            '}'
                        } else {
                            ']'
                        };
                        match crate::output_parser::streaming::rfind_char(cand, close) {
                            Some(e) => {
                                let sub = cand.subrange(0, e + 1);
                                if json_parse_ok(sub) {
                                    Some(sub)
                                } else {
                                    None
                                }
                            },
                            None => None,
                        }
                    }
                },
                None => None,
            }
        },
    }
}

/// Locate and extract a JSON object or array from text that may hold
/// surrounding prose.
pub fn extract_json_candidate(text: &str) -> (r: Option<String>)
    ensures
        match r {
            Some(t) => candidate_here_spec(trim_spec(text@)) == Some(t@),
            None => candidate_here_spec(trim_spec(text@)) is None,
        },
{
    let tv0 = chars_of(text);
    let tv = trim_chars(&tv0);
    let trimmed = string_of(&tv);
    match extract_json_block(trimmed.as_str()) {
        Some(b) => {
            return Some(b);
        }
        None => {}
    }
    let n = tv.len();
    let idx = match crate::text::find_char_from(&tv, '{', 0) {
        Some(i) => {
            proof {
                crate::output_parser::extract::lemma_find_from_singleton_some(
                    tv@,
                    '{',
                    0,
                    i as int,
                );
            }
            Some(i)
        }
        None => {
            proof {
                crate::output_parser::extract::lemma_find_from_singleton_none(tv@, '{', 0);
            }
            match crate::text::find_char_from(&tv, '[', 0) {
                Some(i) => {
                    proof {
                        crate::output_parser::extract::lemma_find_from_singleton_some(
                            tv@,
                            '[',
                            0,
                            i as int,
                        );
                    }
                    Some(i)
                }
                None => {
                    proof {
                        crate::output_parser::extract::lemma_find_from_singleton_none(
                            tv@,
                            '[',
                            0,
                        );
                    }
                    None
                }
            }
        }
    };
    match idx {
        Some(i) => {
            let cand_v = slice_range(&tv, i, n);
            let cand = string_of(&cand_v);
            if crate::json::text_parses(cand.as_str()) {
                return Some(cand);
            }
            let close = if tv[i] == '{' {
                '}'
            } else {
                ']'
            };
            match rfind_in(&cand_v, close) {
                Some(e) => {
                    let sub_v = slice_range(&cand_v, 0, e + 1);
                    let sub = string_of(&sub_v);
                    if crate::json::text_parses(sub.as_str()) {
                        return Some(sub);
                    }
                    None
                }
                None => None,
            }
        }
        None => None,
    }
}

/// The last index of `c` in `s`, if any.
#[verifier::loop_isolation(false)]
fn rfind_in(s: &Vec<char>, c: char) -> (r: Option<usize>)
    ensures
        match r {
            Some(i) => crate::output_parser::streaming::rfind_char(s@, c) == Some(i as int) && i
                < s@.len(),
            None => crate::output_parser::streaming::rfind_char(s@, c) is None,
        },
{
    let n = s.len();
    let mut b: usize = n;
    proof {
        assert(s@.subrange(0, n as int) =~= s@);
    }
    while b > 0
        invariant
            0 <= b <= n,
            n == s@.len(),
            crate::output_parser::streaming::rfind_char(s@, c)
                == crate::output_parser::streaming::rfind_char(s@.subrange(0, b as int), c),
        decreases b,
    {
        proof {
            let pre = s@.subrange(0, b as int);
            assert(pre.last() == s@[b - 1]);
            assert(pre.drop_last() =~= s@.subrange(0, b - 1));
        }
        if s[b - 1] == c {
            return Some(b - 1);
        }
        b = b - 1;
    }
    proof {
        assert(s@.subrange(0, 0) =~= Seq::<char>::empty());
    }
    None
}

/// What [`parse_value_lossy`] yields: the parsed value of the trimmed
/// text or of its best candidate, else the trimmed text wrapped as a
/// string value. This never fails.
pub open spec fn lossy_spec(trimmed: Seq<char>) -> JsonV {
    match json_tree_of(trimmed) {
        Some(v) => v,
        None => match candidate_here_spec(trimmed) {
            Some(c) => match json_tree_of(c) {
                Some(v) => v,
                None => JsonV::Str(trimmed),
            },
            None => JsonV::Str(trimmed),
        },
    }
}

/// Parse text into a structured value losslessly: defensive extraction,
/// falling back to wrapping the text as a string.
pub fn parse_value_lossy(text: &str) -> (r: JsonValue)
    ensures
        r@ == lossy_spec(trim_spec(text@)),
{
    let tv0 = chars_of(text);
    let tv = trim_chars(&tv0);
    let trimmed = string_of(&tv);
    match parse_json_text(trimmed.as_str()) {
        Some(v) => {
            return v;
        }
        None => {}
    }
    proof {
        crate::text::lemma_trim_idempotent(text@);
    }
    match extract_json_candidate(trimmed.as_str()) {
        Some(c) => {
            match parse_json_text(c.as_str()) {
                Some(v) => {
                    return v;
                }
                None => {}
            }
        }
        None => {}
    }
    JsonValue::Str(trimmed)
}

/// Parse text into a structured value, requiring valid JSON somewhere:
/// defensive extraction, else an error.
pub fn parse_value_defensively(text: &str) -> (r: Result<JsonValue, PipelineError>)
    ensures
        match r {
            Ok(v) => json_tree_of(trim_spec(text@)) == Some(v@) || (json_tree_of(
                trim_spec(text@),
            ) is None && (candidate_here_spec(trim_spec(text@)) matches Some(c) && json_tree_of(
                c,
            ) == Some(v@))),
            Err(e) => (e matches PipelineError::Other(m) && m@
                == "No valid JSON found in LLM output. Raw text (truncated): "@
                + crate::output_parser::error::truncate_spec(trim_spec(text@), 200))
                && json_tree_of(trim_spec(text@)) is None && match candidate_here_spec(
                trim_spec(text@),
            ) {
                Some(c) => json_tree_of(c) is None,
                None => true,
            },
        },
{
    let tv0 = chars_of(text);
    let tv = trim_chars(&tv0);
    let trimmed = string_of(&tv);
    match parse_json_text(trimmed.as_str()) {
        Some(v) => {
            return Ok(v);
        }
        None => {}
    }
    proof {
        crate::text::lemma_trim_idempotent(text@);
    }
    match extract_json_candidate(trimmed.as_str()) {
        Some(c) => {
            match parse_json_text(c.as_str()) {
                Some(v) => {
                    return Ok(v);
                }
                None => {}
            }
        }
        None => {}
    }
    let mut msg = crate::output_parser::error::string_from(
        "No valid JSON found in LLM output. Raw text (truncated): ",
    );
    let cut = truncate(trimmed.as_str(), 200);
    vstd::string::StringExecFns::append(&mut msg, cut.as_str());
    Err(PipelineError::Other(msg))
}

} // verus!
