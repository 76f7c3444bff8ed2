//! Untyped JSON extraction: a multi-strategy pipeline that finds the best
//! JSON candidate in messy model output and parses it, with repair and
//! auto-completion as fallbacks.

use vstd::prelude::*;
use crate::text::{chars_of, string_of, trim_chars, trim_spec};
use crate::jsonval::{JsonValue, JsonV};
use crate::json::{json_parse_ok, json_tree_of, parse_json_text};
use crate::output_parser::extract::{
    best_region_spec, code_block_for_spec, code_block_spec, extract_code_block,
    extract_code_block_for, find_bracketed, preprocess, preprocess_spec, strip_think_spec,
};
use crate::output_parser::repair::{repair_chain_spec, try_repair_json};
use crate::output_parser::streaming::{auto_complete_json, complete_spec};
use crate::output_parser::error::{truncate, ParseError};
use crate::output_parser::listparse::list_cleaned;

verus! {

/// The best JSON candidate of a cleaned, non-empty response: the valid
/// whole text, else a `json` code block, else any code block that looks
/// like JSON, else the last braced region, else the last bracketed
/// region, else the whole text.
pub open spec fn candidate_spec(cleaned: Seq<char>) -> Seq<char> {
    if json_parse_ok(cleaned) {
        cleaned
    } else {
        match code_block_for_spec(cleaned, "json"@, 0) {
            Some(content) => content,
            None => {
                let block = match code_block_spec(cleaned, 0) {
                    Some(p) => if p.1.len() > 0 && (p.1[0] == '{' || p.1[0] == '[') {
                        Some(p.1)
                    } else {
                        None
                    },
                    None => None,
                };
                match block {
                    Some(content) => content,
                    None => match best_region_spec(cleaned, '{', '}', 0) {
                        Some(p) => cleaned.subrange(p.0, p.1 + 1),
                        None => match best_region_spec(cleaned, '[', ']', 0) {
                            Some(p) => cleaned.subrange(p.0, p.1 + 1),
                            None => cleaned,
                        },
                    },
                }
            },
        }
    }
}

/// What [`parse_json_value`] yields for a cleaned, non-empty response:
/// the candidate parsed directly, else repaired, else the repaired whole
/// text, else the auto-completed candidate.
pub open spec fn json_value_spec(cleaned: Seq<char>) -> Option<JsonV> {
    let cand = candidate_spec(cleaned);
    match json_tree_of(cand) {
        Some(v) => Some(v),
        None => {
            if json_parse_ok(repair_chain_spec(cand)) {
                json_tree_of(repair_chain_spec(cand))
            } else if cand != cleaned && !json_parse_ok(cleaned) && json_parse_ok(
                repair_chain_spec(cleaned),
            ) {
                json_tree_of(repair_chain_spec(cleaned))
            } else {
                match complete_spec(cand) {
                    Some(c) => json_tree_of(c),
                    None => None,
                }
            }
        },
    }
}

/// Try all extraction strategies and return the best JSON candidate
/// string together with the cleaned text.
pub fn extract_json_candidate(response: &str) -> (r: Result<(String, String), ParseError>)
    ensures
        match r {
            Ok(p) => trim_spec(response@).len() > 0 && list_cleaned(response@).len() > 0 && p.1@
                == list_cleaned(response@) && p.0@ == candidate_spec(list_cleaned(response@)),
            Err(e) => e is EmptyResponse && (trim_spec(response@).len() == 0 || list_cleaned(
                response@,
            ).len() == 0),
        },
{
    proof {
        reveal_strlit("json");
    }
    let rv = chars_of(response);
    let trimmed_v = trim_chars(&rv);
    let trimmed = string_of(&trimmed_v);
    if trimmed_v.len() == 0 {
        return Err(ParseError::EmptyResponse);
    }
    let cleaned = preprocess(trimmed.as_str());
    let cleaned_v = chars_of(cleaned.as_str());
    if cleaned_v.len() == 0 {
        return Err(ParseError::EmptyResponse);
    }
    if crate::json::text_parses(cleaned.as_str()) {
        let copy = string_of(&cleaned_v);
        return Ok((copy, cleaned));
    }
    match extract_code_block_for(cleaned.as_str(), "json") {
        Some(content) => {
            return Ok((content, cleaned));
        }
        None => {}
    }
    match extract_code_block(cleaned.as_str()) {
        Some((_hint, content)) => {
            let cv = chars_of(content.as_str());
            if cv.len() > 0 && (cv[0] == '{' || cv[0] == '[') {
                return Ok((content, cleaned));
            }
        }
        None => {}
    }
    match find_bracketed(cleaned.as_str(), '{', '}') {
        Some(region) => {
            return Ok((region, cleaned));
        }
        None => {}
    }
    match find_bracketed(cleaned.as_str(), '[', ']') {
        Some(region) => {
            return Ok((region, cleaned));
        }
        None => {}
    }
    let copy = string_of(&cleaned_v);
    Ok((copy, cleaned))
}

/// Parse an LLM response into a structured value: direct parse on the
/// best candidate, then repair, then repair of the whole cleaned text,
/// then auto-completion of the candidate.
pub fn parse_json_value(response: &str) -> (r: Result<JsonValue, ParseError>)
    ensures
        match r {
            Ok(v) => trim_spec(response@).len() > 0 && list_cleaned(response@).len() > 0
                && json_value_spec(list_cleaned(response@)) == Some(v@),
            Err(e) => (e is EmptyResponse && (trim_spec(response@).len() == 0 || list_cleaned(
                response@,
            ).len() == 0)) || ((e matches ParseError::DeserializationFailed { reason, raw_json }
                && reason@ == "no strategy produced valid JSON"@ && raw_json@
                == crate::output_parser::error::truncate_spec(
                candidate_spec(list_cleaned(response@)),
                200,
            )) && json_value_spec(list_cleaned(response@)) is None),
        },
{
    let (candidate, cleaned) = match extract_json_candidate(response) {
        Ok(p) => p,
        Err(e) => {
            return Err(e);
        }
    };
    match parse_json_text(candidate.as_str()) {
        Some(v) => {
            return Ok(v);
        }
        None => {}
    }
    match try_repair_json(candidate.as_str()) {
        Some(rep) => {
            match parse_json_text(rep.as_str()) {
                Some(v) => {
                    return Ok(v);
                }
                None => {
                    proof {
                        assert(false);
                    }
                }
            }
        }
        None => {}
    }
    let differs = !crate::output_parser::listparse::str_eq_key(
        candidate.as_str(),
        cleaned.as_str(),
    );
    if differs {
        match try_repair_json(cleaned.as_str()) {
            Some(rep) => {
                match parse_json_text(rep.as_str()) {
                    Some(v) => {
                        return Ok(v);
                    }
                    None => {
                        proof {
                            assert(false);
                        }
                    }
                }
            }
            None => {}
        }
    }
    match auto_complete_json(candidate.as_str()) {
        Some(completed) => {
            match parse_json_text(completed.as_str()) {
                Some(v) => {
                    return Ok(v);
                }
                None => {
                    proof {
                        assert(false);
                    }
                }
            }
        }
        None => {}
    }
    Err(
        ParseError::DeserializationFailed {
            reason: crate::output_parser::error::string_from("no strategy produced valid JSON"),
            raw_json: truncate(candidate.as_str(), 200),
        },
    )
}

} // verus!
