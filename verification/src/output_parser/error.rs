//! Error types for the output parsers.

use vstd::prelude::*;
use crate::text::{chars_of, slice_range, string_of};

verus! {

/// Errors returned by output parsers.
#[derive(Debug, PartialEq, Eq)]
pub enum ParseError {
    /// The LLM response was empty or whitespace-only.
    EmptyResponse,
    /// No parsing strategy could extract the expected format.
    Unparseable {
        /// The format the parser was trying to extract.
        expected_format: String,
        /// A truncated copy of the cleaned LLM text.
        text: String,
    },
    /// JSON was extracted but failed to deserialize.
    DeserializationFailed {
        /// A description of the failure.
        reason: String,
        /// The raw JSON string that failed.
        raw_json: String,
    },
    /// No valid choice from the provided options was found.
    NoMatchingChoice {
        /// The list of choices that were searched for.
        valid: Vec<String>,
    },
    /// No number found, or the number was outside the expected range.
    NoNumber,
}

impl ParseError {
    /// A short description of the error, for diagnostics.
    pub fn message(&self) -> (r: String)
        ensures
            self is EmptyResponse ==> r@ == "empty LLM response"@,
            self is NoNumber ==> r@ == "no valid number found in response"@,
    {
        match self {
            ParseError::EmptyResponse => string_from("empty LLM response"),
            ParseError::Unparseable { expected_format, text } => {
                let mut out = string_from("could not parse from LLM response: ");
                vstd::string::StringExecFns::append(&mut out, text.as_str());
                out
            }
            ParseError::DeserializationFailed { reason, raw_json } => {
                let mut out = string_from("JSON deserialization failed: ");
                vstd::string::StringExecFns::append(&mut out, reason.as_str());
                out
            }
            ParseError::NoMatchingChoice { valid } => {
                string_from("no valid choice found in response")
            }
            ParseError::NoNumber => string_from("no valid number found in response"),
        }
    }
}

/// An owned copy of a string slice.
pub fn string_from(s: &str) -> (r: String)
    ensures
        r@ == s@,
{
    <String as vstd::string::StringExecFns>::from_str(s)
}

/// What [`truncate`] yields: the text itself when short enough, else its
/// first `max_len` characters followed by an ellipsis.
pub open spec fn truncate_spec(s: Seq<char>, max_len: int) -> Seq<char> {
    if s.len() <= max_len {
        s
    } else {
        s.subrange(0, max_len) + "..."@
    }
}

/// Truncate a string to at most `max_len` characters, appending `...`
/// when it was cut.
pub fn truncate(s: &str, max_len: usize) -> (r: String)
    ensures
        r@ == truncate_spec(s@, max_len as int),
{
    let cs = chars_of(s);
    if cs.len() <= max_len {
        string_of(&cs)
    } else {
        let mut head = slice_range(&cs, 0, max_len);
        let dots = chars_of("...");
        crate::text::append_all(&mut head, &dots);
        string_of(&head)
    }
}

} // verus!
