//! The output every payload invocation produces: a structured value, the
//! raw model text it came from, and parse diagnostics.

use vstd::prelude::*;
use crate::diagnostics::ParseDiagnostics;
use crate::jsonval::JsonValue;
use crate::json::{ser, to_json_text};

verus! {

/// Output from a payload invocation. The structured value is the wire
/// type between payloads; the raw text is the model text of the last
/// attempt.
#[derive(Debug)]
pub struct PayloadOutput {
    /// Structured output value.
    pub value: JsonValue,
    /// Raw response text from the LLM, before parsing.
    pub raw_response: String,
    /// Extracted reasoning, when present.
    pub thinking: Option<String>,
    /// Model that produced this output, if applicable.
    pub model: Option<String>,
    /// Parse diagnostics; absent on pass-through paths.
    pub diagnostics: Option<ParseDiagnostics>,
}

impl PayloadOutput {
    /// An output wrapping a pre-existing value; the raw text is the
    /// value's printed form.
    pub fn from_value(value: JsonValue) -> (r: PayloadOutput)
        ensures
            r.value@ == value@,
            r.raw_response@ == ser(value@),
            r.thinking is None,
            r.model is None,
            r.diagnostics is None,
    {
        let raw = to_json_text(&value);
        PayloadOutput { value, raw_response: raw, thinking: None, model: None, diagnostics: None }
    }
}

} // verus!
