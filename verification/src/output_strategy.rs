//! The enumerated parse policies: how raw LLM text becomes a structured
//! value, and thereby which failures can feed semantic retry.

use vstd::prelude::*;

verus! {

/// Controls how raw LLM text is parsed into a structured value.
///
/// The default, `Lossy`, always succeeds by falling back to a string
/// value; the other policies can fail, which enables the retry system.
#[derive(Debug, PartialEq, Eq)]
pub enum OutputStrategy {
    /// Always succeeds: JSON extraction with a string-value fallback.
    Lossy,
    /// Full multi-strategy JSON extraction with repair; can fail.
    Json,
    /// A list of strings.
    StringList,
    /// The content of a named XML-style tag.
    XmlTag(String),
    /// One of a set of valid options.
    Choice(Vec<String>),
    /// A numeric value (held as its decimal literal).
    Number,
    /// A numeric value bounded to an inclusive integer range.
    NumberInRange(i64, i64),
    /// Clean text with boilerplate stripped.
    Text,
}

impl OutputStrategy {
    /// The stable tag recorded in diagnostics for this strategy.
    pub fn tag(&self) -> (r: &'static str)
        ensures
            r@ == strategy_tag(*self),
    {
        proof {
            reveal_strlit("lossy");
            reveal_strlit("json");
            reveal_strlit("string_list");
            reveal_strlit("xml_tag");
            reveal_strlit("choice");
            reveal_strlit("number");
            reveal_strlit("number_in_range");
            reveal_strlit("text");
        }
        match self {
            OutputStrategy::Lossy => "lossy",
            OutputStrategy::Json => "json",
            OutputStrategy::StringList => "string_list",
            OutputStrategy::XmlTag(_) => "xml_tag",
            OutputStrategy::Choice(_) => "choice",
            OutputStrategy::Number => "number",
            OutputStrategy::NumberInRange(_, _) => "number_in_range",
            OutputStrategy::Text => "text",
        }
    }
}

/// The diagnostics tag of each strategy.
pub open spec fn strategy_tag(s: OutputStrategy) -> Seq<char> {
    match s {
        OutputStrategy::Lossy => "lossy"@,
        OutputStrategy::Json => "json"@,
        OutputStrategy::StringList => "string_list"@,
        OutputStrategy::XmlTag(_) => "xml_tag"@,
        OutputStrategy::Choice(_) => "choice"@,
        OutputStrategy::Number => "number"@,
        OutputStrategy::NumberInRange(_, _) => "number_in_range"@,
        OutputStrategy::Text => "text"@,
    }
}

impl Default for OutputStrategy {
    /// The backward-compatible default policy.
    fn default() -> (r: OutputStrategy)
        ensures
            r is Lossy,
    {
        OutputStrategy::Lossy
    }
}

} // verus!
