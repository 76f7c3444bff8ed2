//! Configuration for LLM requests. Temperature is carried in thousandths
//! so that the cool-down arithmetic is exact.

use vstd::prelude::*;
use crate::jsonval::JsonValue;

verus! {

/// Configuration for LLM requests.
#[derive(Debug)]
pub struct LlmConfig {
    /// Sampling temperature, in thousandths (700 stands for 0.7).
    pub temperature_milli: u32,
    /// Maximum tokens to generate.
    pub max_tokens: u32,
    /// Enable extended thinking mode.
    pub thinking: bool,
    /// Request JSON format output from the model.
    pub json_mode: bool,
    /// Custom options merged into the provider options object.
    pub options: Option<JsonValue>,
}

impl Default for LlmConfig {
    /// Temperature 0.7, 2048 tokens, no thinking, no JSON mode.
    fn default() -> (r: LlmConfig)
        ensures
            r.temperature_milli == 700,
            r.max_tokens == 2048,
            !r.thinking,
            !r.json_mode,
            r.options is None,
    {
        LlmConfig {
            temperature_milli: 700,
            max_tokens: 2048,
            thinking: false,
            json_mode: false,
            options: None,
        }
    }
}

/// Equality of two configurations up to the view of the options value.
pub open spec fn config_eqv(a: LlmConfig, b: LlmConfig) -> bool {
    &&& a.temperature_milli == b.temperature_milli
    &&& a.max_tokens == b.max_tokens
    &&& a.thinking == b.thinking
    &&& a.json_mode == b.json_mode
    &&& match (a.options, b.options) {
        (Some(x), Some(y)) => x@ == y@,
        (None, None) => true,
        _ => false,
    }
}

impl LlmConfig {
    /// Set the sampling temperature, in thousandths.
    pub fn with_temperature(self, temperature_milli: u32) -> (r: LlmConfig)
        ensures
            r.temperature_milli == temperature_milli,
            r.max_tokens == self.max_tokens,
            r.thinking == self.thinking,
            r.json_mode == self.json_mode,
            r.options == self.options,
    {
        LlmConfig { temperature_milli, ..self }
    }

    /// Set the token budget.
    pub fn with_max_tokens(self, tokens: u32) -> (r: LlmConfig)
        ensures
            r.max_tokens == tokens,
            r.temperature_milli == self.temperature_milli,
            r.thinking == self.thinking,
            r.json_mode == self.json_mode,
            r.options == self.options,
    {
        LlmConfig { max_tokens: tokens, ..self }
    }

    /// Enable or disable extended thinking.
    pub fn with_thinking(self, enabled: bool) -> (r: LlmConfig)
        ensures
            r.thinking == enabled,
            r.temperature_milli == self.temperature_milli,
            r.max_tokens == self.max_tokens,
            r.json_mode == self.json_mode,
            r.options == self.options,
    {
        LlmConfig { thinking: enabled, ..self }
    }

    /// Enable or disable JSON format mode.
    pub fn with_json_mode(self, enabled: bool) -> (r: LlmConfig)
        ensures
            r.json_mode == enabled,
            r.temperature_milli == self.temperature_milli,
            r.max_tokens == self.max_tokens,
            r.thinking == self.thinking,
            r.options == self.options,
    {
        LlmConfig { json_mode: enabled, ..self }
    }

    /// A field-for-field copy.
    pub fn duplicate(&self) -> (r: LlmConfig)
        ensures
            config_eqv(r, *self),
    {
        LlmConfig {
            temperature_milli: self.temperature_milli,
            max_tokens: self.max_tokens,
            thinking: self.thinking,
            json_mode: self.json_mode,
            options: match &self.options {
                Some(v) => Some(v.deep_clone()),
                None => None,
            },
        }
    }
}

} // verus!
