//! Parse diagnostics: what happened during output parsing — the strategy
//! used, whether it succeeded, retry counters, and whether repair or
//! auto-completion was involved.

use vstd::prelude::*;

verus! {

/// Records what happened during output parsing; attached to every
/// payload output an LLM call produces.
#[derive(Debug, PartialEq, Eq)]
pub struct ParseDiagnostics {
    /// Which parse strategy ultimately produced the value.
    pub strategy: Option<&'static str>,
    /// If parsing failed, the error message; absence means success.
    pub parse_error: Option<String>,
    /// Number of semantic retry attempts (zero when the initial call
    /// succeeded or retry was not configured).
    pub retry_attempts: u32,
    /// Number of transport retries before the request succeeded.
    pub transport_retries: u32,
    /// Total time spent in backoff delays, in milliseconds.
    pub backoff_total_ms: u64,
    /// Whether JSON repair was applied.
    pub repaired: bool,
    /// Whether auto-completion was used.
    pub auto_completed: bool,
}

impl ParseDiagnostics {
    /// Whether parsing succeeded: no parse error was recorded.
    pub fn ok(&self) -> (r: bool)
        ensures
            r == (self.parse_error is None),
    {
        self.parse_error.is_none()
    }
}

impl Default for ParseDiagnostics {
    /// Fresh diagnostics: no strategy, no error, all counters zero.
    fn default() -> (r: ParseDiagnostics)
        ensures
            r.strategy is None,
            r.parse_error is None,
            r.retry_attempts == 0,
            r.transport_retries == 0,
            r.backoff_total_ms == 0,
            !r.repaired,
            !r.auto_completed,
    {
        ParseDiagnostics {
            strategy: None,
            parse_error: None,
            retry_attempts: 0,
            transport_retries: 0,
            backoff_total_ms: 0,
            repaired: false,
            auto_completed: false,
        }
    }
}

} // verus!
