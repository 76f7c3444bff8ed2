//! The unified error kinds surfaced to callers.

use vstd::prelude::*;
use crate::output_parser::error::string_from;

verus! {

/// Errors produced by the pipeline and its components.
#[derive(Debug, PartialEq, Eq)]
pub enum PipelineError {
    /// Low-level HTTP transport failure (connection refused, timeout).
    Request(String),
    /// JSON parsing failed at the serialization level.
    Json(String),
    /// A pipeline stage failed with a descriptive message.
    StageFailed {
        /// The name of the failing stage.
        stage: String,
        /// What went wrong.
        message: String,
    },
    /// The pipeline or payload was cancelled via the cancellation flag.
    Cancelled,
    /// Invalid configuration detected at build time.
    InvalidConfig(String),
    /// HTTP error with status code, response body, and optional
    /// `Retry-After` hint in milliseconds.
    HttpError {
        /// HTTP status code (429, 500, 503, ...).
        status: u16,
        /// Response body text.
        body: String,
        /// Parsed `Retry-After` header value, in milliseconds.
        retry_after_ms: Option<u64>,
    },
    /// Catch-all for other errors.
    Other(String),
}

impl PipelineError {
    /// A short description of the error, for logs and retry reasons.
    pub fn message(&self) -> (r: String)
        ensures
            self is Cancelled ==> r@ == "Pipeline was cancelled"@,
    {
        match self {
            PipelineError::Request(m) => {
                let mut out = string_from("HTTP request failed: ");
                vstd::string::StringExecFns::append(&mut out, m.as_str());
                out
            }
            PipelineError::Json(m) => {
                let mut out = string_from("JSON parsing failed: ");
                vstd::string::StringExecFns::append(&mut out, m.as_str());
                out
            }
            PipelineError::StageFailed { stage, message } => {
                let mut out = string_from("Stage '");
                vstd::string::StringExecFns::append(&mut out, stage.as_str());
                vstd::string::StringExecFns::append(&mut out, "' failed: ");
                vstd::string::StringExecFns::append(&mut out, message.as_str());
                out
            }
            PipelineError::Cancelled => string_from("Pipeline was cancelled"),
            PipelineError::InvalidConfig(m) => {
                let mut out = string_from("Invalid configuration: ");
                vstd::string::StringExecFns::append(&mut out, m.as_str());
                out
            }
            PipelineError::HttpError { status, body, retry_after_ms } => {
                let mut out = string_from("HTTP error: ");
                vstd::string::StringExecFns::append(&mut out, body.as_str());
                out
            }
            PipelineError::Other(m) => string_from(m.as_str()),
        }
    }
}

} // verus!
