//! Building blocks for LLM-powered workflows: payloads that execute LLM
//! calls, parsing utilities for messy model output, and a chain helper for
//! sequential composition.

pub mod backend;
pub mod backoff;
pub mod chain;
pub mod client;
pub mod diagnostics;
pub mod error;
pub mod events;
pub mod json;
pub mod jsonval;
pub mod llm_call;
pub mod output_parser;
pub mod output_strategy;
pub mod parsing;
pub mod payload;
pub mod prompt;
pub mod providers;
pub mod retry;
pub mod streaming;
pub mod text;
pub mod types;
