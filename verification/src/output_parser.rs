//! Parsers for extracting structured data from LLM responses: reasoning-tag
//! handling, fenced code blocks, bracket matching, JSON repair and
//! completion, and the typed parsers layered over them.

pub mod choice;
pub mod error;
pub mod extract;
pub mod jsonparse;
pub mod listparse;
pub mod number;
pub mod textparse;
pub mod xml;
pub mod repair;
pub mod streaming;

pub use extract::{preprocess, strip_think_tags};
