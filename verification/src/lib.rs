//! Deterministic curation logic of the trending watcher: model metadata,
//! license / size / mirror classification, the review report, and the
//! decisions taken on HuggingFace responses.

pub mod text;
pub mod types;
pub mod error;
pub mod filter;
pub mod report;
pub mod fetch;
pub mod parse;
pub mod cli;
