//! Turning dialogue into memories: buffering, parsing and merging.
pub mod agent;
pub mod buffer;
pub mod chat_summary;
pub mod models;
pub mod parser;
pub mod extractor;
pub mod patch_merger;
pub mod reflection;
