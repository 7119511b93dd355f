//! A verified ingestion, filtering and join pipeline for a two-file archive
//! of posts and comments: parse line-delimited records, admit them through
//! pure filter predicates, attach each comment to its parent post, recompute
//! authoritative comment counts, decode escaped text, order everything
//! deterministically, and partition the result into pages.

pub mod aggregate;
pub mod filter;
pub mod join;
pub mod paginate;
pub mod parse;
pub mod pipeline;
pub mod records;
pub mod unescape;
