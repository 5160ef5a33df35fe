//! Search and navigation over a corpus of append-only conversation
//! transcripts: one JSON record per line, grouped into per-project
//! directories of per-session files.
//!
//! The crate holds the verified core: the `prefix:line` address scheme,
//! the boolean/regex query language, line/type/time filtering, per-file
//! scanning, result aggregation with pagination and character budgets,
//! and context-window expansion around an anchor message.  Directory
//! enumeration, raw file reading and protocol framing are left to the
//! caller, which hands the library plain values.

pub mod config;
pub mod context;
pub mod get;
pub mod pattern;
pub mod ranges;
pub mod record;
pub mod refs;
pub mod scan;
pub mod search;
pub mod sessions;
pub mod text;
pub mod times;
pub mod types;
