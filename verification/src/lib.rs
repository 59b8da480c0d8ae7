//! A small line-oriented text search library.
//!
//! A [`Config`] says what to look for and how; [`search`] and
//! [`search_case_insensitive`] pick the matching lines out of a text, and
//! [`highlight_line`] marks the query inside a matching line. Every function is
//! specified over sequences of characters and proved against that
//! specification.

pub mod config;
pub mod highlight;
pub mod laws;
pub mod search;
pub mod text;

pub use config::{Config, ConfigError};
pub use highlight::{highlight_line, highlight_with, run};
pub use search::{search, search_case_insensitive};
