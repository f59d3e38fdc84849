//! A small line-oriented text search library.
//!
//! Given a query string and a body of text, [`search`] returns every line of
//! the body that contains the query as a contiguous substring, in the order
//! the lines appear; [`search_case_insensitive`] does the same after mapping
//! both sides through a simple, locale-independent case mapping. A generic
//! memoizing cache, [`Cacher`], stores the results of a pure computation
//! keyed by exact input equality. [`Config`] gathers the options a caller
//! supplies.

pub mod cacher;
pub mod config;
pub mod laws;
pub mod matcher;

pub use cacher::Cacher;
pub use config::matching_lines;
pub use config::Config;
pub use matcher::search;
pub use matcher::search_case_insensitive;
