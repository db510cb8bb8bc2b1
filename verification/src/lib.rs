//! A small line-oriented substring search library.
//!
//! Given a query and the full text of a file, [`search`] returns every line of
//! the text that contains the query as an exact substring, and
//! [`search_case_insensitive`] returns every line whose lowercase form contains
//! the query's lowercase form; both keep the text's line order. [`Config`]
//! resolves the query, the file name and the case-sensitivity flag from plain
//! command-line arguments and the value of one environment variable.

pub mod config;
pub mod laws;
pub mod search;
pub mod text;

pub use config::Config;
pub use config::ConfigError;
pub use search::run;
pub use search::search;
pub use search::search_case_insensitive;
