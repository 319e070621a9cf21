//! Searches a body of text for lines containing a query substring, either
//! exactly or case-insensitively, and builds the run configuration for the
//! command-line front end.

pub mod config;
pub mod lines;
pub mod matcher;

pub use config::Config;
pub use config::ConfigError;
pub use lines::split_lines;
pub use matcher::run_search;
pub use matcher::search;
pub use matcher::search_case_insensitive;
