//! A minimal text-search library: split a corpus into lines and select the
//! lines that contain a query string, either exactly or ignoring letter case.
//!
//! The line-matching engine is pure: it performs no I/O and touches no global
//! state. A thin command-line front end supplies the query, the corpus and the
//! case-sensitivity choice, and prints what the engine returns.

pub mod config;
pub mod lines;
pub mod matcher;

pub use config::Config;
pub use matcher::search;
pub use matcher::search_case_insensitive;
pub use matcher::search_with_case;
