//! Line-oriented text search: which lines of a text contain a query.
//!
//! [`search`] and [`search_case_insensitive`] return the lines of a text in
//! which a query occurs, [`run`] picks between the two as a [`Config`] says,
//! and [`Config::build`] makes a configuration from the values that a front
//! end has read. What each returns is stated over the characters of its
//! arguments: [`lines::lines_of`] says what the lines of a text are,
//! [`substring::occurs_in`] when one text occurs in another, and
//! [`matching::matching_lines`] which lines are hits.

pub mod config;
pub mod encoding;
pub mod lines;
pub mod lowercase;
pub mod matching;
pub mod search;
pub mod substring;

pub use config::{Config, ConfigError, ConfigView, Field};
pub use search::{run, search, search_case_insensitive};
