//! A small line-search library: it selects the lines of a text that contain a
//! query, with or without regard to case, and highlights the query in them
//! with terminal escape sequences.
//!
//! Nothing here reads a file or prints: a caller hands in the program's
//! arguments and what it read, and gets back the lines to print.

pub mod config;
pub mod highlight;
pub mod lines;
pub mod output;
pub mod pattern;
pub mod search;
pub mod style;
pub mod text;

pub use crate::config::{Config, MissingArgument, Warning};
pub use crate::output::{read_file, run, FileUnreadable};
pub use crate::search::{search, search_case_insensitive};
