//! Literal text search: which lines of a text contain a query, file by file.
//!
//! A run has four steps. `config` settles the query, the case rule and the
//! paths of the files. `load` decides which of the files that were read are
//! scanned. `scan` searches each file with the matcher of `search` and keeps
//! the files with enough matching lines. `render` writes the report.
//! `pipeline` puts the last three together.

pub mod config;
pub mod filter;
pub mod fold;
pub mod lines;
pub mod load;
pub mod pipeline;
pub mod render;
pub mod scan;
pub mod search;
pub mod text;

pub use crate::config::{Config, ConfigError, PathSource, Pending, Resolution, WalkEntry, WorkingDir};
pub use crate::load::{FileRead, IoError};
pub use crate::pipeline::run;
pub use crate::scan::{FileMeta, FileResults};
pub use crate::search::{search, search_case_insensitive, SearchResult};
