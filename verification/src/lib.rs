//! histop: which commands a shell history uses most.
//!
//! The library reads the bytes of a history file, finds out which dialect
//! wrote it, rebuilds the commands that it records, takes the name of the
//! command from every stage of every pipeline, and counts the names. It also
//! ranks the counts and renders them as text with proportional bars, as JSON
//! or as CSV. Text is kept as bytes of UTF-8 throughout, since a history
//! need not be valid text.

pub mod bar;
pub mod cli;
pub mod color;
pub mod command_parse;
pub mod config;
pub mod counts;
pub mod history;
pub mod numbers;
pub mod output;
pub mod pipeline;
pub mod rank;
pub mod report;
pub mod strings;
pub mod text;
