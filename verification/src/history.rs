//! Readers for the history formats: each turns the bytes of a history file
//! into the counts of the commands that it records.

pub mod decodable;
pub mod detect;
pub mod extract;
pub mod fish;
pub mod laws;
pub mod lines;
pub mod powershell;
pub mod shell;
pub mod simple;
pub mod tcsh;
