//! A directory listing as a table: every entry with its kind, its size in
//! a human scale, the time since it was modified and, where asked for, its
//! status in version control.
//!
//! The library reads no file and runs no command: it is handed what was
//! read of the directory and what the commands of version control wrote,
//! and it hands back the lines of the table. The one thing that it reads
//! itself is the clock.

pub mod diff_lines;
pub mod entry;
pub mod git;
pub mod listing;
pub mod palette;
pub mod paths;
pub mod row;
pub mod scope;
pub mod size;
pub mod sort;
pub mod status;
pub mod status_lines;
pub mod status_map;
pub mod table;
pub mod text;
pub mod time;
