//! A personal task list kept as a plain text file, one entry per line.
//!
//! The library holds the logic of every command: reading the file's text into
//! an ordered sequence of lines, the positional changes (add, update, mark as
//! done, delete), rendering of the numbered listing, and writing the lines
//! back as text. Reading and writing the file itself is left to the caller.
pub mod command;
pub mod entry;
pub mod error;
pub mod laws;
pub mod list;
pub mod listing;
pub mod store;

pub use command::{parse_command, parse_position, Command};
pub use entry::{check_words, has_newline, join_words};
pub use error::TodoError;
pub use list::{append_text, TodoList};
pub use listing::{decimal_text, render_listing};
pub use store::{load_lines, render_file};
