//! A small verified library behind two command-line utilities: a line-based
//! text search (every line of a text that contains a query as a substring)
//! and a bulk file renamer (replace, prepend or append text in file names).
//!
//! All file-system access and argument parsing live outside the library; the
//! functions here are pure and fully specified over sequences of characters.

pub mod rename;
pub mod search;
pub mod walk;
