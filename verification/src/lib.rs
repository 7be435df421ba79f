//! The decision logic of a small interactive shell: splitting a command line
//! into chained and piped commands and their arguments, laying out directory
//! listings, aliases, the command history of common commands, and the hints
//! and completions offered while typing.

pub mod text;
pub mod split;
pub mod display;
pub mod layout;
pub mod listing;
pub mod aliases;
pub mod commons;
pub mod completion;
pub mod shell;
