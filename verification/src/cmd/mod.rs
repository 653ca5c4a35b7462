//! The command model and parser: the `CmdSet` data model, the
//! Union / Replace / Remove merge that resolves several sets into one
//! `CommandTable`, and the line parser with prefix matching, aliases, and
//! switches.

pub mod token;
pub mod command;
pub mod trie;
pub mod parser;
pub mod cmdset;
