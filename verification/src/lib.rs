//! A small Unix-like shell: its command-line parser, the decisions of its
//! read-eval loop, and the logic of its built-in commands (`ls`, `cd`,
//! `cp`, `cat`, `rm`, `mkdir`, `clear`, `exit`).

pub mod commands;
pub mod parser;
pub mod paths;
pub mod shell;
pub mod system;
pub mod text;
