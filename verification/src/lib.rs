//! A parser for the `--help` output of command-line programs in the common
//! "section + two-column listing" style, together with an assembler that
//! merges per-command parses into a single command tree.

pub mod assembler;
pub mod command_tree;
pub mod parser;
pub mod text;
