//! The logic of an interactive shell, verified with Verus: parsing a line
//! into a chain of commands, planning how the chain runs, looking programs up
//! on a search path, the builtins, and the line editor with its completion
//! and history. Everything that touches the terminal, the file system or a
//! process is left to the caller, who gets told what to do in plain values.

pub mod args;
pub mod autocompletion;
pub mod builtin;
pub mod cd;
pub mod command;
pub mod exec;
pub mod history;
pub mod input;
pub mod path;
pub mod text;
