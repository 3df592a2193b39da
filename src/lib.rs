//! A small command-language interpreter: a parser for shell-like text, a
//! variable store with `$`-expansion, a function table, and an execution
//! engine written as a state machine whose outside work (processes,
//! directories, files) is carried out by its caller.
pub mod builtins;
pub mod colors;
pub mod executor;
pub mod functions;
pub mod history;
pub mod lexer;
pub mod parser;
pub mod repl;
pub mod scope;
pub mod text;
pub mod ui;
pub mod variables;
