//! Verified core of `td`, a manager for todo.txt task lists.

pub mod text;
pub mod date;
pub mod classes;
pub mod grammar;
pub mod task;
pub mod filter;
pub mod time_context;
pub mod todo_file;
pub mod commands;
pub mod config;
pub mod output;
pub mod cli;
pub mod roundtrip;
