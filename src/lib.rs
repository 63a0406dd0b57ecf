//! Core of a multi-project script runner: terminal colour decoding, the
//! lifecycle of terminal sessions, and the rules that turn a project and a
//! script name into a command line.

pub mod ansi;
pub mod text;
pub mod scripts;
pub mod session;
pub mod env;
pub mod gitlab;
pub mod git;
pub mod config;
