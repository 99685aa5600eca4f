//! The decisions and renderings behind each subcommand of the CLI.
pub mod api;
pub mod diff;
pub mod env;
pub mod history;
pub mod run;
pub mod spec;
