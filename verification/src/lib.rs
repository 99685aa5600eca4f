//! Spec-anchored API verification: the verified core.
use vstd::prelude::*;

pub mod commands;
pub mod config;
pub mod error;
pub mod frontmatter;
pub mod execution;
pub mod gherkin;
pub mod json;
pub mod laws;
pub mod patterns;
pub mod report;
pub mod runner;
pub mod spec;
pub mod text;
pub mod textops;

verus! {
} // verus!
