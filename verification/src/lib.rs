//! harvcode: collects source files and formats them as Markdown code
//! blocks. This crate holds the verified logic: argument parsing, file
//! filtering, the collection decisions, list mode, Markdown formatting,
//! picker input and output, and the execution report.
use vstd::prelude::*;

pub mod args;
pub mod filter;
pub mod formatter;
pub mod list;
pub mod output;
pub mod picker;
pub mod report;
pub mod text;
pub mod walker;
