//! The engine: diffs, plans and what surrounds them.

pub mod hunks;
pub mod plan;
pub mod staging;
pub mod coverage;
pub mod history;
pub mod git;
pub mod update;
pub mod grouping;
pub mod gemini;
