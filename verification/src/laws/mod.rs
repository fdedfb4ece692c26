//! What the operations are for, stated of their inputs and results.

pub mod texts;
pub mod paths;
pub mod patches;
pub mod verdicts;
pub mod reverting;
pub mod subjects;
pub mod updates;
pub mod plans;
pub mod changes;
pub mod categories;
pub mod naming;
pub mod accounts;
pub mod repository;
pub mod reports;
pub mod runs;
pub mod decisions;
pub mod views;
pub mod offline;
pub mod announcements;
pub mod commands;
pub mod scanning;
pub mod notations;
