//! Commitor finds unrelated changes bundled into one commit and plans how to
//! split them.

pub mod text;
pub mod bytes;
pub mod pieces;
pub mod number;
pub mod letters;
pub mod order;
pub mod engine;
pub mod heuristics;
pub mod analysis;
pub mod auth;
pub mod login;
pub mod admin;
pub mod config;
pub mod json;
pub mod style;
pub mod changelog;
pub mod commit;
pub mod scan;
pub mod revert;
pub mod cli;
pub mod laws;
