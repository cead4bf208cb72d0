//! A navigable, syntax-aware view of version-control diffs.
//!
//! The crate turns unified-diff text into a line-numbered model, pairs
//! removed and added lines, computes the byte ranges that changed inside a
//! pair, overlays those ranges on styled text fragments and keeps the
//! navigation state of a viewing session. Everything is plain data: drawing
//! and key input are left to the caller.

pub mod app;
pub mod command;
pub mod diff_file;
pub mod keys;
pub mod parser;
pub mod parser_laws;
pub mod syntax;
pub mod text;
pub mod ui;

pub use crate::diff_file::{DiffFile, DiffFileView, DiffLine, DiffLineView, LineType};
pub use crate::parser::parse_diff;
