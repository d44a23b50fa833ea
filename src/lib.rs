//! A small line-oriented pattern search library: tagging of matching lines,
//! per-match context windows, and grouped rendering of those windows.

pub mod pattern;
pub mod entry;
pub mod context;
pub mod options;
