//! Text-metric reporting over a set of source files.
//!
//! The library scans file contents for line, semicolon and comment-marker
//! counts, folds the per-file results into process-wide totals with ordered
//! extrema indexes, decides which directory entries qualify for scanning,
//! and renders byte sizes with binary-prefix units.

pub mod aggregate;
pub mod cache;
pub mod count;
pub mod config;
pub mod report;
pub mod select;
