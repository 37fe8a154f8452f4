//! Streaming summariser for filesystem-metadata dumps.
//!
//! The library turns pipe-delimited records describing files, directories and
//! symbolic links into a directory-statistics tree, bounded top-N selections,
//! per-user totals and a weekly time-bucket histogram, and prepares the data
//! for a ranked usage report.

pub mod laws;
pub mod maps;
pub mod parse;
pub mod paths;
pub mod render;
pub mod report;
pub mod stats;
pub mod topn;
pub mod tracking;
