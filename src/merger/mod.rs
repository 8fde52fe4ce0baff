//! Folding the records of trace files into one report.

pub mod ops;
pub mod report_merger;

pub use report_merger::{merge_files, ReportMerger};
