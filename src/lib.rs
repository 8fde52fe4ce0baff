//! Parsing of LCOV coverage trace files into records, and merging of
//! several traces into one consolidated coverage report.

pub mod grammar;
pub mod merger;
pub mod parser;
pub mod record;
pub mod report;
pub mod seqs;
pub mod text;
pub mod util;

pub use merger::{merge_files, ReportMerger};
pub use parser::{parse_record, parse_report, LCOVParser, ParseError, RecordParseError};
pub use record::{BranchData, FunctionData, FunctionName, LCOVRecord, LineData};
pub use report::{branch, Report};
