//! The records of an LCOV trace file, one per line.

use vstd::prelude::*;

verus! {

/// One line of an LCOV trace file.
#[derive(Debug, PartialEq, Clone)]
pub enum LCOVRecord {
    /// `TN:<test name>`; no name when the line has none.
    TestName(Option<String>),
    /// `SF:<path of the source file>`
    SourceFile(String),
    /// `DA:<line number>,<execution count>[,<checksum>]`
    Data(LineData),
    /// `FN:<line number of function start>,<function name>`
    FunctionName(FunctionName),
    /// `FNDA:<execution count>,<function name>`
    FunctionData(FunctionData),
    /// `FNF:<number of functions found>`
    FunctionsFound(u32),
    /// `FNH:<number of functions hit>`
    FunctionsHit(u32),
    /// `LH:<number of lines with a positive execution count>`
    LinesHit(u32),
    /// `LF:<number of instrumented lines>`
    LinesFound(u32),
    /// `BRDA:<line number>,<block number>,<branch number>,<taken>`
    BranchData(BranchData),
    /// `BRF:<number of branches found>`
    BranchesFound(u32),
    /// `BRH:<number of branches hit>`
    BranchesHit(u32),
    /// `end_of_record`
    EndOfRecord,
}

/// Execution data of one source line.
#[derive(Debug, PartialEq, Clone)]
pub struct LineData {
    pub line: u32,
    pub count: u32,
    pub checksum: Option<String>,
}

/// Declaration of a function and the line where it starts.
#[derive(Debug, PartialEq, Clone)]
pub struct FunctionName {
    pub name: String,
    pub line: u32,
}

/// Execution count of a function.
#[derive(Debug, PartialEq, Clone)]
pub struct FunctionData {
    pub name: String,
    pub count: u32,
}

/// Execution count of one branch; a branch whose block was never
/// reached counts as taken zero times.
#[derive(Debug, PartialEq, Clone)]
pub struct BranchData {
    pub line: u32,
    pub block: u32,
    pub branch: u32,
    pub taken: u32,
}

/// A record with its text fields as character sequences.
pub enum RecordView {
    TestName(Option<Seq<char>>),
    SourceFile(Seq<char>),
    Data(u32, u32, Option<Seq<char>>),
    FunctionName(u32, Seq<char>),
    FunctionData(u32, Seq<char>),
    FunctionsFound(u32),
    FunctionsHit(u32),
    LinesHit(u32),
    LinesFound(u32),
    BranchData(u32, u32, u32, u32),
    BranchesFound(u32),
    BranchesHit(u32),
    EndOfRecord,
}

/// The characters of an optional text.
pub open spec fn opt_text(o: Option<String>) -> Option<Seq<char>> {
    match o {
        Some(s) => Some(s@),
        None => None,
    }
}

impl View for LCOVRecord {
    type V = RecordView;

    open spec fn view(&self) -> RecordView {
        match self {
            LCOVRecord::TestName(n) => RecordView::TestName(opt_text(*n)),
            LCOVRecord::SourceFile(s) => RecordView::SourceFile(s@),
            LCOVRecord::Data(d) => RecordView::Data(d.line, d.count, opt_text(d.checksum)),
            LCOVRecord::FunctionName(f) => RecordView::FunctionName(f.line, f.name@),
            LCOVRecord::FunctionData(f) => RecordView::FunctionData(f.count, f.name@),
            LCOVRecord::FunctionsFound(n) => RecordView::FunctionsFound(*n),
            LCOVRecord::FunctionsHit(n) => RecordView::FunctionsHit(*n),
            LCOVRecord::LinesHit(n) => RecordView::LinesHit(*n),
            LCOVRecord::LinesFound(n) => RecordView::LinesFound(*n),
            LCOVRecord::BranchData(b) => RecordView::BranchData(b.line, b.block, b.branch, b.taken),
            LCOVRecord::BranchesFound(n) => RecordView::BranchesFound(*n),
            LCOVRecord::BranchesHit(n) => RecordView::BranchesHit(*n),
            LCOVRecord::EndOfRecord => RecordView::EndOfRecord,
        }
    }
}

/// The record that carries the data.
impl From<LineData> for LCOVRecord {
    fn from(input: LineData) -> LCOVRecord {
        LCOVRecord::Data(input)
    }
}

impl vstd::std_specs::convert::FromSpecImpl<LineData> for LCOVRecord {
    open spec fn obeys_from_spec() -> bool {
        true
    }

    open spec fn from_spec(input: LineData) -> LCOVRecord {
        LCOVRecord::Data(input)
    }
}

/// The record that carries the data.
impl From<FunctionName> for LCOVRecord {
    fn from(input: FunctionName) -> LCOVRecord {
        LCOVRecord::FunctionName(input)
    }
}

impl vstd::std_specs::convert::FromSpecImpl<FunctionName> for LCOVRecord {
    open spec fn obeys_from_spec() -> bool {
        true
    }

    open spec fn from_spec(input: FunctionName) -> LCOVRecord {
        LCOVRecord::FunctionName(input)
    }
}

/// The record that carries the data.
impl From<FunctionData> for LCOVRecord {
    fn from(input: FunctionData) -> LCOVRecord {
        LCOVRecord::FunctionData(input)
    }
}

impl vstd::std_specs::convert::FromSpecImpl<FunctionData> for LCOVRecord {
    open spec fn obeys_from_spec() -> bool {
        true
    }

    open spec fn from_spec(input: FunctionData) -> LCOVRecord {
        LCOVRecord::FunctionData(input)
    }
}

/// The record that carries the data.
impl From<BranchData> for LCOVRecord {
    fn from(input: BranchData) -> LCOVRecord {
        LCOVRecord::BranchData(input)
    }
}

impl vstd::std_specs::convert::FromSpecImpl<BranchData> for LCOVRecord {
    open spec fn obeys_from_spec() -> bool {
        true
    }

    open spec fn from_spec(input: BranchData) -> LCOVRecord {
        LCOVRecord::BranchData(input)
    }
}

} // verus!
