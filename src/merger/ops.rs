//! The errors that merging coverage data can raise.

use vstd::prelude::*;
use crate::parser::{ParseError, RecordParseError};
use crate::record::opt_text;
use crate::text::{decimal, push_decimal, push_str};

verus! {

/// A line named in a checksum conflict.
#[derive(Debug, PartialEq)]
pub struct MergeLine {
    line: u32,
    checksum: Option<String>,
}

/// A copy of an optional text.
pub fn copy_opt(o: &Option<String>) -> (r: Option<String>)
    ensures
        opt_text(r) == opt_text(*o),
{
    match o {
        Some(s) => Some(s.clone()),
        None => None,
    }
}

impl View for MergeLine {
    type V = (u32, Option<Seq<char>>);

    closed spec fn view(&self) -> (u32, Option<Seq<char>>) {
        (self.line, opt_text(self.checksum))
    }
}

impl MergeLine {
    pub fn new(line_number: u32, checksum: Option<String>) -> (r: MergeLine)
        ensures
            r@ == (line_number, opt_text(checksum)),
    {
        MergeLine { line: line_number, checksum }
    }

    pub fn line(&self) -> (r: &u32)
        ensures
            *r == self@.0,
    {
        &self.line
    }

    /// The checksum, or the empty text when there is none.
    pub fn checksum(&self) -> (r: &str)
        ensures
            r@ == match self@.1 {
                Some(c) => c,
                None => Seq::<char>::empty(),
            },
    {
        match &self.checksum {
            Some(c) => c.as_str(),
            None => {
                proof {
                    reveal_strlit("");
                }
                ""
            },
        }
    }
}

/// The view of a checksum conflict.
pub enum ChecksumErrorV {
    Empty((u32, Option<Seq<char>>)),
    Mismatch((u32, Option<Seq<char>>), (u32, Option<Seq<char>>)),
}

/// Two records of one source line disagree on its checksum.
#[derive(Debug, PartialEq)]
pub enum ChecksumError {
    /// The line already has a checksum and the incoming record has none.
    Empty(MergeLine),
    /// Both have checksums and they differ: the existing line, then the incoming one.
    Mismatch(MergeLine, MergeLine),
}

impl View for ChecksumError {
    type V = ChecksumErrorV;

    open spec fn view(&self) -> ChecksumErrorV {
        match self {
            ChecksumError::Empty(l) => ChecksumErrorV::Empty(l@),
            ChecksumError::Mismatch(a, b) => ChecksumErrorV::Mismatch(a@, b@),
        }
    }
}

/// Two function entries that were to be merged have different names.
#[derive(Debug, PartialEq)]
pub enum FunctionError {
    Mismatch(String, String),
}

impl View for FunctionError {
    type V = (Seq<char>, Seq<char>);

    open spec fn view(&self) -> (Seq<char>, Seq<char>) {
        match self {
            FunctionError::Mismatch(a, b) => (a@, b@),
        }
    }
}

/// A branch named in a branch conflict.
#[derive(Debug, PartialEq, Eq, Clone, Copy)]
pub struct MergeBranch {
    pub line: u32,
    pub block: u32,
    pub branch: u32,
}

/// Two branch entries that were to be merged are different branches.
#[derive(Debug, PartialEq)]
pub enum BranchError {
    Mismatch(MergeBranch, MergeBranch),
}

/// The view of a conflict while merging the coverage of one test.
pub enum TestErrorV {
    Checksum(ChecksumErrorV),
    Function((Seq<char>, Seq<char>)),
    Branch(MergeBranch, MergeBranch),
}

/// A conflict while merging the coverage of one test.
#[derive(Debug, PartialEq)]
pub enum TestError {
    Checksum(ChecksumError),
    Function(FunctionError),
    Branch(BranchError),
}

impl View for TestError {
    type V = TestErrorV;

    open spec fn view(&self) -> TestErrorV {
        match self {
            TestError::Checksum(e) => TestErrorV::Checksum(e@),
            TestError::Function(e) => TestErrorV::Function(e@),
            TestError::Branch(BranchError::Mismatch(a, b)) => TestErrorV::Branch(*a, *b),
        }
    }
}

/// Why merging trace files failed.
#[derive(Debug)]
pub enum MergeError {
    IO(std::io::Error),
    RecordParse(RecordParseError),
    Process(TestError),
}


/// Combines two merges of one source line into one result.
pub trait TryMerge<Rhs> {
    type Err;

    fn try_merge(&mut self, rhs: Rhs) -> Result<(), Self::Err>;
}

/// Merges data that cannot conflict.
pub trait Merge<Rhs> {
    fn merge(&mut self, rhs: Rhs);
}

/// The text of a checksum, empty when there is none.
pub open spec fn checksum_text(c: Option<Seq<char>>) -> Seq<char> {
    match c {
        Some(t) => t,
        None => Seq::empty(),
    }
}

/// The message of a checksum conflict.
pub open spec fn checksum_message(e: ChecksumErrorV) -> Seq<char> {
    match e {
        ChecksumErrorV::Empty(l) => "No source code checksum: line: "@ + decimal(l.0 as nat)
            + ", checksum: "@ + checksum_text(l.1),
        ChecksumErrorV::Mismatch(a, b) => "Source code checksums do not match: line: "@ + decimal(
            a.0 as nat,
        ) + ", left: "@ + checksum_text(a.1) + ", right: "@ + checksum_text(b.1),
    }
}

impl ChecksumError {
    /// A message for people.
    pub fn to_string(&self) -> (r: String)
        ensures
            r@ == checksum_message(self@),
    {
        let mut s = String::new();
        match self {
            ChecksumError::Empty(l) => {
                push_str(&mut s, "No source code checksum: line: ");
                push_decimal(&mut s, l.line as u64);
                push_str(&mut s, ", checksum: ");
                push_str(&mut s, l.checksum());
            },
            ChecksumError::Mismatch(a, b) => {
                push_str(&mut s, "Source code checksums do not match: line: ");
                push_decimal(&mut s, a.line as u64);
                push_str(&mut s, ", left: ");
                push_str(&mut s, a.checksum());
                push_str(&mut s, ", right: ");
                push_str(&mut s, b.checksum());
            },
        }
        s
    }
}

/// The message of a function conflict.
pub open spec fn function_message(e: (Seq<char>, Seq<char>)) -> Seq<char> {
    "Function name mismatch: left = "@ + e.0 + ", right = "@ + e.1
}

impl FunctionError {
    /// A message for people.
    pub fn to_string(&self) -> (r: String)
        ensures
            r@ == function_message(self@),
    {
        let mut s = String::new();
        match self {
            FunctionError::Mismatch(a, b) => {
                push_str(&mut s, "Function name mismatch: left = ");
                push_str(&mut s, a.as_str());
                push_str(&mut s, ", right = ");
                push_str(&mut s, b.as_str());
            },
        }
        s
    }
}

/// The text that names a branch in a message.
pub open spec fn branch_text(b: MergeBranch) -> Seq<char> {
    "line:"@ + decimal(b.line as nat) + " block:"@ + decimal(b.block as nat) + " branch:"@ + decimal(
        b.branch as nat,
    )
}

fn push_branch(s: &mut String, b: &MergeBranch)
    ensures
        final(s)@ == old(s)@ + branch_text(*b),
{
    push_str(s, "line:");
    push_decimal(s, b.line as u64);
    push_str(s, " block:");
    push_decimal(s, b.block as u64);
    push_str(s, " branch:");
    push_decimal(s, b.branch as u64);
}

/// The message of a branch conflict.
pub open spec fn branch_message(a: MergeBranch, b: MergeBranch) -> Seq<char> {
    "Branch mismatch: left = "@ + branch_text(a) + ", right = "@ + branch_text(b)
}

/// The message of a conflict while merging one test's coverage.
pub open spec fn test_message(e: TestErrorV) -> Seq<char> {
    match e {
        TestErrorV::Checksum(c) => checksum_message(c),
        TestErrorV::Function(f) => function_message(f),
        TestErrorV::Branch(a, b) => branch_message(a, b),
    }
}

impl BranchError {
    /// A message for people.
    pub fn to_string(&self) -> (r: String)
        ensures
            r@ == match self {
                BranchError::Mismatch(a, b) => branch_message(*a, *b),
            },
    {
        let mut s = String::new();
        match self {
            BranchError::Mismatch(a, b) => {
                push_str(&mut s, "Branch mismatch: left = ");
                push_branch(&mut s, a);
                push_str(&mut s, ", right = ");
                push_branch(&mut s, b);
            },
        }
        s
    }
}

impl TestError {
    /// A message for people: that of the conflict.
    pub fn to_string(&self) -> (r: String)
        ensures
            r@ == test_message(self@),
    {
        match self {
            TestError::Checksum(e) => e.to_string(),
            TestError::Function(e) => e.to_string(),
            TestError::Branch(e) => e.to_string(),
        }
    }
}

/// Relies on the `Display` of `std::io::Error` for its message; nothing is
/// assumed of the text.
#[verifier::external_body]
fn io_error_text(e: &std::io::Error) -> String {
    format!("{}", e)
}

impl MergeError {
    /// A message for people: that of the underlying error.
    pub fn to_string(&self) -> (r: String)
        ensures
            self is RecordParse ==> r@ == self->RecordParse_0.message@,
            self is Process ==> r@ == test_message(self->Process_0@),
    {
        match self {
            MergeError::IO(e) => io_error_text(e),
            MergeError::RecordParse(e) => e.message.clone(),
            MergeError::Process(e) => e.to_string(),
        }
    }
}

/// The conflict, as one of a test.
impl From<ChecksumError> for TestError {
    fn from(input: ChecksumError) -> TestError {
        TestError::Checksum(input)
    }
}

impl vstd::std_specs::convert::FromSpecImpl<ChecksumError> for TestError {
    open spec fn obeys_from_spec() -> bool {
        true
    }

    open spec fn from_spec(input: ChecksumError) -> TestError {
        TestError::Checksum(input)
    }
}

/// The conflict, as a merge failure.
impl From<ChecksumError> for MergeError {
    fn from(input: ChecksumError) -> MergeError {
        MergeError::Process(TestError::Checksum(input))
    }
}

impl vstd::std_specs::convert::FromSpecImpl<ChecksumError> for MergeError {
    open spec fn obeys_from_spec() -> bool {
        true
    }

    open spec fn from_spec(input: ChecksumError) -> MergeError {
        MergeError::Process(TestError::Checksum(input))
    }
}

/// The conflict, as one of a test.
impl From<FunctionError> for TestError {
    fn from(input: FunctionError) -> TestError {
        TestError::Function(input)
    }
}

impl vstd::std_specs::convert::FromSpecImpl<FunctionError> for TestError {
    open spec fn obeys_from_spec() -> bool {
        true
    }

    open spec fn from_spec(input: FunctionError) -> TestError {
        TestError::Function(input)
    }
}

/// The conflict, as a merge failure.
impl From<FunctionError> for MergeError {
    fn from(input: FunctionError) -> MergeError {
        MergeError::Process(TestError::Function(input))
    }
}

impl vstd::std_specs::convert::FromSpecImpl<FunctionError> for MergeError {
    open spec fn obeys_from_spec() -> bool {
        true
    }

    open spec fn from_spec(input: FunctionError) -> MergeError {
        MergeError::Process(TestError::Function(input))
    }
}

/// The conflict, as one of a test.
impl From<BranchError> for TestError {
    fn from(input: BranchError) -> TestError {
        TestError::Branch(input)
    }
}

impl vstd::std_specs::convert::FromSpecImpl<BranchError> for TestError {
    open spec fn obeys_from_spec() -> bool {
        true
    }

    open spec fn from_spec(input: BranchError) -> TestError {
        TestError::Branch(input)
    }
}

/// The conflict, as a merge failure.
impl From<BranchError> for MergeError {
    fn from(input: BranchError) -> MergeError {
        MergeError::Process(TestError::Branch(input))
    }
}

impl vstd::std_specs::convert::FromSpecImpl<BranchError> for MergeError {
    open spec fn obeys_from_spec() -> bool {
        true
    }

    open spec fn from_spec(input: BranchError) -> MergeError {
        MergeError::Process(TestError::Branch(input))
    }
}

/// The conflict, as a merge failure.
impl From<TestError> for MergeError {
    fn from(input: TestError) -> MergeError {
        MergeError::Process(input)
    }
}

impl vstd::std_specs::convert::FromSpecImpl<TestError> for MergeError {
    open spec fn obeys_from_spec() -> bool {
        true
    }

    open spec fn from_spec(input: TestError) -> MergeError {
        MergeError::Process(input)
    }
}

/// A read failure, as a merge failure.
impl From<ParseError> for MergeError {
    fn from(input: ParseError) -> MergeError {
        match input {
            ParseError::IOError(e) => MergeError::IO(e),
            ParseError::RecordParseError(e) => MergeError::RecordParse(e),
        }
    }
}

impl vstd::std_specs::convert::FromSpecImpl<ParseError> for MergeError {
    open spec fn obeys_from_spec() -> bool {
        true
    }

    open spec fn from_spec(input: ParseError) -> MergeError {
        match input {
            ParseError::IOError(e) => MergeError::IO(e),
            ParseError::RecordParseError(e) => MergeError::RecordParse(e),
        }
    }
}

impl MergeLine {
    /// A message for people.
    pub fn to_string(&self) -> (r: String)
        ensures
            r@ == "line: "@ + decimal(self@.0 as nat) + ", checksum: "@ + checksum_text(self@.1),
    {
        let mut s = String::new();
        push_str(&mut s, "line: ");
        push_decimal(&mut s, self.line as u64);
        push_str(&mut s, ", checksum: ");
        push_str(&mut s, self.checksum());
        s
    }
}

} // verus!
