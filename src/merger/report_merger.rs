//! The merge engine: a state machine fed with the records of each trace in
//! turn.

use vstd::prelude::*;
use crate::grammar::{error_column, first_line_len, lemma_first_line_len, parse_line_spec};
use crate::merger::ops::{MergeError, TestError, TestErrorV};
use crate::parser::{sat_u32, LCOVParser, ParseError};
use crate::record::{BranchData, FunctionData, FunctionName, LCOVRecord, LineData, RecordView};
use crate::report::branch::BranchV;
use crate::report::file::{files_sorted, merge_file_into, File, Files, NamedFileV};
use crate::report::function::FunctionV;
use crate::report::line::LineV;
use crate::report::test::{
    branch_update, function_update, line_update, tests_sorted, update_test, with_test, NamedTestV,
    Tests,
};
use crate::report::Report;
use crate::seqs::{fold_results, lemma_fold_error, lemma_fold_step};

verus! {

/// The state of a merge.
pub struct MergerV {
    /// The name of the current test, once a `TN` record was seen.
    pub test_name: Option<Seq<char>>,
    /// The path of the current source file, once an `SF` record was seen.
    pub source_name: Option<Seq<char>>,
    /// The coverage gathered since the last `end_of_record`.
    pub tests: Seq<NamedTestV>,
    /// The coverage of the files closed so far.
    pub files: Seq<NamedFileV>,
}

/// Every collection of the state in order of its keys.
pub open spec fn merger_sorted(st: MergerV) -> bool {
    tests_sorted(st.tests) && files_sorted(st.files)
}

/// The state before any record.
pub open spec fn initial_merger() -> MergerV {
    MergerV { test_name: None, source_name: None, tests: Seq::empty(), files: Seq::empty() }
}

/// The reaction of the merge to one record.
/// - `TN`: the test becomes current (an absent name counts as empty) and has
///   an entry from then on, even if it records nothing.
/// - `SF`: the source file becomes current.
/// - `DA`, `FN`, `FNDA`, `BRDA`: merged into the current test; ignored while
///   no test is current.
/// - `end_of_record`: the gathered tests are merged into the file at the
///   current path (empty when none was given), then cleared.
/// - the found and hit counters: ignored, as they are recomputed.
pub open spec fn step_spec(st: MergerV, r: RecordView) -> Result<MergerV, TestErrorV> {
    match r {
        RecordView::TestName(n) => {
            let name = match n {
                Some(x) => x,
                None => Seq::empty(),
            };
            Ok(MergerV { test_name: Some(name), tests: with_test(st.tests, name), ..st })
        },
        RecordView::SourceFile(p) => Ok(MergerV { source_name: Some(p), ..st }),
        RecordView::Data(l, c, ck) => match st.test_name {
            None => Ok(st),
            Some(n) => match update_test(
                st.tests,
                n,
                line_update(LineV { line_number: l, execution_count: c, checksum: ck }),
            ) {
                Ok(t) => Ok(MergerV { tests: t, ..st }),
                Err(e) => Err(TestErrorV::Checksum(e)),
            },
        },
        RecordView::FunctionName(l, name) => match st.test_name {
            None => Ok(st),
            Some(n) => Ok(
                MergerV {
                    tests: update_test(
                        st.tests,
                        n,
                        function_update(FunctionV { name, line_number: l, execution_count: 0 }, true),
                    )->Ok_0,
                    ..st
                },
            ),
        },
        RecordView::FunctionData(c, name) => match st.test_name {
            None => Ok(st),
            Some(n) => Ok(
                MergerV {
                    tests: update_test(
                        st.tests,
                        n,
                        function_update(FunctionV { name, line_number: 0, execution_count: c }, false),
                    )->Ok_0,
                    ..st
                },
            ),
        },
        RecordView::BranchData(l, b, br, t) => match st.test_name {
            None => Ok(st),
            Some(n) => match update_test(
                st.tests,
                n,
                branch_update(BranchV { line_number: l, block: b, branch: br, execution_count: t }),
            ) {
                Ok(x) => Ok(MergerV { tests: x, ..st }),
                Err((x, y)) => Err(TestErrorV::Branch(x, y)),
            },
        },
        RecordView::EndOfRecord => {
            let path = match st.source_name {
                Some(p) => p,
                None => Seq::empty(),
            };
            match merge_file_into(st.files, (path, st.tests)) {
                Ok(f) => Ok(MergerV { files: f, tests: Seq::empty(), ..st }),
                Err(e) => Err(e),
            }
        },
        _ => Ok(st),
    }
}

/// The view of a merge failure.
pub enum MergeErrorV {
    /// The 1-based line and column where a line breaks the grammar.
    Parse(u32, u32),
    /// A conflict between records.
    Process(TestErrorV),
}

/// Feeding the records of the text `s` to the merge, line by line, after
/// `line` lines of it were read; the first failure ends it.
pub open spec fn run_text(st: MergerV, s: Seq<char>, line: u32) -> Result<MergerV, MergeErrorV>
    decreases s.len() via run_text_decreases
{
    if s.len() == 0 {
        Ok(st)
    } else {
        let n = first_line_len(s);
        let k = sat_u32(line + 1);
        match parse_line_spec(s.take(n)) {
            None => Err(MergeErrorV::Parse(k, sat_u32(error_column(s.take(n))))),
            Some(r) => match step_spec(st, r) {
                Err(e) => Err(MergeErrorV::Process(e)),
                Ok(st2) => run_text(st2, s.skip(n), k),
            },
        }
    }
}

#[via_fn]
proof fn run_text_decreases(st: MergerV, s: Seq<char>, line: u32) {
    lemma_first_line_len(s);
}

/// One step of [`run_inputs`]: a whole trace text.
pub open spec fn text_step() -> spec_fn(MergerV, Seq<char>) -> Result<MergerV, MergeErrorV> {
    |st: MergerV, s: Seq<char>| run_text(st, s, 0)
}

/// Feeding the trace texts `inputs` to the merge, in order.
pub open spec fn run_inputs(st: MergerV, inputs: Seq<Seq<char>>) -> Result<MergerV, MergeErrorV> {
    fold_results(st, inputs, text_step())
}

/// Does the error `e` match its view `v`?
pub open spec fn merge_error_is(e: MergeError, v: MergeErrorV) -> bool {
    match (e, v) {
        (MergeError::RecordParse(p), MergeErrorV::Parse(k, c)) => p.line == k && p.column == c,
        (MergeError::Process(t), MergeErrorV::Process(x)) => t@ == x,
        _ => false,
    }
}

/// The texts of a list of traces.
pub open spec fn texts(inputs: Seq<&str>) -> Seq<Seq<char>> {
    inputs.map_values(|s: &str| s@)
}

/// Merges the records of trace files into one report.
pub struct ReportMerger {
    test_name: Option<String>,
    source_name: Option<String>,
    tests: Tests,
    files: Files,
}

impl View for ReportMerger {
    type V = MergerV;

    closed spec fn view(&self) -> MergerV {
        MergerV {
            test_name: crate::record::opt_text(self.test_name),
            source_name: crate::record::opt_text(self.source_name),
            tests: self.tests@,
            files: self.files@,
        }
    }
}

impl ReportMerger {
    pub fn new() -> (r: ReportMerger)
        ensures
            r@ == initial_merger(),
    {
        ReportMerger { test_name: None, source_name: None, tests: Tests::new(), files: Files::new() }
    }

    fn on_test_name(&mut self, test_name: &Option<String>)
        ensures
            step_spec(old(self)@, RecordView::TestName(crate::record::opt_text(*test_name)))
                == Ok::<MergerV, TestErrorV>(final(self)@),
            merger_sorted(old(self)@) ==> merger_sorted(final(self)@),
    {
        let name = match test_name {
            Some(n) => n.clone(),
            None => String::new(),
        };
        self.tests.merge(&name);
        self.test_name = Some(name);
    }

    fn on_source_file(&mut self, source_name: &String)
        ensures
            step_spec(old(self)@, RecordView::SourceFile(source_name@)) == Ok::<MergerV, TestErrorV>(
                final(self)@,
            ),
            merger_sorted(old(self)@) ==> merger_sorted(final(self)@),
    {
        self.source_name = Some(source_name.clone());
    }

    fn on_data(&mut self, data: &LineData) -> (r: Result<(), TestError>)
        ensures
            match step_spec(old(self)@, LCOVRecord::Data(*data)@) {
                Ok(st) => r is Ok && final(self)@ == st,
                Err(e) => r is Err && r->Err_0@ == e,
            },
            merger_sorted(old(self)@) && r is Ok ==> merger_sorted(final(self)@),
    {
        match &self.test_name {
            Some(n) => match self.tests.try_merge_line_data(n, data) {
                Ok(()) => Ok(()),
                Err(e) => Err(TestError::Checksum(e)),
            },
            None => Ok(()),
        }
    }

    fn on_func_name(&mut self, data: &FunctionName) -> (r: Result<(), TestError>)
        ensures
            match step_spec(old(self)@, LCOVRecord::FunctionName(*data)@) {
                Ok(st) => r is Ok && final(self)@ == st,
                Err(e) => r is Err && r->Err_0@ == e,
            },
            merger_sorted(old(self)@) && r is Ok ==> merger_sorted(final(self)@),
    {
        match &self.test_name {
            Some(n) => match self.tests.try_merge_function_name(n, data) {
                Ok(()) => Ok(()),
                Err(e) => Err(TestError::Function(e)),
            },
            None => Ok(()),
        }
    }

    fn on_func_data(&mut self, data: &FunctionData) -> (r: Result<(), TestError>)
        ensures
            match step_spec(old(self)@, LCOVRecord::FunctionData(*data)@) {
                Ok(st) => r is Ok && final(self)@ == st,
                Err(e) => r is Err && r->Err_0@ == e,
            },
            merger_sorted(old(self)@) && r is Ok ==> merger_sorted(final(self)@),
    {
        match &self.test_name {
            Some(n) => match self.tests.try_merge_function_data(n, data) {
                Ok(()) => Ok(()),
                Err(e) => Err(TestError::Function(e)),
            },
            None => Ok(()),
        }
    }

    fn on_branch_data(&mut self, data: &BranchData) -> (r: Result<(), TestError>)
        ensures
            match step_spec(old(self)@, LCOVRecord::BranchData(*data)@) {
                Ok(st) => r is Ok && final(self)@ == st,
                Err(e) => r is Err && r->Err_0@ == e,
            },
            merger_sorted(old(self)@) && r is Ok ==> merger_sorted(final(self)@),
            merger_sorted(old(self)@) ==> r is Ok,
    {
        match &self.test_name {
            Some(n) => match self.tests.try_merge_branch_data(n, data) {
                Ok(()) => Ok(()),
                Err(e) => Err(TestError::Branch(e)),
            },
            None => Ok(()),
        }
    }

    #[verifier::rlimit(50)]
    fn on_end_of_record(&mut self) -> (r: Result<(), TestError>)
        ensures
            match step_spec(old(self)@, RecordView::EndOfRecord) {
                Ok(st) => r is Ok && final(self)@ == st,
                Err(e) => r is Err && r->Err_0@ == e,
            },
            merger_sorted(old(self)@) && r is Ok ==> merger_sorted(final(self)@),
    {
        let path = match &self.source_name {
            Some(p) => p.clone(),
            None => String::new(),
        };
        let mut tests = Tests::new();
        std::mem::swap(&mut tests, &mut self.tests);
        self.files.try_merge_file(&path, File::new(tests))
    }

    /// Feeds one record to the merge.
    pub fn process_record(&mut self, record: &LCOVRecord) -> (r: Result<(), TestError>)
        ensures
            match step_spec(old(self)@, record@) {
                Ok(st) => r is Ok && final(self)@ == st,
                Err(e) => r is Err && r->Err_0@ == e,
            },
            merger_sorted(old(self)@) && r is Ok ==> merger_sorted(final(self)@),
            merger_sorted(old(self)@) && record is BranchData ==> r is Ok,
    {
        match record {
            LCOVRecord::TestName(name) => {
                self.on_test_name(name);
                Ok(())
            },
            LCOVRecord::SourceFile(name) => {
                self.on_source_file(name);
                Ok(())
            },
            LCOVRecord::Data(data) => self.on_data(data),
            LCOVRecord::FunctionName(data) => self.on_func_name(data),
            LCOVRecord::FunctionData(data) => self.on_func_data(data),
            LCOVRecord::BranchData(data) => self.on_branch_data(data),
            LCOVRecord::EndOfRecord => self.on_end_of_record(),
            _ => Ok(()),
        }
    }

    /// Feeds the records of one trace text to the merge, line by line.
    #[verifier::rlimit(50)]
    pub fn process_file(&mut self, input: &str) -> (r: Result<(), MergeError>)
        ensures
            match run_text(old(self)@, input@, 0) {
                Ok(st) => r is Ok && final(self)@ == st,
                Err(e) => r is Err && merge_error_is(r->Err_0, e),
            },
            merger_sorted(old(self)@) && r is Ok ==> merger_sorted(final(self)@),
    {
        let mut parser = LCOVParser::new(input);
        loop
            invariant
                run_text(old(self)@, input@, 0) == run_text(self@, parser.rest(), parser.lines_read()),
                merger_sorted(old(self)@) ==> merger_sorted(self@),
            decreases parser.rest().len(),
        {
            let ghost st = self@;
            let ghost s = parser.rest();
            let ghost line = parser.lines_read();
            proof {
                lemma_first_line_len(s);
            }
            match parser.next() {
                Ok(None) => {
                    return Ok(());
                },
                Ok(Some(record)) => {
                    match self.process_record(&record) {
                        Ok(()) => {},
                        Err(e) => {
                            return Err(MergeError::Process(e));
                        },
                    }
                },
                Err(ParseError::RecordParseError(e)) => {
                    return Err(MergeError::RecordParse(e));
                },
                Err(ParseError::IOError(e)) => {
                    return Err(MergeError::IO(e));
                },
            }
        }
    }

    /// Feeds the trace texts `inputs` to the merge, in order, and returns
    /// the report of everything merged so far.
    #[verifier::rlimit(50)]
    pub fn merge(&mut self, inputs: &[&str]) -> (r: Result<Report, MergeError>)
        ensures
            match run_inputs(old(self)@, texts(inputs@)) {
                Ok(st) => r is Ok && final(self)@ == st && r->Ok_0@ == st.files,
                Err(e) => r is Err && merge_error_is(r->Err_0, e),
            },
            merger_sorted(old(self)@) && r is Ok ==> merger_sorted(final(self)@) && files_sorted(
                r->Ok_0@,
            ),
    {
        let ghost st0 = self@;
        let mut i: usize = 0;
        while i < inputs.len()
            invariant
                st0 == old(self)@,
                i <= inputs@.len(),
                run_inputs(st0, texts(inputs@).take(i as int)) == Ok::<MergerV, MergeErrorV>(self@),
                merger_sorted(st0) ==> merger_sorted(self@),
            decreases inputs@.len() - i,
        {
            proof {
                lemma_fold_step(st0, texts(inputs@), text_step(), i as int);
            }
            let r = self.process_file(inputs[i]);
            if r.is_err() {
                proof {
                    lemma_fold_error(st0, texts(inputs@), text_step(), i + 1);
                }
                return Err(r.unwrap_err());
            }
            i = i + 1;
        }
        assert(texts(inputs@).take(i as int) =~= texts(inputs@));
        Ok(Report::new(self.files.copy()))
    }
}

/// Merges the trace texts `inputs`, in order, into one report.
pub fn merge_files(inputs: &[&str]) -> (r: Result<Report, MergeError>)
    ensures
        match run_inputs(initial_merger(), texts(inputs@)) {
            Ok(st) => r is Ok && r->Ok_0@ == st.files,
            Err(e) => r is Err && merge_error_is(r->Err_0, e),
        },
        r is Ok ==> files_sorted(r->Ok_0@),
{
    let mut merger = ReportMerger::new();
    merger.merge(inputs)
}

} // verus!
