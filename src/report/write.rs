//! Writing a report back as LCOV text: per source file and per test, the
//! functions, the branches and the lines, each followed by the found and hit
//! counts computed from the entries.

use vstd::prelude::*;
use crate::report::branch::{groups_found, groups_hit, sat_usize, Branch, BranchBlocks, BranchLineV, BranchV, Branches};
use crate::report::file::{File, NamedFileV};
use crate::report::function::{function_hit, Function, FunctionV, Functions};
use crate::report::line::{line_hit, Line, LineV, Lines};
use crate::report::test::{NamedTestV, Test, TestV};
use crate::report::Report;
use crate::seqs::{concat_map, count_where, lemma_concat_map_push};
use crate::text::{decimal, push_decimal, push_str};

verus! {

/// The `DA` line of one entry.
pub open spec fn line_record_text(l: LineV) -> Seq<char> {
    "DA:"@ + decimal(l.line_number as nat) + ","@ + decimal(l.execution_count as nat) + match l.checksum {
        Some(c) => ","@ + c,
        None => Seq::<char>::empty(),
    } + "\n"@
}

pub open spec fn line_texts() -> spec_fn(LineV) -> Seq<char> {
    |l: LineV| line_record_text(l)
}

/// The lines of a test: a `DA` line each, then `LF` and `LH`; nothing when
/// there are none.
pub open spec fn lines_text(s: Seq<LineV>) -> Seq<char> {
    if s.len() == 0 {
        Seq::empty()
    } else {
        concat_map(s, line_texts()) + "LF:"@ + decimal(s.len()) + "\n"@ + "LH:"@ + decimal(
            count_where(s, line_hit()),
        ) + "\n"@
    }
}

/// The `FN` and `FNDA` lines of one entry.
pub open spec fn function_record_text(f: FunctionV) -> Seq<char> {
    "FN:"@ + decimal(f.line_number as nat) + ","@ + f.name + "\n"@ + "FNDA:"@ + decimal(
        f.execution_count as nat,
    ) + ","@ + f.name + "\n"@
}

pub open spec fn function_texts() -> spec_fn(FunctionV) -> Seq<char> {
    |f: FunctionV| function_record_text(f)
}

/// The functions of a test: their lines, then `FNF` (how many) and `FNH`
/// (how many executed); nothing when there are none.
pub open spec fn functions_text(s: Seq<FunctionV>) -> Seq<char> {
    if s.len() == 0 {
        Seq::empty()
    } else {
        concat_map(s, function_texts()) + "FNF:"@ + decimal(s.len()) + "\n"@ + "FNH:"@ + decimal(
            count_where(s, function_hit()),
        ) + "\n"@
    }
}

/// The `BRDA` line of one branch of line `line`.
pub open spec fn branch_record_text(line: u32, b: BranchV) -> Seq<char> {
    "BRDA:"@ + decimal(line as nat) + ","@ + decimal(b.block as nat) + ","@ + decimal(b.branch as nat)
        + ","@ + decimal(b.execution_count as nat) + "\n"@
}

pub open spec fn branch_texts(line: u32) -> spec_fn(BranchV) -> Seq<char> {
    |b: BranchV| branch_record_text(line, b)
}

pub open spec fn group_texts() -> spec_fn(BranchLineV) -> Seq<char> {
    |g: BranchLineV| concat_map(g.1, branch_texts(g.0))
}

/// The branches of a test: their lines, then `BRF` and `BRH`; nothing when
/// there are none.
pub open spec fn branches_text(s: Seq<BranchLineV>) -> Seq<char> {
    if s.len() == 0 {
        Seq::empty()
    } else {
        concat_map(s, group_texts()) + "BRF:"@ + decimal(sat_usize(groups_found(s)) as nat) + "\n"@
            + "BRH:"@ + decimal(sat_usize(groups_hit(s)) as nat) + "\n"@
    }
}

/// The section of one test of the source file at `path`.
pub open spec fn test_text(path: Seq<char>, name: Seq<char>, t: TestV) -> Seq<char> {
    "TN:"@ + name + "\n"@ + "SF:"@ + path + "\n"@ + functions_text(t.functions) + branches_text(
        t.branches,
    ) + lines_text(t.lines) + "end_of_record\n"@
}

pub open spec fn test_texts(path: Seq<char>) -> spec_fn(NamedTestV) -> Seq<char> {
    |e: NamedTestV| test_text(path, e.0, e.1)
}

pub open spec fn file_texts() -> spec_fn(NamedFileV) -> Seq<char> {
    |f: NamedFileV| concat_map(f.1, test_texts(f.0))
}

/// The text of a whole report: every test section of every file.
pub open spec fn report_text(s: Seq<NamedFileV>) -> Seq<char> {
    concat_map(s, file_texts())
}

fn push_line(out: &mut String, tag: &str, n: u64)
    ensures
        final(out)@ == old(out)@ + tag@ + decimal(n as nat) + "\n"@,
{
    push_str(out, tag);
    push_decimal(out, n);
    push_str(out, "\n");
}

#[verifier::rlimit(50)]
fn write_line_record(l: &Line, out: &mut String)
    ensures
        final(out)@ == old(out)@ + line_record_text(l@),
{
    push_str(out, "DA:");
    push_decimal(out, *l.line_number() as u64);
    push_str(out, ",");
    push_decimal(out, *l.execution_count() as u64);
    let ghost o1 = out@;
    match l.checksum() {
        Some(c) => {
            push_str(out, ",");
            push_str(out, c.as_str());
        },
        None => {},
    }
    let ghost o2 = out@;
    push_str(out, "\n");
    assert(out@ =~= old(out)@ + line_record_text(l@));
}

#[verifier::rlimit(50)]
fn write_function_record(f: &Function, out: &mut String)
    ensures
        final(out)@ == old(out)@ + function_record_text(f@),
{
    push_str(out, "FN:");
    push_decimal(out, *f.line_number() as u64);
    push_str(out, ",");
    push_str(out, f.name().as_str());
    push_str(out, "\n");
    push_str(out, "FNDA:");
    push_decimal(out, *f.execution_count() as u64);
    push_str(out, ",");
    push_str(out, f.name().as_str());
    push_str(out, "\n");
    assert(out@ =~= old(out)@ + function_record_text(f@));
}

#[verifier::rlimit(50)]
fn write_branch_record(line: u32, b: &Branch, out: &mut String)
    ensures
        final(out)@ == old(out)@ + branch_record_text(line, b@),
{
    push_str(out, "BRDA:");
    push_decimal(out, line as u64);
    push_str(out, ",");
    push_decimal(out, *b.block() as u64);
    push_str(out, ",");
    push_decimal(out, *b.branch() as u64);
    push_str(out, ",");
    push_decimal(out, *b.execution_count() as u64);
    push_str(out, "\n");
    assert(out@ =~= old(out)@ + branch_record_text(line, b@));
}

#[verifier::rlimit(50)]
fn write_header(path: &String, name: &String, out: &mut String)
    ensures
        final(out)@ == old(out)@ + "TN:"@ + name@ + "\n"@ + "SF:"@ + path@ + "\n"@,
{
    push_str(out, "TN:");
    push_str(out, name.as_str());
    push_str(out, "\n");
    push_str(out, "SF:");
    push_str(out, path.as_str());
    push_str(out, "\n");
    assert(out@ =~= old(out)@ + "TN:"@ + name@ + "\n"@ + "SF:"@ + path@ + "\n"@);
}

impl Lines {
    /// Appends the LCOV text of these lines to `out`.
    #[verifier::rlimit(50)]
    pub fn write_records(&self, out: &mut String)
        ensures
            final(out)@ == old(out)@ + lines_text(self@),
    {
        let entries = self.entries();
        if entries.len() == 0 {
            assert(old(out)@ + lines_text(self@) =~= old(out)@);
            return;
        }
        let mut i: usize = 0;
        while i < entries.len()
            invariant
                entries@.map_values(|l: Line| l@) == self@,
                i <= entries@.len(),
                out@ == old(out)@ + concat_map(self@.take(i as int), line_texts()),
            decreases entries@.len() - i,
        {
            proof {
                lemma_concat_map_push(self@, line_texts(), i as int);
            }
            let l = &entries[i];
            assert(l@ == self@[i as int]);
            write_line_record(l, out);
            i = i + 1;
            assert(out@ =~= old(out)@ + concat_map(self@.take(i as int), line_texts()));
        }
        assert(self@.take(i as int) =~= self@);
        push_line(out, "LF:", self.found_count() as u64);
        push_line(out, "LH:", self.hit_count() as u64);
        assert(out@ =~= old(out)@ + lines_text(self@));
    }
}

impl Functions {
    /// Appends the LCOV text of these functions to `out`.
    #[verifier::rlimit(50)]
    pub fn write_records(&self, out: &mut String)
        ensures
            final(out)@ == old(out)@ + functions_text(self@),
    {
        let entries = self.entries();
        if entries.len() == 0 {
            assert(old(out)@ + functions_text(self@) =~= old(out)@);
            return;
        }
        let mut i: usize = 0;
        while i < entries.len()
            invariant
                entries@.map_values(|f: Function| f@) == self@,
                i <= entries@.len(),
                out@ == old(out)@ + concat_map(self@.take(i as int), function_texts()),
            decreases entries@.len() - i,
        {
            proof {
                lemma_concat_map_push(self@, function_texts(), i as int);
            }
            let f = &entries[i];
            assert(f@ == self@[i as int]);
            write_function_record(f, out);
            i = i + 1;
            assert(out@ =~= old(out)@ + concat_map(self@.take(i as int), function_texts()));
        }
        assert(self@.take(i as int) =~= self@);
        push_line(out, "FNF:", self.found_count() as u64);
        push_line(out, "FNH:", self.hit_count() as u64);
        assert(out@ =~= old(out)@ + functions_text(self@));
    }
}

impl BranchBlocks {
    /// Appends a `BRDA` line for each branch of line `line` to `out`.
    #[verifier::rlimit(50)]
    pub fn write_records(&self, line: u32, out: &mut String)
        ensures
            final(out)@ == old(out)@ + concat_map(self@, branch_texts(line)),
    {
        let entries = self.entries();
        let mut i: usize = 0;
        while i < entries.len()
            invariant
                entries@.map_values(|b: Branch| b@) == self@,
                i <= entries@.len(),
                out@ == old(out)@ + concat_map(self@.take(i as int), branch_texts(line)),
            decreases entries@.len() - i,
        {
            proof {
                lemma_concat_map_push(self@, branch_texts(line), i as int);
            }
            let b = &entries[i];
            assert(b@ == self@[i as int]);
            write_branch_record(line, b, out);
            i = i + 1;
            assert(out@ =~= old(out)@ + concat_map(self@.take(i as int), branch_texts(line)));
        }
        assert(self@.take(i as int) =~= self@);
    }
}

impl Branches {
    /// Appends the LCOV text of these branches to `out`.
    #[verifier::rlimit(50)]
    pub fn write_records(&self, out: &mut String)
        ensures
            final(out)@ == old(out)@ + branches_text(self@),
    {
        let entries = self.entries();
        if entries.len() == 0 {
            assert(old(out)@ + branches_text(self@) =~= old(out)@);
            return;
        }
        let mut i: usize = 0;
        while i < entries.len()
            invariant
                entries@.map_values(|e: (u32, BranchBlocks)| (e.0, e.1@)) == self@,
                i <= entries@.len(),
                out@ == old(out)@ + concat_map(self@.take(i as int), group_texts()),
            decreases entries@.len() - i,
        {
            proof {
                lemma_concat_map_push(self@, group_texts(), i as int);
            }
            let e = &entries[i];
            assert((e.0, e.1@) == self@[i as int]);
            e.1.write_records(e.0, out);
            i = i + 1;
            assert(out@ =~= old(out)@ + concat_map(self@.take(i as int), group_texts()));
        }
        assert(self@.take(i as int) =~= self@);
        push_line(out, "BRF:", self.found_count() as u64);
        push_line(out, "BRH:", self.hit_count() as u64);
        assert(out@ =~= old(out)@ + branches_text(self@));
    }
}

impl Test {
    /// Appends the section of this test, named `name`, of the source file at
    /// `path` to `out`.
    #[verifier::rlimit(50)]
    pub fn write_records(&self, path: &String, name: &String, out: &mut String)
        ensures
            final(out)@ == old(out)@ + test_text(path@, name@, self@),
    {
        write_header(path, name, out);
        let ghost o1 = out@;
        self.functions().write_records(out);
        self.branches().write_records(out);
        self.lines().write_records(out);
        push_str(out, "end_of_record\n");
        assert(out@ =~= o1 + functions_text(self@.functions) + branches_text(self@.branches) + lines_text(self@.lines) + "end_of_record\n"@);
        assert(out@ =~= old(out)@ + test_text(path@, name@, self@));
    }
}

impl File {
    /// Appends the sections of every test of this file, at `path`, to `out`.
    #[verifier::rlimit(50)]
    pub fn write_records(&self, path: &String, out: &mut String)
        ensures
            final(out)@ == old(out)@ + concat_map(self@, test_texts(path@)),
    {
        let entries = self.tests().entries();
        let mut i: usize = 0;
        while i < entries.len()
            invariant
                entries@.map_values(|e: (String, Test)| (e.0@, e.1@)) == self@,
                i <= entries@.len(),
                out@ == old(out)@ + concat_map(self@.take(i as int), test_texts(path@)),
            decreases entries@.len() - i,
        {
            proof {
                lemma_concat_map_push(self@, test_texts(path@), i as int);
            }
            let e = &entries[i];
            assert((e.0@, e.1@) == self@[i as int]);
            e.1.write_records(path, &e.0, out);
            i = i + 1;
            assert(out@ =~= old(out)@ + concat_map(self@.take(i as int), test_texts(path@)));
        }
        assert(self@.take(i as int) =~= self@);
    }
}

impl Report {
    /// Appends the LCOV text of the whole report to `out`.
    #[verifier::rlimit(50)]
    pub fn write_records(&self, out: &mut String)
        ensures
            final(out)@ == old(out)@ + report_text(self@),
    {
        let entries = self.files().entries();
        let mut i: usize = 0;
        while i < entries.len()
            invariant
                entries@.map_values(|e: (String, File)| (e.0@, e.1@)) == self@,
                i <= entries@.len(),
                out@ == old(out)@ + concat_map(self@.take(i as int), file_texts()),
            decreases entries@.len() - i,
        {
            proof {
                lemma_concat_map_push(self@, file_texts(), i as int);
            }
            let e = &entries[i];
            assert((e.0@, e.1@) == self@[i as int]);
            e.1.write_records(&e.0, out);
            i = i + 1;
            assert(out@ =~= old(out)@ + concat_map(self@.take(i as int), file_texts()));
        }
        assert(self@.take(i as int) =~= self@);
    }

    /// The LCOV text of the whole report.
    pub fn to_string(&self) -> (r: String)
        ensures
            r@ == report_text(self@),
    {
        let mut out = String::new();
        self.write_records(&mut out);
        assert(out@ =~= report_text(self@));
        out
    }
}

} // verus!
