//! The coverage that one test observed of one source file, and the tests of
//! one source file keyed by test name.

use vstd::prelude::*;
use crate::merger::ops::{Merge, TryMerge, BranchError, ChecksumError, ChecksumErrorV, FunctionError, MergeBranch, TestError, TestErrorV};
use crate::record::{BranchData, FunctionData, FunctionName, LineData};
use crate::report::branch::{
    BranchV, branch_data_view, branches_sorted, merge_branch_data_spec, merge_branches_spec, BranchLineV,
    Branches,
};
use crate::report::function::{
    function_data_view, function_name_view, functions_sorted, merge_function_into,
    merge_functions_spec, FunctionV, Functions,
};
use crate::report::line::{line_data_view, lines_sorted, merge_line_into, merge_lines_spec, LineV, Lines};
use crate::seqs::{
    first_where, fold_results, lemma_first_where, lemma_first_where_bounds, lemma_fold_error,
    lemma_fold_step,
};
use crate::text::{lemma_text_less_total, lemma_text_less_transitive, string_less, text_less};

verus! {

/// The view of one test's coverage of one source file.
pub struct TestV {
    pub lines: Seq<LineV>,
    pub functions: Seq<FunctionV>,
    pub branches: Seq<BranchLineV>,
}

/// The coverage of a test that has seen nothing yet.
pub open spec fn empty_test() -> TestV {
    TestV { lines: Seq::empty(), functions: Seq::empty(), branches: Seq::empty() }
}

/// Each collection of the test in order.
pub open spec fn test_sorted(t: TestV) -> bool {
    lines_sorted(t.lines) && functions_sorted(t.functions) && branches_sorted(t.branches)
}

/// Merging the coverage `b` into `a`: lines, then functions, then branches;
/// the first conflict is the result.
pub open spec fn merge_test_spec(a: TestV, b: TestV) -> Result<TestV, TestErrorV> {
    match merge_lines_spec(a.lines, b.lines) {
        Err(e) => Err(TestErrorV::Checksum(e)),
        Ok(l) => match merge_functions_spec(a.functions, b.functions) {
            Err(e) => Err(TestErrorV::Function(e)),
            Ok(f) => match merge_branches_spec(a.branches, b.branches) {
                Err((x, y)) => Err(TestErrorV::Branch(x, y)),
                Ok(br) => Ok(TestV { lines: l, functions: f, branches: br }),
            },
        },
    }
}

/// The coverage of one test for one source file.
#[derive(Debug)]
pub struct Test {
    lines: Lines,
    functions: Functions,
    branches: Branches,
}

impl View for Test {
    type V = TestV;

    closed spec fn view(&self) -> TestV {
        TestV { lines: self.lines@, functions: self.functions@, branches: self.branches@ }
    }
}

impl Test {
    pub fn new() -> (r: Test)
        ensures
            r@ == empty_test(),
    {
        Test { lines: Lines::new(), functions: Functions::new(), branches: Branches::new() }
    }

    pub fn lines(&self) -> (r: &Lines)
        ensures
            r@ == self@.lines,
    {
        &self.lines
    }

    pub fn functions(&self) -> (r: &Functions)
        ensures
            r@ == self@.functions,
    {
        &self.functions
    }

    pub fn branches(&self) -> (r: &Branches)
        ensures
            r@ == self@.branches,
    {
        &self.branches
    }

    /// A copy of this coverage.
    pub fn copy(&self) -> (r: Test)
        ensures
            r@ == self@,
    {
        Test { lines: self.lines.copy(), functions: self.functions.copy(), branches: self.branches.copy() }
    }

    /// Merges the data of one line into the lines.
    pub fn try_merge_line_data(&mut self, data: &LineData) -> (r: Result<(), ChecksumError>)
        ensures
            match merge_line_into(old(self)@.lines, line_data_view(*data)) {
                Ok(l) => r is Ok && final(self)@ == (TestV { lines: l, ..old(self)@ }),
                Err(e) => r is Err && r->Err_0@ == e && final(self)@ == old(self)@,
            },
            test_sorted(old(self)@) ==> test_sorted(final(self)@),
    {
        self.lines.try_merge_data(data)
    }

    /// Merges a function declaration into the functions.
    pub fn try_merge_function_name(&mut self, data: &FunctionName) -> (r: Result<(), FunctionError>)
        ensures
            r is Ok,
            final(self)@ == (TestV {
                functions: merge_function_into(old(self)@.functions, function_name_view(*data), true),
                ..old(self)@
            }),
            test_sorted(old(self)@) ==> test_sorted(final(self)@),
    {
        self.functions.try_merge_name(data)
    }

    /// Merges a function execution count into the functions.
    pub fn try_merge_function_data(&mut self, data: &FunctionData) -> (r: Result<(), FunctionError>)
        ensures
            r is Ok,
            final(self)@ == (TestV {
                functions: merge_function_into(old(self)@.functions, function_data_view(*data), false),
                ..old(self)@
            }),
            test_sorted(old(self)@) ==> test_sorted(final(self)@),
    {
        self.functions.try_merge_data(data)
    }

    /// Merges the data of one branch into the branches.
    pub fn try_merge_branch_data(&mut self, data: &BranchData) -> (r: Result<(), BranchError>)
        ensures
            match merge_branch_data_spec(old(self)@.branches, branch_data_view(*data)) {
                Ok(b) => r is Ok && final(self)@ == (TestV { branches: b, ..old(self)@ }),
                Err((x, y)) => r == Err::<(), BranchError>(BranchError::Mismatch(x, y))
                    && final(self)@ == old(self)@,
            },
            test_sorted(old(self)@) ==> r is Ok && test_sorted(final(self)@),
    {
        self.branches.try_merge_data(data)
    }

    /// Merges the coverage of `other`, observed by the same test.
    pub fn try_merge_test(&mut self, other: &Test) -> (r: Result<(), TestError>)
        ensures
            match merge_test_spec(old(self)@, other@) {
                Ok(t) => r is Ok && final(self)@ == t,
                Err(e) => r is Err && r->Err_0@ == e,
            },
            test_sorted(old(self)@) && test_sorted(other@) && r is Ok ==> test_sorted(final(self)@),
    {
        match self.lines.try_merge_lines(&other.lines) {
            Ok(()) => {},
            Err(e) => {
                return Err(TestError::Checksum(e));
            },
        }
        match self.functions.try_merge_functions(&other.functions) {
            Ok(()) => {},
            Err(e) => {
                return Err(TestError::Function(e));
            },
        }
        match self.branches.try_merge_branches(&other.branches) {
            Ok(()) => {},
            Err(e) => {
                return Err(TestError::Branch(e));
            },
        }
        Ok(())
    }
}

/// A test's name with its coverage.
pub type NamedTestV = (Seq<char>, TestV);

/// Is the entry that of the test named `n`?
pub open spec fn test_named(n: Seq<char>) -> spec_fn(NamedTestV) -> bool {
    |e: NamedTestV| e.0 == n
}

/// Does the entry's name come after `n` in text order?
pub open spec fn test_after(n: Seq<char>) -> spec_fn(NamedTestV) -> bool {
    |e: NamedTestV| text_less(n, e.0)
}

/// Entries in strictly increasing text order of name, each test in order.
pub open spec fn tests_sorted(s: Seq<NamedTestV>) -> bool {
    &&& forall|i: int, j: int| 0 <= i < j < s.len() ==> text_less(s[i].0, s[j].0)
    &&& forall|i: int| 0 <= i < s.len() ==> test_sorted(#[trigger] s[i].1)
}

/// The entries with an entry for test `n`: a new, empty one is inserted in
/// order when there is none.
pub open spec fn with_test(s: Seq<NamedTestV>, n: Seq<char>) -> Seq<NamedTestV> {
    if first_where(s, test_named(n)) < s.len() {
        s
    } else {
        s.insert(first_where(s, test_after(n)), (n, empty_test()))
    }
}

/// Merging the data `d` of one line into a test's lines.
pub open spec fn line_update(d: LineV) -> spec_fn(TestV) -> Result<TestV, ChecksumErrorV> {
    |t: TestV| match merge_line_into(t.lines, d) {
        Ok(l) => Ok(TestV { lines: l, ..t }),
        Err(e) => Err(e),
    }
}

/// Merging the entry `f` into a test's functions.
pub open spec fn function_update(f: FunctionV, declaration: bool) -> spec_fn(TestV) -> Result<TestV, (Seq<char>, Seq<char>)> {
    |t: TestV| Ok(TestV { functions: merge_function_into(t.functions, f, declaration), ..t })
}

/// Merging the data `b` of one branch into a test's branches.
pub open spec fn branch_update(b: BranchV) -> spec_fn(TestV) -> Result<TestV, (MergeBranch, MergeBranch)> {
    |t: TestV| match merge_branch_data_spec(t.branches, b) {
        Ok(x) => Ok(TestV { branches: x, ..t }),
        Err(e) => Err(e),
    }
}

/// Applies `f` to the coverage of test `n`, made first if need be.
pub open spec fn update_test<E>(s: Seq<NamedTestV>, n: Seq<char>, f: spec_fn(TestV) -> Result<TestV, E>) -> Result<Seq<NamedTestV>, E> {
    let s1 = with_test(s, n);
    let i = first_where(s1, test_named(n));
    match f(s1[i].1) {
        Ok(t) => Ok(s1.update(i, (n, t))),
        Err(e) => Err(e),
    }
}

/// Merging the test entry `e` into the entries `s`: a new test is inserted
/// in order, a known one merged by [`merge_test_spec`].
pub open spec fn merge_named_test_into(s: Seq<NamedTestV>, e: NamedTestV) -> Result<Seq<NamedTestV>, TestErrorV> {
    let i = first_where(s, test_named(e.0));
    if i < s.len() {
        match merge_test_spec(s[i].1, e.1) {
            Ok(t) => Ok(s.update(i, (s[i].0, t))),
            Err(x) => Err(x),
        }
    } else {
        Ok(s.insert(first_where(s, test_after(e.0)), e))
    }
}

/// One step of [`merge_tests_spec`].
pub open spec fn tests_step() -> spec_fn(Seq<NamedTestV>, NamedTestV) -> Result<Seq<NamedTestV>, TestErrorV> {
    |t: Seq<NamedTestV>, e: NamedTestV| merge_named_test_into(t, e)
}

/// Merging the entries `o`, in order, into the entries `s`.
pub open spec fn merge_tests_spec(s: Seq<NamedTestV>, o: Seq<NamedTestV>) -> Result<Seq<NamedTestV>, TestErrorV> {
    fold_results(s, o, tests_step())
}

/// The coverage of each test of one source file, one entry per test name,
/// in text order of name.
#[derive(Debug)]
pub struct Tests {
    tests: Vec<(String, Test)>,
}

impl View for Tests {
    type V = Seq<NamedTestV>;

    closed spec fn view(&self) -> Seq<NamedTestV> {
        self.tests@.map_values(|e: (String, Test)| (e.0@, e.1@))
    }
}

impl Tests {
    pub fn new() -> (r: Tests)
        ensures
            r@ == Seq::<NamedTestV>::empty(),
    {
        let r = Tests { tests: Vec::new() };
        assert(r@ =~= Seq::<NamedTestV>::empty());
        r
    }

    fn find(&self, n: &String) -> (i: usize)
        ensures
            i == first_where(self@, test_named(n@)),
    {
        let mut i: usize = 0;
        while i < self.tests.len() && !self.tests[i].0.eq(n)
            invariant
                i <= self@.len(),
                self@.len() == self.tests@.len(),
                forall|j: int| 0 <= j < i ==> !test_named(n@)(#[trigger] self@[j]),
            decreases self.tests@.len() - i,
        {
            i = i + 1;
        }
        proof {
            lemma_first_where(self@, test_named(n@), i as int);
        }
        i
    }

    fn insert_pos(&self, n: &String) -> (i: usize)
        ensures
            i == first_where(self@, test_after(n@)),
    {
        let mut i: usize = 0;
        while i < self.tests.len() && !string_less(n, &self.tests[i].0)
            invariant
                i <= self@.len(),
                self@.len() == self.tests@.len(),
                forall|j: int| 0 <= j < i ==> !test_after(n@)(#[trigger] self@[j]),
            decreases self.tests@.len() - i,
        {
            i = i + 1;
        }
        proof {
            lemma_first_where(self@, test_after(n@), i as int);
        }
        i
    }

    /// Inserts an entry for a test that has none, in order.
    #[verifier::rlimit(50)]
    fn insert_test(&mut self, n: String, t: Test)
        requires
            first_where(old(self)@, test_named(n@)) == old(self)@.len(),
        ensures
            final(self)@ == old(self)@.insert(first_where(old(self)@, test_after(n@)), (n@, t@)),
            tests_sorted(old(self)@) && test_sorted(t@) ==> tests_sorted(final(self)@),
    {
        let ghost s = self@;
        let p = self.insert_pos(&n);
        proof {
            lemma_first_where_bounds(s, test_after(n@));
            lemma_first_where_bounds(s, test_named(n@));
        }
        let ghost v = (n@, t@);
        self.tests.insert(p, (n, t));
        assert(self@ =~= s.insert(p as int, v));
        proof {
            if tests_sorted(s) && test_sorted(v.1) {
                assert forall|a: int, b: int| 0 <= a < b < self@.len() implies text_less(
                    self@[a].0,
                    self@[b].0,
                ) by {
                    if b == p {
                        assert(!test_named(n@)(s[a]));
                        assert(!test_after(n@)(s[a]));
                        assert(self@[a] == s[a]);
                        lemma_text_less_total(s[a].0, v.0);
                    } else if a == p {
                        assert(self@[b] == s[b - 1]);
                        assert(test_after(n@)(s[p as int]));
                        if b - 1 > p {
                            lemma_text_less_transitive(v.0, s[p as int].0, s[b - 1].0);
                        }
                    } else if a < p && b > p {
                        assert(self@[a] == s[a]);
                        assert(self@[b] == s[b - 1]);
                    } else if a > p {
                        assert(self@[a] == s[a - 1]);
                        assert(self@[b] == s[b - 1]);
                    } else {
                        assert(self@[a] == s[a]);
                        assert(self@[b] == s[b]);
                    }
                }
                assert forall|a: int| 0 <= a < self@.len() implies test_sorted(#[trigger] self@[a].1) by {
                    if a < p {
                        assert(self@[a] == s[a]);
                    } else if a > p {
                        assert(self@[a] == s[a - 1]);
                    }
                }
            }
        }
    }

    /// Makes sure that test `name` has an entry, an empty one if it had none.
    pub fn merge(&mut self, name: &String)
        ensures
            final(self)@ == with_test(old(self)@, name@),
            tests_sorted(old(self)@) ==> tests_sorted(final(self)@),
    {
        let i = self.find(name);
        proof {
            lemma_first_where_bounds(self@, test_named(name@));
        }
        if i == self.tests.len() {
            self.insert_test(name.clone(), Test::new());
        }
    }

    /// Index of the entry of test `name`, made first if need be.
    #[verifier::rlimit(50)]
    fn entry(&mut self, name: &String) -> (i: usize)
        ensures
            final(self)@ == with_test(old(self)@, name@),
            i == first_where(final(self)@, test_named(name@)),
            i < final(self)@.len(),
            final(self)@.len() == final(self).tests@.len(),
            final(self)@[i as int].0 == name@,
            tests_sorted(old(self)@) ==> tests_sorted(final(self)@),
    {
        self.merge(name);
        let i = self.find(name);
        proof {
            lemma_first_where_bounds(self@, test_named(name@));
            lemma_first_where_bounds(old(self)@, test_named(name@));
            lemma_first_where_bounds(old(self)@, test_after(name@));
            if first_where(old(self)@, test_named(name@)) == old(self)@.len() {
                let p = first_where(old(self)@, test_after(name@));
                assert(test_named(name@)(self@[p]));
            }
        }
        i
    }

    /// Merges the data of one line into the coverage of test `name`.
    pub fn try_merge_line_data(&mut self, name: &String, data: &LineData) -> (r: Result<(), ChecksumError>)
        ensures
            match update_test(old(self)@, name@, line_update(line_data_view(*data))) {
                Ok(s) => r is Ok && final(self)@ == s,
                Err(e) => r is Err && r->Err_0@ == e,
            },
            tests_sorted(old(self)@) ==> tests_sorted(final(self)@),
    {
        let i = self.entry(name);
        let ghost s1 = self@;
        let r = self.tests[i].1.try_merge_line_data(data);
        assert(self@ =~= s1.update(i as int, (name@, self.tests@[i as int].1@)));
        proof { self.lemma_sorted_after_update(s1, i as int); }
        r
    }

    /// Merges a function declaration into the coverage of test `name`.
    pub fn try_merge_function_name(&mut self, name: &String, data: &FunctionName) -> (r: Result<(), FunctionError>)
        ensures
            r is Ok,
            final(self)@ == update_test(old(self)@, name@, function_update(function_name_view(*data), true))->Ok_0,
            tests_sorted(old(self)@) ==> tests_sorted(final(self)@),
    {
        let i = self.entry(name);
        let ghost s1 = self@;
        let r = self.tests[i].1.try_merge_function_name(data);
        assert(self@ =~= s1.update(i as int, (name@, self.tests@[i as int].1@)));
        proof { self.lemma_sorted_after_update(s1, i as int); }
        r
    }

    /// Merges a function execution count into the coverage of test `name`.
    pub fn try_merge_function_data(&mut self, name: &String, data: &FunctionData) -> (r: Result<(), FunctionError>)
        ensures
            r is Ok,
            final(self)@ == update_test(old(self)@, name@, function_update(function_data_view(*data), false))->Ok_0,
            tests_sorted(old(self)@) ==> tests_sorted(final(self)@),
    {
        let i = self.entry(name);
        let ghost s1 = self@;
        let r = self.tests[i].1.try_merge_function_data(data);
        assert(self@ =~= s1.update(i as int, (name@, self.tests@[i as int].1@)));
        proof { self.lemma_sorted_after_update(s1, i as int); }
        r
    }

    /// Merges the data of one branch into the coverage of test `name`.
    pub fn try_merge_branch_data(&mut self, name: &String, data: &BranchData) -> (r: Result<(), BranchError>)
        ensures
            match update_test(old(self)@, name@, branch_update(branch_data_view(*data))) {
                Ok(s) => r is Ok && final(self)@ == s,
                Err((x, y)) => r == Err::<(), BranchError>(BranchError::Mismatch(x, y)),
            },
            tests_sorted(old(self)@) ==> r is Ok && tests_sorted(final(self)@),
    {
        let i = self.entry(name);
        let ghost s1 = self@;
        proof {
            if tests_sorted(old(self)@) {
                assert(test_sorted(s1[i as int].1));
            }
        }
        let r = self.tests[i].1.try_merge_branch_data(data);
        assert(self@ =~= s1.update(i as int, (name@, self.tests@[i as int].1@)));
        proof { self.lemma_sorted_after_update(s1, i as int); }
        r
    }

    proof fn lemma_sorted_after_update(&self, s1: Seq<NamedTestV>, i: int)
        requires
            0 <= i < s1.len(),
            self@ == s1.update(i, (s1[i].0, self@[i].1)),
            tests_sorted(s1) ==> test_sorted(self@[i].1),
        ensures
            tests_sorted(s1) ==> tests_sorted(self@),
    {
        if tests_sorted(s1) {
            assert forall|a: int, b: int| 0 <= a < b < self@.len() implies text_less(self@[a].0, self@[b].0) by {
                assert(self@[a].0 == s1[a].0);
                assert(self@[b].0 == s1[b].0);
            }
            assert forall|a: int| 0 <= a < self@.len() implies test_sorted(#[trigger] self@[a].1) by {
                if a != i {
                    assert(self@[a] == s1[a]);
                }
            }
        }
    }

    /// Merges every entry of `other`, in order; the first conflict stops the
    /// merge.
    #[verifier::rlimit(50)]
    pub fn try_merge_tests(&mut self, other: &Tests) -> (r: Result<(), TestError>)
        ensures
            match merge_tests_spec(old(self)@, other@) {
                Ok(t) => r is Ok && final(self)@ == t,
                Err(e) => r is Err && r->Err_0@ == e,
            },
            tests_sorted(old(self)@) && tests_sorted(other@) && r is Ok ==> tests_sorted(final(self)@),
    {
        let ghost s0 = self@;
        let mut i: usize = 0;
        while i < other.tests.len()
            invariant
                s0 == old(self)@,
                i <= other@.len(),
                other@.len() == other.tests@.len(),
                merge_tests_spec(s0, other@.take(i as int)) == Ok::<Seq<NamedTestV>, TestErrorV>(self@),
                tests_sorted(s0) && tests_sorted(other@) ==> tests_sorted(self@),
            decreases other.tests@.len() - i,
        {
            proof {
                lemma_fold_step(s0, other@, tests_step(), i as int);
            }
            let ghost s = self@;
            let j = self.find(&other.tests[i].0);
            proof {
                lemma_first_where_bounds(s, test_named(other@[i as int].0));
            }
            assert(other@[i as int] == (other.tests@[i as int].0@, other.tests@[i as int].1@));
            if j < self.tests.len() {
                let r = self.tests[j].1.try_merge_test(&other.tests[i].1);
                if r.is_err() {
                    proof {
                        lemma_fold_error(s0, other@, tests_step(), i + 1);
                    }
                    return r;
                }
                assert(self@ =~= s.update(j as int, (s[j as int].0, self.tests@[j as int].1@)));
                proof {
                    if tests_sorted(s0) && tests_sorted(other@) {
                        assert(test_sorted(s[j as int].1));
                        assert(test_sorted(other@[i as int].1));
                        self.lemma_sorted_after_update(s, j as int);
                    }
                }
            } else {
                let t = other.tests[i].1.copy();
                proof {
                    if tests_sorted(other@) {
                        assert(test_sorted(other@[i as int].1));
                    }
                }
                self.insert_test(other.tests[i].0.clone(), t);
            }
            i = i + 1;
        }
        assert(other@.take(i as int) =~= other@);
        Ok(())
    }

    /// A copy of these entries.
    pub fn copy(&self) -> (r: Tests)
        ensures
            r@ == self@,
    {
        let mut v: Vec<(String, Test)> = Vec::new();
        let mut i: usize = 0;
        while i < self.tests.len()
            invariant
                i <= self@.len(),
                self@.len() == self.tests@.len(),
                v@.len() == i,
                v@.map_values(|e: (String, Test)| (e.0@, e.1@)) == self@.take(i as int),
            decreases self.tests@.len() - i,
        {
            let ghost before = v@;
            let c = self.tests[i].1.copy();
            let n = self.tests[i].0.clone();
            assert((n@, c@) == self@[i as int]);
            v.push((n, c));
            assert forall|k: int| 0 <= k < i + 1 implies v@.map_values(|e: (String, Test)| (e.0@, e.1@))[k] == #[trigger] self@.take(i + 1)[k] by {
                if k < i {
                    assert(v@[k] == before[k]);
                    assert(before.map_values(|e: (String, Test)| (e.0@, e.1@))[k] == self@.take(i as int)[k]);
                }
            }
            assert(v@.map_values(|e: (String, Test)| (e.0@, e.1@)) =~= self@.take(i + 1));
            i = i + 1;
        }
        assert(self@.take(i as int) =~= self@);
        Tests { tests: v }
    }

    /// The coverage of test `key`, if any.
    pub fn get(&self, key: &String) -> (r: Option<&Test>)
        ensures
            first_where(self@, test_named(key@)) < self@.len() ==> r is Some && r->Some_0@
                == self@[first_where(self@, test_named(key@))].1,
            first_where(self@, test_named(key@)) == self@.len() ==> r is None,
    {
        let i = self.find(key);
        proof {
            lemma_first_where_bounds(self@, test_named(key@));
        }
        if i < self.tests.len() {
            Some(&self.tests[i].1)
        } else {
            None
        }
    }

    pub fn contains_key(&self, key: &String) -> (r: bool)
        ensures
            r == (first_where(self@, test_named(key@)) < self@.len()),
    {
        proof {
            lemma_first_where_bounds(self@, test_named(key@));
        }
        self.find(key) < self.tests.len()
    }

    pub fn len(&self) -> (r: usize)
        ensures
            r == self@.len(),
    {
        self.tests.len()
    }

    pub fn is_empty(&self) -> (r: bool)
        ensures
            r == (self@.len() == 0),
    {
        self.tests.len() == 0
    }

    /// The tests with their names, in text order of name.
    pub fn entries(&self) -> (r: &[(String, Test)])
        ensures
            r@.map_values(|e: (String, Test)| (e.0@, e.1@)) == self@,
    {
        self.tests.as_slice()
    }
}

impl<'a> TryMerge<&'a LineData> for Test {
    type Err = ChecksumError;

    fn try_merge(&mut self, rhs: &'a LineData) -> (r: Result<(), ChecksumError>)
        ensures
            match merge_line_into(old(self)@.lines, line_data_view(*rhs)) {
                Ok(l) => r is Ok && final(self)@ == (TestV { lines: l, ..old(self)@ }),
                Err(e) => r is Err && r->Err_0@ == e && final(self)@ == old(self)@,
            },
            test_sorted(old(self)@) ==> test_sorted(final(self)@),
    {
        self.try_merge_line_data(rhs)
    }
}

impl<'a> TryMerge<&'a FunctionName> for Test {
    type Err = FunctionError;

    fn try_merge(&mut self, rhs: &'a FunctionName) -> (r: Result<(), FunctionError>)
        ensures
            r is Ok,
            final(self)@ == (TestV {
                functions: merge_function_into(old(self)@.functions, function_name_view(*rhs), true),
                ..old(self)@
            }),
            test_sorted(old(self)@) ==> test_sorted(final(self)@),
    {
        self.try_merge_function_name(rhs)
    }
}

impl<'a> TryMerge<&'a FunctionData> for Test {
    type Err = FunctionError;

    fn try_merge(&mut self, rhs: &'a FunctionData) -> (r: Result<(), FunctionError>)
        ensures
            r is Ok,
            final(self)@ == (TestV {
                functions: merge_function_into(old(self)@.functions, function_data_view(*rhs), false),
                ..old(self)@
            }),
            test_sorted(old(self)@) ==> test_sorted(final(self)@),
    {
        self.try_merge_function_data(rhs)
    }
}

impl<'a> TryMerge<&'a BranchData> for Test {
    type Err = BranchError;

    fn try_merge(&mut self, rhs: &'a BranchData) -> (r: Result<(), BranchError>)
        ensures
            match merge_branch_data_spec(old(self)@.branches, branch_data_view(*rhs)) {
                Ok(b) => r is Ok && final(self)@ == (TestV { branches: b, ..old(self)@ }),
                Err((x, y)) => r == Err::<(), BranchError>(BranchError::Mismatch(x, y))
                    && final(self)@ == old(self)@,
            },
            test_sorted(old(self)@) ==> r is Ok && test_sorted(final(self)@),
    {
        self.try_merge_branch_data(rhs)
    }
}

impl<'a> TryMerge<&'a Test> for Test {
    type Err = TestError;

    fn try_merge(&mut self, rhs: &'a Test) -> (r: Result<(), TestError>)
        ensures
            match merge_test_spec(old(self)@, rhs@) {
                Ok(t) => r is Ok && final(self)@ == t,
                Err(e) => r is Err && r->Err_0@ == e,
            },
            test_sorted(old(self)@) && test_sorted(rhs@) && r is Ok ==> test_sorted(final(self)@),
    {
        self.try_merge_test(rhs)
    }
}

impl<'a, 'b> TryMerge<(&'a String, &'b LineData)> for Tests {
    type Err = ChecksumError;

    fn try_merge(&mut self, rhs: (&'a String, &'b LineData)) -> (r: Result<(), ChecksumError>)
        ensures
            match update_test(old(self)@, rhs.0@, line_update(line_data_view(*rhs.1))) {
                Ok(s) => r is Ok && final(self)@ == s,
                Err(e) => r is Err && r->Err_0@ == e,
            },
            tests_sorted(old(self)@) ==> tests_sorted(final(self)@),
    {
        self.try_merge_line_data(rhs.0, rhs.1)
    }
}

impl<'a, 'b> TryMerge<(&'a String, &'b FunctionName)> for Tests {
    type Err = FunctionError;

    fn try_merge(&mut self, rhs: (&'a String, &'b FunctionName)) -> (r: Result<(), FunctionError>)
        ensures
            r is Ok,
            final(self)@ == update_test(old(self)@, rhs.0@, function_update(function_name_view(*rhs.1), true))->Ok_0,
            tests_sorted(old(self)@) ==> tests_sorted(final(self)@),
    {
        self.try_merge_function_name(rhs.0, rhs.1)
    }
}

impl<'a, 'b> TryMerge<(&'a String, &'b FunctionData)> for Tests {
    type Err = FunctionError;

    fn try_merge(&mut self, rhs: (&'a String, &'b FunctionData)) -> (r: Result<(), FunctionError>)
        ensures
            r is Ok,
            final(self)@ == update_test(old(self)@, rhs.0@, function_update(function_data_view(*rhs.1), false))->Ok_0,
            tests_sorted(old(self)@) ==> tests_sorted(final(self)@),
    {
        self.try_merge_function_data(rhs.0, rhs.1)
    }
}

impl<'a, 'b> TryMerge<(&'a String, &'b BranchData)> for Tests {
    type Err = BranchError;

    fn try_merge(&mut self, rhs: (&'a String, &'b BranchData)) -> (r: Result<(), BranchError>)
        ensures
            match update_test(old(self)@, rhs.0@, branch_update(branch_data_view(*rhs.1))) {
                Ok(s) => r is Ok && final(self)@ == s,
                Err((x, y)) => r == Err::<(), BranchError>(BranchError::Mismatch(x, y)),
            },
            tests_sorted(old(self)@) ==> r is Ok && tests_sorted(final(self)@),
    {
        self.try_merge_branch_data(rhs.0, rhs.1)
    }
}

impl<'a> TryMerge<&'a Tests> for Tests {
    type Err = TestError;

    fn try_merge(&mut self, rhs: &'a Tests) -> (r: Result<(), TestError>)
        ensures
            match merge_tests_spec(old(self)@, rhs@) {
                Ok(t) => r is Ok && final(self)@ == t,
                Err(e) => r is Err && r->Err_0@ == e,
            },
            tests_sorted(old(self)@) && tests_sorted(rhs@) && r is Ok ==> tests_sorted(final(self)@),
    {
        self.try_merge_tests(rhs)
    }
}

impl<'a> Merge<&'a String> for Tests {
    fn merge(&mut self, rhs: &'a String)
        ensures
            final(self)@ == with_test(old(self)@, rhs@),
            tests_sorted(old(self)@) ==> tests_sorted(final(self)@),
    {
        Tests::merge(self, rhs)
    }
}

} // verus!
