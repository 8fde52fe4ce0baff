//! The coverage of source files, keyed by path.

use vstd::prelude::*;
use crate::merger::ops::{TestError, TestErrorV, TryMerge};
use crate::report::test::{merge_tests_spec, tests_sorted, NamedTestV, Test, Tests};
use crate::seqs::{
    first_where, fold_results, lemma_first_where, lemma_first_where_bounds, lemma_fold_error,
    lemma_fold_step,
};
use crate::text::{lemma_text_less_total, lemma_text_less_transitive, string_less, text_less};

verus! {

/// The coverage of one source file: the tests that observed it.
#[derive(Debug)]
pub struct File {
    tests: Tests,
}

impl View for File {
    type V = Seq<NamedTestV>;

    closed spec fn view(&self) -> Seq<NamedTestV> {
        self.tests@
    }
}

impl File {
    pub fn new(tests: Tests) -> (r: File)
        ensures
            r@ == tests@,
    {
        File { tests }
    }

    pub fn tests(&self) -> (r: &Tests)
        ensures
            r@ == self@,
    {
        &self.tests
    }

    /// The coverage that test `name` observed, if any.
    pub fn get_test(&self, name: &String) -> (r: Option<&Test>)
        ensures
            first_where(self@, crate::report::test::test_named(name@)) < self@.len() ==> r is Some
                && r->Some_0@ == self@[first_where(self@, crate::report::test::test_named(name@))].1,
            first_where(self@, crate::report::test::test_named(name@)) == self@.len() ==> r is None,
    {
        self.tests.get(name)
    }

    /// A copy of this coverage.
    pub fn copy(&self) -> (r: File)
        ensures
            r@ == self@,
    {
        File { tests: self.tests.copy() }
    }

    /// Merges the coverage of `other`, a file at the same path.
    pub fn try_merge_file(&mut self, other: &File) -> (r: Result<(), TestError>)
        ensures
            match merge_tests_spec(old(self)@, other@) {
                Ok(t) => r is Ok && final(self)@ == t,
                Err(e) => r is Err && r->Err_0@ == e,
            },
            tests_sorted(old(self)@) && tests_sorted(other@) && r is Ok ==> tests_sorted(final(self)@),
    {
        self.tests.try_merge_tests(&other.tests)
    }
}

/// A source file's path with its coverage.
pub type NamedFileV = (Seq<char>, Seq<NamedTestV>);

/// Is the entry that of the file at `p`?
pub open spec fn file_at(p: Seq<char>) -> spec_fn(NamedFileV) -> bool {
    |e: NamedFileV| e.0 == p
}

/// Does the entry's path come after `p` in text order?
pub open spec fn file_after(p: Seq<char>) -> spec_fn(NamedFileV) -> bool {
    |e: NamedFileV| text_less(p, e.0)
}

/// Entries in strictly increasing text order of path, each file in order.
pub open spec fn files_sorted(s: Seq<NamedFileV>) -> bool {
    &&& forall|i: int, j: int| 0 <= i < j < s.len() ==> text_less(s[i].0, s[j].0)
    &&& forall|i: int| 0 <= i < s.len() ==> tests_sorted(#[trigger] s[i].1)
}

/// Merging the file entry `e` into the entries `s`: a
/// new path is inserted in order, a known one merged test by test.
pub open spec fn merge_file_into(s: Seq<NamedFileV>, e: NamedFileV) -> Result<Seq<NamedFileV>, TestErrorV> {
    let i = first_where(s, file_at(e.0));
    if i < s.len() {
        match merge_tests_spec(s[i].1, e.1) {
            Ok(t) => Ok(s.update(i, (s[i].0, t))),
            Err(x) => Err(x),
        }
    } else {
        Ok(s.insert(first_where(s, file_after(e.0)), e))
    }
}

/// One step of [`merge_files_spec`].
pub open spec fn file_step() -> spec_fn(Seq<NamedFileV>, NamedFileV) -> Result<Seq<NamedFileV>, TestErrorV> {
    |t: Seq<NamedFileV>, e: NamedFileV| merge_file_into(t, e)
}

/// Merging the file entries `o`, in order, into the entries `s`.
pub open spec fn merge_files_spec(s: Seq<NamedFileV>, o: Seq<NamedFileV>) -> Result<Seq<NamedFileV>, TestErrorV> {
    fold_results(s, o, file_step())
}

/// The coverage of each source file, one entry per path, in text order of
/// path.
#[derive(Debug)]
pub struct Files {
    files: Vec<(String, File)>,
}

impl View for Files {
    type V = Seq<NamedFileV>;

    closed spec fn view(&self) -> Seq<NamedFileV> {
        self.files@.map_values(|e: (String, File)| (e.0@, e.1@))
    }
}

impl Files {
    pub fn new() -> (r: Files)
        ensures
            r@ == Seq::<NamedFileV>::empty(),
    {
        let r = Files { files: Vec::new() };
        assert(r@ =~= Seq::<NamedFileV>::empty());
        r
    }

    fn find(&self, p: &String) -> (i: usize)
        ensures
            i == first_where(self@, file_at(p@)),
    {
        let mut i: usize = 0;
        while i < self.files.len() && !self.files[i].0.eq(p)
            invariant
                i <= self@.len(),
                self@.len() == self.files@.len(),
                forall|j: int| 0 <= j < i ==> !file_at(p@)(#[trigger] self@[j]),
            decreases self.files@.len() - i,
        {
            i = i + 1;
        }
        proof {
            lemma_first_where(self@, file_at(p@), i as int);
        }
        i
    }

    fn insert_pos(&self, p: &String) -> (i: usize)
        ensures
            i == first_where(self@, file_after(p@)),
    {
        let mut i: usize = 0;
        while i < self.files.len() && !string_less(p, &self.files[i].0)
            invariant
                i <= self@.len(),
                self@.len() == self.files@.len(),
                forall|j: int| 0 <= j < i ==> !file_after(p@)(#[trigger] self@[j]),
            decreases self.files@.len() - i,
        {
            i = i + 1;
        }
        proof {
            lemma_first_where(self@, file_after(p@), i as int);
        }
        i
    }

    /// Merges the coverage `file` of the source file at `path`.
    #[verifier::rlimit(50)]
    pub fn try_merge_file(&mut self, path: &String, file: File) -> (r: Result<(), TestError>)
        ensures
            match merge_file_into(old(self)@, (path@, file@)) {
                Ok(t) => r is Ok && final(self)@ == t,
                Err(e) => r is Err && r->Err_0@ == e,
            },
            files_sorted(old(self)@) && tests_sorted(file@) && r is Ok ==> files_sorted(final(self)@),
    {
        let ghost s = self@;
        let i = self.find(path);
        proof {
            lemma_first_where_bounds(s, file_at(path@));
        }
        if i < self.files.len() {
            let r = self.files[i].1.try_merge_file(&file);
            if r.is_ok() {
                assert(self@ =~= s.update(i as int, (s[i as int].0, self.files@[i as int].1@)));
                proof {
                    if files_sorted(s) && tests_sorted(file@) {
                        assert(tests_sorted(s[i as int].1));
                        assert forall|a: int| 0 <= a < self@.len() implies tests_sorted(#[trigger] self@[a].1) by {
                            if a != i {
                                assert(self@[a] == s[a]);
                            }
                        }
                    }
                }
            }
            r
        } else {
            let p = self.insert_pos(path);
            proof {
                lemma_first_where_bounds(s, file_after(path@));
            }
            let ghost v = (path@, file@);
            self.files.insert(p, (path.clone(), file));
            assert(self@ =~= s.insert(p as int, v));
            proof {
                if files_sorted(s) && tests_sorted(v.1) {
                    assert forall|a: int, b: int| 0 <= a < b < self@.len() implies text_less(
                        self@[a].0,
                        self@[b].0,
                    ) by {
                        if b == p {
                            assert(s[a].0 != v.0);
                            lemma_text_less_total(s[a].0, v.0);
                        } else if a == p {
                            if b - 1 > p {
                                lemma_text_less_transitive(v.0, s[p as int].0, s[b - 1].0);
                            }
                        }
                    }
                    assert forall|a: int| 0 <= a < self@.len() implies tests_sorted(#[trigger] self@[a].1) by {
                        if a < p {
                            assert(self@[a] == s[a]);
                        } else if a > p {
                            assert(self@[a] == s[a - 1]);
                        }
                    }
                }
            }
            Ok(())
        }
    }

    /// A copy of these entries.
    pub fn copy(&self) -> (r: Files)
        ensures
            r@ == self@,
    {
        let mut v: Vec<(String, File)> = Vec::new();
        let mut i: usize = 0;
        while i < self.files.len()
            invariant
                i <= self@.len(),
                self@.len() == self.files@.len(),
                v@.len() == i,
                v@.map_values(|e: (String, File)| (e.0@, e.1@)) == self@.take(i as int),
            decreases self.files@.len() - i,
        {
            let ghost before = v@;
            let c = self.files[i].1.copy();
            let n = self.files[i].0.clone();
            assert((n@, c@) == self@[i as int]);
            v.push((n, c));
            assert forall|k: int| 0 <= k < i + 1 implies v@.map_values(|e: (String, File)| (e.0@, e.1@))[k] == #[trigger] self@.take(i + 1)[k] by {
                if k < i {
                    assert(v@[k] == before[k]);
                    assert(before.map_values(|e: (String, File)| (e.0@, e.1@))[k] == self@.take(i as int)[k]);
                }
            }
            assert(v@.map_values(|e: (String, File)| (e.0@, e.1@)) =~= self@.take(i + 1));
            i = i + 1;
        }
        assert(self@.take(i as int) =~= self@);
        Files { files: v }
    }

    /// Merges every file entry of `other`, in order; the first conflict stops
    /// the merge.
    #[verifier::rlimit(50)]
    pub fn try_merge_files(&mut self, other: &Files) -> (r: Result<(), TestError>)
        ensures
            match merge_files_spec(old(self)@, other@) {
                Ok(t) => r is Ok && final(self)@ == t,
                Err(e) => r is Err && r->Err_0@ == e,
            },
            files_sorted(old(self)@) && files_sorted(other@) && r is Ok ==> files_sorted(final(self)@),
    {
        let ghost s0 = self@;
        let mut i: usize = 0;
        while i < other.files.len()
            invariant
                s0 == old(self)@,
                i <= other@.len(),
                other@.len() == other.files@.len(),
                merge_files_spec(s0, other@.take(i as int)) == Ok::<Seq<NamedFileV>, TestErrorV>(self@),
                files_sorted(s0) && files_sorted(other@) ==> files_sorted(self@),
            decreases other.files@.len() - i,
        {
            proof {
                lemma_fold_step(s0, other@, file_step(), i as int);
            }
            let f = other.files[i].1.copy();
            assert((other.files@[i as int].0@, f@) == other@[i as int]);
            proof {
                if files_sorted(other@) {
                    assert(tests_sorted(other@[i as int].1));
                }
            }
            let r = self.try_merge_file(&other.files[i].0, f);
            if r.is_err() {
                proof {
                    lemma_fold_error(s0, other@, file_step(), i + 1);
                }
                return r;
            }
            i = i + 1;
        }
        assert(other@.take(i as int) =~= other@);
        Ok(())
    }

    /// The coverage of the file at `key`, if any.
    pub fn get(&self, key: &String) -> (r: Option<&File>)
        ensures
            first_where(self@, file_at(key@)) < self@.len() ==> r is Some && r->Some_0@
                == self@[first_where(self@, file_at(key@))].1,
            first_where(self@, file_at(key@)) == self@.len() ==> r is None,
    {
        let i = self.find(key);
        proof {
            lemma_first_where_bounds(self@, file_at(key@));
        }
        if i < self.files.len() {
            Some(&self.files[i].1)
        } else {
            None
        }
    }

    pub fn contains_key(&self, key: &String) -> (r: bool)
        ensures
            r == (first_where(self@, file_at(key@)) < self@.len()),
    {
        proof {
            lemma_first_where_bounds(self@, file_at(key@));
        }
        self.find(key) < self.files.len()
    }

    pub fn len(&self) -> (r: usize)
        ensures
            r == self@.len(),
    {
        self.files.len()
    }

    pub fn is_empty(&self) -> (r: bool)
        ensures
            r == (self@.len() == 0),
    {
        self.files.len() == 0
    }

    /// The files with their paths, in text order of path.
    pub fn entries(&self) -> (r: &[(String, File)])
        ensures
            r@.map_values(|e: (String, File)| (e.0@, e.1@)) == self@,
    {
        self.files.as_slice()
    }
}

impl<'a> TryMerge<&'a File> for File {
    type Err = TestError;

    fn try_merge(&mut self, rhs: &'a File) -> (r: Result<(), TestError>)
        ensures
            match merge_tests_spec(old(self)@, rhs@) {
                Ok(t) => r is Ok && final(self)@ == t,
                Err(e) => r is Err && r->Err_0@ == e,
            },
            tests_sorted(old(self)@) && tests_sorted(rhs@) && r is Ok ==> tests_sorted(final(self)@),
    {
        self.try_merge_file(rhs)
    }
}

impl<'a, 'b> TryMerge<(&'a String, &'b File)> for Files {
    type Err = TestError;

    fn try_merge(&mut self, rhs: (&'a String, &'b File)) -> (r: Result<(), TestError>)
        ensures
            match merge_file_into(old(self)@, (rhs.0@, rhs.1@)) {
                Ok(t) => r is Ok && final(self)@ == t,
                Err(e) => r is Err && r->Err_0@ == e,
            },
            files_sorted(old(self)@) && tests_sorted(rhs.1@) && r is Ok ==> files_sorted(final(self)@),
    {
        self.try_merge_file(rhs.0, rhs.1.copy())
    }
}

impl<'a> TryMerge<&'a Files> for Files {
    type Err = TestError;

    fn try_merge(&mut self, rhs: &'a Files) -> (r: Result<(), TestError>)
        ensures
            match merge_files_spec(old(self)@, rhs@) {
                Ok(t) => r is Ok && final(self)@ == t,
                Err(e) => r is Err && r->Err_0@ == e,
            },
            files_sorted(old(self)@) && files_sorted(rhs@) && r is Ok ==> files_sorted(final(self)@),
    {
        self.try_merge_files(rhs)
    }
}

} // verus!
