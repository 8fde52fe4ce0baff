//! The merged coverage model: per source file, per test, the lines,
//! functions and branches observed.

pub mod branch;
pub mod file;
pub mod function;
pub mod line;
pub mod summary;
pub mod test;
pub mod write;

use vstd::prelude::*;
use crate::report::file::{file_at, File, Files, NamedFileV};
use crate::seqs::first_where;

verus! {

/// The result of a merge: the coverage of every source file, by path.
#[derive(Debug)]
pub struct Report {
    files: Files,
}

impl View for Report {
    type V = Seq<NamedFileV>;

    closed spec fn view(&self) -> Seq<NamedFileV> {
        self.files@
    }
}

impl Report {
    pub fn new(files: Files) -> (r: Report)
        ensures
            r@ == files@,
    {
        Report { files }
    }

    /// The coverage of the source file at `key`, if any.
    pub fn get(&self, key: &str) -> (r: Option<&File>)
        ensures
            first_where(self@, file_at(key@)) < self@.len() ==> r is Some && r->Some_0@
                == self@[first_where(self@, file_at(key@))].1,
            first_where(self@, file_at(key@)) == self@.len() ==> r is None,
    {
        let k = key.to_owned();
        self.files.get(&k)
    }

    pub fn files(&self) -> (r: &Files)
        ensures
            r@ == self@,
    {
        &self.files
    }

    /// How many source files the report covers.
    pub fn len(&self) -> (r: usize)
        ensures
            r == self@.len(),
    {
        self.files.len()
    }
}

} // verus!
