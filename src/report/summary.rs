//! Read access shared by the keyed collections of a report.

use vstd::prelude::*;
use crate::report::branch::{Branch, BranchBlocks, BranchUnit, Branches};
use crate::report::file::{File, Files};
use crate::report::function::{Function, Functions};
use crate::report::line::{Line, Lines};
use crate::report::test::{Test, Tests};
use crate::report::Report;

verus! {

/// A collection of entries of type `V`, one per key of type `K`.
pub trait Summary<K, V> {
    fn contains_key(&self, key: &K) -> bool;

    fn get(&self, key: &K) -> Option<&V>;

    fn len(&self) -> usize;

    fn is_empty(&self) -> bool;
}

/// Appending a collection's LCOV text to a string.
pub trait RecordWrite {
    fn write_records(&self, output: &mut String);
}

impl Summary<u32, Line> for Lines {
    fn contains_key(&self, key: &u32) -> bool {
        Lines::contains_key(self, key)
    }

    fn get(&self, key: &u32) -> Option<&Line> {
        Lines::get(self, key)
    }

    fn len(&self) -> usize {
        Lines::len(self)
    }

    fn is_empty(&self) -> bool {
        Lines::is_empty(self)
    }
}

impl Summary<String, Function> for Functions {
    fn contains_key(&self, key: &String) -> bool {
        Functions::contains_key(self, key)
    }

    fn get(&self, key: &String) -> Option<&Function> {
        Functions::get(self, key)
    }

    fn len(&self) -> usize {
        Functions::len(self)
    }

    fn is_empty(&self) -> bool {
        Functions::is_empty(self)
    }
}

impl Summary<BranchUnit, Branch> for BranchBlocks {
    fn contains_key(&self, key: &BranchUnit) -> bool {
        BranchBlocks::contains_key(self, key)
    }

    fn get(&self, key: &BranchUnit) -> Option<&Branch> {
        BranchBlocks::get(self, key)
    }

    fn len(&self) -> usize {
        BranchBlocks::len(self)
    }

    fn is_empty(&self) -> bool {
        BranchBlocks::is_empty(self)
    }
}

impl Summary<u32, BranchBlocks> for Branches {
    fn contains_key(&self, key: &u32) -> bool {
        Branches::contains_key(self, key)
    }

    fn get(&self, key: &u32) -> Option<&BranchBlocks> {
        Branches::get(self, key)
    }

    fn len(&self) -> usize {
        Branches::len(self)
    }

    fn is_empty(&self) -> bool {
        Branches::is_empty(self)
    }
}

impl Summary<String, Test> for Tests {
    fn contains_key(&self, key: &String) -> bool {
        Tests::contains_key(self, key)
    }

    fn get(&self, key: &String) -> Option<&Test> {
        Tests::get(self, key)
    }

    fn len(&self) -> usize {
        Tests::len(self)
    }

    fn is_empty(&self) -> bool {
        Tests::is_empty(self)
    }
}

impl Summary<String, File> for Files {
    fn contains_key(&self, key: &String) -> bool {
        Files::contains_key(self, key)
    }

    fn get(&self, key: &String) -> Option<&File> {
        Files::get(self, key)
    }

    fn len(&self) -> usize {
        Files::len(self)
    }

    fn is_empty(&self) -> bool {
        Files::is_empty(self)
    }
}

impl RecordWrite for Lines {
    fn write_records(&self, output: &mut String) {
        Lines::write_records(self, output)
    }
}

impl RecordWrite for Functions {
    fn write_records(&self, output: &mut String) {
        Functions::write_records(self, output)
    }
}

impl RecordWrite for Branches {
    fn write_records(&self, output: &mut String) {
        Branches::write_records(self, output)
    }
}

impl RecordWrite for Report {
    fn write_records(&self, output: &mut String) {
        Report::write_records(self, output)
    }
}

impl Default for Test {
    fn default() -> (r: Test)
        ensures
            r@ == crate::report::test::empty_test(),
    {
        Test::new()
    }
}

} // verus!
