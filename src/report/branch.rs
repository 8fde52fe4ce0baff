//! Execution data of branches, grouped by line number and keyed within a
//! line by block and branch number.

use vstd::prelude::*;
use crate::merger::ops::{BranchError, MergeBranch, TryMerge};
use crate::record::BranchData;
use crate::report::line::{add_counts, sat_add};
use crate::seqs::{
    count_where, first_where, fold_results, lemma_count_where_push, lemma_first_where,
    lemma_first_where_bounds, lemma_fold_error, lemma_fold_step,
};

verus! {

/// A branch within a line: its block number and branch number.
#[derive(Debug, Hash, Ord, PartialOrd, PartialEq, Eq, Clone, Copy)]
pub struct BranchUnit(pub u32, pub u32);

impl BranchUnit {
    pub fn new(block: u32, branch: u32) -> (r: BranchUnit)
        ensures
            r.0 == block,
            r.1 == branch,
    {
        BranchUnit(block, branch)
    }

    pub fn block(&self) -> (r: &u32)
        ensures
            *r == self.0,
    {
        &self.0
    }

    pub fn branch(&self) -> (r: &u32)
        ensures
            *r == self.1,
    {
        &self.1
    }
}

/// The view of a branch's execution data.
pub struct BranchV {
    pub line_number: u32,
    pub block: u32,
    pub branch: u32,
    pub execution_count: u32,
}

/// Execution data of one branch.
#[derive(Debug, Clone)]
pub struct Branch {
    line_number: u32,
    block: u32,
    branch: u32,
    execution_count: u32,
}

impl View for Branch {
    type V = BranchV;

    closed spec fn view(&self) -> BranchV {
        BranchV {
            line_number: self.line_number,
            block: self.block,
            branch: self.branch,
            execution_count: self.execution_count,
        }
    }
}

/// The entry that a `BRDA` record describes.
pub open spec fn branch_data_view(d: BranchData) -> BranchV {
    BranchV { line_number: d.line, block: d.block, branch: d.branch, execution_count: d.taken }
}

/// The identity of a branch, as named in a conflict.
pub open spec fn merge_branch_of(b: BranchV) -> MergeBranch {
    MergeBranch { line: b.line_number, block: b.block, branch: b.branch }
}

/// Merging the entry `d` into the entry `e` of the same branch: the counts
/// add up; entries of different branches conflict.
pub open spec fn merge_branch_spec(e: BranchV, d: BranchV) -> Result<BranchV, (MergeBranch, MergeBranch)> {
    if e.line_number != d.line_number || e.block != d.block || e.branch != d.branch {
        Err((merge_branch_of(e), merge_branch_of(d)))
    } else {
        Ok(BranchV { execution_count: sat_add(e.execution_count, d.execution_count), ..e })
    }
}

impl Branch {
    pub fn new(line_number: u32, block: u32, branch: u32, execution_count: u32) -> (r: Branch)
        ensures
            r@ == (BranchV { line_number, block, branch, execution_count }),
    {
        Branch { line_number, block, branch, execution_count }
    }

    pub fn from_branch_data(d: &BranchData) -> (r: Branch)
        ensures
            r@ == branch_data_view(*d),
    {
        Branch::new(d.line, d.block, d.branch, d.taken)
    }

    pub fn line_number(&self) -> (r: &u32)
        ensures
            *r == self@.line_number,
    {
        &self.line_number
    }

    pub fn block(&self) -> (r: &u32)
        ensures
            *r == self@.block,
    {
        &self.block
    }

    pub fn branch(&self) -> (r: &u32)
        ensures
            *r == self@.branch,
    {
        &self.branch
    }

    pub fn execution_count(&self) -> (r: &u32)
        ensures
            *r == self@.execution_count,
    {
        &self.execution_count
    }

    /// Was the branch taken at least once?
    pub fn is_hit(&self) -> (r: bool)
        ensures
            r == (self@.execution_count > 0),
    {
        self.execution_count > 0
    }

    /// A copy of this entry.
    pub fn copy(&self) -> (r: Branch)
        ensures
            r@ == self@,
    {
        Branch::new(self.line_number, self.block, self.branch, self.execution_count)
    }

    /// Merges the execution data of another entry of the same branch.
    pub fn try_merge_branch(&mut self, other: &Branch) -> (r: Result<(), BranchError>)
        ensures
            match merge_branch_spec(old(self)@, other@) {
                Ok(b) => r is Ok && final(self)@ == b,
                Err((x, y)) => r == Err::<(), BranchError>(BranchError::Mismatch(x, y))
                    && final(self)@ == old(self)@,
            },
    {
        if self.line_number != other.line_number || self.block != other.block || self.branch
            != other.branch {
            return Err(
                BranchError::Mismatch(
                    MergeBranch { line: self.line_number, block: self.block, branch: self.branch },
                    MergeBranch { line: other.line_number, block: other.block, branch: other.branch },
                ),
            );
        }
        self.execution_count = add_counts(self.execution_count, other.execution_count);
        Ok(())
    }

    /// Merges the execution data of a `BRDA` record of the same branch.
    pub fn try_merge_data(&mut self, data: &BranchData) -> (r: Result<(), BranchError>)
        ensures
            match merge_branch_spec(old(self)@, branch_data_view(*data)) {
                Ok(b) => r is Ok && final(self)@ == b,
                Err((x, y)) => r == Err::<(), BranchError>(BranchError::Mismatch(x, y))
                    && final(self)@ == old(self)@,
            },
    {
        self.try_merge_branch(&Branch::from_branch_data(data))
    }
}

impl PartialEq for Branch {
    /// Entries are equal when they are of the same branch of the same line.
    fn eq(&self, other: &Branch) -> (r: bool) {
        self.line_number == other.line_number && self.block == other.block && self.branch
            == other.branch
    }
}

impl vstd::std_specs::cmp::PartialEqSpecImpl for Branch {
    open spec fn obeys_eq_spec() -> bool {
        true
    }

    open spec fn eq_spec(&self, other: &Branch) -> bool {
        self@.line_number == other@.line_number && self@.block == other@.block && self@.branch
            == other@.branch
    }
}

/// Is the entry that of branch `branch` of block `block`?
pub open spec fn at_unit(block: u32, branch: u32) -> spec_fn(BranchV) -> bool {
    |b: BranchV| b.block == block && b.branch == branch
}

/// Does the entry come after branch `branch` of block `block`, ordered by
/// block and then branch?
pub open spec fn after_unit(block: u32, branch: u32) -> spec_fn(BranchV) -> bool {
    |b: BranchV| block < b.block || (block == b.block && branch < b.branch)
}

/// Was the branch taken?
pub open spec fn branch_hit() -> spec_fn(BranchV) -> bool {
    |b: BranchV| b.execution_count > 0
}

/// Every entry is a branch of line `n`.
pub open spec fn all_on_line(s: Seq<BranchV>, n: u32) -> bool {
    forall|k: int| 0 <= k < s.len() ==> #[trigger] s[k].line_number == n
}

/// Entries in strictly increasing order of (block, branch).
pub open spec fn blocks_sorted(s: Seq<BranchV>) -> bool {
    forall|i: int, j: int|
        0 <= i < j < s.len() ==> s[i].block < s[j].block || (s[i].block == s[j].block
            && s[i].branch < s[j].branch)
}

/// Merging the entry `d` into the entries `s` of one line: a new branch is
/// inserted in order, a known one merged by [`merge_branch_spec`].
pub open spec fn merge_branch_into(s: Seq<BranchV>, d: BranchV) -> Result<Seq<BranchV>, (MergeBranch, MergeBranch)> {
    let i = first_where(s, at_unit(d.block, d.branch));
    if i < s.len() {
        match merge_branch_spec(s[i], d) {
            Ok(b) => Ok(s.update(i, b)),
            Err(e) => Err(e),
        }
    } else {
        Ok(s.insert(first_where(s, after_unit(d.block, d.branch)), d))
    }
}

/// One step of [`merge_blocks_spec`].
pub open spec fn block_step() -> spec_fn(Seq<BranchV>, BranchV) -> Result<Seq<BranchV>, (MergeBranch, MergeBranch)> {
    |t: Seq<BranchV>, b: BranchV| merge_branch_into(t, b)
}

/// Merging the entries `o`, in order, into the entries `s` of one line.
pub open spec fn merge_blocks_spec(s: Seq<BranchV>, o: Seq<BranchV>) -> Result<Seq<BranchV>, (MergeBranch, MergeBranch)> {
    fold_results(s, o, block_step())
}

/// The branches of one line, one entry per (block, branch), in increasing
/// order of block and then branch.
#[derive(Debug, PartialEq)]
pub struct BranchBlocks {
    blocks: Vec<Branch>,
}

impl View for BranchBlocks {
    type V = Seq<BranchV>;

    closed spec fn view(&self) -> Seq<BranchV> {
        self.blocks@.map_values(|b: Branch| b@)
    }
}

impl BranchBlocks {
    pub fn new() -> (r: BranchBlocks)
        ensures
            r@ == Seq::<BranchV>::empty(),
    {
        let r = BranchBlocks { blocks: Vec::new() };
        assert(r@ =~= Seq::<BranchV>::empty());
        r
    }

    fn find(&self, block: u32, branch: u32) -> (i: usize)
        ensures
            i == first_where(self@, at_unit(block, branch)),
    {
        let mut i: usize = 0;
        while i < self.blocks.len() && !(self.blocks[i].block == block && self.blocks[i].branch
            == branch)
            invariant
                i <= self@.len(),
                self@.len() == self.blocks@.len(),
                forall|j: int| 0 <= j < i ==> !at_unit(block, branch)(#[trigger] self@[j]),
            decreases self.blocks@.len() - i,
        {
            i = i + 1;
        }
        proof {
            lemma_first_where(self@, at_unit(block, branch), i as int);
        }
        i
    }

    fn insert_pos(&self, block: u32, branch: u32) -> (i: usize)
        ensures
            i == first_where(self@, after_unit(block, branch)),
    {
        let mut i: usize = 0;
        while i < self.blocks.len() && !(block < self.blocks[i].block || (block
            == self.blocks[i].block && branch < self.blocks[i].branch))
            invariant
                i <= self@.len(),
                self@.len() == self.blocks@.len(),
                forall|j: int| 0 <= j < i ==> !after_unit(block, branch)(#[trigger] self@[j]),
            decreases self.blocks@.len() - i,
        {
            i = i + 1;
        }
        proof {
            lemma_first_where(self@, after_unit(block, branch), i as int);
        }
        i
    }

    /// Merges one entry, taken over when its branch is new.
    #[verifier::rlimit(50)]
    fn merge_entry(&mut self, b: Branch) -> (r: Result<(), BranchError>)
        ensures
            match merge_branch_into(old(self)@, b@) {
                Ok(t) => r is Ok && final(self)@ == t,
                Err((x, y)) => r == Err::<(), BranchError>(BranchError::Mismatch(x, y))
                    && final(self)@ == old(self)@,
            },
            blocks_sorted(old(self)@) ==> blocks_sorted(final(self)@),
            all_on_line(old(self)@, b@.line_number) ==> r is Ok && all_on_line(
                final(self)@,
                b@.line_number,
            ),
    {
        let ghost s = self@;
        let i = self.find(b.block, b.branch);
        proof {
            lemma_first_where_bounds(s, at_unit(b@.block, b@.branch));
        }
        if i < self.blocks.len() {
            let r = self.blocks[i].try_merge_branch(&b);
            assert(self@ =~= s.update(i as int, self.blocks@[i as int]@));
            proof {
                if all_on_line(s, b@.line_number) {
                    assert(s[i as int].line_number == b@.line_number);
                    assert(at_unit(b@.block, b@.branch)(s[i as int]));
                    assert forall|k: int| 0 <= k < self@.len() implies #[trigger] self@[k].line_number
                        == b@.line_number by {
                        if k != i {
                            assert(self@[k] == s[k]);
                        }
                    }
                }
            }
            r
        } else {
            let p = self.insert_pos(b.block, b.branch);
            proof {
                lemma_first_where_bounds(s, after_unit(b@.block, b@.branch));
            }
            let ghost v = b@;
            self.blocks.insert(p, b);
            assert(self@ =~= s.insert(p as int, v));
            proof {
                if all_on_line(s, v.line_number) {
                    assert forall|k: int| 0 <= k < self@.len() implies #[trigger] self@[k].line_number
                        == v.line_number by {
                        if k < p {
                            assert(self@[k] == s[k]);
                        } else if k > p {
                            assert(self@[k] == s[k - 1]);
                        }
                    }
                }
                if blocks_sorted(s) {
                    assert forall|x: int, y: int| 0 <= x < y < self@.len() implies #[trigger] self@[x].block < #[trigger] self@[y].block || (
                        self@[x].block == self@[y].block && self@[x].branch < self@[y].branch) by {
                        if y == p {
                            assert(!at_unit(v.block, v.branch)(s[x]));
                            assert(!after_unit(v.block, v.branch)(s[x]));
                        } else if x == p {
                            assert(after_unit(v.block, v.branch)(s[p as int]));
                            if y - 1 > p {
                                assert(s[p as int].block < s[y - 1].block || (s[p as int].block == s[y - 1].block && s[p as int].branch < s[y - 1].branch));
                            }
                        }
                    }
                }
            }
            Ok(())
        }
    }

    /// Merges the execution data of one branch.
    pub fn try_merge_data(&mut self, data: &BranchData) -> (r: Result<(), BranchError>)
        ensures
            match merge_branch_into(old(self)@, branch_data_view(*data)) {
                Ok(t) => r is Ok && final(self)@ == t,
                Err((x, y)) => r == Err::<(), BranchError>(BranchError::Mismatch(x, y))
                    && final(self)@ == old(self)@,
            },
            blocks_sorted(old(self)@) ==> blocks_sorted(final(self)@),
            all_on_line(old(self)@, data.line) ==> r is Ok && all_on_line(final(self)@, data.line),
    {
        self.merge_entry(Branch::from_branch_data(data))
    }

    /// Merges every entry of `other`, in order; the first conflict stops
    /// the merge.
    pub fn try_merge_blocks(&mut self, other: &BranchBlocks) -> (r: Result<(), BranchError>)
        ensures
            match merge_blocks_spec(old(self)@, other@) {
                Ok(t) => r is Ok && final(self)@ == t,
                Err((x, y)) => r == Err::<(), BranchError>(BranchError::Mismatch(x, y)),
            },
            blocks_sorted(old(self)@) && r is Ok ==> blocks_sorted(final(self)@),
            forall|n: u32|
                #![trigger all_on_line(other@, n)]
                all_on_line(old(self)@, n) && all_on_line(other@, n) ==> r is Ok && all_on_line(
                    final(self)@,
                    n,
                ),
    {
        let ghost s0 = self@;
        let mut i: usize = 0;
        while i < other.blocks.len()
            invariant
                s0 == old(self)@,
                i <= other@.len(),
                other@.len() == other.blocks@.len(),
                merge_blocks_spec(s0, other@.take(i as int)) == Ok::<
                    Seq<BranchV>,
                    (MergeBranch, MergeBranch),
                >(self@),
                blocks_sorted(s0) ==> blocks_sorted(self@),
                forall|n: u32|
                    #![trigger all_on_line(other@, n)]
                    all_on_line(s0, n) && all_on_line(other@, n) ==> all_on_line(self@, n),
            decreases other.blocks@.len() - i,
        {
            proof {
                lemma_fold_step(s0, other@, block_step(), i as int);
            }
            let ghost pre = self@;
            let b = other.blocks[i].copy();
            assert(b@ == other@[i as int]);
            let r = self.merge_entry(b);
            if r.is_err() {
                proof {
                    lemma_fold_error(s0, other@, block_step(), i + 1);
                    assert forall|n: u32|
                        #![trigger all_on_line(other@, n)]
                        !(all_on_line(s0, n) && all_on_line(other@, n)) by {
                        if all_on_line(s0, n) && all_on_line(other@, n) {
                            assert(other@[i as int].line_number == n);
                            assert(all_on_line(pre, n));
                        }
                    }
                }
                return r;
            }
            proof {
                assert forall|n: u32|
                    #![trigger all_on_line(other@, n)]
                    all_on_line(s0, n) && all_on_line(other@, n) implies all_on_line(self@, n) by {
                    assert(other@[i as int].line_number == n);
                    assert(all_on_line(pre, n));
                }
            }
            i = i + 1;
        }
        assert(other@.take(i as int) =~= other@);
        Ok(())
    }

    /// A copy of these entries.
    pub fn copy(&self) -> (r: BranchBlocks)
        ensures
            r@ == self@,
    {
        let mut blocks: Vec<Branch> = Vec::new();
        let mut i: usize = 0;
        while i < self.blocks.len()
            invariant
                i <= self@.len(),
                self@.len() == self.blocks@.len(),
                blocks@.len() == i,
                blocks@.map_values(|b: Branch| b@) == self@.take(i as int),
            decreases self.blocks@.len() - i,
        {
            let ghost before = blocks@;
            let c = self.blocks[i].copy();
            assert(c@ == self@[i as int]);
            blocks.push(c);
            assert forall|k: int| 0 <= k < i + 1 implies blocks@.map_values(|b: Branch| b@)[k] == #[trigger] self@.take(i + 1)[k] by {
                if k < i {
                    assert(blocks@[k] == before[k]);
                    assert(before.map_values(|b: Branch| b@)[k] == self@.take(i as int)[k]);
                }
            }
            assert(blocks@.map_values(|b: Branch| b@) =~= self@.take(i + 1));
            i = i + 1;
        }
        assert(self@.take(i as int) =~= self@);
        BranchBlocks { blocks }
    }

    /// How many branches were taken at least once.
    pub fn hit_count(&self) -> (r: usize)
        ensures
            r == count_where(self@, branch_hit()),
    {
        let mut n: usize = 0;
        let mut i: usize = 0;
        while i < self.blocks.len()
            invariant
                i <= self@.len(),
                self@.len() == self.blocks@.len(),
                n == count_where(self@.take(i as int), branch_hit()),
                n <= i,
            decreases self.blocks@.len() - i,
        {
            proof {
                lemma_count_where_push(self@, branch_hit(), i as int);
            }
            if self.blocks[i].execution_count > 0 {
                n = n + 1;
            }
            i = i + 1;
        }
        assert(self@.take(i as int) =~= self@);
        n
    }

    /// How many branches have an entry.
    pub fn found_count(&self) -> (r: usize)
        ensures
            r == self@.len(),
    {
        self.blocks.len()
    }

    pub fn len(&self) -> (r: usize)
        ensures
            r == self@.len(),
    {
        self.blocks.len()
    }

    pub fn is_empty(&self) -> (r: bool)
        ensures
            r == (self@.len() == 0),
    {
        self.blocks.len() == 0
    }

    /// The entry of branch `key`, if any.
    pub fn get(&self, key: &BranchUnit) -> (r: Option<&Branch>)
        ensures
            first_where(self@, at_unit(key.0, key.1)) < self@.len() ==> r is Some && r->Some_0@
                == self@[first_where(self@, at_unit(key.0, key.1))],
            first_where(self@, at_unit(key.0, key.1)) == self@.len() ==> r is None,
    {
        let i = self.find(key.0, key.1);
        proof {
            lemma_first_where_bounds(self@, at_unit(key.0, key.1));
        }
        if i < self.blocks.len() {
            Some(&self.blocks[i])
        } else {
            None
        }
    }

    pub fn contains_key(&self, key: &BranchUnit) -> (r: bool)
        ensures
            r == (first_where(self@, at_unit(key.0, key.1)) < self@.len()),
    {
        proof {
            lemma_first_where_bounds(self@, at_unit(key.0, key.1));
        }
        self.find(key.0, key.1) < self.blocks.len()
    }

    /// The entries, in increasing order of block and then branch.
    pub fn entries(&self) -> (r: &[Branch])
        ensures
            r@.map_values(|b: Branch| b@) == self@,
    {
        self.blocks.as_slice()
    }
}


/// A line's group of branches.
pub type BranchLineV = (u32, Seq<BranchV>);

/// Is the group that of line `n`?
pub open spec fn at_branch_line(n: u32) -> spec_fn(BranchLineV) -> bool {
    |e: BranchLineV| e.0 == n
}

/// Does the group belong to a line after line `n`?
pub open spec fn after_branch_line(n: u32) -> spec_fn(BranchLineV) -> bool {
    |e: BranchLineV| n < e.0
}

/// Groups in strictly increasing order of line number, each in order and
/// holding branches of its own line only.
pub open spec fn branches_sorted(s: Seq<BranchLineV>) -> bool {
    &&& forall|i: int, j: int| 0 <= i < j < s.len() ==> s[i].0 < s[j].0
    &&& forall|i: int| 0 <= i < s.len() ==> blocks_sorted(#[trigger] s[i].1)
    &&& forall|i: int| 0 <= i < s.len() ==> all_on_line(#[trigger] s[i].1, s[i].0)
}

/// Merging the data `d` of one branch into the groups `s`: into the group of
/// its line by [`merge_branch_into`], or as a new group inserted in order.
pub open spec fn merge_branch_data_spec(s: Seq<BranchLineV>, d: BranchV) -> Result<Seq<BranchLineV>, (MergeBranch, MergeBranch)> {
    let i = first_where(s, at_branch_line(d.line_number));
    if i < s.len() {
        match merge_branch_into(s[i].1, d) {
            Ok(t) => Ok(s.update(i, (s[i].0, t))),
            Err(e) => Err(e),
        }
    } else {
        Ok(s.insert(first_where(s, after_branch_line(d.line_number)), (d.line_number, seq![d])))
    }
}

/// Merging the group `g` into the groups `s`: into the group of the same
/// line by [`merge_blocks_spec`], or inserted in order.
pub open spec fn merge_group_into(s: Seq<BranchLineV>, g: BranchLineV) -> Result<Seq<BranchLineV>, (MergeBranch, MergeBranch)> {
    let i = first_where(s, at_branch_line(g.0));
    if i < s.len() {
        match merge_blocks_spec(s[i].1, g.1) {
            Ok(t) => Ok(s.update(i, (s[i].0, t))),
            Err(e) => Err(e),
        }
    } else {
        Ok(s.insert(first_where(s, after_branch_line(g.0)), g))
    }
}

/// One step of [`merge_branches_spec`].
pub open spec fn group_step() -> spec_fn(Seq<BranchLineV>, BranchLineV) -> Result<Seq<BranchLineV>, (MergeBranch, MergeBranch)> {
    |t: Seq<BranchLineV>, g: BranchLineV| merge_group_into(t, g)
}

/// Merging the groups `o`, in order, into the groups `s`.
pub open spec fn merge_branches_spec(s: Seq<BranchLineV>, o: Seq<BranchLineV>) -> Result<Seq<BranchLineV>, (MergeBranch, MergeBranch)> {
    fold_results(s, o, group_step())
}

/// Branches taken, over all groups.
pub open spec fn groups_hit(s: Seq<BranchLineV>) -> nat
    decreases s.len(),
{
    if s.len() == 0 {
        0
    } else {
        groups_hit(s.drop_last()) + count_where(s.last().1, branch_hit())
    }
}

/// Branches with an entry, over all groups.
pub open spec fn groups_found(s: Seq<BranchLineV>) -> nat
    decreases s.len(),
{
    if s.len() == 0 {
        0
    } else {
        groups_found(s.drop_last()) + s.last().1.len()
    }
}

/// `n`, held at `usize::MAX`.
pub open spec fn sat_usize(n: nat) -> usize {
    if n > usize::MAX {
        usize::MAX
    } else {
        n as usize
    }
}

/// The branches of all lines, one group per line number, in increasing
/// order of line number.
#[derive(Debug)]
pub struct Branches {
    branches: Vec<(u32, BranchBlocks)>,
}

impl View for Branches {
    type V = Seq<BranchLineV>;

    closed spec fn view(&self) -> Seq<BranchLineV> {
        self.branches@.map_values(|e: (u32, BranchBlocks)| (e.0, e.1@))
    }
}

impl Branches {
    pub fn new() -> (r: Branches)
        ensures
            r@ == Seq::<BranchLineV>::empty(),
    {
        let r = Branches { branches: Vec::new() };
        assert(r@ =~= Seq::<BranchLineV>::empty());
        r
    }

    fn find(&self, n: u32) -> (i: usize)
        ensures
            i == first_where(self@, at_branch_line(n)),
    {
        let mut i: usize = 0;
        while i < self.branches.len() && self.branches[i].0 != n
            invariant
                i <= self@.len(),
                self@.len() == self.branches@.len(),
                forall|j: int| 0 <= j < i ==> !at_branch_line(n)(#[trigger] self@[j]),
            decreases self.branches@.len() - i,
        {
            i = i + 1;
        }
        proof {
            lemma_first_where(self@, at_branch_line(n), i as int);
        }
        i
    }

    fn insert_pos(&self, n: u32) -> (i: usize)
        ensures
            i == first_where(self@, after_branch_line(n)),
    {
        let mut i: usize = 0;
        while i < self.branches.len() && !(n < self.branches[i].0)
            invariant
                i <= self@.len(),
                self@.len() == self.branches@.len(),
                forall|j: int| 0 <= j < i ==> !after_branch_line(n)(#[trigger] self@[j]),
            decreases self.branches@.len() - i,
        {
            i = i + 1;
        }
        proof {
            lemma_first_where(self@, after_branch_line(n), i as int);
        }
        i
    }

    /// Inserts a group for a line that has none, in order.
    #[verifier::rlimit(50)]
    fn insert_group(&mut self, n: u32, blocks: BranchBlocks)
        requires
            first_where(old(self)@, at_branch_line(n)) == old(self)@.len(),
        ensures
            final(self)@ == old(self)@.insert(first_where(old(self)@, after_branch_line(n)), (n, blocks@)),
            branches_sorted(old(self)@) && blocks_sorted(blocks@) && all_on_line(blocks@, n)
                ==> branches_sorted(final(self)@),
    {
        let ghost s = self@;
        let p = self.insert_pos(n);
        proof {
            lemma_first_where_bounds(s, after_branch_line(n));
            lemma_first_where_bounds(s, at_branch_line(n));
        }
        let ghost v = (n, blocks@);
        self.branches.insert(p, (n, blocks));
        assert(self@ =~= s.insert(p as int, v));
        proof {
            if branches_sorted(s) && blocks_sorted(v.1) && all_on_line(v.1, n) {
                assert forall|a: int, b: int| 0 <= a < b < self@.len() implies self@[a].0 < self@[b].0 by {
                    if b == p {
                        assert(s[a].0 != n);
                    } else if a == p {
                        if b - 1 > p {
                            assert(s[p as int].0 < s[b - 1].0);
                        }
                    }
                }
                assert forall|a: int| 0 <= a < self@.len() implies blocks_sorted(#[trigger] self@[a].1)
                    && all_on_line(self@[a].1, self@[a].0) by {
                    if a < p {
                        assert(self@[a] == s[a]);
                    } else if a > p {
                        assert(self@[a] == s[a - 1]);
                    }
                }
            }
        }
    }

    /// Merges the execution data of one branch.
    pub fn try_merge_data(&mut self, data: &BranchData) -> (r: Result<(), BranchError>)
        ensures
            match merge_branch_data_spec(old(self)@, branch_data_view(*data)) {
                Ok(t) => r is Ok && final(self)@ == t,
                Err((x, y)) => r == Err::<(), BranchError>(BranchError::Mismatch(x, y))
                    && final(self)@ == old(self)@,
            },
            branches_sorted(old(self)@) ==> r is Ok && branches_sorted(final(self)@),
    {
        let ghost s = self@;
        let i = self.find(data.line);
        proof {
            lemma_first_where_bounds(s, at_branch_line(data.line));
        }
        if i < self.branches.len() {
            let r = self.branches[i].1.try_merge_data(data);
            assert(self@ =~= s.update(i as int, (s[i as int].0, self.branches@[i as int].1@)));
            proof {
                if branches_sorted(s) {
                    assert(blocks_sorted(s[i as int].1));
                    assert(at_branch_line(data.line)(s[i as int]));
                    assert(all_on_line(s[i as int].1, data.line));
                    assert forall|a: int, b: int| 0 <= a < b < self@.len() implies self@[a].0 < self@[b].0 by {
                        assert(self@[a].0 == s[a].0);
                        assert(self@[b].0 == s[b].0);
                    }
                    assert forall|a: int| 0 <= a < self@.len() implies blocks_sorted(#[trigger] self@[a].1)
                        && all_on_line(self@[a].1, self@[a].0) by {
                        if a != i {
                            assert(self@[a] == s[a]);
                        }
                    }
                }
            }
            r
        } else {
            let mut blocks = BranchBlocks::new();
            let r = blocks.try_merge_data(data);
            assert(blocks@ =~= seq![branch_data_view(*data)]);
            assert(all_on_line(blocks@, data.line));
            assert(blocks_sorted(blocks@));
            self.insert_group(data.line, blocks);
            Ok(())
        }
    }

    /// Merges every group of `other`, in order; the first conflict stops
    /// the merge.
    #[verifier::rlimit(50)]
    pub fn try_merge_branches(&mut self, other: &Branches) -> (r: Result<(), BranchError>)
        ensures
            match merge_branches_spec(old(self)@, other@) {
                Ok(t) => r is Ok && final(self)@ == t,
                Err((x, y)) => r == Err::<(), BranchError>(BranchError::Mismatch(x, y)),
            },
            branches_sorted(old(self)@) && branches_sorted(other@) ==> r is Ok && branches_sorted(
                final(self)@,
            ),
    {
        let ghost s0 = self@;
        let mut i: usize = 0;
        while i < other.branches.len()
            invariant
                s0 == old(self)@,
                i <= other@.len(),
                other@.len() == other.branches@.len(),
                merge_branches_spec(s0, other@.take(i as int)) == Ok::<
                    Seq<BranchLineV>,
                    (MergeBranch, MergeBranch),
                >(self@),
                branches_sorted(s0) && branches_sorted(other@) ==> branches_sorted(self@),
            decreases other.branches@.len() - i,
        {
            proof {
                lemma_fold_step(s0, other@, group_step(), i as int);
            }
            let ghost s = self@;
            let n = other.branches[i].0;
            let j = self.find(n);
            proof {
                lemma_first_where_bounds(s, at_branch_line(n));
            }
            assert(other@[i as int] == (n, other.branches@[i as int].1@));
            if j < self.branches.len() {
                proof {
                    if branches_sorted(s0) && branches_sorted(other@) {
                        assert(at_branch_line(n)(s[j as int]));
                        assert(all_on_line(s[j as int].1, n));
                        assert(all_on_line(other@[i as int].1, n));
                    }
                }
                let r = self.branches[j].1.try_merge_blocks(&other.branches[i].1);
                if r.is_err() {
                    proof {
                        lemma_fold_error(s0, other@, group_step(), i + 1);
                    }
                    return r;
                }
                assert(self@ =~= s.update(j as int, (s[j as int].0, self.branches@[j as int].1@)));
                proof {
                    if branches_sorted(s0) && branches_sorted(other@) {
                        assert(blocks_sorted(s[j as int].1));
                        assert(blocks_sorted(other@[i as int].1));
                        assert forall|a: int, b: int| 0 <= a < b < self@.len() implies self@[a].0 < self@[b].0 by {
                            assert(self@[a].0 == s[a].0);
                            assert(self@[b].0 == s[b].0);
                        }
                        assert forall|a: int| 0 <= a < self@.len() implies blocks_sorted(#[trigger] self@[a].1)
                            && all_on_line(self@[a].1, self@[a].0) by {
                            if a != j {
                                assert(self@[a] == s[a]);
                            }
                        }
                    }
                }
            } else {
                let blocks = other.branches[i].1.copy();
                proof {
                    if branches_sorted(other@) {
                        assert(blocks_sorted(other@[i as int].1));
                        assert(all_on_line(other@[i as int].1, n));
                    }
                }
                self.insert_group(n, blocks);
            }
            i = i + 1;
        }
        assert(other@.take(i as int) =~= other@);
        Ok(())
    }

    /// How many branches were taken at least once, over all lines (held at
    /// `usize::MAX`).
    pub fn hit_count(&self) -> (r: usize)
        ensures
            r == sat_usize(groups_hit(self@)),
    {
        let mut n: usize = 0;
        let mut i: usize = 0;
        while i < self.branches.len()
            invariant
                i <= self@.len(),
                self@.len() == self.branches@.len(),
                n == sat_usize(groups_hit(self@.take(i as int))),
            decreases self.branches@.len() - i,
        {
            assert(self@.take(i + 1).drop_last() =~= self@.take(i as int));
            let h = self.branches[i].1.hit_count();
            n = n.saturating_add(h);
            i = i + 1;
        }
        assert(self@.take(i as int) =~= self@);
        n
    }

    /// How many branches have an entry, over all lines (held at
    /// `usize::MAX`).
    pub fn found_count(&self) -> (r: usize)
        ensures
            r == sat_usize(groups_found(self@)),
    {
        let mut n: usize = 0;
        let mut i: usize = 0;
        while i < self.branches.len()
            invariant
                i <= self@.len(),
                self@.len() == self.branches@.len(),
                n == sat_usize(groups_found(self@.take(i as int))),
            decreases self.branches@.len() - i,
        {
            assert(self@.take(i + 1).drop_last() =~= self@.take(i as int));
            let h = self.branches[i].1.found_count();
            n = n.saturating_add(h);
            i = i + 1;
        }
        assert(self@.take(i as int) =~= self@);
        n
    }

    pub fn len(&self) -> (r: usize)
        ensures
            r == self@.len(),
    {
        self.branches.len()
    }

    pub fn is_empty(&self) -> (r: bool)
        ensures
            r == (self@.len() == 0),
    {
        self.branches.len() == 0
    }

    /// The group of line `key`, if any.
    pub fn get(&self, key: &u32) -> (r: Option<&BranchBlocks>)
        ensures
            first_where(self@, at_branch_line(*key)) < self@.len() ==> r is Some && r->Some_0@
                == self@[first_where(self@, at_branch_line(*key))].1,
            first_where(self@, at_branch_line(*key)) == self@.len() ==> r is None,
    {
        let i = self.find(*key);
        proof {
            lemma_first_where_bounds(self@, at_branch_line(*key));
        }
        if i < self.branches.len() {
            Some(&self.branches[i].1)
        } else {
            None
        }
    }

    pub fn contains_key(&self, key: &u32) -> (r: bool)
        ensures
            r == (first_where(self@, at_branch_line(*key)) < self@.len()),
    {
        proof {
            lemma_first_where_bounds(self@, at_branch_line(*key));
        }
        self.find(*key) < self.branches.len()
    }

    /// The groups with their line numbers, in increasing order of line.
    pub fn entries(&self) -> (r: &[(u32, BranchBlocks)])
        ensures
            r@.map_values(|e: (u32, BranchBlocks)| (e.0, e.1@)) == self@,
    {
        self.branches.as_slice()
    }

    /// A copy of these groups.
    pub fn copy(&self) -> (r: Branches)
        ensures
            r@ == self@,
    {
        let mut v: Vec<(u32, BranchBlocks)> = Vec::new();
        let mut i: usize = 0;
        while i < self.branches.len()
            invariant
                i <= self@.len(),
                self@.len() == self.branches@.len(),
                v@.len() == i,
                v@.map_values(|e: (u32, BranchBlocks)| (e.0, e.1@)) == self@.take(i as int),
            decreases self.branches@.len() - i,
        {
            let ghost before = v@;
            let c = self.branches[i].1.copy();
            assert((self.branches@[i as int].0, c@) == self@[i as int]);
            v.push((self.branches[i].0, c));
            assert forall|k: int| 0 <= k < i + 1 implies v@.map_values(|e: (u32, BranchBlocks)| (e.0, e.1@))[k] == #[trigger] self@.take(i + 1)[k] by {
                if k < i {
                    assert(v@[k] == before[k]);
                    assert(before.map_values(|e: (u32, BranchBlocks)| (e.0, e.1@))[k] == self@.take(i as int)[k]);
                }
            }
            assert(v@.map_values(|e: (u32, BranchBlocks)| (e.0, e.1@)) =~= self@.take(i + 1));
            i = i + 1;
        }
        assert(self@.take(i as int) =~= self@);
        Branches { branches: v }
    }
}

impl<'a> TryMerge<&'a Branch> for Branch {
    type Err = BranchError;

    fn try_merge(&mut self, rhs: &'a Branch) -> (r: Result<(), BranchError>)
        ensures
            match merge_branch_spec(old(self)@, rhs@) {
                Ok(b) => r is Ok && final(self)@ == b,
                Err((x, y)) => r == Err::<(), BranchError>(BranchError::Mismatch(x, y))
                    && final(self)@ == old(self)@,
            },
    {
        self.try_merge_branch(rhs)
    }
}

impl<'a> TryMerge<&'a BranchData> for Branch {
    type Err = BranchError;

    fn try_merge(&mut self, rhs: &'a BranchData) -> (r: Result<(), BranchError>)
        ensures
            match merge_branch_spec(old(self)@, branch_data_view(*rhs)) {
                Ok(b) => r is Ok && final(self)@ == b,
                Err((x, y)) => r == Err::<(), BranchError>(BranchError::Mismatch(x, y))
                    && final(self)@ == old(self)@,
            },
    {
        self.try_merge_data(rhs)
    }
}

impl<'a> TryMerge<&'a BranchData> for BranchBlocks {
    type Err = BranchError;

    fn try_merge(&mut self, rhs: &'a BranchData) -> (r: Result<(), BranchError>)
        ensures
            match merge_branch_into(old(self)@, branch_data_view(*rhs)) {
                Ok(t) => r is Ok && final(self)@ == t,
                Err((x, y)) => r == Err::<(), BranchError>(BranchError::Mismatch(x, y))
                    && final(self)@ == old(self)@,
            },
            blocks_sorted(old(self)@) ==> blocks_sorted(final(self)@),
            all_on_line(old(self)@, rhs.line) ==> r is Ok && all_on_line(final(self)@, rhs.line),
    {
        self.try_merge_data(rhs)
    }
}

impl<'a> TryMerge<&'a BranchBlocks> for BranchBlocks {
    type Err = BranchError;

    fn try_merge(&mut self, rhs: &'a BranchBlocks) -> (r: Result<(), BranchError>)
        ensures
            match merge_blocks_spec(old(self)@, rhs@) {
                Ok(t) => r is Ok && final(self)@ == t,
                Err((x, y)) => r == Err::<(), BranchError>(BranchError::Mismatch(x, y)),
            },
            blocks_sorted(old(self)@) && r is Ok ==> blocks_sorted(final(self)@),
            forall|n: u32|
                #![trigger all_on_line(rhs@, n)]
                all_on_line(old(self)@, n) && all_on_line(rhs@, n) ==> r is Ok && all_on_line(
                    final(self)@,
                    n,
                ),
    {
        self.try_merge_blocks(rhs)
    }
}

impl<'a> TryMerge<&'a BranchData> for Branches {
    type Err = BranchError;

    fn try_merge(&mut self, rhs: &'a BranchData) -> (r: Result<(), BranchError>)
        ensures
            match merge_branch_data_spec(old(self)@, branch_data_view(*rhs)) {
                Ok(t) => r is Ok && final(self)@ == t,
                Err((x, y)) => r == Err::<(), BranchError>(BranchError::Mismatch(x, y))
                    && final(self)@ == old(self)@,
            },
            branches_sorted(old(self)@) ==> r is Ok && branches_sorted(final(self)@),
    {
        self.try_merge_data(rhs)
    }
}

impl<'a> TryMerge<&'a Branches> for Branches {
    type Err = BranchError;

    fn try_merge(&mut self, rhs: &'a Branches) -> (r: Result<(), BranchError>)
        ensures
            match merge_branches_spec(old(self)@, rhs@) {
                Ok(t) => r is Ok && final(self)@ == t,
                Err((x, y)) => r == Err::<(), BranchError>(BranchError::Mismatch(x, y)),
            },
            branches_sorted(old(self)@) && branches_sorted(rhs@) ==> r is Ok && branches_sorted(
                final(self)@,
            ),
    {
        self.try_merge_branches(rhs)
    }
}

} // verus!
