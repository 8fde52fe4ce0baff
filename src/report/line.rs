//! Execution data of source lines, keyed by line number.

use vstd::prelude::*;
use crate::merger::ops::{TryMerge, copy_opt, ChecksumError, ChecksumErrorV, MergeLine};
use crate::record::opt_text;
use crate::record::LineData;
use crate::seqs::{count_where, first_where, lemma_first_where_insert, lemma_first_where_update, fold_results, lemma_fold_error, lemma_fold_step, lemma_count_where_push, lemma_first_where, lemma_first_where_bounds};

verus! {

/// `a + b`, held at `u32::MAX` when it does not fit.
pub open spec fn sat_add(a: u32, b: u32) -> u32 {
    if a + b > u32::MAX {
        u32::MAX
    } else {
        (a + b) as u32
    }
}

/// Adds two execution counts, holding the sum at `u32::MAX`.
pub fn add_counts(a: u32, b: u32) -> (r: u32)
    ensures
        r == sat_add(a, b),
{
    a.saturating_add(b)
}

/// The view of a source line's execution data.
pub struct LineV {
    pub line_number: u32,
    pub execution_count: u32,
    pub checksum: Option<Seq<char>>,
}

/// Execution data of one source line.
#[derive(Debug, Eq)]
pub struct Line {
    line_number: u32,
    execution_count: u32,
    checksum: Option<String>,
}

impl View for Line {
    type V = LineV;

    closed spec fn view(&self) -> LineV {
        LineV {
            line_number: self.line_number,
            execution_count: self.execution_count,
            checksum: opt_text(self.checksum),
        }
    }
}

/// The view of the line that a `DA` record describes.
pub open spec fn line_data_view(d: LineData) -> LineV {
    LineV { line_number: d.line, execution_count: d.count, checksum: opt_text(d.checksum) }
}

/// Merging the execution data `d` of a line into the existing entry `e`:
/// a checksum on `e` but none on `d` is an `Empty` conflict, two different
/// checksums a `Mismatch`; otherwise the counts add up.
pub open spec fn merge_line_spec(e: LineV, d: LineV) -> Result<LineV, ChecksumErrorV> {
    if e.checksum is Some && d.checksum is None {
        Err(ChecksumErrorV::Empty((d.line_number, d.checksum)))
    } else if e.checksum is Some && d.checksum is Some && e.checksum != d.checksum {
        Err(
            ChecksumErrorV::Mismatch(
                (e.line_number, e.checksum),
                (d.line_number, d.checksum),
            ),
        )
    } else {
        Ok(LineV { execution_count: sat_add(e.execution_count, d.execution_count), ..e })
    }
}

impl Line {
    pub fn new(line_number: u32, execution_count: u32, checksum: Option<String>) -> (r: Line)
        ensures
            r@ == (LineV { line_number, execution_count, checksum: opt_text(checksum) }),
    {
        Line { line_number, execution_count, checksum }
    }

    /// The entry for the line that a `DA` record describes.
    pub fn from_line_data(d: &LineData) -> (r: Line)
        ensures
            r@ == line_data_view(*d),
    {
        Line::new(d.line, d.count, copy_opt(&d.checksum))
    }

    pub fn line_number(&self) -> (r: &u32)
        ensures
            *r == self@.line_number,
    {
        &self.line_number
    }

    pub fn execution_count(&self) -> (r: &u32)
        ensures
            *r == self@.execution_count,
    {
        &self.execution_count
    }

    pub fn checksum(&self) -> (r: Option<&String>)
        ensures
            match r {
                Some(c) => self@.checksum == Some(c@),
                None => self@.checksum is None,
            },
    {
        match &self.checksum {
            Some(c) => Some(c),
            None => None,
        }
    }

    pub fn has_checkshum(&self) -> (r: bool)
        ensures
            r == self@.checksum is Some,
    {
        self.checksum.is_some()
    }

    /// Was the line executed at least once?
    pub fn is_hit(&self) -> (r: bool)
        ensures
            r == (self@.execution_count > 0),
    {
        self.execution_count > 0
    }

    /// A copy of this entry.
    pub fn copy(&self) -> (r: Line)
        ensures
            r@ == self@,
    {
        Line::new(self.line_number, self.execution_count, copy_opt(&self.checksum))
    }

    fn merge_line(&self) -> (r: MergeLine)
        ensures
            r@ == (self@.line_number, self@.checksum),
    {
        MergeLine::new(self.line_number, copy_opt(&self.checksum))
    }

    /// Merges the execution data of `other`, an entry of the same line.
    pub fn try_merge_line(&mut self, other: &Line) -> (r: Result<(), ChecksumError>)
        ensures
            match merge_line_spec(old(self)@, other@) {
                Ok(l) => r is Ok && final(self)@ == l,
                Err(e) => r is Err && r->Err_0@ == e && final(self)@ == old(self)@,
            },
    {
        match (&self.checksum, &other.checksum) {
            (Some(_), None) => {
                return Err(ChecksumError::Empty(other.merge_line()));
            },
            (Some(a), Some(b)) => {
                if !a.eq(b) {
                    return Err(ChecksumError::Mismatch(self.merge_line(), other.merge_line()));
                }
            },
            _ => {},
        }
        self.execution_count = add_counts(self.execution_count, other.execution_count);
        Ok(())
    }
}

impl PartialEq for Line {
    /// Lines that both carry a checksum are equal when the checksums are;
    /// otherwise they are equal when their line numbers are.
    fn eq(&self, other: &Line) -> (r: bool) {
        match (&self.checksum, &other.checksum) {
            (Some(a), Some(b)) => a.eq(b),
            _ => self.line_number == other.line_number,
        }
    }
}

impl vstd::std_specs::cmp::PartialEqSpecImpl for Line {
    open spec fn obeys_eq_spec() -> bool {
        true
    }

    open spec fn eq_spec(&self, other: &Line) -> bool {
        line_eq(self@, other@)
    }
}

/// Equality of lines: by checksum when both carry one, else by line number.
pub open spec fn line_eq(a: LineV, b: LineV) -> bool {
    if a.checksum is Some && b.checksum is Some {
        a.checksum == b.checksum
    } else {
        a.line_number == b.line_number
    }
}


/// Does the entry describe line `n`?
pub open spec fn at_line(n: u32) -> spec_fn(LineV) -> bool {
    |l: LineV| l.line_number == n
}

/// Does the entry describe a line after line `n`?
pub open spec fn after_line(n: u32) -> spec_fn(LineV) -> bool {
    |l: LineV| n < l.line_number
}

/// Was the line executed?
pub open spec fn line_hit() -> spec_fn(LineV) -> bool {
    |l: LineV| l.execution_count > 0
}

/// Entries in strictly increasing order of line number (so one per line).
pub open spec fn lines_sorted(s: Seq<LineV>) -> bool {
    forall|i: int, j: int| 0 <= i < j < s.len() ==> s[i].line_number < s[j].line_number
}

/// Merging the data `d` of one line into the entries `s`: a new line is
/// inserted in order, an existing one merged by [`merge_line_spec`].
pub open spec fn merge_line_into(s: Seq<LineV>, d: LineV) -> Result<Seq<LineV>, ChecksumErrorV> {
    let i = first_where(s, at_line(d.line_number));
    if i < s.len() {
        match merge_line_spec(s[i], d) {
            Ok(l) => Ok(s.update(i, l)),
            Err(e) => Err(e),
        }
    } else {
        Ok(s.insert(first_where(s, after_line(d.line_number)), d))
    }
}

/// Merging the entries `o`, in order, into the entries `s`.
pub open spec fn merge_lines_spec(s: Seq<LineV>, o: Seq<LineV>) -> Result<Seq<LineV>, ChecksumErrorV> {
    fold_results(s, o, line_step())
}

/// One step of [`merge_lines_spec`].
pub open spec fn line_step() -> spec_fn(Seq<LineV>, LineV) -> Result<Seq<LineV>, ChecksumErrorV> {
    |t: Seq<LineV>, l: LineV| merge_line_into(t, l)
}

/// Order independence: two records of one line that agree on the checksum
/// merge into any entries to the same result, in either order.
#[verifier::rlimit(50)]
pub proof fn lemma_line_records_commute(s: Seq<LineV>, a: LineV, b: LineV)
    requires
        a.line_number == b.line_number,
        a.checksum == b.checksum,
    ensures
        merge_lines_spec(s, seq![a, b]) == merge_lines_spec(s, seq![b, a]),
{
    let ab = seq![a, b];
    let ba = seq![b, a];
    assert(ab.drop_last() =~= seq![a]);
    assert(ba.drop_last() =~= seq![b]);
    assert(seq![a].drop_last() =~= Seq::<LineV>::empty());
    assert(seq![b].drop_last() =~= Seq::<LineV>::empty());
    assert(fold_results(s, Seq::<LineV>::empty(), line_step()) == Ok::<Seq<LineV>, ChecksumErrorV>(s));
    assert(seq![a].last() == a && seq![b].last() == b && ab.last() == b && ba.last() == a);
    assert(merge_lines_spec(s, seq![a]) == merge_line_into(s, a));
    assert(merge_lines_spec(s, seq![b]) == merge_line_into(s, b));
    assert(merge_lines_spec(s, ab) == match merge_line_into(s, a) {
        Ok(t) => merge_line_into(t, b),
        Err(e) => Err(e),
    });
    assert(merge_lines_spec(s, ba) == match merge_line_into(s, b) {
        Ok(t) => merge_line_into(t, a),
        Err(e) => Err(e),
    });
    let i = first_where(s, at_line(a.line_number));
    lemma_first_where_bounds(s, at_line(a.line_number));
    if i < s.len() {
        let e = s[i];
        if merge_line_spec(e, a) is Ok {
            let ea = merge_line_spec(e, a)->Ok_0;
            let eb = merge_line_spec(e, b)->Ok_0;
            let sa = s.update(i, ea);
            let sb = s.update(i, eb);
            lemma_first_where_update(s, at_line(a.line_number), i, ea);
            lemma_first_where_update(s, at_line(a.line_number), i, eb);
            assert(merge_line_spec(ea, b) == Ok::<LineV, ChecksumErrorV>(LineV {
                execution_count: sat_add(ea.execution_count, b.execution_count),
                ..e
            }));
            assert(merge_line_spec(eb, a) == Ok::<LineV, ChecksumErrorV>(LineV {
                execution_count: sat_add(eb.execution_count, a.execution_count),
                ..e
            }));
            assert(sa.update(i, merge_line_spec(ea, b)->Ok_0) =~= sb.update(i, merge_line_spec(eb, a)->Ok_0));
        }
    } else {
        let p = first_where(s, after_line(a.line_number));
        lemma_first_where_bounds(s, after_line(a.line_number));
        lemma_first_where_insert(s, at_line(a.line_number), p, a);
        lemma_first_where_insert(s, at_line(a.line_number), p, b);
        let sa = s.insert(p, a);
        let sb = s.insert(p, b);
        assert(sa[p] == a && sb[p] == b);
        assert(sa.update(p, merge_line_spec(a, b)->Ok_0) =~= sb.update(p, merge_line_spec(b, a)->Ok_0));
    }
}

/// The execution data of source lines, one entry per line number, in
/// increasing order of line number.
#[derive(Debug)]
pub struct Lines {
    lines: Vec<Line>,
}

impl View for Lines {
    type V = Seq<LineV>;

    closed spec fn view(&self) -> Seq<LineV> {
        self.lines@.map_values(|l: Line| l@)
    }
}

impl Lines {
    pub fn new() -> (r: Lines)
        ensures
            r@ == Seq::<LineV>::empty(),
    {
        let r = Lines { lines: Vec::new() };
        assert(r@ =~= Seq::<LineV>::empty());
        r
    }

    fn find(&self, n: u32) -> (i: usize)
        ensures
            i == first_where(self@, at_line(n)),
    {
        let mut i: usize = 0;
        while i < self.lines.len() && self.lines[i].line_number != n
            invariant
                i <= self@.len(),
                self@.len() == self.lines@.len(),
                forall|j: int| 0 <= j < i ==> !at_line(n)(#[trigger] self@[j]),
            decreases self.lines@.len() - i,
        {
            i = i + 1;
        }
        proof {
            lemma_first_where(self@, at_line(n), i as int);
        }
        i
    }

    fn insert_pos(&self, n: u32) -> (i: usize)
        ensures
            i == first_where(self@, after_line(n)),
    {
        let mut i: usize = 0;
        while i < self.lines.len() && !(n < self.lines[i].line_number)
            invariant
                i <= self@.len(),
                self@.len() == self.lines@.len(),
                forall|j: int| 0 <= j < i ==> !after_line(n)(#[trigger] self@[j]),
            decreases self.lines@.len() - i,
        {
            i = i + 1;
        }
        proof {
            lemma_first_where(self@, after_line(n), i as int);
        }
        i
    }

    /// Merges one entry, taken over when its line is new.
    #[verifier::rlimit(50)]
    fn merge_entry(&mut self, line: Line) -> (r: Result<(), ChecksumError>)
        ensures
            match merge_line_into(old(self)@, line@) {
                Ok(t) => r is Ok && final(self)@ == t,
                Err(e) => r is Err && r->Err_0@ == e && final(self)@ == old(self)@,
            },
            lines_sorted(old(self)@) ==> lines_sorted(final(self)@),
    {
        let ghost s = self@;
        let i = self.find(line.line_number);
        proof {
            lemma_first_where_bounds(s, at_line(line@.line_number));
        }
        if i < self.lines.len() {
            let r = self.lines[i].try_merge_line(&line);
            assert(self@ =~= s.update(i as int, self.lines@[i as int]@));
            r
        } else {
            let p = self.insert_pos(line.line_number);
            proof {
                lemma_first_where_bounds(s, after_line(line@.line_number));
            }
            let ghost v = line@;
            self.lines.insert(p, line);
            assert(self@ =~= s.insert(p as int, v));
            proof {
                if lines_sorted(s) {
                    assert forall|a: int, b: int| 0 <= a < b < self@.len() implies self@[a].line_number
                        < self@[b].line_number by {
                        if b == p {
                            assert(s[a].line_number != v.line_number);
                        } else if a == p {
                            if b - 1 > p {
                                assert(s[p as int].line_number < s[b - 1].line_number);
                            }
                        }
                    }
                }
            }
            Ok(())
        }
    }

    /// Merges the execution data of one line.
    pub fn try_merge_data(&mut self, data: &LineData) -> (r: Result<(), ChecksumError>)
        ensures
            match merge_line_into(old(self)@, line_data_view(*data)) {
                Ok(t) => r is Ok && final(self)@ == t,
                Err(e) => r is Err && r->Err_0@ == e && final(self)@ == old(self)@,
            },
            lines_sorted(old(self)@) ==> lines_sorted(final(self)@),
    {
        self.merge_entry(Line::from_line_data(data))
    }

    /// Merges every entry of `other`, in order; the first conflict stops
    /// the merge.
    pub fn try_merge_lines(&mut self, other: &Lines) -> (r: Result<(), ChecksumError>)
        ensures
            match merge_lines_spec(old(self)@, other@) {
                Ok(t) => r is Ok && final(self)@ == t,
                Err(e) => r is Err && r->Err_0@ == e,
            },
            lines_sorted(old(self)@) && r is Ok ==> lines_sorted(final(self)@),
    {
        let ghost s0 = self@;
        let mut i: usize = 0;
        while i < other.lines.len()
            invariant
                s0 == old(self)@,
                i <= other@.len(),
                other@.len() == other.lines@.len(),
                merge_lines_spec(s0, other@.take(i as int)) == Ok::<Seq<LineV>, ChecksumErrorV>(self@),
                lines_sorted(s0) ==> lines_sorted(self@),
            decreases other.lines@.len() - i,
        {
            proof {
                lemma_fold_step(s0, other@, line_step(), i as int);
            }
            let line = other.lines[i].copy();
            assert(line@ == other@[i as int]);
            let r = self.merge_entry(line);
            if r.is_err() {
                proof {
                    lemma_fold_error(s0, other@, line_step(), i + 1);
                }
                return r;
            }
            i = i + 1;
        }
        assert(other@.take(i as int) =~= other@);
        Ok(())
    }

    /// A copy of these entries.
    pub fn copy(&self) -> (r: Lines)
        ensures
            r@ == self@,
    {
        let mut v: Vec<Line> = Vec::new();
        let mut i: usize = 0;
        while i < self.lines.len()
            invariant
                i <= self@.len(),
                self@.len() == self.lines@.len(),
                v@.len() == i,
                v@.map_values(|x: Line| x@) == self@.take(i as int),
            decreases self.lines@.len() - i,
        {
            let ghost before = v@;
            let c = self.lines[i].copy();
            assert(c@ == self@[i as int]);
            v.push(c);
            assert forall|k: int| 0 <= k < i + 1 implies v@.map_values(|x: Line| x@)[k] == #[trigger] self@.take(i + 1)[k] by {
                if k < i {
                    assert(v@[k] == before[k]);
                    assert(before.map_values(|x: Line| x@)[k] == self@.take(i as int)[k]);
                }
            }
            assert(v@.map_values(|x: Line| x@) =~= self@.take(i + 1));
            i = i + 1;
        }
        assert(self@.take(i as int) =~= self@);
        Lines { lines: v }
    }

    /// How many lines were executed at least once.
    pub fn hit_count(&self) -> (r: usize)
        ensures
            r == count_where(self@, line_hit()),
    {
        let mut n: usize = 0;
        let mut i: usize = 0;
        while i < self.lines.len()
            invariant
                i <= self@.len(),
                self@.len() == self.lines@.len(),
                n == count_where(self@.take(i as int), line_hit()),
                n <= i,
            decreases self.lines@.len() - i,
        {
            proof {
                lemma_count_where_push(self@, line_hit(), i as int);
            }
            if self.lines[i].execution_count > 0 {
                n = n + 1;
            }
            i = i + 1;
        }
        assert(self@.take(i as int) =~= self@);
        n
    }

    /// How many lines have an entry.
    pub fn found_count(&self) -> (r: usize)
        ensures
            r == self@.len(),
    {
        self.lines.len()
    }

    pub fn len(&self) -> (r: usize)
        ensures
            r == self@.len(),
    {
        self.lines.len()
    }

    pub fn is_empty(&self) -> (r: bool)
        ensures
            r == (self@.len() == 0),
    {
        self.lines.len() == 0
    }

    /// The entry of line `key`, if any.
    pub fn get(&self, key: &u32) -> (r: Option<&Line>)
        ensures
            first_where(self@, at_line(*key)) < self@.len() ==> r is Some && r->Some_0@
                == self@[first_where(self@, at_line(*key))],
            first_where(self@, at_line(*key)) == self@.len() ==> r is None,
    {
        let i = self.find(*key);
        proof {
            lemma_first_where_bounds(self@, at_line(*key));
        }
        if i < self.lines.len() {
            Some(&self.lines[i])
        } else {
            None
        }
    }

    pub fn contains_key(&self, key: &u32) -> (r: bool)
        ensures
            r == (first_where(self@, at_line(*key)) < self@.len()),
    {
        proof {
            lemma_first_where_bounds(self@, at_line(*key));
        }
        self.find(*key) < self.lines.len()
    }

    /// The entries, in increasing order of line number.
    pub fn entries(&self) -> (r: &[Line])
        ensures
            r@.map_values(|l: Line| l@) == self@,
    {
        self.lines.as_slice()
    }
}

impl<'a> TryMerge<&'a Line> for Line {
    type Err = ChecksumError;

    fn try_merge(&mut self, rhs: &'a Line) -> (r: Result<(), ChecksumError>)
        ensures
            match merge_line_spec(old(self)@, rhs@) {
                Ok(l) => r is Ok && final(self)@ == l,
                Err(e) => r is Err && r->Err_0@ == e && final(self)@ == old(self)@,
            },
    {
        self.try_merge_line(rhs)
    }
}

impl<'a> TryMerge<&'a LineData> for Line {
    type Err = ChecksumError;

    fn try_merge(&mut self, rhs: &'a LineData) -> (r: Result<(), ChecksumError>)
        ensures
            match merge_line_spec(old(self)@, line_data_view(*rhs)) {
                Ok(l) => r is Ok && final(self)@ == l,
                Err(e) => r is Err && r->Err_0@ == e && final(self)@ == old(self)@,
            },
    {
        self.try_merge_line(&Line::from_line_data(rhs))
    }
}

impl<'a> TryMerge<&'a LineData> for Lines {
    type Err = ChecksumError;

    fn try_merge(&mut self, rhs: &'a LineData) -> (r: Result<(), ChecksumError>)
        ensures
            match merge_line_into(old(self)@, line_data_view(*rhs)) {
                Ok(t) => r is Ok && final(self)@ == t,
                Err(e) => r is Err && r->Err_0@ == e && final(self)@ == old(self)@,
            },
            lines_sorted(old(self)@) ==> lines_sorted(final(self)@),
    {
        self.try_merge_data(rhs)
    }
}

impl<'a> TryMerge<&'a Lines> for Lines {
    type Err = ChecksumError;

    fn try_merge(&mut self, rhs: &'a Lines) -> (r: Result<(), ChecksumError>)
        ensures
            match merge_lines_spec(old(self)@, rhs@) {
                Ok(t) => r is Ok && final(self)@ == t,
                Err(e) => r is Err && r->Err_0@ == e,
            },
            lines_sorted(old(self)@) && r is Ok ==> lines_sorted(final(self)@),
    {
        self.try_merge_lines(rhs)
    }
}

} // verus!
