//! Execution data of functions, keyed by function name.

use vstd::prelude::*;
use crate::merger::ops::{FunctionError, TryMerge};
use crate::record::{FunctionData, FunctionName};
use crate::report::line::{add_counts, sat_add};
use crate::seqs::{
    count_where, first_where, fold_results, lemma_count_where_push, lemma_first_where,
    lemma_first_where_bounds, lemma_fold_step,
};
use crate::text::{lemma_text_less_total, lemma_text_less_transitive, string_less, text_less};

verus! {

/// The view of a function's execution data.
pub struct FunctionV {
    pub name: Seq<char>,
    pub line_number: u32,
    pub execution_count: u32,
}

/// Execution data of one function.
#[derive(Debug)]
pub struct Function {
    name: String,
    line_number: u32,
    execution_count: u32,
}

impl View for Function {
    type V = FunctionV;

    closed spec fn view(&self) -> FunctionV {
        FunctionV {
            name: self.name@,
            line_number: self.line_number,
            execution_count: self.execution_count,
        }
    }
}

/// The entry that a `FNDA` record starts: declared at line 0 until a `FN`
/// record says otherwise.
pub open spec fn function_data_view(d: FunctionData) -> FunctionV {
    FunctionV { name: d.name@, line_number: 0, execution_count: d.count }
}

/// The entry that a `FN` record starts, with no executions yet.
pub open spec fn function_name_view(d: FunctionName) -> FunctionV {
    FunctionV { name: d.name@, line_number: d.line, execution_count: 0 }
}

impl Function {
    pub fn new(name: String, line_number: u32, execution_count: u32) -> (r: Function)
        ensures
            r@ == (FunctionV { name: name@, line_number, execution_count }),
    {
        Function { name, line_number, execution_count }
    }

    pub fn from_function_data(d: &FunctionData) -> (r: Function)
        ensures
            r@ == function_data_view(*d),
    {
        Function::new(d.name.clone(), 0, d.count)
    }

    pub fn from_function_name(d: &FunctionName) -> (r: Function)
        ensures
            r@ == function_name_view(*d),
    {
        Function::new(d.name.clone(), d.line, 0)
    }

    pub fn name(&self) -> (r: &String)
        ensures
            r@ == self@.name,
    {
        &self.name
    }

    pub fn line_number(&self) -> (r: &u32)
        ensures
            *r == self@.line_number,
    {
        &self.line_number
    }

    pub fn execution_count(&self) -> (r: &u32)
        ensures
            *r == self@.execution_count,
    {
        &self.execution_count
    }

    /// Was the function executed at least once?
    pub fn is_hit(&self) -> (r: bool)
        ensures
            r == (self@.execution_count > 0),
    {
        self.execution_count > 0
    }

    /// A copy of this entry.
    pub fn copy(&self) -> (r: Function)
        ensures
            r@ == self@,
    {
        Function::new(self.name.clone(), self.line_number, self.execution_count)
    }

    fn check_name(&self, other: &String) -> (r: Result<(), FunctionError>)
        ensures
            self@.name == other@ ==> r is Ok,
            self@.name != other@ ==> r is Err && r->Err_0@ == (self@.name, other@),
    {
        if self.name.eq(other) {
            Ok(())
        } else {
            Err(FunctionError::Mismatch(self.name.clone(), other.clone()))
        }
    }

    /// Adds the execution count of a `FNDA` record of the same function.
    pub fn try_merge_data(&mut self, other: &FunctionData) -> (r: Result<(), FunctionError>)
        ensures
            old(self)@.name == other.name@ ==> r is Ok && final(self)@ == (FunctionV {
                execution_count: sat_add(old(self)@.execution_count, other.count),
                ..old(self)@
            }),
            old(self)@.name != other.name@ ==> r is Err && r->Err_0@ == (old(self)@.name, other.name@)
                && final(self)@ == old(self)@,
    {
        self.check_name(&other.name)?;
        self.execution_count = add_counts(self.execution_count, other.count);
        Ok(())
    }

    /// Takes the declaration line of a `FN` record of the same function.
    pub fn try_merge_name(&mut self, other: &FunctionName) -> (r: Result<(), FunctionError>)
        ensures
            old(self)@.name == other.name@ ==> r is Ok && final(self)@ == (FunctionV {
                line_number: other.line,
                ..old(self)@
            }),
            old(self)@.name != other.name@ ==> r is Err && r->Err_0@ == (old(self)@.name, other.name@)
                && final(self)@ == old(self)@,
    {
        self.check_name(&other.name)?;
        self.line_number = other.line;
        Ok(())
    }

    /// Adds the execution count of another entry of the same function.
    pub fn try_merge_function(&mut self, other: &Function) -> (r: Result<(), FunctionError>)
        ensures
            old(self)@.name == other@.name ==> r is Ok && final(self)@ == (FunctionV {
                execution_count: sat_add(old(self)@.execution_count, other@.execution_count),
                ..old(self)@
            }),
            old(self)@.name != other@.name ==> r is Err && r->Err_0@ == (old(self)@.name, other@.name)
                && final(self)@ == old(self)@,
    {
        self.check_name(&other.name)?;
        self.execution_count = add_counts(self.execution_count, other.execution_count);
        Ok(())
    }
}

impl PartialEq for Function {
    /// Entries are equal when their names and declaration lines are.
    fn eq(&self, other: &Function) -> (r: bool) {
        self.name.eq(&other.name) && self.line_number == other.line_number
    }
}

impl vstd::std_specs::cmp::PartialEqSpecImpl for Function {
    open spec fn obeys_eq_spec() -> bool {
        true
    }

    open spec fn eq_spec(&self, other: &Function) -> bool {
        self@.name == other@.name && self@.line_number == other@.line_number
    }
}

/// Is the entry that of the function named `n`?
pub open spec fn named(n: Seq<char>) -> spec_fn(FunctionV) -> bool {
    |f: FunctionV| f.name == n
}

/// Does the entry's name come after `n` in text order?
pub open spec fn after_name(n: Seq<char>) -> spec_fn(FunctionV) -> bool {
    |f: FunctionV| text_less(n, f.name)
}

/// Was the function executed?
pub open spec fn function_hit() -> spec_fn(FunctionV) -> bool {
    |f: FunctionV| f.execution_count > 0
}

/// Entries in strictly increasing text order of name (so one per name).
pub open spec fn functions_sorted(s: Seq<FunctionV>) -> bool {
    forall|i: int, j: int| 0 <= i < j < s.len() ==> text_less(s[i].name, s[j].name)
}

/// Merging the entry `f` into the entries `s`: a new name is inserted in
/// order; for a known name a declaration (`FN`) sets the declaration line,
/// anything else adds its execution count.
pub open spec fn merge_function_into(s: Seq<FunctionV>, f: FunctionV, declaration: bool) -> Seq<FunctionV> {
    let i = first_where(s, named(f.name));
    if i < s.len() {
        if declaration {
            s.update(i, FunctionV { line_number: f.line_number, ..s[i] })
        } else {
            s.update(i, FunctionV { execution_count: sat_add(s[i].execution_count, f.execution_count), ..s[i] })
        }
    } else {
        s.insert(first_where(s, after_name(f.name)), f)
    }
}

/// One step of [`merge_functions_spec`].
pub open spec fn function_step() -> spec_fn(Seq<FunctionV>, FunctionV) -> Result<Seq<FunctionV>, (Seq<char>, Seq<char>)> {
    |t: Seq<FunctionV>, f: FunctionV| Ok(merge_function_into(t, f, false))
}

/// Merging the entries `o`, in order, into the entries `s`.
pub open spec fn merge_functions_spec(s: Seq<FunctionV>, o: Seq<FunctionV>) -> Result<Seq<FunctionV>, (Seq<char>, Seq<char>)> {
    fold_results(s, o, function_step())
}

/// The execution data of functions, one entry per name, in text order of
/// name.
#[derive(Debug)]
pub struct Functions {
    functions: Vec<Function>,
}

impl View for Functions {
    type V = Seq<FunctionV>;

    closed spec fn view(&self) -> Seq<FunctionV> {
        self.functions@.map_values(|f: Function| f@)
    }
}

impl Functions {
    pub fn new() -> (r: Functions)
        ensures
            r@ == Seq::<FunctionV>::empty(),
    {
        let r = Functions { functions: Vec::new() };
        assert(r@ =~= Seq::<FunctionV>::empty());
        r
    }

    fn find(&self, n: &String) -> (i: usize)
        ensures
            i == first_where(self@, named(n@)),
    {
        let mut i: usize = 0;
        while i < self.functions.len() && !self.functions[i].name.eq(n)
            invariant
                i <= self@.len(),
                self@.len() == self.functions@.len(),
                forall|j: int| 0 <= j < i ==> !named(n@)(#[trigger] self@[j]),
            decreases self.functions@.len() - i,
        {
            i = i + 1;
        }
        proof {
            lemma_first_where(self@, named(n@), i as int);
        }
        i
    }

    fn insert_pos(&self, n: &String) -> (i: usize)
        ensures
            i == first_where(self@, after_name(n@)),
    {
        let mut i: usize = 0;
        while i < self.functions.len() && !string_less(n, &self.functions[i].name)
            invariant
                i <= self@.len(),
                self@.len() == self.functions@.len(),
                forall|j: int| 0 <= j < i ==> !after_name(n@)(#[trigger] self@[j]),
            decreases self.functions@.len() - i,
        {
            i = i + 1;
        }
        proof {
            lemma_first_where(self@, after_name(n@), i as int);
        }
        i
    }

    /// Merges one entry, taken over when its name is new.
    #[verifier::rlimit(50)]
    fn merge_entry(&mut self, f: Function, declaration: bool)
        ensures
            final(self)@ == merge_function_into(old(self)@, f@, declaration),
            functions_sorted(old(self)@) ==> functions_sorted(final(self)@),
    {
        let ghost s = self@;
        let i = self.find(&f.name);
        proof {
            lemma_first_where_bounds(s, named(f@.name));
        }
        if i < self.functions.len() {
            let r = if declaration {
                self.functions[i].try_merge_name(&FunctionName { name: f.name, line: f.line_number })
            } else {
                self.functions[i].try_merge_function(&f)
            };
            assert(self@ =~= s.update(i as int, self.functions@[i as int]@));
        } else {
            let p = self.insert_pos(&f.name);
            proof {
                lemma_first_where_bounds(s, after_name(f@.name));
            }
            let ghost v = f@;
            self.functions.insert(p, f);
            assert(self@ =~= s.insert(p as int, v));
            proof {
                if functions_sorted(s) {
                    assert forall|a: int, b: int| 0 <= a < b < self@.len() implies text_less(
                        self@[a].name,
                        self@[b].name,
                    ) by {
                        if b == p {
                            assert(s[a].name != v.name);
                            lemma_text_less_total(s[a].name, v.name);
                        } else if a == p {
                            if b - 1 > p {
                                lemma_text_less_transitive(v.name, s[p as int].name, s[b - 1].name);
                            }
                        }
                    }
                }
            }
        }
    }

    /// Merges the execution count of a `FNDA` record.
    pub fn try_merge_data(&mut self, data: &FunctionData) -> (r: Result<(), FunctionError>)
        ensures
            r is Ok,
            final(self)@ == merge_function_into(old(self)@, function_data_view(*data), false),
            functions_sorted(old(self)@) ==> functions_sorted(final(self)@),
    {
        self.merge_entry(Function::from_function_data(data), false);
        Ok(())
    }

    /// Merges the declaration of a `FN` record.
    pub fn try_merge_name(&mut self, data: &FunctionName) -> (r: Result<(), FunctionError>)
        ensures
            r is Ok,
            final(self)@ == merge_function_into(old(self)@, function_name_view(*data), true),
            functions_sorted(old(self)@) ==> functions_sorted(final(self)@),
    {
        self.merge_entry(Function::from_function_name(data), true);
        Ok(())
    }

    /// Merges every entry of `other`, in order.
    pub fn try_merge_functions(&mut self, other: &Functions) -> (r: Result<(), FunctionError>)
        ensures
            match merge_functions_spec(old(self)@, other@) {
                Ok(t) => r is Ok && final(self)@ == t,
                Err(e) => r is Err && r->Err_0@ == e,
            },
            functions_sorted(old(self)@) ==> functions_sorted(final(self)@),
    {
        let ghost s0 = self@;
        let mut i: usize = 0;
        while i < other.functions.len()
            invariant
                s0 == old(self)@,
                i <= other@.len(),
                other@.len() == other.functions@.len(),
                merge_functions_spec(s0, other@.take(i as int)) == Ok::<
                    Seq<FunctionV>,
                    (Seq<char>, Seq<char>),
                >(self@),
                functions_sorted(s0) ==> functions_sorted(self@),
            decreases other.functions@.len() - i,
        {
            proof {
                lemma_fold_step(s0, other@, function_step(), i as int);
            }
            let f = other.functions[i].copy();
            assert(f@ == other@[i as int]);
            self.merge_entry(f, false);
            i = i + 1;
        }
        assert(other@.take(i as int) =~= other@);
        Ok(())
    }

    /// A copy of these entries.
    pub fn copy(&self) -> (r: Functions)
        ensures
            r@ == self@,
    {
        let mut v: Vec<Function> = Vec::new();
        let mut i: usize = 0;
        while i < self.functions.len()
            invariant
                i <= self@.len(),
                self@.len() == self.functions@.len(),
                v@.len() == i,
                v@.map_values(|x: Function| x@) == self@.take(i as int),
            decreases self.functions@.len() - i,
        {
            let ghost before = v@;
            let c = self.functions[i].copy();
            assert(c@ == self@[i as int]);
            v.push(c);
            assert forall|k: int| 0 <= k < i + 1 implies v@.map_values(|x: Function| x@)[k] == #[trigger] self@.take(i + 1)[k] by {
                if k < i {
                    assert(v@[k] == before[k]);
                    assert(before.map_values(|x: Function| x@)[k] == self@.take(i as int)[k]);
                }
            }
            assert(v@.map_values(|x: Function| x@) =~= self@.take(i + 1));
            i = i + 1;
        }
        assert(self@.take(i as int) =~= self@);
        Functions { functions: v }
    }

    /// How many functions were executed at least once.
    pub fn hit_count(&self) -> (r: usize)
        ensures
            r == count_where(self@, function_hit()),
    {
        let mut n: usize = 0;
        let mut i: usize = 0;
        while i < self.functions.len()
            invariant
                i <= self@.len(),
                self@.len() == self.functions@.len(),
                n == count_where(self@.take(i as int), function_hit()),
                n <= i,
            decreases self.functions@.len() - i,
        {
            proof {
                lemma_count_where_push(self@, function_hit(), i as int);
            }
            if self.functions[i].execution_count > 0 {
                n = n + 1;
            }
            i = i + 1;
        }
        assert(self@.take(i as int) =~= self@);
        n
    }

    /// How many functions have an entry.
    pub fn found_count(&self) -> (r: usize)
        ensures
            r == self@.len(),
    {
        self.functions.len()
    }

    pub fn len(&self) -> (r: usize)
        ensures
            r == self@.len(),
    {
        self.functions.len()
    }

    pub fn is_empty(&self) -> (r: bool)
        ensures
            r == (self@.len() == 0),
    {
        self.functions.len() == 0
    }

    /// The entry of the function named `key`, if any.
    pub fn get(&self, key: &String) -> (r: Option<&Function>)
        ensures
            first_where(self@, named(key@)) < self@.len() ==> r is Some && r->Some_0@
                == self@[first_where(self@, named(key@))],
            first_where(self@, named(key@)) == self@.len() ==> r is None,
    {
        let i = self.find(key);
        proof {
            lemma_first_where_bounds(self@, named(key@));
        }
        if i < self.functions.len() {
            Some(&self.functions[i])
        } else {
            None
        }
    }

    pub fn contains_key(&self, key: &String) -> (r: bool)
        ensures
            r == (first_where(self@, named(key@)) < self@.len()),
    {
        proof {
            lemma_first_where_bounds(self@, named(key@));
        }
        self.find(key) < self.functions.len()
    }

    /// The entries, in text order of name.
    pub fn entries(&self) -> (r: &[Function])
        ensures
            r@.map_values(|f: Function| f@) == self@,
    {
        self.functions.as_slice()
    }
}

impl<'a> TryMerge<&'a Function> for Function {
    type Err = FunctionError;

    fn try_merge(&mut self, rhs: &'a Function) -> (r: Result<(), FunctionError>)
        ensures
            old(self)@.name == rhs@.name ==> r is Ok && final(self)@ == (FunctionV {
                execution_count: sat_add(old(self)@.execution_count, rhs@.execution_count),
                ..old(self)@
            }),
            old(self)@.name != rhs@.name ==> r is Err && r->Err_0@ == (old(self)@.name, rhs@.name)
                && final(self)@ == old(self)@,
    {
        self.try_merge_function(rhs)
    }
}

impl<'a> TryMerge<&'a FunctionData> for Function {
    type Err = FunctionError;

    fn try_merge(&mut self, rhs: &'a FunctionData) -> (r: Result<(), FunctionError>)
        ensures
            old(self)@.name == rhs.name@ ==> r is Ok && final(self)@ == (FunctionV {
                execution_count: sat_add(old(self)@.execution_count, rhs.count),
                ..old(self)@
            }),
            old(self)@.name != rhs.name@ ==> r is Err && r->Err_0@ == (old(self)@.name, rhs.name@)
                && final(self)@ == old(self)@,
    {
        self.try_merge_data(rhs)
    }
}

impl<'a> TryMerge<&'a FunctionName> for Function {
    type Err = FunctionError;

    fn try_merge(&mut self, rhs: &'a FunctionName) -> (r: Result<(), FunctionError>)
        ensures
            old(self)@.name == rhs.name@ ==> r is Ok && final(self)@ == (FunctionV {
                line_number: rhs.line,
                ..old(self)@
            }),
            old(self)@.name != rhs.name@ ==> r is Err && r->Err_0@ == (old(self)@.name, rhs.name@)
                && final(self)@ == old(self)@,
    {
        self.try_merge_name(rhs)
    }
}

impl<'a> TryMerge<&'a FunctionData> for Functions {
    type Err = FunctionError;

    fn try_merge(&mut self, rhs: &'a FunctionData) -> (r: Result<(), FunctionError>)
        ensures
            r is Ok,
            final(self)@ == merge_function_into(old(self)@, function_data_view(*rhs), false),
            functions_sorted(old(self)@) ==> functions_sorted(final(self)@),
    {
        self.try_merge_data(rhs)
    }
}

impl<'a> TryMerge<&'a FunctionName> for Functions {
    type Err = FunctionError;

    fn try_merge(&mut self, rhs: &'a FunctionName) -> (r: Result<(), FunctionError>)
        ensures
            r is Ok,
            final(self)@ == merge_function_into(old(self)@, function_name_view(*rhs), true),
            functions_sorted(old(self)@) ==> functions_sorted(final(self)@),
    {
        self.try_merge_name(rhs)
    }
}

impl<'a> TryMerge<&'a Functions> for Functions {
    type Err = FunctionError;

    fn try_merge(&mut self, rhs: &'a Functions) -> (r: Result<(), FunctionError>)
        ensures
            match merge_functions_spec(old(self)@, rhs@) {
                Ok(t) => r is Ok && final(self)@ == t,
                Err(e) => r is Err && r->Err_0@ == e,
            },
            functions_sorted(old(self)@) ==> functions_sorted(final(self)@),
    {
        self.try_merge_functions(rhs)
    }
}

} // verus!
