//! Searching and counting in sequences, shared by the keyed collections.

use vstd::prelude::*;

verus! {

/// Index of the first element of `s` that satisfies `p`; `s.len()` when none does.
pub open spec fn first_where<V>(s: Seq<V>, p: spec_fn(V) -> bool) -> int
    decreases s.len(),
{
    if s.len() == 0 {
        0
    } else if p(s[0]) {
        0
    } else {
        1 + first_where(s.drop_first(), p)
    }
}

/// How many elements of `s` satisfy `p`.
pub open spec fn count_where<V>(s: Seq<V>, p: spec_fn(V) -> bool) -> nat
    decreases s.len(),
{
    if s.len() == 0 {
        0
    } else {
        count_where(s.drop_last(), p) + if p(s.last()) {
            1nat
        } else {
            0nat
        }
    }
}

/// The first index that satisfies `p` is the one that a scan from the front
/// stops at.
pub proof fn lemma_first_where<V>(s: Seq<V>, p: spec_fn(V) -> bool, i: int)
    requires
        0 <= i <= s.len(),
        forall|j: int| 0 <= j < i ==> !p(#[trigger] s[j]),
        i == s.len() || p(s[i]),
    ensures
        first_where(s, p) == i,
    decreases s.len(),
{
    if s.len() > 0 && i > 0 {
        assert forall|j: int| 0 <= j < i - 1 implies !p(#[trigger] s.drop_first()[j]) by {
            assert(s.drop_first()[j] == s[j + 1]);
        }
        lemma_first_where(s.drop_first(), p, i - 1);
    }
}

/// `first_where` lies within the sequence's bounds, and no earlier element
/// satisfies `p`.
pub proof fn lemma_first_where_bounds<V>(s: Seq<V>, p: spec_fn(V) -> bool)
    ensures
        0 <= first_where(s, p) <= s.len(),
        first_where(s, p) < s.len() ==> p(s[first_where(s, p)]),
        forall|j: int| 0 <= j < first_where(s, p) ==> !p(#[trigger] s[j]),
    decreases s.len(),
{
    if s.len() > 0 && !p(s[0]) {
        lemma_first_where_bounds(s.drop_first(), p);
        assert forall|j: int| 0 <= j < first_where(s, p) implies !p(#[trigger] s[j]) by {
            if j > 0 {
                assert(s[j] == s.drop_first()[j - 1]);
            }
        }
    }
}

/// Replacing the first element that satisfies `p` by another that does
/// keeps it first.
pub proof fn lemma_first_where_update<V>(s: Seq<V>, p: spec_fn(V) -> bool, i: int, v: V)
    requires
        0 <= i < s.len(),
        first_where(s, p) == i,
        p(v),
    ensures
        first_where(s.update(i, v), p) == i,
{
    lemma_first_where_bounds(s, p);
    assert forall|j: int| 0 <= j < i implies !p(#[trigger] s.update(i, v)[j]) by {
        assert(s.update(i, v)[j] == s[j]);
    }
    lemma_first_where(s.update(i, v), p, i);
}

/// Inserting an element that satisfies `p` where none did makes it the
/// first.
pub proof fn lemma_first_where_insert<V>(s: Seq<V>, p: spec_fn(V) -> bool, k: int, v: V)
    requires
        0 <= k <= s.len(),
        first_where(s, p) == s.len(),
        p(v),
    ensures
        first_where(s.insert(k, v), p) == k,
{
    lemma_first_where_bounds(s, p);
    assert forall|j: int| 0 <= j < k implies !p(#[trigger] s.insert(k, v)[j]) by {
        assert(s.insert(k, v)[j] == s[j]);
    }
    lemma_first_where(s.insert(k, v), p, k);
}

/// Counting over one more element.
pub proof fn lemma_count_where_push<V>(s: Seq<V>, p: spec_fn(V) -> bool, i: int)
    requires
        0 <= i < s.len(),
    ensures
        count_where(s.take(i + 1), p) == count_where(s.take(i), p) + if p(s[i]) {
            1nat
        } else {
            0nat
        },
{
    assert(s.take(i + 1).drop_last() =~= s.take(i));
}


/// Applies `step` to `s` and each element of `o` in turn, stopping at the
/// first error.
pub open spec fn fold_results<S, T, E>(s: S, o: Seq<T>, step: spec_fn(S, T) -> Result<S, E>) -> Result<S, E>
    decreases o.len(),
{
    if o.len() == 0 {
        Ok(s)
    } else {
        match fold_results(s, o.drop_last(), step) {
            Ok(t) => step(t, o.last()),
            Err(e) => Err(e),
        }
    }
}

/// One more step of a fold.
pub proof fn lemma_fold_step<S, T, E>(s: S, o: Seq<T>, step: spec_fn(S, T) -> Result<S, E>, i: int)
    requires
        0 <= i < o.len(),
        fold_results(s, o.take(i), step) is Ok,
    ensures
        fold_results(s, o.take(i + 1), step) == step(fold_results(s, o.take(i), step)->Ok_0, o[i]),
{
    assert(o.take(i + 1).drop_last() =~= o.take(i));
}

/// An error part way through a fold is the fold's error.
pub proof fn lemma_fold_error<S, T, E>(s: S, o: Seq<T>, step: spec_fn(S, T) -> Result<S, E>, k: int)
    requires
        0 <= k <= o.len(),
        fold_results(s, o.take(k), step) is Err,
    ensures
        fold_results(s, o, step) == fold_results(s, o.take(k), step),
    decreases o.len() - k,
{
    if k == o.len() {
        assert(o.take(k) =~= o);
    } else {
        assert(o.drop_last().take(k) =~= o.take(k));
        lemma_fold_error(s, o.drop_last(), step, k);
    }
}


/// The texts `f(x)` of the elements of `s`, one after the other.
pub open spec fn concat_map<V>(s: Seq<V>, f: spec_fn(V) -> Seq<char>) -> Seq<char>
    decreases s.len(),
{
    if s.len() == 0 {
        Seq::empty()
    } else {
        concat_map(s.drop_last(), f) + f(s.last())
    }
}

/// Concatenating over one more element.
pub proof fn lemma_concat_map_push<V>(s: Seq<V>, f: spec_fn(V) -> Seq<char>, i: int)
    requires
        0 <= i < s.len(),
    ensures
        concat_map(s.take(i + 1), f) == concat_map(s.take(i), f) + f(s[i]),
{
    assert(s.take(i + 1).drop_last() =~= s.take(i));
}

} // verus!
