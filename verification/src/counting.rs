//! Counting the elements of a sequence that satisfy a predicate, and why the count is invariant
//! under permutation.

use vstd::prelude::*;

verus! {

/// How many elements of `s` satisfy `p`.
pub open spec fn count_where<A>(s: Seq<A>, p: spec_fn(A) -> bool) -> nat
    decreases s.len(),
{
    if s.len() == 0 {
        0
    } else {
        count_where(s.drop_last(), p) + if p(s.last()) {
            1nat
        } else {
            0nat
        }
    }
}

/// Removing one element lowers the count by one exactly when that element satisfies `p`.
pub proof fn lemma_count_where_remove<A>(s: Seq<A>, j: int, p: spec_fn(A) -> bool)
    requires
        0 <= j < s.len(),
    ensures
        count_where(s, p) == count_where(s.remove(j), p) + if p(s[j]) {
            1nat
        } else {
            0nat
        },
    decreases s.len(),
{
    if j == s.len() - 1 {
        assert(s.remove(j) =~= s.drop_last());
    } else {
        let r = s.remove(j);
        assert(r.drop_last() =~= s.drop_last().remove(j));
        assert(r.last() == s.last());
        lemma_count_where_remove(s.drop_last(), j, p);
    }
}

/// Sequences holding the same elements with the same multiplicities have the same count.
pub proof fn lemma_count_where_permutation<A>(s1: Seq<A>, s2: Seq<A>, p: spec_fn(A) -> bool)
    requires
        s1.to_multiset() == s2.to_multiset(),
    ensures
        count_where(s1, p) == count_where(s2, p),
    decreases s1.len(),
{
    broadcast use vstd::seq_lib::group_to_multiset_ensures;
    broadcast use vstd::multiset::group_multiset_axioms;

    if s1.len() == 0 {
        s1.to_multiset_ensures();
        s2.to_multiset_ensures();
        assert(s2.len() == 0);
    } else {
        let x = s1.last();
        let d1 = s1.drop_last();
        assert(d1.push(x) =~= s1);
        assert(s1.to_multiset() =~= d1.to_multiset().insert(x));
        assert(s1.to_multiset().count(x) > 0);
        assert(s2.contains(x));
        let j = s2.index_of(x);
        let r2 = s2.remove(j);
        assert(r2.to_multiset() =~= s2.to_multiset().remove(x));
        assert(d1.to_multiset() =~= d1.to_multiset().insert(x).remove(x));
        lemma_count_where_permutation(d1, r2, p);
        lemma_count_where_remove(s2, j, p);
    }
}

/// Counting over a prefix grows by the next element's contribution.
pub proof fn lemma_count_where_take<A>(s: Seq<A>, n: int, p: spec_fn(A) -> bool)
    requires
        0 < n <= s.len(),
    ensures
        count_where(s.take(n), p) == count_where(s.take(n - 1), p) + if p(s[n - 1]) {
            1nat
        } else {
            0nat
        },
{
    assert(s.take(n).drop_last() =~= s.take(n - 1));
}

/// Replacing an element that satisfies `p` by one that does not lowers the count by one.
pub proof fn lemma_count_where_update<A>(s: Seq<A>, j: int, v: A, p: spec_fn(A) -> bool)
    requires
        0 <= j < s.len(),
        p(s[j]),
        !p(v),
    ensures
        count_where(s.update(j, v), p) + 1 == count_where(s, p),
{
    lemma_count_where_remove(s, j, p);
    lemma_count_where_remove(s.update(j, v), j, p);
    assert(s.update(j, v).remove(j) =~= s.remove(j));
}

/// A sequence all of whose elements satisfy `p` counts its length.
pub proof fn lemma_count_where_all<A>(s: Seq<A>, p: spec_fn(A) -> bool)
    requires
        forall|k: int| 0 <= k < s.len() ==> p(#[trigger] s[k]),
    ensures
        count_where(s, p) == s.len(),
    decreases s.len(),
{
    if s.len() > 0 {
        let d = s.drop_last();
        assert forall|k: int| 0 <= k < d.len() implies p(#[trigger] d[k]) by {
            assert(d[k] == s[k]);
        }
        lemma_count_where_all(d, p);
        assert(p(s[s.len() - 1]));
    }
}

/// A prefix counts no more than the whole sequence.
pub proof fn lemma_count_where_prefix_le<A>(s: Seq<A>, n: int, p: spec_fn(A) -> bool)
    requires
        0 <= n <= s.len(),
    ensures
        count_where(s.take(n), p) <= count_where(s, p),
    decreases s.len() - n,
{
    if n == s.len() {
        assert(s.take(n) =~= s);
    } else {
        lemma_count_where_prefix_le(s, n + 1, p);
        lemma_count_where_take(s, n + 1, p);
    }
}

} // verus!
