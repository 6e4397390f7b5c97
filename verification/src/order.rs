//! The order in which entries are removed: highest position first, so that
//! taking one entry out does not move the entries still to be taken out.

use vstd::prelude::*;
use vstd::relations::*;
use vstd::seq_lib::*;

verus! {

/// The relation by which positions are ordered for removal: `a` comes no later than `b`.
pub open spec fn at_least() -> spec_fn(usize, usize) -> bool {
    |a: usize, b: usize| a >= b
}

/// Whether no position in `s` is followed by a higher one.
pub open spec fn is_descending(s: Seq<usize>) -> bool {
    forall|i: int, j: int| 0 <= i < j < s.len() ==> s[i] >= s[j]
}

/// The positions of `s`, each as often as it occurs in `s`, highest first.
pub open spec fn descending(s: Seq<usize>) -> Seq<usize> {
    s.sort_by(at_least())
}

/// `descending(s)` is a rearrangement of `s` in which no position is followed
/// by a higher one.
pub proof fn lemma_descending(s: Seq<usize>)
    ensures
        is_descending(descending(s)),
        descending(s).to_multiset() == s.to_multiset(),
        descending(s).len() == s.len(),
{
    assert(total_ordering(at_least()));
    s.lemma_sort_by_ensures(at_least());
    let d = descending(s);
    assert forall|i: int, j: int| 0 <= i < j < d.len() implies d[i] >= d[j] by {
        assert(at_least()(d[i], d[j]));
    }
    to_multiset_len(s);
    to_multiset_len(d);
}

/// There is only one such rearrangement: a descending sequence with the
/// positions of `s` is `descending(s)`.
pub proof fn lemma_descending_unique(s: Seq<usize>, d: Seq<usize>)
    requires
        is_descending(d),
        d.to_multiset() == s.to_multiset(),
    ensures
        d == descending(s),
{
    assert(total_ordering(at_least()));
    s.lemma_sort_by_ensures(at_least());
    assert(sorted_by(d, at_least()));
    lemma_sorted_unique(d, descending(s), at_least());
}

/// Returns the positions of `v` ordered for removal, highest first.
pub fn sort_descending(v: &Vec<usize>) -> (r: Vec<usize>)
    ensures
        r@ == descending(v@),
{
    let mut out: Vec<usize> = Vec::new();
    let mut i: usize = 0;
    assert(v@.take(0) =~= Seq::<usize>::empty());
    while i < v.len()
        invariant
            0 <= i <= v.len(),
            is_descending(out@),
            out@.to_multiset() == v@.take(i as int).to_multiset(),
        decreases v.len() - i,
    {
        let x: usize = v[i];
        let mut p: usize = 0;
        while p < out.len() && out[p] > x
            invariant
                0 <= p <= out.len(),
                forall|k: int| 0 <= k < p ==> out@[k] > x,
            decreases out.len() - p,
        {
            p = p + 1;
        }
        proof {
            let before = out@;
            let after = before.insert(p as int, x);
            assert forall|a: int, b: int| 0 <= a < b < after.len() implies after[a] >= after[b] by {
                if b > p {
                    assert(after[b] == before[b - 1]);
                }
                if a > p {
                    assert(after[a] == before[a - 1]);
                }
            }
            to_multiset_insert(before, p as int, x);
            assert(v@.take(i + 1) =~= v@.take(i as int).push(x));
            to_multiset_build(v@.take(i as int), x);
        }
        out.insert(p, x);
        i = i + 1;
    }
    proof {
        assert(v@.take(i as int) =~= v@);
        lemma_descending_unique(v@, out@);
    }
    out
}

} // verus!
