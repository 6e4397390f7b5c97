//! The todo list: an ordered sequence of text entries. The position of an
//! entry is its only identity; an entry that is done leaves the list.

use vstd::prelude::*;

verus! {

/// The texts of a sequence of strings, in the same order.
pub open spec fn texts(s: Seq<String>) -> Seq<Seq<char>> {
    Seq::new(s.len(), |i: int| s[i]@)
}

/// How many removals succeed when the positions of `order` are taken out of
/// a list of `len` entries one after the other, each from what the removals
/// before it have left: the count stops at the first position that lies
/// outside the list it would be taken from.
pub open spec fn removable_count(len: nat, order: Seq<usize>) -> nat
    decreases order.len(),
{
    if order.len() == 0 || order[0] >= len {
        0
    } else {
        1 + removable_count((len - 1) as nat, order.drop_first())
    }
}

/// Whether every position of `order` can be taken out of a list of `len`
/// entries, one after the other.
pub open spec fn removable(len: nat, order: Seq<usize>) -> bool {
    removable_count(len, order) == order.len()
}

/// What is left of `list` when the positions of `order` are taken out one
/// after the other, each from what the removals before it have left.
pub open spec fn without<T>(list: Seq<T>, order: Seq<usize>) -> Seq<T>
    decreases order.len(),
{
    if order.len() == 0 {
        list
    } else {
        without(list.remove(order[0] as int), order.drop_first())
    }
}

/// The entries that leave `list` when the positions of `order` are taken out
/// one after the other, in the order in which they leave.
pub open spec fn taken<T>(list: Seq<T>, order: Seq<usize>) -> Seq<T>
    decreases order.len(),
{
    if order.len() == 0 {
        Seq::empty()
    } else {
        seq![list[order[0] as int]] + taken(list.remove(order[0] as int), order.drop_first())
    }
}

/// The list that grows from `start` when the batches of `batches` are
/// appended to it one after the other.
pub open spec fn after_additions(start: Seq<Seq<char>>, batches: Seq<Seq<Seq<char>>>) -> Seq<
    Seq<char>,
>
    decreases batches.len(),
{
    if batches.len() == 0 {
        start
    } else {
        after_additions(start, batches.drop_last()) + batches.last()
    }
}

/// However the texts are spread over the additions, the list then holds what
/// it held before, followed by all the added texts in the order in which
/// they were given.
pub proof fn lemma_additions_in_order(start: Seq<Seq<char>>, batches: Seq<Seq<Seq<char>>>)
    ensures
        after_additions(start, batches) == start + batches.flatten(),
    decreases batches.len(),
{
    if batches.len() == 0 {
        assert(start + batches.flatten() =~= start);
    } else {
        lemma_additions_in_order(start, batches.drop_last());
        batches.drop_last().lemma_flatten_push(batches.last());
        assert(batches.drop_last().push(batches.last()) =~= batches);
        assert(start + batches.drop_last().flatten() + batches.last() =~= start + (
        batches.drop_last().flatten() + batches.last()));
    }
}

/// The entries of `list` whose positions are not in `gone`, in the order
/// they have in `list`.
pub open spec fn survivors<T>(list: Seq<T>, gone: Set<int>) -> Seq<T>
    decreases list.len(),
{
    if list.len() == 0 {
        list
    } else if gone.contains(list.len() - 1) {
        survivors(list.drop_last(), gone)
    } else {
        survivors(list.drop_last(), gone).push(list.last())
    }
}

/// The set of the positions that occur in `order`.
pub open spec fn positions(order: Seq<usize>) -> Set<int> {
    Set::new(|p: int| exists|k: int| 0 <= k < order.len() && #[trigger] order[k] == p)
}

/// Whether each position in `order` is lower than the one before it.
pub open spec fn strictly_descending(order: Seq<usize>) -> bool {
    forall|i: int, j: int| 0 <= i < j < order.len() ==> order[i] > order[j]
}

/// Which entries survive depends only on the positions that lie in the list.
proof fn lemma_survivors_agree<T>(list: Seq<T>, a: Set<int>, b: Set<int>)
    requires
        forall|p: int| 0 <= p < list.len() ==> (a.contains(p) <==> b.contains(p)),
    ensures
        survivors(list, a) == survivors(list, b),
    decreases list.len(),
{
    if list.len() > 0 {
        lemma_survivors_agree(list.drop_last(), a, b);
    }
}

/// Taking out position `m` and then the positions `gone`, all below `m`,
/// leaves what taking out `gone` and `m` together leaves.
proof fn lemma_survivors_remove<T>(list: Seq<T>, m: int, gone: Set<int>)
    requires
        0 <= m < list.len(),
        forall|p: int| gone.contains(p) ==> p < m,
    ensures
        survivors(list.remove(m), gone) == survivors(list, gone.insert(m)),
    decreases list.len(),
{
    let n = list.len() as int;
    if m == n - 1 {
        assert(list.remove(m) =~= list.drop_last());
        lemma_survivors_agree(list.drop_last(), gone, gone.insert(m));
    } else {
        let shorter = list.remove(m);
        assert(shorter.drop_last() =~= list.drop_last().remove(m));
        assert(shorter.last() == list.last());
        lemma_survivors_remove(list.drop_last(), m, gone);
    }
}

/// Removing distinct positions, highest first, removes exactly the entries
/// that stood at those positions and leaves the others in their order: if
/// `order` is strictly descending and every position in it lies in `list`,
/// then all of `order` can be taken out, what is left is `list` without the
/// entries at those positions, and the entries leave in the order of `order`.
pub proof fn lemma_descending_removal<T>(list: Seq<T>, order: Seq<usize>)
    requires
        strictly_descending(order),
        forall|k: int| 0 <= k < order.len() ==> order[k] < list.len(),
    ensures
        removable(list.len(), order),
        without(list, order) == survivors(list, positions(order)),
        taken(list, order) == Seq::new(order.len(), |k: int| list[order[k] as int]),
    decreases order.len(),
{
    if order.len() == 0 {
        lemma_survivors_agree(list, positions(order), Set::empty());
        lemma_survivors_none(list);
        assert(taken(list, order) =~= Seq::new(order.len(), |k: int| list[order[k] as int]));
    } else {
        let m = order[0] as int;
        let rest = order.drop_first();
        let shorter = list.remove(m);
        assert forall|k: int| 0 <= k < rest.len() implies rest[k] < shorter.len() by {
            assert(rest[k] == order[k + 1]);
            assert(order[0] > order[k + 1]);
        }
        assert(strictly_descending(rest)) by {
            assert forall|i: int, j: int| 0 <= i < j < rest.len() implies rest[i] > rest[j] by {
                assert(order[i + 1] > order[j + 1]);
            }
        }
        lemma_descending_removal(shorter, rest);
        assert forall|p: int| positions(rest).contains(p) implies p < m by {
            let k = choose|k: int| 0 <= k < rest.len() && #[trigger] rest[k] == p;
            assert(order[0] > order[k + 1]);
        }
        lemma_survivors_remove(list, m, positions(rest));
        assert(positions(order) =~= positions(rest).insert(m)) by {
            assert forall|p: int| positions(order).contains(p) implies positions(rest).insert(
                m,
            ).contains(p) by {
                let k = choose|k: int| 0 <= k < order.len() && #[trigger] order[k] == p;
                if k > 0 {
                    assert(rest[k - 1] == p);
                }
            }
            assert forall|p: int| positions(rest).insert(m).contains(p) implies positions(
                order,
            ).contains(p) by {
                if p == m {
                    assert(order[0] == p);
                } else {
                    let k = choose|k: int| 0 <= k < rest.len() && #[trigger] rest[k] == p;
                    assert(order[k + 1] == p);
                }
            }
        }
        assert(taken(list, order) =~= Seq::new(order.len(), |k: int| list[order[k] as int])) by {
            let t = taken(shorter, rest);
            assert forall|k: int| 0 <= k < rest.len() implies t[k] == list[order[k + 1] as int] by {
                assert(rest[k] == order[k + 1]);
                assert(order[0] > order[k + 1]);
            }
        }
    }
}

/// With no position taken out the list stays as it is.
proof fn lemma_survivors_none<T>(list: Seq<T>)
    ensures
        survivors(list, Set::empty()) == list,
    decreases list.len(),
{
    if list.len() > 0 {
        lemma_survivors_none(list.drop_last());
        assert(list.drop_last().push(list.last()) =~= list);
    }
}

/// A todo list.
#[derive(Debug)]
pub struct TodoList {
    /// The entries, first added first.
    pub entries: Vec<String>,
}

impl View for TodoList {
    type V = Seq<Seq<char>>;

    /// The texts of the entries, first added first.
    open spec fn view(&self) -> Seq<Seq<char>> {
        texts(self.entries@)
    }
}

/// Counts the removals that succeed on a list of `len` entries: the length
/// of the longest prefix of `order` that can be taken out.
pub fn count_removable(len: usize, order: &Vec<usize>) -> (k: usize)
    ensures
        k == removable_count(len as nat, order@),
        k <= order@.len(),
        k <= len,
{
    let mut k: usize = 0;
    assert(order@.skip(0) =~= order@);
    while k < order.len() && k < len && order[k] < len - k
        invariant
            0 <= k <= order@.len(),
            k <= len,
            removable_count(len as nat, order@) == k + removable_count(
                (len - k) as nat,
                order@.skip(k as int),
            ),
        decreases order@.len() - k,
    {
        proof {
            let rest = order@.skip(k as int);
            assert(rest[0] == order@[k as int]);
            assert(rest.drop_first() =~= order@.skip(k + 1));
        }
        k = k + 1;
    }
    proof {
        let rest = order@.skip(k as int);
        if k < order.len() {
            assert(rest[0] == order@[k as int]);
        }
    }
    k
}

impl TodoList {
    /// The empty list.
    pub fn new() -> (list: TodoList)
        ensures
            list@ == Seq::<Seq<char>>::empty(),
    {
        let list = TodoList { entries: Vec::new() };
        assert(list@ =~= Seq::<Seq<char>>::empty());
        list
    }

    /// The number of entries.
    pub fn len(&self) -> (n: usize)
        ensures
            n == self@.len(),
    {
        self.entries.len()
    }

    /// Appends `new` to the list, each text as it is and in the given order.
    pub fn add(&mut self, new: Vec<String>)
        ensures
            final(self)@ == old(self)@ + texts(new@),
    {
        let ghost added = texts(new@);
        let mut rest = new;
        self.entries.append(&mut rest);
        assert(self@ =~= old(self)@ + added);
    }

    /// Takes the entries at the positions of `order` out of the list, one
    /// after the other, and returns them in the order in which they left.
    /// Each position counts in the list as the removals before it have left
    /// it.
    pub fn remove_all(&mut self, order: &Vec<usize>) -> (removed: Vec<String>)
        requires
            removable(old(self)@.len(), order@),
        ensures
            final(self)@ == without(old(self)@, order@),
            texts(removed@) == taken(old(self)@, order@),
    {
        let mut removed: Vec<String> = Vec::new();
        let mut j: usize = 0;
        assert(order@.skip(0) =~= order@);
        assert(texts(removed@) =~= Seq::<Seq<char>>::empty());
        while j < order.len()
            invariant
                0 <= j <= order@.len(),
                removable(self@.len(), order@.skip(j as int)),
                without(old(self)@, order@) == without(self@, order@.skip(j as int)),
                taken(old(self)@, order@) == texts(removed@) + taken(
                    self@,
                    order@.skip(j as int),
                ),
            decreases order@.len() - j,
        {
            let idx: usize = order[j];
            let ghost before = self@;
            let ghost rest = order@.skip(j as int);
            proof {
                assert(rest[0] == idx);
                assert(rest.drop_first() =~= order@.skip(j + 1));
            }
            let entry = self.entries.remove(idx);
            proof {
                assert(self@ =~= before.remove(idx as int));
                assert(texts(removed@.push(entry)) =~= texts(removed@) + seq![before[idx as int]]);
            }
            removed.push(entry);
            j = j + 1;
        }
        removed
    }
}

} // verus!
