//! Marking entries as done: the arguments name entries by their displayed
//! numbers, and the entries they name leave the list.

use vstd::prelude::*;
use crate::index::{entry_index, parse_index};
use vstd::seq_lib::*;
use crate::list::{
    count_removable, lemma_descending_removal, positions, removable, removable_count,
    strictly_descending, survivors, taken, texts, without, TodoList,
};
use crate::order::{descending, lemma_descending, sort_descending};

verus! {

/// The positions that the arguments name, in the order of the arguments.
/// Arguments that name no entry are passed over; a position named twice
/// occurs twice.
pub open spec fn named_positions(args: Seq<Seq<char>>) -> Seq<usize>
    decreases args.len(),
{
    if args.len() == 0 {
        Seq::empty()
    } else {
        match entry_index(args.last()) {
            Some(p) => named_positions(args.drop_last()).push(p),
            None => named_positions(args.drop_last()),
        }
    }
}

/// The arguments that name no entry, in the order of the arguments.
pub open spec fn unreadable(args: Seq<Seq<char>>) -> Seq<Seq<char>>
    decreases args.len(),
{
    if args.len() == 0 {
        Seq::empty()
    } else {
        match entry_index(args.last()) {
            Some(_) => unreadable(args.drop_last()),
            None => unreadable(args.drop_last()).push(args.last()),
        }
    }
}

/// The order in which the entries that `args` name are removed: the named
/// positions, highest first.
pub open spec fn removal_order(args: Seq<Seq<char>>) -> Seq<usize> {
    descending(named_positions(args))
}

/// The longest prefix of `order` that can be taken out of a list of `len`
/// entries can indeed be taken out.
pub proof fn lemma_removable_prefix(len: nat, order: Seq<usize>)
    ensures
        removable_count(len, order) <= order.len(),
        removable(len, order.take(removable_count(len, order) as int)),
    decreases order.len(),
{
    let k = removable_count(len, order) as int;
    if order.len() == 0 || order[0] >= len {
        assert(order.take(0).len() == 0);
    } else {
        lemma_removable_prefix((len - 1) as nat, order.drop_first());
        assert(order.take(k).drop_first() =~= order.drop_first().take(k - 1));
    }
}

/// Where the arguments name distinct entries of the list, in whatever order,
/// marking them as done takes out exactly the entries at the named
/// positions and leaves the others in their order: every removal succeeds,
/// the list is left without the entries at those positions, and the entries
/// leave from the highest position down.
pub proof fn lemma_done_removes_named<T>(list: Seq<T>, args: Seq<Seq<char>>)
    requires
        named_positions(args).no_duplicates(),
        forall|k: int|
            0 <= k < named_positions(args).len() ==> named_positions(args)[k] < list.len(),
    ensures
        removable(list.len(), removal_order(args)),
        first_out_of_range(list.len(), removal_order(args)) is None,
        strictly_descending(removal_order(args)),
        without(list, removal_order(args)) == survivors(list, positions(named_positions(args))),
        taken(list, removal_order(args)) == Seq::new(
            removal_order(args).len(),
            |k: int| list[removal_order(args)[k] as int],
        ),
{
    let named = named_positions(args);
    let order = removal_order(args);
    lemma_descending(named);
    named.lemma_multiset_has_no_duplicates();
    order.lemma_multiset_has_no_duplicates_conv();
    assert forall|k: int| 0 <= k < order.len() implies order[k] < list.len() by {
        assert(order.contains(order[k]));
        to_multiset_contains(order, order[k]);
        to_multiset_contains(named, order[k]);
    }
    assert(positions(order) =~= positions(named)) by {
        assert forall|p: int| positions(order).contains(p) implies positions(named).contains(
            p,
        ) by {
            let k = choose|k: int| 0 <= k < order.len() && #[trigger] order[k] == p;
            assert(order.contains(order[k]));
            to_multiset_contains(order, order[k]);
            to_multiset_contains(named, order[k]);
            let j = choose|j: int| 0 <= j < named.len() && named[j] == order[k];
            assert(named[j] == p);
        }
        assert forall|p: int| positions(named).contains(p) implies positions(order).contains(
            p,
        ) by {
            let k = choose|k: int| 0 <= k < named.len() && #[trigger] named[k] == p;
            assert(named.contains(named[k]));
            to_multiset_contains(order, named[k]);
            to_multiset_contains(named, named[k]);
            let j = choose|j: int| 0 <= j < order.len() && order[j] == named[k];
            assert(order[j] == p);
        }
    }
    lemma_descending_removal(list, order);
}

/// Sorts the arguments into the positions they name and the arguments that
/// name none, each in the order of the arguments.
pub fn read_positions(args: &Vec<String>) -> (r: (Vec<usize>, Vec<String>))
    ensures
        r.0@ == named_positions(texts(args@)),
        texts(r.1@) == unreadable(texts(args@)),
{
    let mut named: Vec<usize> = Vec::new();
    let mut rejected: Vec<String> = Vec::new();
    let mut i: usize = 0;
    let ghost all = texts(args@);
    assert(all.take(0) =~= Seq::<Seq<char>>::empty());
    assert(texts(rejected@) =~= Seq::<Seq<char>>::empty());
    while i < args.len()
        invariant
            0 <= i <= args@.len(),
            all == texts(args@),
            named@ == named_positions(all.take(i as int)),
            texts(rejected@) == unreadable(all.take(i as int)),
        decreases args@.len() - i,
    {
        let arg = &args[i];
        proof {
            assert(all.take(i + 1).drop_last() =~= all.take(i as int));
            assert(all.take(i + 1).last() == arg@);
        }
        match parse_index(arg.as_str()) {
            Some(p) => {
                named.push(p);
            },
            None => {
                let copy = arg.clone();
                assert(texts(rejected@.push(copy)) =~= texts(rejected@).push(arg@));
                rejected.push(copy);
            },
        }
        i = i + 1;
    }
    assert(all.take(i as int) =~= all);
    (named, rejected)
}

/// What marking entries as done has brought about.
#[derive(Debug)]
pub struct DoneReport {
    /// The entries that left the list, in the order in which they left.
    pub removed: Vec<String>,
    /// The arguments that name no entry, in the order of the arguments.
    pub rejected: Vec<String>,
    /// The position at which the removals stopped because it lay outside
    /// the list as it then was; `None` if every named position was taken out.
    pub out_of_range: Option<usize>,
}

/// The position at which the removals of `order` stop on a list of `len`
/// entries: the first that cannot be taken out, if there is one.
pub open spec fn first_out_of_range(len: nat, order: Seq<usize>) -> Option<usize> {
    let k = removable_count(len, order) as int;
    if k < order.len() {
        Some(order[k])
    } else {
        None
    }
}

impl TodoList {
    /// Marks as done the entries that `args` name by their displayed
    /// numbers. The named positions are taken out highest first, each from
    /// the list as the removals before it have left it; the removals stop at
    /// the first position that lies outside that list, which the report then
    /// names.
    pub fn done(&mut self, args: &Vec<String>) -> (report: DoneReport)
        ensures
            ({
                let order = removal_order(texts(args@));
                let k = removable_count(old(self)@.len(), order) as int;
                &&& k <= order.len()
                &&& final(self)@ == without(old(self)@, order.take(k))
                &&& texts(report.removed@) == taken(old(self)@, order.take(k))
                &&& texts(report.rejected@) == unreadable(texts(args@))
                &&& report.out_of_range == first_out_of_range(old(self)@.len(), order)
            }),
    {
        let (named, rejected) = read_positions(args);
        let mut order = sort_descending(&named);
        let ghost whole = order@;
        let k: usize = count_removable(self.entries.len(), &order);
        let out_of_range = if k < order.len() {
            Some(order[k])
        } else {
            None
        };
        order.truncate(k);
        proof {
            lemma_removable_prefix(self@.len(), whole);
            assert(order@ =~= whole.take(k as int));
        }
        let removed = self.remove_all(&order);
        DoneReport { removed, rejected, out_of_range }
    }
}

} // verus!
