//! The table of sub-region offsets inside the collision container, the one
//! place where stored offsets are not in file order: it is sorted before
//! neighbouring offsets are subtracted.

use vstd::prelude::*;

verus! {

/// One slot of the table: its place in the header and the offset stored
/// there. An offset of zero marks a slot that is absent.
#[derive(Clone, Copy, Debug, PartialEq, Eq, Structural)]
pub struct SubRegion {
    pub slot: usize,
    pub offset: u32,
}

/// `entry` put behind every element of `sorted` whose offset is not larger.
pub open spec fn insert_sorted(sorted: Seq<SubRegion>, entry: SubRegion) -> Seq<SubRegion>
    decreases sorted.len(),
{
    if sorted.len() == 0 {
        seq![entry]
    } else if sorted.last().offset <= entry.offset {
        sorted.push(entry)
    } else {
        insert_sorted(sorted.drop_last(), entry).push(sorted.last())
    }
}

/// The table in ascending order of offset; slots with equal offsets keep the
/// order in which the table lists them.
pub open spec fn stable_sort(table: Seq<SubRegion>) -> Seq<SubRegion>
    decreases table.len(),
{
    if table.len() == 0 {
        Seq::empty()
    } else {
        insert_sorted(stable_sort(table.drop_last()), table.last())
    }
}

/// Offsets never decrease along `table`.
pub open spec fn ascending(table: Seq<SubRegion>) -> bool {
    forall|i: int, j: int| 0 <= i <= j < table.len() ==> table[i].offset <= table[j].offset
}

/// Among slots with equal offsets the slot numbers increase along `table`.
pub open spec fn ties_in_slot_order(table: Seq<SubRegion>) -> bool {
    forall|i: int, j: int|
        0 <= i < j < table.len() && table[i].offset == table[j].offset ==> table[i].slot
            < table[j].slot
}

/// Slot numbers increase along `table`.
pub open spec fn slots_increase(table: Seq<SubRegion>) -> bool {
    forall|i: int, j: int| 0 <= i < j < table.len() ==> table[i].slot < table[j].slot
}

/// Inserting at index `at` is what `insert_sorted` does, where every element
/// from `at` on has a larger offset and the one before `at` has not.
pub proof fn lemma_insert_at(sorted: Seq<SubRegion>, entry: SubRegion, at: int)
    requires
        0 <= at <= sorted.len(),
        forall|k: int| at <= k < sorted.len() ==> sorted[k].offset > entry.offset,
        at > 0 ==> sorted[at - 1].offset <= entry.offset,
    ensures
        insert_sorted(sorted, entry) == sorted.insert(at, entry),
    decreases sorted.len(),
{
    if sorted.len() == 0 {
        assert(sorted.insert(at, entry) =~= seq![entry]);
    } else if at == sorted.len() {
        assert(sorted.insert(at, entry) =~= sorted.push(entry));
    } else {
        lemma_insert_at(sorted.drop_last(), entry, at);
        assert(sorted.insert(at, entry) =~= sorted.drop_last().insert(at, entry).push(
            sorted.last(),
        ));
    }
}

/// `insert_sorted` adds one element and loses none.
pub proof fn lemma_insert_sorted_len(sorted: Seq<SubRegion>, entry: SubRegion)
    ensures
        insert_sorted(sorted, entry).len() == sorted.len() + 1,
        insert_sorted(sorted, entry).to_multiset() == sorted.to_multiset().insert(entry),
    decreases sorted.len(),
{
    broadcast use vstd::seq_lib::group_to_multiset_ensures;

    if sorted.len() == 0 {
        assert(seq![entry] =~= Seq::<SubRegion>::empty().push(entry));
        assert(sorted =~= Seq::<SubRegion>::empty());
    } else if sorted.last().offset <= entry.offset {
    } else {
        lemma_insert_sorted_len(sorted.drop_last(), entry);
        assert(sorted =~= sorted.drop_last().push(sorted.last()));
        assert(sorted.to_multiset() =~= sorted.drop_last().to_multiset().insert(sorted.last()));
        assert(insert_sorted(sorted, entry).to_multiset() =~= sorted.to_multiset().insert(entry));
    }
}

/// `insert_sorted` keeps an ascending sequence ascending, and the order of
/// ties when the new entry's slot is larger than every slot present.
pub proof fn lemma_insert_sorted_order(sorted: Seq<SubRegion>, entry: SubRegion)
    requires
        ascending(sorted),
    ensures
        ascending(insert_sorted(sorted, entry)),
        ties_in_slot_order(sorted) && (forall|k: int|
            0 <= k < sorted.len() ==> sorted[k].slot < entry.slot) ==> ties_in_slot_order(
            insert_sorted(sorted, entry),
        ),
    decreases sorted.len(),
{
    if sorted.len() == 0 {
    } else if sorted.last().offset <= entry.offset {
    } else {
        let init = sorted.drop_last();
        lemma_insert_sorted_order(init, entry);
        lemma_insert_sorted_len(init, entry);
        lemma_insert_sorted_bound(init, entry, sorted.last().offset);
        let mid = insert_sorted(init, entry);
        let out = mid.push(sorted.last());
        assert forall|i: int, j: int| 0 <= i <= j < out.len() implies out[i].offset
            <= out[j].offset by {
            if j < mid.len() {
            } else if i < mid.len() {
            }
        }
        if ties_in_slot_order(sorted) && (forall|k: int|
            0 <= k < sorted.len() ==> sorted[k].slot < entry.slot) {
            assert(ties_in_slot_order(init));
            assert forall|i: int, j: int|
                0 <= i < j < out.len() && out[i].offset == out[j].offset implies out[i].slot
                < out[j].slot by {
                if j < mid.len() {
                } else {
                    lemma_insert_sorted_member(init, entry, i);
                }
            }
        }
    }
}

/// Every element of `insert_sorted(sorted, entry)` is `entry` or an element
/// of `sorted`, the latter at the same index or the one before.
pub proof fn lemma_insert_sorted_member(sorted: Seq<SubRegion>, entry: SubRegion, i: int)
    requires
        0 <= i < insert_sorted(sorted, entry).len(),
    ensures
        insert_sorted(sorted, entry)[i] == entry || (i < sorted.len() && insert_sorted(
            sorted,
            entry,
        )[i] == sorted[i]) || (0 < i && insert_sorted(sorted, entry)[i] == sorted[i - 1]),
    decreases sorted.len(),
{
    lemma_insert_sorted_len(sorted, entry);
    if sorted.len() == 0 {
    } else if sorted.last().offset <= entry.offset {
    } else {
        lemma_insert_sorted_len(sorted.drop_last(), entry);
        if i < sorted.len() {
            lemma_insert_sorted_member(sorted.drop_last(), entry, i);
        }
    }
}

/// Where `entry` and every element of `sorted` stay at or below `bound`, so
/// does every element of `insert_sorted(sorted, entry)`.
pub proof fn lemma_insert_sorted_bound(sorted: Seq<SubRegion>, entry: SubRegion, bound: u32)
    requires
        entry.offset <= bound,
        forall|k: int| 0 <= k < sorted.len() ==> sorted[k].offset <= bound,
    ensures
        forall|k: int|
            0 <= k < insert_sorted(sorted, entry).len() ==> insert_sorted(sorted, entry)[k].offset
                <= bound,
{
    let out = insert_sorted(sorted, entry);
    lemma_insert_sorted_len(sorted, entry);
    assert forall|k: int| 0 <= k < out.len() implies out[k].offset <= bound by {
        lemma_insert_sorted_member(sorted, entry, k);
    }
}

/// A stable sort is what its name says: it holds the elements of the table,
/// each as often as the table does, in ascending order of offset, and slots
/// with equal offsets in the table's order.
pub proof fn lemma_stable_sort(table: Seq<SubRegion>)
    ensures
        stable_sort(table).len() == table.len(),
        stable_sort(table).to_multiset() == table.to_multiset(),
        ascending(stable_sort(table)),
        slots_increase(table) ==> ties_in_slot_order(stable_sort(table)),
    decreases table.len(),
{
    broadcast use vstd::seq_lib::group_to_multiset_ensures;

    if table.len() == 0 {
        assert(table =~= Seq::<SubRegion>::empty());
    } else {
        let init = table.drop_last();
        lemma_stable_sort(init);
        lemma_insert_sorted_len(stable_sort(init), table.last());
        lemma_insert_sorted_order(stable_sort(init), table.last());
        assert(table =~= init.push(table.last()));
        assert(table.to_multiset() =~= init.to_multiset().insert(table.last()));
        if slots_increase(table) {
            assert(slots_increase(init));
            let sorted = stable_sort(init);
            assert forall|k: int| 0 <= k < sorted.len() implies sorted[k].slot
                < table.last().slot by {
                assert(sorted.to_multiset().count(sorted[k]) > 0);
                assert(init.to_multiset().count(sorted[k]) > 0);
                assert(init.contains(sorted[k]));
                let w = choose|w: int| 0 <= w < init.len() && init[w] == sorted[k];
                assert(table[w] == sorted[k]);
            }
        }
    }
}

/// Sorts the table in place by ascending offset, keeping the order of slots
/// whose offsets are equal.
pub fn sort_by_offset(table: &mut Vec<SubRegion>)
    ensures
        final(table)@ == stable_sort(old(table)@),
        final(table)@.len() == old(table)@.len(),
        ascending(final(table)@),
{
    let mut sorted: Vec<SubRegion> = Vec::new();
    let mut i: usize = 0;
    while i < table.len()
        invariant
            0 <= i <= table@.len(),
            table@ == old(table)@,
            sorted@ == stable_sort(table@.subrange(0, i as int)),
            sorted@.len() == i,
        decreases table@.len() - i,
    {
        let entry: SubRegion = table[i];
        let mut at: usize = sorted.len();
        while at > 0 && sorted[at - 1].offset > entry.offset
            invariant
                0 <= at <= sorted@.len(),
                forall|k: int| at <= k < sorted@.len() ==> sorted@[k].offset > entry.offset,
            decreases at,
        {
            at -= 1;
        }
        proof {
            lemma_insert_at(sorted@, entry, at as int);
            assert(table@.subrange(0, i + 1).drop_last() =~= table@.subrange(0, i as int));
        }
        sorted.insert(at, entry);
        i += 1;
    }
    proof {
        assert(table@.subrange(0, i as int) =~= table@);
        lemma_stable_sort(table@);
    }
    *table = sorted;
}

} // verus!
