//! What a batch store holds, as a mathematical value, and what the store's
//! operations do to it.

use vstd::prelude::*;
use vstd::std_specs::cmp::PartialEqSpec;
use crate::merge::lemma_merge_slot;
use crate::merge::lemma_merge_slot_by_keys;
use crate::merge::lemma_second_insert_merges;
use crate::merge::merge_slot;
use crate::merge::placed;

verus! {

/// What a store holds, as the contracts see it: for each primary key the
/// records of its shell, each a secondary key with its items, and the count of
/// the items taken in since the store was last cleared.
#[verifier::reject_recursive_types(PK)]
pub struct BatchState<PK, SK, D> {
    pub shells: Map<PK, Seq<(SK, Seq<D>)>>,
    pub count: nat,
}

/// The same records, each with no items.
pub open spec fn emptied<SK, D>(records: Seq<(SK, Seq<D>)>) -> Seq<(SK, Seq<D>)> {
    records.map_values(|record: (SK, Seq<D>)| (record.0, Seq::<D>::empty()))
}

impl<PK, SK: PartialEq, D> BatchState<PK, SK, D> {
    /// The state of a new store.
    pub open spec fn empty() -> Self {
        BatchState { shells: Map::empty(), count: 0 }
    }

    /// The state after `items` were inserted under `pk` and `sk`.
    pub open spec fn insert(self, pk: PK, sk: SK, items: Seq<D>) -> Self {
        BatchState {
            shells: self.shells.insert(pk, placed(self.shells.get(pk), sk, items)),
            count: self.count + items.len(),
        }
    }

    /// The state after a clear: every record is still there, under its key
    /// and in its place, with no items, and the count is zero.
    pub open spec fn clear(self) -> Self {
        BatchState {
            shells: self.shells.map_values(|records: Seq<(SK, Seq<D>)>| emptied(records)),
            count: 0,
        }
    }

    /// The state after the primary keys whose shell has no record were dropped.
    pub open spec fn prune(self) -> Self {
        BatchState {
            shells: self.shells.restrict(
                Set::new(|pk: PK| self.shells.contains_key(pk) && self.shells[pk].len() > 0),
            ),
            count: self.count,
        }
    }
}

/// `entries` lists the shells of a store: each primary key once, in some
/// order, with the records of its shell.
pub open spec fn lists_shells<PK, SK, D>(
    entries: Seq<(PK, Seq<(SK, Seq<D>)>)>,
    shells: Map<PK, Seq<(SK, Seq<D>)>>,
) -> bool {
    &&& forall|i: int|
        0 <= i < entries.len() ==> shells.contains_key((#[trigger] entries[i]).0)
            && shells[entries[i].0] == entries[i].1
    &&& forall|i: int, j: int|
        0 <= i < j < entries.len() ==> (#[trigger] entries[i]).0 != (#[trigger] entries[j]).0
    &&& forall|pk: PK| #[trigger]
        shells.contains_key(pk) ==> exists|i: int|
            0 <= i < entries.len() && (#[trigger] entries[i]).0 == pk
}

/// The items of each of `records`.
pub open spec fn items_of<SK, D>(records: Seq<(SK, Seq<D>)>) -> Seq<Seq<D>> {
    Seq::new(records.len(), |i: int| records[i].1)
}

/// The items of every record of `entries`, record by record: the records of
/// the first shell in their order, then those of the second, and so on.
pub open spec fn record_items<PK, SK, D>(entries: Seq<(PK, Seq<(SK, Seq<D>)>)>) -> Seq<Seq<D>>
    decreases entries.len(),
{
    if entries.len() == 0 {
        Seq::empty()
    } else {
        record_items(entries.drop_last()) + items_of(entries.last().1)
    }
}

/// The state after each of `calls` was inserted in turn: a call is a primary
/// key, a secondary key and the items.
pub open spec fn insert_all<PK, SK: PartialEq, D>(
    state: BatchState<PK, SK, D>,
    calls: Seq<(PK, SK, Seq<D>)>,
) -> BatchState<PK, SK, D>
    decreases calls.len(),
{
    if calls.len() == 0 {
        state
    } else {
        insert_all(state, calls.drop_last()).insert(
            calls.last().0,
            calls.last().1,
            calls.last().2,
        )
    }
}

/// The number of items of `calls` taken together.
pub open spec fn total_items<PK, SK, D>(calls: Seq<(PK, SK, Seq<D>)>) -> nat
    decreases calls.len(),
{
    if calls.len() == 0 {
        0
    } else {
        total_items(calls.drop_last()) + calls.last().2.len()
    }
}

/// The count goes up by the number of items of every insert, merged or not,
/// and whether or not an item came before: after any inserts it is the count
/// from before plus the items of all of them.
pub proof fn lemma_count_adds_up<PK, SK: PartialEq, D>(
    state: BatchState<PK, SK, D>,
    calls: Seq<(PK, SK, Seq<D>)>,
)
    ensures
        insert_all(state, calls).count == state.count + total_items(calls),
    decreases calls.len(),
{
    if calls.len() > 0 {
        lemma_count_adds_up(state, calls.drop_last());
    }
}

/// After `calls.len()` inserts of `m` items each into a new or cleared store,
/// the count is `calls.len() * m`.
pub proof fn lemma_count_of_even_inserts<PK, SK: PartialEq, D>(
    state: BatchState<PK, SK, D>,
    calls: Seq<(PK, SK, Seq<D>)>,
    m: nat,
)
    requires
        state.count == 0,
        forall|i: int| 0 <= i < calls.len() ==> (#[trigger] calls[i]).2.len() == m,
    ensures
        insert_all(state, calls).count == calls.len() * m,
    decreases calls.len(),
{
    if calls.len() > 0 {
        let earlier = calls.drop_last();
        assert forall|i: int| 0 <= i < earlier.len() implies (#[trigger] earlier[i]).2.len()
            == m by {
            assert(earlier[i] == calls[i]);
        }
        lemma_count_of_even_inserts(state, earlier, m);
        assert(calls.len() * m == earlier.len() * m + m) by (nonlinear_arith)
            requires
                calls.len() == earlier.len() + 1,
        ;
    } else {
        assert(calls.len() * m == 0) by (nonlinear_arith)
            requires
                calls.len() == 0,
        ;
    }
}

/// Two inserts in a row under the same keys, into a store that does not have
/// the primary key yet, give one shell with one record, which holds the items
/// of the first insert and then those of the second. (The secondary key must
/// equal itself.)
pub proof fn lemma_insert_twice_gives_one_record<PK, SK: PartialEq, D>(
    state: BatchState<PK, SK, D>,
    pk: PK,
    sk: SK,
    first: Seq<D>,
    second: Seq<D>,
)
    requires
        !state.shells.contains_key(pk),
        sk.eq_spec(&sk),
    ensures
        ({
            let after = state.insert(pk, sk, first).insert(pk, sk, second);
            &&& after.shells == state.shells.insert(pk, seq![(sk, first + second)])
            &&& after.count == state.count + first.len() + second.len()
        }),
{
    let after = state.insert(pk, sk, first).insert(pk, sk, second);
    lemma_second_insert_merges(None, sk, first, second);
    assert(after.shells =~= state.shells.insert(pk, seq![(sk, first + second)]));
}

/// A clear sets the count to zero and empties every record, and no more: the
/// primary keys are the same, each shell has as many records as before, and
/// each record has the key it had and no items.
pub proof fn lemma_clear_keeps_records<PK, SK: PartialEq, D>(state: BatchState<PK, SK, D>)
    ensures
        state.clear().count == 0,
        state.clear().shells.dom() == state.shells.dom(),
        forall|pk: PK| #[trigger]
            state.shells.contains_key(pk) ==> {
                &&& state.clear().shells[pk].len() == state.shells[pk].len()
                &&& forall|i: int|
                    0 <= i < state.shells[pk].len() ==> #[trigger] state.clear().shells[pk][i] == (
                        state.shells[pk][i].0,
                        Seq::<D>::empty(),
                    )
            },
{
    assert(state.clear().shells.dom() =~= state.shells.dom());
}

/// A prune drops exactly the primary keys whose shell has no record: those
/// are gone, every other key has the shell it had, and the count is as it
/// was. A listing of the pruned store therefore names no key with an empty
/// shell.
pub proof fn lemma_prune_drops_empty_shells<PK, SK: PartialEq, D>(
    state: BatchState<PK, SK, D>,
    entries: Seq<(PK, Seq<(SK, Seq<D>)>)>,
)
    requires
        lists_shells(entries, state.prune().shells),
    ensures
        state.prune().count == state.count,
        forall|pk: PK|
            state.prune().shells.contains_key(pk) <==> #[trigger] state.shells.contains_key(pk)
                && state.shells[pk].len() > 0,
        forall|pk: PK| #[trigger]
            state.prune().shells.contains_key(pk) ==> state.prune().shells[pk] == state.shells[pk],
        forall|i: int| 0 <= i < entries.len() ==> (#[trigger] entries[i]).1.len() > 0,
{
}

/// After a clear, an insert under a primary key and a secondary key that were
/// there before goes into the record that is still there, now empty: the
/// shell gets no new record and the store no new shell. The record holds the
/// new items alone. (This is for a secondary key whose record the scan finds,
/// that is one within the window.)
pub proof fn lemma_clear_then_insert_reuses<PK, SK: PartialEq, D>(
    state: BatchState<PK, SK, D>,
    pk: PK,
    sk: SK,
    items: Seq<D>,
)
    requires
        state.shells.contains_key(pk),
        merge_slot(state.shells[pk], sk) is Some,
    ensures
        ({
            let before = state.shells[pk];
            let i = merge_slot(before, sk)->0;
            let after = state.clear().insert(pk, sk, items);
            &&& after.shells.dom() == state.shells.dom()
            &&& after.shells[pk].len() == before.len()
            &&& after.shells[pk] == emptied(before).update(i, (before[i].0, items))
            &&& after.count == items.len()
        }),
{
    let before = state.shells[pk];
    let i = merge_slot(before, sk)->0;
    let after = state.clear().insert(pk, sk, items);
    lemma_merge_slot(before, sk);
    lemma_merge_slot_by_keys(before, emptied(before), sk);
    assert(emptied(before)[i].1 + items =~= items);
    assert(after.shells.dom() =~= state.shells.dom());
}

} // verus!
