//! Grouping of a keyed stream into runs of adjacent items with matching keys.
//!
//! The stream is taken as it comes: nothing is sorted, and two runs with the
//! same key that do not touch stay two groups.

use vstd::prelude::*;
use vstd::std_specs::cmp::PartialEqSpec;
use vstd::std_specs::iter::IteratorSpec;
use crate::stream::ends;

verus! {

/// Capacity reserved for the run buffer when the first run starts. The buffer
/// is emptied and used again for every later run.
pub const GROUP_BUFFER_CAPACITY: usize = 64;

/// The values of a keyed sequence, in order.
pub open spec fn values_of<K, V>(items: Seq<(K, V)>) -> Seq<V> {
    items.map_values(|item: (K, V)| item.1)
}

/// How many items at the front of `items` continue a run that began with
/// `key`: the items up to the first whose key `key` does not equal.
pub open spec fn run_extent<K: PartialEq, V>(key: K, items: Seq<(K, V)>) -> int
    decreases items.len(),
{
    if items.len() > 0 && key.eq_spec(&items[0].0) {
        1 + run_extent(key, items.drop_first())
    } else {
        0
    }
}

/// The groups of `items`: each is the key that opened a run and the values of
/// that run. A run is opened by the first item after the previous run (or the
/// first item of all) and takes in every following item that the opening key
/// equals, up to the first that it does not.
pub open spec fn groups<K: PartialEq, V>(items: Seq<(K, V)>) -> Seq<(K, Seq<V>)>
    decreases items.len(),
{
    if items.len() == 0 {
        Seq::empty()
    } else {
        let n = 1 + run_extent(items[0].0, items.drop_first());
        proof {
            lemma_run_extent_maximal(items[0].0, items.drop_first());
        }
        seq![(items[0].0, values_of(items.take(n)))] + groups(items.skip(n))
    }
}

/// The groups still to come once a run is in flight: the run, opened by `key`
/// and holding `held` so far, completed from the front of `rest`, then the
/// groups of what follows it.
pub open spec fn groups_after<K: PartialEq, V>(key: K, held: Seq<V>, rest: Seq<(K, V)>) -> Seq<
    (K, Seq<V>),
> {
    let n = run_extent(key, rest);
    seq![(key, held + values_of(rest.take(n)))] + groups(rest.skip(n))
}

/// The callback accepts a group: it may be called with `key` and any buffer
/// that holds `values`.
pub open spec fn accepts<K, V, F: FnMut(K, &mut Vec<V>)>(
    on_group: F,
    key: K,
    values: Seq<V>,
) -> bool {
    forall|buffer: &mut Vec<V>|
        (*buffer)@ == values ==> #[trigger] call_requires(on_group, (key, buffer))
}

/// The callback has been run on a group: its postcondition holds of a call
/// that was handed `key` and a buffer holding exactly `values`.
pub open spec fn handed_to<K, V, F: FnMut(K, &mut Vec<V>)>(
    on_group: F,
    key: K,
    values: Seq<V>,
) -> bool {
    exists|buffer: &mut Vec<V>|
        (*buffer)@ == values && #[trigger] call_ensures(on_group, (key, buffer), ())
}

/// Grouping for every iterator over keyed items. The keys are only compared
/// with their neighbours: they need no order and no hash.
pub trait GroupIterator<K, V> where Self: Iterator<Item = (K, V)> + Sized, K: PartialEq {
    /// Runs `on_group` once for each group of the items that this iterator
    /// yields, in order, with the key that opened the run and a buffer of the
    /// run's values. The last run is handed over when the iterator is
    /// exhausted; an iterator that yields nothing leads to no call. The
    /// buffer is scratch space: the callback may change or drain it, and what
    /// it leaves there is discarded.
    ///
    /// The iterator has to end, and the callback has to accept every group.
    /// What is promised is that the callback's own postcondition holds for
    /// every group of the input.
    fn for_each_group<F>(self, on_group: F) where F: FnMut(K, &mut Vec<V>)
        requires
            ends(&self),
            K::obeys_eq_spec(),
            forall|i: int|
                0 <= i < groups(self.remaining()).len() ==> accepts(
                    on_group,
                    (#[trigger] groups(self.remaining())[i]).0,
                    groups(self.remaining())[i].1,
                ),
        ensures
            forall|i: int|
                0 <= i < groups(self.remaining()).len() ==> handed_to(
                    on_group,
                    (#[trigger] groups(self.remaining())[i]).0,
                    groups(self.remaining())[i].1,
                ),
    ;
}

impl<K, V, I> GroupIterator<K, V> for I where K: PartialEq, I: Iterator<Item = (K, V)> {
    fn for_each_group<F>(self, mut on_group: F) where F: FnMut(K, &mut Vec<V>) {
        let mut items = self;
        let ghost callback = on_group;
        let mut block: Option<(K, Vec<V>)> = None;
        let ghost all = groups(items.remaining());
        let ghost mut done: int = 0;
        loop
            invariant
                ends(&items),
                K::obeys_eq_spec(),
                on_group == callback,
                forall|i: int|
                    0 <= i < all.len() ==> accepts(on_group, (#[trigger] all[i]).0, all[i].1),
                forall|i: int|
                    0 <= i < done ==> handed_to(on_group, (#[trigger] all[i]).0, all[i].1),
                0 <= done <= all.len(),
                match block {
                    None => done == 0 && all == groups(items.remaining()),
                    Some((key, buffer)) => all.skip(done) == groups_after(
                        key,
                        buffer@,
                        items.remaining(),
                    ),
                },
            ensures
                items.remaining().len() == 0,
            decreases items.decrease()->0,
        {
            let ghost rest = items.remaining();
            match items.next() {
                None => {
                    break;
                },
                Some((next_key, value)) => {
                    match block.take() {
                        None => {
                            proof {
                                lemma_groups_open(rest);
                            }
                            let mut buffer = Vec::with_capacity(GROUP_BUFFER_CAPACITY);
                            buffer.push(value);
                            block = Some((next_key, buffer));
                        },
                        Some((key, mut buffer)) => {
                            if key == next_key {
                                proof {
                                    lemma_groups_after_join(key, buffer@, rest);
                                }
                                buffer.push(value);
                                block = Some((key, buffer));
                            } else {
                                proof {
                                    lemma_groups_after_close(key, buffer@, rest);
                                    lemma_groups_open(rest);
                                    assert(all[done] == all.skip(done)[0]);
                                    assert(all.skip(done + 1) =~= all.skip(done).skip(1));
                                }
                                on_group(key, &mut buffer);
                                buffer.clear();
                                buffer.push(value);
                                proof {
                                    done = done + 1;
                                }
                                block = Some((next_key, buffer));
                            }
                        },
                    }
                },
            }
        }
        if let Some((key, mut buffer)) = block {
            proof {
                lemma_groups_after_close(key, buffer@, items.remaining());
                assert(all[done] == all.skip(done)[0]);
            }
            on_group(key, &mut buffer);
        }
    }
}

/// Every item that continues a run has a key that the run's key equals, and
/// the item after the run, if there is one, has a key that it does not equal.
pub proof fn lemma_run_extent_maximal<K: PartialEq, V>(key: K, items: Seq<(K, V)>)
    ensures
        0 <= run_extent(key, items) <= items.len(),
        forall|j: int| 0 <= j < run_extent(key, items) ==> key.eq_spec(&(#[trigger] items[j]).0),
        run_extent(key, items) < items.len() ==> !key.eq_spec(&items[run_extent(key, items)].0),
    decreases items.len(),
{
    if items.len() > 0 && key.eq_spec(&items[0].0) {
        let tail = items.drop_first();
        lemma_run_extent_maximal(key, tail);
        assert forall|j: int| 0 <= j < run_extent(key, items) implies key.eq_spec(
            &(#[trigger] items[j]).0,
        ) by {
            if j > 0 {
                assert(items[j] == tail[j - 1]);
            }
        }
        if run_extent(key, items) < items.len() {
            assert(items[run_extent(key, items)] == tail[run_extent(key, tail)]);
        }
    }
}

/// The groups of a non-empty input are those that follow from a run opened by
/// its first item.
pub proof fn lemma_groups_open<K: PartialEq, V>(items: Seq<(K, V)>)
    requires
        items.len() > 0,
    ensures
        groups(items) == groups_after(items[0].0, seq![items[0].1], items.drop_first()),
{
    let rest = items.drop_first();
    let n = run_extent(items[0].0, rest);
    lemma_run_extent_maximal(items[0].0, rest);
    assert(items.skip(n + 1) =~= rest.skip(n));
    assert(values_of(items.take(n + 1)) =~= seq![items[0].1] + values_of(rest.take(n)));
}

/// An item whose key the run's key equals joins the run in flight.
pub proof fn lemma_groups_after_join<K: PartialEq, V>(key: K, held: Seq<V>, rest: Seq<(K, V)>)
    requires
        rest.len() > 0,
        key.eq_spec(&rest[0].0),
    ensures
        groups_after(key, held, rest) == groups_after(key, held.push(rest[0].1), rest.drop_first()),
{
    let tail = rest.drop_first();
    let n = run_extent(key, tail);
    lemma_run_extent_maximal(key, tail);
    assert(rest.skip(n + 1) =~= tail.skip(n));
    assert(held + values_of(rest.take(n + 1)) =~= held.push(rest[0].1) + values_of(tail.take(n)));
}

/// An item whose key the run's key does not equal, or the end of the input,
/// closes the run in flight.
pub proof fn lemma_groups_after_close<K: PartialEq, V>(key: K, held: Seq<V>, rest: Seq<(K, V)>)
    requires
        rest.len() == 0 || !key.eq_spec(&rest[0].0),
    ensures
        groups_after(key, held, rest) == seq![(key, held)] + groups(rest),
{
    assert(rest.skip(0) =~= rest);
    assert(held + values_of(rest.take(0)) =~= held);
}

/// All the values of the groups `gs`, one group after the other.
pub open spec fn concat_values<K, V>(gs: Seq<(K, Seq<V>)>) -> Seq<V>
    decreases gs.len(),
{
    if gs.len() == 0 {
        Seq::empty()
    } else {
        gs[0].1 + concat_values(gs.drop_first())
    }
}

/// The number of values in the groups `gs` taken together.
pub open spec fn total_size<K, V>(gs: Seq<(K, Seq<V>)>) -> int
    decreases gs.len(),
{
    if gs.len() == 0 {
        0
    } else {
        gs[0].1.len() + total_size(gs.drop_first())
    }
}

/// Grouping loses nothing and reorders nothing: the groups' values, one group
/// after the other, are the values of the input in order, and the groups'
/// sizes add up to the length of the input.
pub proof fn lemma_grouping_complete<K: PartialEq, V>(items: Seq<(K, V)>)
    ensures
        concat_values(groups(items)) == values_of(items),
        total_size(groups(items)) == items.len(),
    decreases items.len(),
{
    if items.len() == 0 {
        assert(values_of(items) =~= Seq::<V>::empty());
    } else {
        let n = 1 + run_extent(items[0].0, items.drop_first());
        lemma_run_extent_maximal(items[0].0, items.drop_first());
        lemma_grouping_complete(items.skip(n));
        assert(groups(items).drop_first() =~= groups(items.skip(n)));
        assert(values_of(items.take(n)) + values_of(items.skip(n)) =~= values_of(items));
    }
}

/// Where group `i` of `gs` begins in the input: the number of values in the
/// groups before it.
pub open spec fn group_start<K, V>(gs: Seq<(K, Seq<V>)>, i: int) -> int {
    total_size(gs.take(i))
}

/// Each group is one maximal run of the input. Group `i` is not empty; it
/// begins where the groups before it end; its key is the key of the item that
/// opened it; its values are the values of the items it covers, in order; its
/// key equals the key of every other item it covers; and it ends at the end of
/// the input or before an item whose key its key does not equal. Two runs
/// with the same key that are separated by another run are therefore two
/// groups.
pub proof fn lemma_groups_are_maximal_runs<K: PartialEq, V>(items: Seq<(K, V)>, i: int)
    requires
        0 <= i < groups(items).len(),
    ensures
        ({
            let group = groups(items)[i];
            let start = group_start(groups(items), i);
            let end = start + group.1.len();
            &&& group.1.len() > 0
            &&& 0 <= start < end <= items.len()
            &&& group.0 == items[start].0
            &&& forall|j: int|
                0 <= j < group.1.len() ==> #[trigger] group.1[j] == items[start + j].1
            &&& forall|j: int| start < j < end ==> group.0.eq_spec(&(#[trigger] items[j]).0)
            &&& end < items.len() ==> !group.0.eq_spec(&items[end].0)
        }),
    decreases i,
{
    let key = items[0].0;
    let tail = items.drop_first();
    let n = 1 + run_extent(key, tail);
    let gs = groups(items);
    let later = items.skip(n);
    lemma_run_extent_maximal(key, tail);
    assert(gs.drop_first() =~= groups(later));
    if i == 0 {
        assert(gs.take(0) =~= Seq::<(K, Seq<V>)>::empty());
        assert forall|j: int| 0 < j < n implies key.eq_spec(&(#[trigger] items[j]).0) by {
            assert(items[j] == tail[j - 1]);
        }
        if n < items.len() {
            assert(items[n] == tail[n - 1]);
        }
    } else {
        lemma_groups_are_maximal_runs(later, i - 1);
        assert(gs.take(i).drop_first() =~= groups(later).take(i - 1));
        assert(group_start(gs, i) == n + group_start(groups(later), i - 1));
        let group = gs[i];
        let start = group_start(gs, i);
        let end = start + group.1.len();
        assert forall|j: int| 0 <= j < group.1.len() implies #[trigger] group.1[j]
            == items[start + j].1 by {
            assert(later[start - n + j] == items[start + j]);
        }
        assert forall|j: int| start < j < end implies group.0.eq_spec(&(#[trigger] items[j]).0) by {
            assert(later[j - n] == items[j]);
        }
        assert(later[start - n] == items[start]);
        if end < items.len() {
            assert(later[end - n] == items[end]);
        }
    }
}

/// An input that is a single run gives a single group, which holds all of its
/// values: the run in flight is handed over when the input ends.
pub proof fn lemma_single_run_single_group<K: PartialEq, V>(items: Seq<(K, V)>)
    requires
        items.len() > 0,
        forall|j: int| 0 < j < items.len() ==> items[0].0.eq_spec(&(#[trigger] items[j]).0),
    ensures
        groups(items) == seq![(items[0].0, values_of(items))],
{
    let key = items[0].0;
    let tail = items.drop_first();
    assert forall|j: int| 0 <= j < tail.len() implies key.eq_spec(&(#[trigger] tail[j]).0) by {
        assert(tail[j] == items[j + 1]);
    }
    lemma_run_extent_full(key, tail);
    let n = 1 + run_extent(key, tail);
    assert(items.take(n) =~= items);
    assert(items.skip(n) =~= Seq::<(K, V)>::empty());
    reveal_with_fuel(groups, 2);
}

/// A run takes in the whole of an input all of whose keys its key equals.
pub proof fn lemma_run_extent_full<K: PartialEq, V>(key: K, items: Seq<(K, V)>)
    requires
        forall|j: int| 0 <= j < items.len() ==> key.eq_spec(&(#[trigger] items[j]).0),
    ensures
        run_extent(key, items) == items.len(),
    decreases items.len(),
{
    if items.len() > 0 {
        let tail = items.drop_first();
        assert forall|j: int| 0 <= j < tail.len() implies key.eq_spec(&(#[trigger] tail[j]).0) by {
            assert(tail[j] == items[j + 1]);
        }
        lemma_run_extent_full(key, tail);
    }
}

} // verus!
