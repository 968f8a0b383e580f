//! The two-level batch store: per primary key a shell of batch records, and a
//! running count of the items taken in.
//!
//! A store is made once and used frame after frame: inserts fill it, a
//! consumer reads it, and a clear empties the records for the next frame while
//! keeping what was allocated.

use fnv::FnvHashMap;
use std::hash::Hash;
use vstd::prelude::*;
use vstd::std_specs::cmp::PartialEqSpec;
use vstd::std_specs::hash::obeys_key_model;
use vstd::std_specs::iter::IteratorSpec;
use crate::batch::BatchCollection;
use crate::batch::BatchData;
use crate::hashing::entry_of;
use crate::hashing::iter_of;
use crate::hashing::retain_in;
use crate::merge::BatchPrimitives;
use crate::merge::records_of;
use crate::state::BatchState;
use crate::state::emptied;
use crate::state::items_of;
use crate::state::lists_shells;
use crate::state::record_items;
use crate::stream::ends;

verus! {

/// A store of batches under a primary and a secondary key. The primary key is
/// hashed; the secondary key is only compared. The records of one primary key
/// form a shell, which an insert scans from the front, within the scan window,
/// for a record to merge into.
#[derive(Debug)]
pub struct TwoLevelBatch<PK, SK, C> where PK: Eq + Hash {
    map: FnvHashMap<PK, Vec<BatchData<SK, C>>>,
    data_count: usize,
}

/// The records of every shell of a map of shells.
pub open spec fn shell_records<PK, SK: PartialEq, C: BatchCollection>(
    map: Map<PK, Vec<BatchData<SK, C>>>,
) -> Map<PK, Seq<(SK, Seq<C::Item>)>> {
    map.map_values(|shell: Vec<BatchData<SK, C>>| records_of(shell@))
}

/// What each of `collections` holds.
pub open spec fn contents_of<C: BatchCollection>(collections: Seq<&C>) -> Seq<Seq<C::Item>> {
    Seq::new(collections.len(), |i: int| collections[i].contents())
}

/// What the references to the records of one shell stand for: the key and
/// the items of each record.
pub open spec fn record_views<SK, C: BatchCollection>(records: Seq<(&SK, &C)>) -> Seq<
    (SK, Seq<C::Item>),
> {
    Seq::new(records.len(), |j: int| (*records[j].0, records[j].1.contents()))
}

/// What a walk over a store stands for: for each primary key that it visits,
/// the key and the records handed out with it.
pub open spec fn walk_entries<PK, SK, C: BatchCollection>(
    walk: Seq<(&PK, Vec<(&SK, &C)>)>,
) -> Seq<(PK, Seq<(SK, Seq<C::Item>)>)> {
    Seq::new(walk.len(), |i: int| (*walk[i].0, record_views(walk[i].1@)))
}

/// A walk that meets every entry of a map of shells once lists its shells.
proof fn lemma_walk_lists_shells<PK, SK: PartialEq, C: BatchCollection>(
    map: Map<PK, Vec<BatchData<SK, C>>>,
    all: Seq<(&PK, &Vec<BatchData<SK, C>>)>,
    seen: Seq<(PK, Seq<(SK, Seq<C::Item>)>)>,
)
    requires
        all.no_duplicates(),
        forall|i: int|
            0 <= i < all.len() ==> map.contains_key(*(#[trigger] all[i]).0) && map[*all[i].0]
                == *all[i].1,
        forall|pk: PK| #[trigger] map.contains_key(pk) ==> all.contains((&pk, &map[pk])),
        seen.len() == all.len(),
        forall|i: int|
            0 <= i < seen.len() ==> #[trigger] seen[i] == (*all[i].0, records_of(all[i].1@)),
    ensures
        lists_shells(seen, shell_records(map)),
{
    let shells = shell_records(map);
    assert forall|i: int, j: int| 0 <= i < j < seen.len() implies (#[trigger] seen[i]).0
        != (#[trigger] seen[j]).0 by {
        if seen[i].0 == seen[j].0 {
            assert(map[*all[i].0] == *all[i].1);
            assert(map[*all[j].0] == *all[j].1);
            assert(all[i] == all[j]);
        }
    }
    assert forall|pk: PK| #[trigger] shells.contains_key(pk) implies exists|i: int|
        0 <= i < seen.len() && (#[trigger] seen[i]).0 == pk by {
        assert(all.contains((&pk, &map[pk])));
        let i = choose|i: int| 0 <= i < all.len() && all[i] == (&pk, &map[pk]);
        assert(seen[i].0 == pk);
    }
    assert forall|i: int| 0 <= i < seen.len() implies shells.contains_key((#[trigger] seen[i]).0)
        && shells[seen[i].0] == seen[i].1 by {
        assert(map[*all[i].0] == *all[i].1);
    }
}

/// Empties the collection of every record of a shell, and says that the shell
/// is to stay.
fn clear_records<PK, SK: PartialEq, C: BatchCollection>(
    _pk: &PK,
    shell: &mut Vec<BatchData<SK, C>>,
) -> (keep: bool)
    ensures
        keep,
        records_of(final(shell)@) == emptied(records_of(old(shell)@)),
{
    let mut i: usize = 0;
    while i < shell.len()
        invariant
            0 <= i <= shell.len(),
            shell.len() == old(shell).len(),
            forall|j: int| 0 <= j < shell.len() ==> (#[trigger] shell[j]).key == old(shell)[j].key,
            forall|j: int|
                0 <= j < i ==> (#[trigger] shell[j]).collection.contents() == Seq::<
                    C::Item,
                >::empty(),
        decreases shell.len() - i,
    {
        shell[i].collection.clear_items();
        i = i + 1;
    }
    assert(records_of(shell@) =~= emptied(records_of(old(shell)@)));
    true
}

/// Whether a shell holds any record. The shell is left as it is.
fn has_records<PK, B>(_pk: &PK, shell: &mut Vec<B>) -> (keep: bool)
    ensures
        keep == (old(shell)@.len() > 0),
        *final(shell) == *old(shell),
{
    shell.len() > 0
}

impl<PK, SK, C> View for TwoLevelBatch<PK, SK, C> where
    PK: Eq + Hash,
    SK: PartialEq,
    C: BatchCollection,
 {
    type V = BatchState<PK, SK, C::Item>;

    closed spec fn view(&self) -> Self::V {
        BatchState { shells: shell_records(self.map@), count: self.data_count as nat }
    }
}

impl<PK, SK, C> Default for TwoLevelBatch<PK, SK, C> where
    PK: Eq + Hash,
    SK: PartialEq,
    C: BatchCollection,
 {
    /// A store with no shells and a count of zero.
    fn default() -> (store: Self)
        ensures
            store@ == BatchState::<PK, SK, C::Item>::empty(),
    {
        let store = TwoLevelBatch { map: FnvHashMap::default(), data_count: 0 };
        assert(store@.shells =~= Map::empty());
        store
    }
}

impl<PK, SK, C> BatchPrimitives for TwoLevelBatch<PK, SK, C> where
    PK: Eq + Hash,
    SK: PartialEq,
    C: BatchCollection,
 {
    type Shell = Vec<BatchData<SK, C>>;

    type Batch = BatchData<SK, C>;

    open spec fn batches(shell: &Self::Shell) -> Seq<Self::Batch> {
        shell@
    }

    fn wrap_batch(batch: Self::Batch) -> (shell: Self::Shell) {
        let mut shell = Vec::with_capacity(1);
        shell.push(batch);
        shell
    }

    fn push(shell: &mut Self::Shell, batch: Self::Batch) {
        shell.push(batch);
    }

    fn batches_mut(shell: &mut Self::Shell) -> (batches: &mut [Self::Batch]) {
        shell.as_mut_slice()
    }
}

impl<PK, SK, C> TwoLevelBatch<PK, SK, C> where PK: Eq + Hash, SK: PartialEq, C: BatchCollection {
    /// Empties every record in place and sets the count to zero. The primary
    /// keys, their shells and the records with their keys all stay, and the
    /// collections keep their storage.
    pub fn clear_inner(&mut self)
        requires
            obeys_key_model::<PK>(),
        ensures
            final(self)@ == old(self)@.clear(),
    {
        self.data_count = 0;
        retain_in(&mut self.map, clear_records);
        assert(self@.shells =~= old(self)@.clear().shells);
    }

    /// Drops every primary key whose shell has no record. The other shells
    /// and the count stay as they are.
    pub fn prune(&mut self)
        requires
            obeys_key_model::<PK>(),
        ensures
            final(self)@ == old(self)@.prune(),
    {
        retain_in(&mut self.map, has_records);
        assert(self@.shells =~= old(self)@.prune().shells);
    }

    /// Takes in the items that `data` yields under the primary key `pk` and
    /// the secondary key `sk`, and adds their number to the count. A new
    /// primary key gets a shell with one record. Under a primary key that is
    /// there, the items join the first record within the scan window whose
    /// key equals `sk`, and become a new record at the end if there is none.
    pub fn insert<I: Iterator<Item = C::Item>>(&mut self, pk: PK, sk: SK, data: I)
        requires
            obeys_key_model::<PK>(),
            SK::obeys_eq_spec(),
            ends(&data),
            old(self)@.count + data.remaining().len() <= usize::MAX,
        ensures
            final(self)@ == old(self)@.insert(pk, sk, data.remaining()),
    {
        let items: Vec<C::Item> = Vec::from_items(data);
        self.data_count = self.data_count + items.len();
        Self::insert_batch(entry_of(&mut self.map, pk), sk, items.into_iter());
        assert(self@.shells =~= old(self)@.insert(pk, sk, data.remaining()).shells);
    }

    /// The collection of every record, by reference: shell after shell in the
    /// order in which the map yields them, and within a shell in the order of
    /// its records. The order of the shells is not fixed.
    pub fn data<'a>(&'a self) -> (collections: Vec<&'a C>)
        requires
            obeys_key_model::<PK>(),
        ensures
            exists|entries: Seq<(PK, Seq<(SK, Seq<C::Item>)>)>|
                lists_shells(entries, self@.shells) && #[trigger] record_items(entries)
                    == contents_of(collections@),
    {
        let mut collections: Vec<&'a C> = Vec::new();
        let shells = iter_of(&self.map);
        let ghost all = shells.remaining();
        let ghost mut seen: Seq<(PK, Seq<(SK, Seq<C::Item>)>)> = Seq::empty();
        for entry in walk: shells
            invariant
                walk.seq() == all,
                seen.len() == walk.index(),
                forall|i: int|
                    0 <= i < seen.len() ==> #[trigger] seen[i] == (
                        *all[i].0,
                        records_of(all[i].1@),
                    ),
                record_items(seen) == contents_of(collections@),
        {
            let shell = entry.1;
            let ghost items = items_of(records_of(shell@));
            let ghost before = collections@;
            let mut j: usize = 0;
            while j < shell.len()
                invariant
                    0 <= j <= shell.len(),
                    items == items_of(records_of(shell@)),
                    contents_of(collections@) == contents_of(before) + items.take(j as int),
                decreases shell.len() - j,
            {
                let ghost held = collections@;
                collections.push(&shell[j].collection);
                proof {
                    assert(items.take(j + 1) =~= items.take(j as int).push(items[j as int]));
                    assert(contents_of(collections@) =~= contents_of(held).push(items[j as int]));
                }
                j = j + 1;
            }
            proof {
                assert(items.take(shell.len() as int) =~= items);
                assert(seen.push((*entry.0, records_of(shell@))).drop_last() =~= seen);
                seen = seen.push((*entry.0, records_of(shell@)));
            }
        }
        proof {
            lemma_walk_lists_shells(self.map@, all, seen);
        }
        collections
    }

    /// Every primary key with the records of its shell, by reference: for each
    /// record its secondary key and its collection. Each primary key comes
    /// once; the order of the primary keys is not fixed; the records of a
    /// shell come in their order. The store is not changed.
    pub fn iter<'a>(&'a self) -> (walk: Vec<(&'a PK, Vec<(&'a SK, &'a C)>)>)
        requires
            obeys_key_model::<PK>(),
        ensures
            lists_shells(walk_entries(walk@), self@.shells),
    {
        let mut walk: Vec<(&'a PK, Vec<(&'a SK, &'a C)>)> = Vec::new();
        let shells = iter_of(&self.map);
        let ghost all = shells.remaining();
        for entry in visit: shells
            invariant
                visit.seq() == all,
                walk.len() == visit.index(),
                forall|i: int|
                    0 <= i < walk.len() ==> (#[trigger] walk_entries(walk@)[i]) == (
                        *all[i].0,
                        records_of(all[i].1@),
                    ),
        {
            let shell = entry.1;
            let mut records: Vec<(&'a SK, &'a C)> = Vec::with_capacity(shell.len());
            let mut j: usize = 0;
            while j < shell.len()
                invariant
                    0 <= j <= shell.len(),
                    record_views(records@) == records_of(shell@).take(j as int),
                decreases shell.len() - j,
            {
                let ghost held = records@;
                records.push((&shell[j].key, &shell[j].collection));
                proof {
                    let record = records_of(shell@)[j as int];
                    assert(record_views(records@) =~= record_views(held).push(record));
                    assert(records_of(shell@).take(j + 1) =~= records_of(shell@).take(
                        j as int,
                    ).push(record));
                }
                j = j + 1;
            }
            let ghost visited = walk@;
            walk.push((entry.0, records));
            proof {
                assert(records_of(shell@).take(shell.len() as int) =~= records_of(shell@));
                assert(walk_entries(walk@) =~= walk_entries(visited).push(
                    (*entry.0, records_of(shell@)),
                ));
            }
        }
        proof {
            lemma_walk_lists_shells(self.map@, all, walk_entries(walk@));
        }
        walk
    }

    /// The number of items taken in since the store was made or last cleared.
    pub fn count(&self) -> (count: usize)
        ensures
            count == self@.count,
    {
        self.data_count
    }
}

} // verus!
