//! The merge protocol: how the records kept under one primary key (a shell)
//! take in a new batch.
//!
//! A batch joins the record that has its key if that record is among the first
//! few of the shell; otherwise it becomes a new record at the end. The scan is
//! bounded so that the cost of an insert does not grow with the shell. Beyond
//! the window a key can therefore come to stand in two records.

use std::collections::hash_map::Entry;
use std::hash::Hash;
use vstd::prelude::*;
use vstd::std_specs::cmp::PartialEqSpec;
use vstd::std_specs::hash::EntrySpecFns;
use vstd::std_specs::iter::IteratorSpec;
use crate::batch::BatchType;
use crate::stream::ends;

verus! {

/// How many records at the front of a shell an insert compares keys with.
pub const SCAN_WINDOW: usize = 8;

/// The first position at or after `from`, within the scan window, at which the
/// key of a record equals `key`.
pub open spec fn slot_from<K: PartialEq, D>(
    records: Seq<(K, Seq<D>)>,
    key: K,
    from: int,
) -> Option<int>
    decreases records.len() - from,
{
    if from < 0 || from >= records.len() || from >= SCAN_WINDOW {
        None
    } else if records[from].0.eq_spec(&key) {
        Some(from)
    } else {
        slot_from(records, key, from + 1)
    }
}

/// The record that an insert under `key` merges into: the first of the
/// records in the scan window whose key equals `key`, if there is one.
pub open spec fn merge_slot<K: PartialEq, D>(records: Seq<(K, Seq<D>)>, key: K) -> Option<int> {
    slot_from(records, key, 0)
}

/// The records of a shell after an insert of `items` under `key`.
pub open spec fn merged<K: PartialEq, D>(
    records: Seq<(K, Seq<D>)>,
    key: K,
    items: Seq<D>,
) -> Seq<(K, Seq<D>)> {
    match merge_slot(records, key) {
        Some(i) => records.update(i, (records[i].0, records[i].1 + items)),
        None => records.push((key, items)),
    }
}

/// The records under a primary key after an insert of `items` under `key`,
/// where `shell` holds the records that were there before, if the primary key
/// was present.
pub open spec fn placed<K: PartialEq, D>(
    shell: Option<Seq<(K, Seq<D>)>>,
    key: K,
    items: Seq<D>,
) -> Seq<(K, Seq<D>)> {
    match shell {
        Some(records) => merged(records, key, items),
        None => seq![(key, items)],
    }
}

/// The records that a sequence of batches stands for: the key and the items of
/// each.
pub open spec fn records_of<B: BatchType>(batches: Seq<B>) -> Seq<(B::Key, Seq<B::Data>)> {
    batches.map_values(|batch: B| (batch.batch_key(), batch.batch_items()))
}

/// The merge protocol over some kind of shell. An implementor says what a
/// shell is and how to make one, append to one and reach into one; the insert
/// itself is the same for all of them.
pub trait BatchPrimitives {
    type Shell;

    type Batch: BatchType;

    /// The batches of a shell, in order.
    spec fn batches(shell: &Self::Shell) -> Seq<Self::Batch>;

    /// A shell that holds `batch` alone.
    fn wrap_batch(batch: Self::Batch) -> (shell: Self::Shell)
        ensures
            Self::batches(&shell) == seq![batch],
    ;

    /// Appends `batch` to the shell.
    fn push(shell: &mut Self::Shell, batch: Self::Batch)
        ensures
            Self::batches(final(shell)) == Self::batches(old(shell)).push(batch),
    ;

    /// The batches of the shell, open to change in place.
    fn batches_mut(shell: &mut Self::Shell) -> (batches: &mut [Self::Batch])
        ensures
            batches@ == Self::batches(old(shell)),
            Self::batches(final(shell)) == final(batches)@,
    ;

    /// Puts the items that `instance_data` yields under `batch_key` in the
    /// shell of `entry`. A vacant entry gets a shell with one new batch. In an
    /// occupied one the items join the first batch within the scan window
    /// whose key equals `batch_key`; if there is none, a new batch is
    /// appended.
    fn insert_batch<K: Hash + PartialEq, I: Iterator<Item = <Self::Batch as BatchType>::Data>>(
        entry: Entry<'_, K, Self::Shell>,
        batch_key: <Self::Batch as BatchType>::Key,
        instance_data: I,
    )
        requires
            <Self::Batch as BatchType>::Key::obeys_eq_spec(),
            ends(&instance_data),
        ensures
            entry.final_value() is Some,
            records_of(Self::batches(&entry.final_value()->0)) == placed(
                match entry.value() {
                    Some(shell) => Some(records_of(Self::batches(&shell))),
                    None => None,
                },
                batch_key,
                instance_data.remaining(),
            ),
    {
        match entry {
            Entry::Occupied(mut e) => {
                let shell = e.get_mut();
                let batches = Self::batches_mut(shell);
                let ghost before = records_of(batches@);
                match find_slot(batches, &batch_key) {
                    Some(i) => {
                        batches[i].extend(instance_data);
                        assert(records_of(batches@) =~= merged(
                            before,
                            batch_key,
                            instance_data.remaining(),
                        ));
                    },
                    None => {
                        Self::push(shell, Self::Batch::new(batch_key, instance_data));
                        assert(records_of(Self::batches(shell)) =~= merged(
                            before,
                            batch_key,
                            instance_data.remaining(),
                        ));
                    },
                }
            },
            Entry::Vacant(e) => {
                let shell = Self::wrap_batch(Self::Batch::new(batch_key, instance_data));
                assert(records_of(Self::batches(&shell)) =~= seq![
                    (batch_key, instance_data.remaining()),
                ]);
                e.insert(shell);
            },
        }
    }
}

/// Scans the front of a shell for the batch that an insert under `key` merges
/// into.
pub fn find_slot<B: BatchType>(batches: &[B], key: &B::Key) -> (slot: Option<usize>)
    requires
        B::Key::obeys_eq_spec(),
    ensures
        match slot {
            Some(i) => i < batches@.len() && merge_slot(records_of(batches@), *key) == Some(
                i as int,
            ),
            None => merge_slot(records_of(batches@), *key) is None,
        },
{
    let mut i: usize = 0;
    while i < batches.len() && i < SCAN_WINDOW
        invariant
            0 <= i <= batches.len(),
            i <= SCAN_WINDOW,
            B::Key::obeys_eq_spec(),
            merge_slot(records_of(batches@), *key) == slot_from(
                records_of(batches@),
                *key,
                i as int,
            ),
        decreases batches.len() - i,
    {
        if *batches[i].key() == *key {
            return Some(i);
        }
        i = i + 1;
    }
    None
}

/// What the scan finds: `Some(i)` exactly when `i` is within the scan window,
/// the key of record `i` equals `key`, and no record before `i` has such a
/// key; `None` exactly when no record within the window has one.
pub proof fn lemma_merge_slot<K: PartialEq, D>(records: Seq<(K, Seq<D>)>, key: K)
    ensures
        match merge_slot(records, key) {
            Some(i) => {
                &&& 0 <= i < records.len()
                &&& i < SCAN_WINDOW
                &&& records[i].0.eq_spec(&key)
                &&& forall|j: int| 0 <= j < i ==> !(#[trigger] records[j]).0.eq_spec(&key)
            },
            None => forall|j: int|
                0 <= j < records.len() && j < SCAN_WINDOW ==> !(#[trigger] records[j]).0.eq_spec(
                    &key,
                ),
        },
{
    lemma_slot_from(records, key, 0);
}

/// The same, for a scan that starts at `from`.
pub proof fn lemma_slot_from<K: PartialEq, D>(records: Seq<(K, Seq<D>)>, key: K, from: int)
    requires
        0 <= from,
    ensures
        match slot_from(records, key, from) {
            Some(i) => {
                &&& from <= i < records.len()
                &&& i < SCAN_WINDOW
                &&& records[i].0.eq_spec(&key)
                &&& forall|j: int| from <= j < i ==> !(#[trigger] records[j]).0.eq_spec(&key)
            },
            None => forall|j: int|
                from <= j < records.len() && j < SCAN_WINDOW ==> !(#[trigger] records[j]).0.eq_spec(
                    &key,
                ),
        },
    decreases records.len() - from,
{
    if from < records.len() && from < SCAN_WINDOW && !records[from].0.eq_spec(&key) {
        lemma_slot_from(records, key, from + 1);
    }
}

/// The scan goes by the keys within the window alone: two shells whose
/// records there have the same keys are scanned alike.
pub proof fn lemma_merge_slot_by_keys<K: PartialEq, D>(
    a: Seq<(K, Seq<D>)>,
    b: Seq<(K, Seq<D>)>,
    key: K,
)
    requires
        a.len() == b.len() || (a.len() >= SCAN_WINDOW && b.len() >= SCAN_WINDOW),
        forall|j: int|
            0 <= j < a.len() && j < b.len() && j < SCAN_WINDOW ==> (#[trigger] a[j]).0 == b[j].0,
    ensures
        merge_slot(a, key) == merge_slot(b, key),
{
    lemma_merge_slot(a, key);
    lemma_merge_slot(b, key);
    match merge_slot(a, key) {
        Some(i) => {
            assert(a[i].0 == b[i].0);
            match merge_slot(b, key) {
                Some(j) => {
                    if j < i {
                        assert(a[j].0 == b[j].0);
                    }
                },
                None => {},
            }
        },
        None => {
            match merge_slot(b, key) {
                Some(j) => {
                    assert(a[j].0 == b[j].0);
                },
                None => {},
            }
        },
    }
}

/// A batch whose key has a record within the scan window joins that record:
/// no record is added, the record keeps its key and its place and gets the
/// new items after those it had, and every other record stays as it was.
pub proof fn lemma_merge_within_window<K: PartialEq, D>(
    records: Seq<(K, Seq<D>)>,
    key: K,
    items: Seq<D>,
)
    requires
        merge_slot(records, key) is Some,
    ensures
        ({
            let i = merge_slot(records, key)->0;
            let after = merged(records, key, items);
            &&& 0 <= i < records.len()
            &&& after.len() == records.len()
            &&& after[i] == (records[i].0, records[i].1 + items)
            &&& forall|j: int|
                0 <= j < records.len() && j != i ==> #[trigger] after[j] == records[j]
            &&& merge_slot(after, key) == Some(i)
        }),
{
    lemma_merge_slot(records, key);
    let after = merged(records, key, items);
    lemma_merge_slot_by_keys(records, after, key);
}

/// A batch whose key has no record within the scan window becomes a new
/// record at the end, whatever the records beyond the window hold. When the
/// window is full, a further batch under the same key does not find that
/// record either and becomes one more record: the two are not merged.
pub proof fn lemma_no_merge_across_window<K: PartialEq, D>(
    records: Seq<(K, Seq<D>)>,
    key: K,
    first: Seq<D>,
    second: Seq<D>,
)
    requires
        merge_slot(records, key) is None,
    ensures
        merged(records, key, first) == records.push((key, first)),
        records.len() >= SCAN_WINDOW ==> merged(merged(records, key, first), key, second)
            == records.push((key, first)).push((key, second)),
{
    if records.len() >= SCAN_WINDOW {
        lemma_merge_slot_by_keys(records, records.push((key, first)), key);
    }
}

/// Two batches in a row under one key end up in one record, as long as the
/// record that took the first lies within the scan window: the key was found
/// there, or the shell was new, or it had room left in the window. (The key
/// must equal itself.)
pub proof fn lemma_second_insert_merges<K: PartialEq, D>(
    shell: Option<Seq<(K, Seq<D>)>>,
    key: K,
    first: Seq<D>,
    second: Seq<D>,
)
    requires
        key.eq_spec(&key),
        shell matches Some(records) ==> merge_slot(records, key) is Some || records.len()
            < SCAN_WINDOW,
    ensures
        ({
            let once = placed(shell, key, first);
            let twice = placed(Some(once), key, second);
            &&& twice.len() == once.len()
            &&& merge_slot(once, key) matches Some(i) && twice == once.update(
                i,
                (once[i].0, once[i].1 + second),
            )
            &&& shell is None ==> twice == seq![(key, first + second)]
        }),
{
    let once = placed(shell, key, first);
    lemma_merge_slot(once, key);
    match shell {
        None => {
            assert(once[0].0.eq_spec(&key));
            assert(placed(Some(once), key, second) =~= seq![(key, first + second)]);
        },
        Some(records) => {
            lemma_merge_slot(records, key);
            if merge_slot(records, key) is Some {
                lemma_merge_within_window(records, key, first);
            } else {
                assert(once[records.len() as int].0.eq_spec(&key));
            }
        },
    }
}

} // verus!
