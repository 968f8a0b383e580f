//! The batch record: a key and the collection of items gathered under it.

use vstd::prelude::*;
use vstd::std_specs::iter::IteratorSpec;
use crate::stream::ends;

verus! {

/// What a batch asks of the collection that holds its items: it can be built
/// from a stream of items, extended from one, and emptied in place. Items keep
/// the order in which they arrived.
pub trait BatchCollection: Sized {
    type Item;

    /// The items held, in insertion order.
    spec fn contents(&self) -> Seq<Self::Item>;

    /// A collection of the items that `vals` yields.
    fn from_items<I: Iterator<Item = Self::Item>>(vals: I) -> (collection: Self)
        requires
            ends(&vals),
        ensures
            collection.contents() == vals.remaining(),
    ;

    /// Appends the items that `vals` yields, after those already held.
    fn extend_items<I: Iterator<Item = Self::Item>>(&mut self, vals: I)
        requires
            ends(&vals),
        ensures
            final(self).contents() == old(self).contents() + vals.remaining(),
    ;

    /// Removes every item and keeps the storage for the next fill.
    fn clear_items(&mut self)
        ensures
            final(self).contents() == Seq::<Self::Item>::empty(),
    ;
}

/// Moves every item that `vals` yields to the end of `out`.
fn drain_into<T, I: Iterator<Item = T>>(vals: I, out: &mut Vec<T>)
    requires
        ends(&vals),
    ensures
        final(out)@ == old(out)@ + vals.remaining(),
{
    let mut vals = vals;
    let ghost all = vals.remaining();
    loop
        invariant
            ends(&vals),
            out@ + vals.remaining() == old(out)@ + all,
        ensures
            out@ == old(out)@ + all,
        decreases vals.decrease()->0,
    {
        let ghost rest = vals.remaining();
        match vals.next() {
            Some(item) => {
                out.push(item);
                assert(out@ + vals.remaining() =~= old(out)@ + all) by {
                    assert(rest =~= seq![item] + vals.remaining());
                }
            },
            None => {
                break;
            },
        }
    }
}

impl<T> BatchCollection for Vec<T> {
    type Item = T;

    open spec fn contents(&self) -> Seq<T> {
        self@
    }

    fn from_items<I: Iterator<Item = T>>(vals: I) -> (collection: Self) {
        let mut collection = Vec::new();
        drain_into(vals, &mut collection);
        collection
    }

    fn extend_items<I: Iterator<Item = T>>(&mut self, vals: I) {
        drain_into(vals, self);
    }

    fn clear_items(&mut self) {
        self.clear();
    }
}

/// One batch record: all the items gathered so far under one key.
#[derive(Debug)]
pub struct BatchData<K, C> {
    pub key: K,
    pub collection: C,
}

/// A batch as the merge protocol sees it: it has a key, it can be made from a
/// key and a stream of items, and it can take in more items. It only grows.
pub trait BatchType: Sized {
    type Key: PartialEq;

    type Data;

    /// The key of this batch.
    spec fn batch_key(&self) -> Self::Key;

    /// The items of this batch, in insertion order.
    spec fn batch_items(&self) -> Seq<Self::Data>;

    /// The key of this batch, by reference.
    fn key(&self) -> (key: &Self::Key)
        ensures
            *key == self.batch_key(),
    ;

    /// Appends the items that `vals` yields. The key and the items already
    /// held stay as they are.
    fn extend<I: Iterator<Item = Self::Data>>(&mut self, vals: I)
        requires
            ends(&vals),
        ensures
            final(self).batch_key() == old(self).batch_key(),
            final(self).batch_items() == old(self).batch_items() + vals.remaining(),
    ;

    /// A batch under `key` that holds the items that `vals` yields.
    fn new<I: Iterator<Item = Self::Data>>(key: Self::Key, vals: I) -> (batch: Self)
        requires
            ends(&vals),
        ensures
            batch.batch_key() == key,
            batch.batch_items() == vals.remaining(),
    ;
}

impl<K, C> BatchType for BatchData<K, C> where K: PartialEq, C: BatchCollection {
    type Key = K;

    type Data = C::Item;

    open spec fn batch_key(&self) -> K {
        self.key
    }

    open spec fn batch_items(&self) -> Seq<C::Item> {
        self.collection.contents()
    }

    fn key(&self) -> (key: &K) {
        &self.key
    }

    fn extend<I: Iterator<Item = C::Item>>(&mut self, vals: I) {
        self.collection.extend_items(vals);
    }

    fn new<I: Iterator<Item = C::Item>>(key: K, vals: I) -> (batch: Self) {
        BatchData { key, collection: C::from_items(vals) }
    }
}

} // verus!
