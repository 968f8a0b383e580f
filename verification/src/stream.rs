//! What the library asks of every iterator that it consumes.

use vstd::prelude::*;
use vstd::std_specs::iter::IteratorSpec;

verus! {

/// The iterator is one that can be consumed to its end: it yields the items
/// of `remaining()`, one after the other, and then stops for good, and it has
/// a measure that goes down with every item.
pub open spec fn ends<I: Iterator>(items: &I) -> bool {
    items.obeys_prophetic_iter_laws() && items.decrease() is Some
}

} // verus!
