//! A filter that remembers nothing: it accepts every item and finds none.

use std::marker::PhantomData;
use vstd::prelude::*;

verus! {

/// How many items a filter is made for where nothing else is said.
pub const DEFAULT_CAPACITY: usize = 1000000;

/// A filter that remembers nothing.
#[verifier::reject_recursive_types(H)]
pub struct CuckooFilter<H> {
    _marker: PhantomData<H>,
}

impl<H> CuckooFilter<H> {
    /// The items that the filter holds: none, ever.
    pub open spec fn items(&self) -> nat {
        0
    }

    /// A filter for some number of items.
    pub fn with_capacity(_cap: usize) -> (r: Self)
        ensures
            r.items() == 0,
    {
        CuckooFilter { _marker: PhantomData }
    }

    /// Accepts an item, and forgets it.
    pub fn add<T>(&mut self, _item: &T) -> (r: Result<(), ()>)
        ensures
            r == Ok::<(), ()>(()),
            final(self).items() == old(self).items(),
    {
        Ok(())
    }

    /// Whether the filter holds an item: it does not.
    pub fn contains<T>(&self, _item: &T) -> (r: bool)
        ensures
            r == false,
    {
        false
    }
}

} // verus!
