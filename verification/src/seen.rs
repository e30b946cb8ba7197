//! The set of transactions that have been seen.

use vstd::prelude::*;
use vstd::hash_set::StringHashSet;

verus! {

/// A set of transaction ids.
pub struct TransactionSet {
    ids: StringHashSet,
}

impl View for TransactionSet {
    type V = Set<Seq<char>>;

    closed spec fn view(&self) -> Set<Seq<char>> {
        self.ids@
    }
}

impl TransactionSet {
    /// The empty set.
    pub fn new() -> (set: Self)
        ensures
            set@ == Set::<Seq<char>>::empty(),
    {
        TransactionSet { ids: StringHashSet::new() }
    }

    /// Whether `txid` is in the set.
    pub fn contains(&self, txid: &str) -> (r: bool)
        ensures
            r == self@.contains(txid@),
    {
        self.ids.contains(txid)
    }

    /// Puts `txid` into the set and says whether it was new.
    pub fn insert(&mut self, txid: String) -> (fresh: bool)
        ensures
            final(self)@ == old(self)@.insert(txid@),
            fresh == !old(self)@.contains(txid@),
    {
        self.ids.insert(txid)
    }

    /// The number of transactions in the set.
    pub fn len(&self) -> (n: usize)
        ensures
            n == self@.len(),
    {
        self.ids.len()
    }
}

} // verus!
