//! Errors lined up for a simulated device, to be met by its next calls.

use std::collections::BTreeMap;
use vstd::prelude::*;
use crate::storage::error::StorageError;

verus! {

/// The errors lined up: one for the next call whatever it addresses, and one per key.
#[verifier::ext_equal]
#[verifier::reject_recursive_types(K)]
pub struct FaultsView<K> {
    pub next: Option<StorageError>,
    pub at: Map<K, StorageError>,
}

impl<K> FaultsView<K> {
    /// No error is lined up.
    pub open spec fn quiet(self) -> bool {
        self.next is None && forall|k: K| !#[trigger] self.at.contains_key(k)
    }

    /// The error that a call addressing `key` meets.
    pub open spec fn met_by(self, key: K) -> Option<StorageError> {
        if self.next is Some {
            self.next
        } else if self.at.contains_key(key) {
            Some(self.at[key])
        } else {
            None
        }
    }

    /// What is left once a call addressing `key` has met its error.
    pub open spec fn spent_by(self, key: K) -> FaultsView<K> {
        if self.next is Some {
            FaultsView { next: None, ..self }
        } else {
            FaultsView { at: self.at.remove(key), ..self }
        }
    }

    /// `error` is lined up for the next call.
    pub open spec fn with_next(self, error: StorageError) -> FaultsView<K> {
        FaultsView { next: Some(error), ..self }
    }

    /// `error` is lined up for the next call that addresses `key`.
    pub open spec fn with_at(self, key: K, error: StorageError) -> FaultsView<K> {
        FaultsView { at: self.at.insert(key, error), ..self }
    }

    /// A call that meets no error leaves everything lined up as it was.
    pub proof fn lemma_unmet_is_unspent(self, key: K)
        requires
            self.met_by(key) is None,
        ensures
            self.spent_by(key) == self,
    {
        assert(self.at.remove(key) =~= self.at);
    }
}

/// Errors for accesses addressed by block.
#[derive(Debug)]
pub struct BlockFaults {
    next: Option<StorageError>,
    at: BTreeMap<u32, StorageError>,
}

impl View for BlockFaults {
    type V = FaultsView<u32>;

    closed spec fn view(&self) -> FaultsView<u32> {
        FaultsView { next: self.next, at: self.at@ }
    }
}

impl BlockFaults {
    pub fn new() -> (faults: Self)
        ensures
            faults@.quiet(),
    {
        BlockFaults { next: None, at: BTreeMap::new() }
    }

    pub fn inject_next(&mut self, error: StorageError)
        ensures
            final(self)@ == old(self)@.with_next(error),
    {
        self.next = Some(error);
    }

    pub fn inject_at(&mut self, block_index: u32, error: StorageError)
        ensures
            final(self)@ == old(self)@.with_at(block_index, error),
    {
        let _ = self.at.insert(block_index, error);
    }

    pub fn consume(&mut self, block_index: u32) -> (fault: Option<StorageError>)
        ensures
            fault == old(self)@.met_by(block_index),
            final(self)@ == old(self)@.spent_by(block_index),
    {
        if let Some(error) = self.next.take() {
            return Some(error);
        }
        self.at.remove(&block_index)
    }
}

/// Errors for accesses addressed by byte.
#[derive(Debug)]
pub struct ByteFaults {
    next: Option<StorageError>,
    at: BTreeMap<usize, StorageError>,
}

impl View for ByteFaults {
    type V = FaultsView<usize>;

    closed spec fn view(&self) -> FaultsView<usize> {
        FaultsView { next: self.next, at: self.at@ }
    }
}

impl ByteFaults {
    pub fn new() -> (faults: Self)
        ensures
            faults@.quiet(),
    {
        ByteFaults { next: None, at: BTreeMap::new() }
    }

    pub fn inject_next(&mut self, error: StorageError)
        ensures
            final(self)@ == old(self)@.with_next(error),
    {
        self.next = Some(error);
    }

    pub fn inject_at(&mut self, address: usize, error: StorageError)
        ensures
            final(self)@ == old(self)@.with_at(address, error),
    {
        let _ = self.at.insert(address, error);
    }

    pub fn consume(&mut self, address: usize) -> (fault: Option<StorageError>)
        ensures
            fault == old(self)@.met_by(address),
            final(self)@ == old(self)@.spent_by(address),
    {
        if let Some(error) = self.next.take() {
            return Some(error);
        }
        self.at.remove(&address)
    }
}

} // verus!
