//! A disk of which no more is known than its size.

use vstd::prelude::*;

verus! {

/// Something that has blocks.
pub trait BlockDevice {
    /// The number of blocks.
    spec fn blocks(&self) -> nat;

    fn block_count(&self) -> (n: u32)
        ensures
            n == self.blocks(),
    ;
}

/// A disk of one mebibyte that does nothing.
#[derive(Copy, Clone, Debug, PartialEq, Eq, Structural)]
pub struct Storage;

impl Storage {
    pub fn new() -> (storage: Self)
        ensures
            storage == Storage,
    {
        Storage
    }

    /// There is nothing to be done between accesses.
    pub fn poll(&mut self)
        ensures
            *final(self) == *old(self),
    {
    }
}

impl BlockDevice for Storage {
    open spec fn blocks(&self) -> nat {
        2048
    }

    fn block_count(&self) -> (n: u32) {
        // 1 MiB / 512-byte blocks.
        2048
    }
}

} // verus!
