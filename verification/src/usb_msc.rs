//! A mass-storage stack that asks its disk for no more than its size.

use vstd::prelude::*;
use crate::storage::device::BlockDevice;

verus! {

pub struct MscStack {
    pub max_packet_size: u16,
}

impl MscStack {
    pub fn new() -> (stack: Self)
        ensures
            stack.max_packet_size == 64,
    {
        MscStack { max_packet_size: 64 }
    }

    /// Looks at the disk, and changes neither it nor the stack.
    pub fn poll<D: BlockDevice>(&mut self, storage: &mut D)
        ensures
            *final(self) == *old(self),
            *final(storage) == *old(storage),
    {
        let _ = storage.block_count();
    }
}

} // verus!
