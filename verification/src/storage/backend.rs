//! The physical memory under the journal.

use vstd::prelude::*;
use crate::storage::error::{self, StorageError};
use crate::storage::medium::{self, MediumWrite, BLOCK_SIZE};

verus! {

/// One call of a backend.
#[verifier::ext_equal]
pub enum BackendCall {
    ReadPhysicalBlock { block_index: u32 },
    WritePhysicalBlock { block_index: u32, data: Seq<u8> },
    ReadBytes { address: usize, len: nat },
    WriteBytes { address: usize, data: Seq<u8> },
}

/// Byte-addressable physical backend used by the metadata journal layer.
///
/// A backend may fail at any call. What it promises is that a call that succeeds did what it
/// says, that a write that fails has touched no byte outside its range and left each byte inside
/// it either old or new, and that it does not fail while it is `healthy`.
///
/// The spec functions describe the state. Their defaults are for drivers in plain Rust, which need
/// not spell them out.
pub trait JournalBackend {
    /// What has to hold of a backend between calls.
    closed spec fn wf(&self) -> bool {
        false
    }

    /// Every byte of the medium.
    closed spec fn medium(&self) -> Seq<u8> {
        Seq::empty()
    }

    /// Whether every access inside the medium succeeds from here on.
    closed spec fn healthy(&self) -> bool {
        false
    }

    /// The writes that were attempted, oldest first.
    closed spec fn writes(&self) -> Seq<MediumWrite> {
        Seq::empty()
    }

    /// The calls that were made, reads and writes, oldest first.
    closed spec fn calls(&self) -> Seq<BackendCall> {
        Seq::empty()
    }

    /// The errors that calls have returned, oldest first.
    closed spec fn faults(&self) -> Seq<StorageError> {
        Seq::empty()
    }

    /// Which of the calls have failed: their places in `calls`, oldest first.
    closed spec fn failed_calls(&self) -> Seq<int> {
        Seq::empty()
    }

    /// How many of the first calls are no longer on record, for a backend that keeps one. Only
    /// who holds the backend clears it: no call does.
    closed spec fn forgotten(&self) -> nat {
        0
    }

    fn physical_block_count(&self) -> (n: u32)
        requires
            self.wf(),
        ensures
            n * BLOCK_SIZE == self.medium().len(),
    ;

    fn read_physical_block(&mut self, block_index: u32, out: &mut [u8; BLOCK_SIZE]) -> (r: Result<
        (),
        StorageError,
    >)
        requires
            old(self).wf(),
        ensures
            final(self).wf(),
            final(self).medium() == old(self).medium(),
            final(self).writes() == old(self).writes(),
            final(self).calls() == old(self).calls().push(
                BackendCall::ReadPhysicalBlock { block_index },
            ),
            error::error_logged(old(self).faults(), final(self).faults(), r),
            final(self).failed_calls() == if r is Ok {
                old(self).failed_calls()
            } else {
                old(self).failed_calls().push(old(self).calls().len() as int)
            },
            final(self).forgotten() == old(self).forgotten(),
            r is Ok ==> (block_index + 1) * BLOCK_SIZE <= old(self).medium().len() && final(out)@
                == medium::block_at(old(self).medium(), block_index as int),
            old(self).healthy() ==> final(self).healthy(),
            old(self).healthy() && (block_index + 1) * BLOCK_SIZE <= old(self).medium().len()
                ==> r is Ok,
    ;

    fn write_physical_block(&mut self, block_index: u32, data: &[u8; BLOCK_SIZE]) -> (r: Result<
        (),
        StorageError,
    >)
        requires
            old(self).wf(),
        ensures
            final(self).wf(),
            final(self).writes() == old(self).writes().push(
                MediumWrite::block(block_index as int, data@),
            ),
            final(self).calls() == old(self).calls().push(
                BackendCall::WritePhysicalBlock { block_index, data: data@ },
            ),
            error::error_logged(old(self).faults(), final(self).faults(), r),
            final(self).failed_calls() == if r is Ok {
                old(self).failed_calls()
            } else {
                old(self).failed_calls().push(old(self).calls().len() as int)
            },
            final(self).forgotten() == old(self).forgotten(),
            r is Ok ==> (block_index + 1) * BLOCK_SIZE <= old(self).medium().len()
                && final(self).medium() == MediumWrite::block(block_index as int, data@).apply(
                old(self).medium(),
            ),
            r is Err ==> medium::torn(
                old(self).medium(),
                MediumWrite::block(block_index as int, data@),
                final(self).medium(),
            ),
            old(self).healthy() ==> final(self).healthy(),
            old(self).healthy() && (block_index + 1) * BLOCK_SIZE <= old(self).medium().len()
                ==> r is Ok,
    ;

    fn read_bytes(&mut self, address: usize, out: &mut [u8]) -> (r: Result<(), StorageError>)
        requires
            old(self).wf(),
        ensures
            final(self).wf(),
            final(self).medium() == old(self).medium(),
            final(self).writes() == old(self).writes(),
            final(self).calls() == old(self).calls().push(
                BackendCall::ReadBytes { address, len: old(out)@.len() },
            ),
            error::error_logged(old(self).faults(), final(self).faults(), r),
            final(self).failed_calls() == if r is Ok {
                old(self).failed_calls()
            } else {
                old(self).failed_calls().push(old(self).calls().len() as int)
            },
            final(self).forgotten() == old(self).forgotten(),
            final(out)@.len() == old(out)@.len(),
            r is Ok ==> address + old(out)@.len() <= old(self).medium().len() && final(out)@
                == old(self).medium().subrange(address as int, address + old(out)@.len()),
            old(self).healthy() ==> final(self).healthy(),
            old(self).healthy() && address + old(out)@.len() <= old(self).medium().len() ==> r is Ok,
    ;

    fn write_bytes(&mut self, address: usize, data: &[u8]) -> (r: Result<(), StorageError>)
        requires
            old(self).wf(),
        ensures
            final(self).wf(),
            final(self).writes() == old(self).writes().push(
                MediumWrite { address: address as int, data: data@ },
            ),
            final(self).calls() == old(self).calls().push(
                BackendCall::WriteBytes { address, data: data@ },
            ),
            error::error_logged(old(self).faults(), final(self).faults(), r),
            final(self).failed_calls() == if r is Ok {
                old(self).failed_calls()
            } else {
                old(self).failed_calls().push(old(self).calls().len() as int)
            },
            final(self).forgotten() == old(self).forgotten(),
            r is Ok ==> address + data@.len() <= old(self).medium().len() && final(self).medium()
                == (MediumWrite { address: address as int, data: data@ }).apply(
                old(self).medium(),
            ),
            r is Err ==> medium::torn(
                old(self).medium(),
                MediumWrite { address: address as int, data: data@ },
                final(self).medium(),
            ),
            old(self).healthy() ==> final(self).healthy(),
            old(self).healthy() && address + data@.len() <= old(self).medium().len() ==> r is Ok,
    ;
}

/// What the logs of a backend show of work that answered `r`: where it succeeded, no call failed,
/// and where it failed, the last call alone failed, with that error.
pub open spec fn answered<B: JournalBackend, T>(
    before: &B,
    after: &B,
    r: Result<T, StorageError>,
) -> bool {
    &&& error::error_logged(before.faults(), after.faults(), r)
    &&& after.failed_calls() == if r is Ok {
        before.failed_calls()
    } else {
        before.failed_calls().push(after.calls().len() - 1)
    }
    &&& after.forgotten() == before.forgotten()
}

} // verus!
