//! The logical disk that the commands read and write.

use vstd::prelude::*;
use crate::storage::error::{self, StorageError};
use crate::storage::medium::BLOCK_SIZE;

verus! {

/// The blocks of a device once the write that is still under way was made.
pub open spec fn finished(
    contents: Seq<Seq<u8>>,
    unfinished: Option<(int, Seq<u8>)>,
) -> Seq<Seq<u8>> {
    match unfinished {
        Some((target, data)) => Seq::new(
            contents.len(),
            |i: int|
                if i == target {
                    data
                } else {
                    contents[i]
                },
        ),
        None => contents,
    }
}

/// Whether a write to block `i` is still under way.
pub open spec fn under_way(unfinished: Option<(int, Seq<u8>)>, i: int) -> bool {
    unfinished matches Some((target, _)) && target == i
}

/// What a write of `data` to block `i` leaves that succeeded: it put the block in place, and what
/// was under way is so still, on another block; or it made the write that was under way first.
pub open spec fn written(
    contents: Seq<Seq<u8>>,
    unfinished: Option<(int, Seq<u8>)>,
    i: int,
    data: Seq<u8>,
    contents_after: Seq<Seq<u8>>,
    unfinished_after: Option<(int, Seq<u8>)>,
) -> bool {
    ||| {
        &&& contents_after == contents.update(i, data)
        &&& unfinished_after == unfinished
        &&& !under_way(unfinished, i)
    }
    ||| {
        &&& contents_after == finished(contents, unfinished).update(i, data)
        &&& unfinished_after is None
    }
}

/// Logical block-device contract used by the MSC BOT command engine.
///
/// A device may fail at any call. What it promises is that it refuses what it must refuse, that a
/// call that succeeds did what it says, and that it does not fail while it is `healthy`. A write
/// that failed may still be under way: it is `unfinished` until a later write makes it.
///
/// The spec functions describe the state. Their defaults are for drivers in plain Rust, which need
/// not spell them out.
pub trait BlockStorage {
    /// What has to hold of a device between calls.
    closed spec fn wf(&self) -> bool {
        false
    }

    /// The logical blocks.
    closed spec fn contents(&self) -> Seq<Seq<u8>> {
        Seq::empty()
    }

    /// Whether the logical unit accepts media commands.
    closed spec fn ready(&self) -> bool {
        false
    }

    /// Whether the medium refuses writes.
    closed spec fn write_protected(&self) -> bool {
        false
    }

    /// The write that failed and is still under way: its block, and what that is to hold.
    closed spec fn unfinished(&self) -> Option<(int, Seq<u8>)> {
        None
    }

    /// Whether every access that need not be refused succeeds from here on.
    closed spec fn healthy(&self) -> bool {
        false
    }

    /// The errors that `read_block` and `write_block` have returned, oldest first.
    closed spec fn errors(&self) -> Seq<StorageError> {
        Seq::empty()
    }

    fn block_count(&self) -> (n: u32)
        requires
            self.wf(),
        ensures
            n == self.contents().len(),
    ;

    /// Report whether the logical unit is ready to accept media commands.
    ///
    /// Backends that need initialization should return false until the medium is actually usable.
    fn is_ready(&self) -> (b: bool)
        requires
            self.wf(),
        ensures
            b == self.ready(),
    ;

    fn is_write_protected(&self) -> (b: bool)
        requires
            self.wf(),
        ensures
            b == self.write_protected(),
    ;

    fn read_block(&mut self, block_index: u32, out: &mut [u8; BLOCK_SIZE]) -> (r: Result<
        (),
        StorageError,
    >)
        requires
            old(self).wf(),
        ensures
            final(self).wf(),
            final(self).contents() == old(self).contents(),
            final(self).ready() == old(self).ready(),
            final(self).write_protected() == old(self).write_protected(),
            final(self).unfinished() == old(self).unfinished(),
            old(self).healthy() ==> final(self).healthy(),
            error::error_logged(old(self).errors(), final(self).errors(), r),
            !old(self).ready() ==> r == Err::<(), StorageError>(StorageError::NotReady),
            old(self).ready() && block_index >= old(self).contents().len() ==> r == Err::<
                (),
                StorageError,
            >(StorageError::MediumError),
            old(self).ready() && block_index < old(self).contents().len() && old(self).healthy()
                ==> r is Ok,
            r is Ok ==> final(out)@ == old(self).contents()[block_index as int],
    ;

    fn write_block(&mut self, block_index: u32, data: &[u8; BLOCK_SIZE]) -> (r: Result<
        (),
        StorageError,
    >)
        requires
            old(self).wf(),
        ensures
            final(self).wf(),
            final(self).contents().len() == old(self).contents().len(),
            final(self).ready() == old(self).ready(),
            final(self).write_protected() == old(self).write_protected(),
            old(self).healthy() ==> final(self).healthy(),
            error::error_logged(old(self).errors(), final(self).errors(), r),
            !old(self).ready() ==> r == Err::<(), StorageError>(StorageError::NotReady),
            old(self).ready() && old(self).write_protected() ==> r == Err::<(), StorageError>(
                StorageError::WriteProtect,
            ),
            old(self).ready() && !old(self).write_protected() && block_index
                >= old(self).contents().len() ==> r == Err::<(), StorageError>(
                StorageError::MediumError,
            ),
            old(self).ready() && !old(self).write_protected() && block_index
                < old(self).contents().len() && old(self).healthy() ==> r is Ok,
            r is Ok ==> written(
                old(self).contents(),
                old(self).unfinished(),
                block_index as int,
                data@,
                final(self).contents(),
                final(self).unfinished(),
            ),
            r is Err ==> forall|j: int|
                0 <= j < old(self).contents().len() && j != block_index && !under_way(
                    old(self).unfinished(),
                    j,
                ) ==> #[trigger] final(self).contents()[j] == old(self).contents()[j],
            r is Err ==> {
                ||| final(self).unfinished() is None
                ||| final(self).unfinished() == old(self).unfinished()
                ||| final(self).unfinished() == Some((block_index as int, data@))
            },
    ;
}

} // verus!
