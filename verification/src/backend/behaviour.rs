//! What the simulated devices do, call by call.

use vstd::prelude::*;
use crate::backend::faults::{BlockFaults, ByteFaults, FaultsView};
use crate::backend::mock_endpoint::{self, MockEndpoint};
use crate::backend::ram_backend::{BackendOp, RamBackend};
use crate::backend::ram_storage::RamStorage;
use crate::backend::simulated;
use crate::storage::backend::{BackendCall, JournalBackend};
use crate::storage::block::BlockStorage;
use crate::storage::device::{BlockDevice, Storage};
use crate::storage::error::StorageError;
use crate::usb::bot::{DataEndpoint, EndpointError};
use crate::usb_msc::MscStack;

verus! {

/// Whether `fault` is what a call that addresses `key` met of the errors in `before`, and `after` is
/// what is left of them: the error for the next call comes first, one for the key after it, and an
/// error comes once.
pub open spec fn met<K>(
    before: FaultsView<K>,
    key: K,
    fault: Option<StorageError>,
    after: FaultsView<K>,
) -> bool {
    &&& after.next is None
    &&& before.next is Some ==> fault == before.next && after.at == before.at
    &&& before.next is None ==> {
        &&& fault is Some <==> before.at.contains_key(key)
        &&& fault is Some ==> fault == Some(before.at[key])
        &&& !after.at.contains_key(key)
        &&& forall|k: K|
            k != key ==> (#[trigger] after.at.contains_key(k) <==> before.at.contains_key(k))
        &&& forall|k: K|
            k != key && before.at.contains_key(k) ==> #[trigger] after.at[k] == before.at[k]
    }
}

/// Whether `after` has `error` lined up for the next call, and else what `before` has.
pub open spec fn lined_up_next<K>(
    before: FaultsView<K>,
    error: StorageError,
    after: FaultsView<K>,
) -> bool {
    after.next == Some(error) && after.at == before.at
}

/// Whether `after` has `error` lined up for the next call that addresses `key`, and else what `before`
/// has.
pub open spec fn lined_up_at<K>(
    before: FaultsView<K>,
    key: K,
    error: StorageError,
    after: FaultsView<K>,
) -> bool {
    &&& after.next == before.next
    &&& after.at.contains_key(key) && after.at[key] == error
    &&& forall|k: K|
        k != key ==> (#[trigger] after.at.contains_key(k) <==> before.at.contains_key(k))
    &&& forall|k: K|
        k != key && before.at.contains_key(k) ==> #[trigger] after.at[k] == before.at[k]
}

/// Whether no error is lined up.
pub open spec fn none_lined_up<K>(faults: FaultsView<K>) -> bool {
    faults.next is None && faults.at.dom() =~= Set::empty()
}

/// An error that was lined up for an access to a block is met once: by the next access, or by the next
/// one to its place.
pub proof fn block_faults_are_met_once(
    new: BlockFaults,
    next: &mut BlockFaults,
    at: &mut BlockFaults,
    used: &mut BlockFaults,
    key: u32,
    error: StorageError,
    fault: Option<StorageError>,
)
    requires
        call_ensures(BlockFaults::new, (), new),
        call_ensures(BlockFaults::inject_next, (next, error), ()),
        call_ensures(BlockFaults::inject_at, (at, key, error), ()),
        call_ensures(BlockFaults::consume, (used, key), fault),
    ensures
        none_lined_up(new@),
        lined_up_next(old(next)@, error, final(next)@),
        lined_up_at(old(at)@, key, error, final(at)@),
        met(old(used)@, key, fault, final(used)@),
{
}

/// An error that was lined up for an access to a byte is met once: by the next access, or by the next
/// one to its place.
pub proof fn byte_faults_are_met_once(
    new: ByteFaults,
    next: &mut ByteFaults,
    at: &mut ByteFaults,
    used: &mut ByteFaults,
    key: usize,
    error: StorageError,
    fault: Option<StorageError>,
)
    requires
        call_ensures(ByteFaults::new, (), new),
        call_ensures(ByteFaults::inject_next, (next, error), ()),
        call_ensures(ByteFaults::inject_at, (at, key, error), ()),
        call_ensures(ByteFaults::consume, (used, key), fault),
    ensures
        none_lined_up(new@),
        lined_up_next(old(next)@, error, final(next)@),
        lined_up_at(old(at)@, key, error, final(at)@),
        met(old(used)@, key, fault, final(used)@),
{
}

/// A new disk in memory has zeroed blocks, is ready and writable, and fails nowhere. The simulation
/// starts with one of 256 blocks.
pub proof fn new_disks_are_zeroed(count: u32, storage: RamStorage, first: RamStorage)
    requires
        call_ensures(RamStorage::new, (count,), storage),
        call_ensures(simulated::init_storage, (), first),
    ensures
        storage@.blocks.len() == count,
        forall|b: int, o: int|
            0 <= b < count && 0 <= o < 512 ==> #[trigger] storage@.blocks[b][o] == 0,
        forall|b: int| 0 <= b < count ==> (#[trigger] storage@.blocks[b]).len() == 512,
        storage@.ready && !storage@.write_protected,
        none_lined_up(storage@.read_faults) && none_lined_up(storage@.write_faults),
        first@.blocks.len() == 256,
        forall|b: int, o: int|
            0 <= b < 256 && 0 <= o < 512 ==> #[trigger] first@.blocks[b][o] == 0,
        first@.ready && !first@.write_protected,
        none_lined_up(first@.read_faults) && none_lined_up(first@.write_faults),
{
}

/// A block of a disk in memory that is ready is read as it is, unless an error was lined up for it.
/// Reading changes no block.
pub proof fn disk_blocks_are_read(
    storage: &mut RamStorage,
    lba: u32,
    out: &mut [u8; 512],
    r: Result<(), StorageError>,
    fault: Option<StorageError>,
)
    requires
        storage.wf(),
        call_ensures(RamStorage::read_block, (storage, lba, out), r),
        fault == match r {
            Ok(_) => None::<StorageError>,
            Err(error) => Some(error),
        },
    ensures
        !old(storage)@.ready ==> r == Err::<(), StorageError>(StorageError::NotReady),
        old(storage)@.ready && lba >= old(storage)@.blocks.len() ==> r == Err::<(), StorageError>(
            StorageError::MediumError,
        ),
        old(storage)@.ready && lba < old(storage)@.blocks.len() ==> met(
            old(storage)@.read_faults,
            lba,
            fault,
            final(storage)@.read_faults,
        ),
        !(old(storage)@.ready && lba < old(storage)@.blocks.len()) ==> final(storage)@.read_faults
            == old(storage)@.read_faults,
        r is Ok ==> final(out)@ == old(storage)@.blocks[lba as int],
        r is Err ==> final(out)@ == old(out)@,
        final(storage)@.blocks == old(storage)@.blocks,
        final(storage)@.ready == old(storage)@.ready,
        final(storage)@.write_protected == old(storage)@.write_protected,
        final(storage)@.write_faults == old(storage)@.write_faults,
{
}

/// A block of a disk in memory that is ready and not protected is written, unless an error was lined
/// up for it. Every other block stays, and a write that fails changes none.
pub proof fn disk_blocks_are_written(
    storage: &mut RamStorage,
    lba: u32,
    data: &[u8; 512],
    r: Result<(), StorageError>,
    fault: Option<StorageError>,
)
    requires
        storage.wf(),
        call_ensures(RamStorage::write_block, (storage, lba, data), r),
        fault == match r {
            Ok(_) => None::<StorageError>,
            Err(error) => Some(error),
        },
    ensures
        ({
            let before = old(storage)@;
            let after = final(storage)@;
            let writable = before.ready && !before.write_protected && lba < before.blocks.len();
            &&& !before.ready ==> r == Err::<(), StorageError>(StorageError::NotReady)
            &&& before.ready && before.write_protected ==> r == Err::<(), StorageError>(
                StorageError::WriteProtect,
            )
            &&& before.ready && !before.write_protected && lba >= before.blocks.len() ==> r == Err::<
                (),
                StorageError,
            >(StorageError::MediumError)
            &&& writable ==> met(before.write_faults, lba, fault, after.write_faults)
            &&& !writable ==> after.write_faults == before.write_faults
            &&& after.blocks.len() == before.blocks.len()
            &&& r is Ok ==> after.blocks[lba as int] == data@
            &&& forall|b: int|
                0 <= b < before.blocks.len() && !(r is Ok && b == lba) ==> #[trigger] after.blocks[b]
                    == before.blocks[b]
            &&& after.ready == before.ready
            &&& after.write_protected == before.write_protected
            &&& after.read_faults == before.read_faults
        }),
{
}

/// A disk in memory is what it is set to be: each setting changes itself alone, and a block that was
/// put in place is the one that is found there.
pub proof fn disk_settings_change_themselves_alone(
    switched: &mut RamStorage,
    ready: bool,
    locked: &mut RamStorage,
    write_protected: bool,
    filled: &mut RamStorage,
    index: u32,
    data: [u8; 512],
    looked_at: RamStorage,
    found: [u8; 512],
)
    requires
        index < filled@.blocks.len(),
        index < looked_at@.blocks.len(),
        call_ensures(RamStorage::set_ready, (switched, ready), ()),
        call_ensures(RamStorage::set_write_protected, (locked, write_protected), ()),
        call_ensures(RamStorage::set_block, (filled, index, data), ()),
        call_ensures(RamStorage::block, (&looked_at, index), found),
    ensures
        final(switched)@.ready == ready,
        final(switched)@.write_protected == old(switched)@.write_protected,
        final(switched)@.blocks == old(switched)@.blocks,
        final(switched)@.read_faults == old(switched)@.read_faults,
        final(switched)@.write_faults == old(switched)@.write_faults,
        final(locked)@.write_protected == write_protected,
        final(locked)@.ready == old(locked)@.ready,
        final(locked)@.blocks == old(locked)@.blocks,
        final(locked)@.read_faults == old(locked)@.read_faults,
        final(locked)@.write_faults == old(locked)@.write_faults,
        final(filled)@.blocks.len() == old(filled)@.blocks.len(),
        final(filled)@.blocks[index as int] == data@,
        forall|b: int|
            0 <= b < old(filled)@.blocks.len() && b != index ==> #[trigger] final(filled)@.blocks[b]
                == old(filled)@.blocks[b],
        final(filled)@.ready == old(filled)@.ready,
        final(filled)@.write_protected == old(filled)@.write_protected,
        final(filled)@.read_faults == old(filled)@.read_faults,
        final(filled)@.write_faults == old(filled)@.write_faults,
        found@ == looked_at@.blocks[index as int],
{
}

/// An error is lined up for reading or for writing, as it is asked for, and for nothing else.
pub proof fn disk_errors_are_lined_up(
    next_read: &mut RamStorage,
    next_write: &mut RamStorage,
    read_at: &mut RamStorage,
    write_at: &mut RamStorage,
    lba: u32,
    error: StorageError,
)
    requires
        call_ensures(RamStorage::inject_next_read_error, (next_read, error), ()),
        call_ensures(RamStorage::inject_next_write_error, (next_write, error), ()),
        call_ensures(RamStorage::inject_read_error_at, (read_at, lba, error), ()),
        call_ensures(RamStorage::inject_write_error_at, (write_at, lba, error), ()),
    ensures
        lined_up_next(old(next_read)@.read_faults, error, final(next_read)@.read_faults),
        final(next_read)@.blocks == old(next_read)@.blocks,
        final(next_read)@.ready == old(next_read)@.ready,
        final(next_read)@.write_protected == old(next_read)@.write_protected,
        final(next_read)@.write_faults == old(next_read)@.write_faults,
        lined_up_next(old(next_write)@.write_faults, error, final(next_write)@.write_faults),
        final(next_write)@.blocks == old(next_write)@.blocks,
        final(next_write)@.ready == old(next_write)@.ready,
        final(next_write)@.write_protected == old(next_write)@.write_protected,
        final(next_write)@.read_faults == old(next_write)@.read_faults,
        lined_up_at(old(read_at)@.read_faults, lba, error, final(read_at)@.read_faults),
        final(read_at)@.blocks == old(read_at)@.blocks,
        final(read_at)@.ready == old(read_at)@.ready,
        final(read_at)@.write_protected == old(read_at)@.write_protected,
        final(read_at)@.write_faults == old(read_at)@.write_faults,
        lined_up_at(old(write_at)@.write_faults, lba, error, final(write_at)@.write_faults),
        final(write_at)@.blocks == old(write_at)@.blocks,
        final(write_at)@.ready == old(write_at)@.ready,
        final(write_at)@.write_protected == old(write_at)@.write_protected,
        final(write_at)@.read_faults == old(write_at)@.read_faults,
{
}

/// An error for the next access of a sort is lined up for that sort alone.
pub proof fn next_errors_are_lined_up(
    next_read_block: &mut RamBackend,
    next_write_block: &mut RamBackend,
    next_read_bytes: &mut RamBackend,
    next_write_bytes: &mut RamBackend,
    error: StorageError,
)
    requires
        call_ensures(RamBackend::inject_next_read_block_error, (next_read_block, error), ()),
        call_ensures(RamBackend::inject_next_write_block_error, (next_write_block, error), ()),
        call_ensures(RamBackend::inject_next_read_bytes_error, (next_read_bytes, error), ()),
        call_ensures(RamBackend::inject_next_write_bytes_error, (next_write_bytes, error), ()),
    ensures
        lined_up_next(old(next_read_block)@.read_block_faults, error, final(next_read_block)@.read_block_faults),
        final(next_read_block)@.bytes == old(next_read_block)@.bytes,
        final(next_read_block)@.write_protected == old(next_read_block)@.write_protected,
        final(next_read_block)@.write_block_faults == old(next_read_block)@.write_block_faults,
        final(next_read_block)@.read_bytes_faults == old(next_read_block)@.read_bytes_faults,
        final(next_read_block)@.write_bytes_faults == old(next_read_block)@.write_bytes_faults,
        final(next_read_block)@.operations == old(next_read_block)@.operations,
        lined_up_next(old(next_write_block)@.write_block_faults, error, final(next_write_block)@.write_block_faults),
        final(next_write_block)@.bytes == old(next_write_block)@.bytes,
        final(next_write_block)@.write_protected == old(next_write_block)@.write_protected,
        final(next_write_block)@.read_block_faults == old(next_write_block)@.read_block_faults,
        final(next_write_block)@.read_bytes_faults == old(next_write_block)@.read_bytes_faults,
        final(next_write_block)@.write_bytes_faults == old(next_write_block)@.write_bytes_faults,
        final(next_write_block)@.operations == old(next_write_block)@.operations,
        lined_up_next(old(next_read_bytes)@.read_bytes_faults, error, final(next_read_bytes)@.read_bytes_faults),
        final(next_read_bytes)@.bytes == old(next_read_bytes)@.bytes,
        final(next_read_bytes)@.write_protected == old(next_read_bytes)@.write_protected,
        final(next_read_bytes)@.read_block_faults == old(next_read_bytes)@.read_block_faults,
        final(next_read_bytes)@.write_block_faults == old(next_read_bytes)@.write_block_faults,
        final(next_read_bytes)@.write_bytes_faults == old(next_read_bytes)@.write_bytes_faults,
        final(next_read_bytes)@.operations == old(next_read_bytes)@.operations,
        lined_up_next(old(next_write_bytes)@.write_bytes_faults, error, final(next_write_bytes)@.write_bytes_faults),
        final(next_write_bytes)@.bytes == old(next_write_bytes)@.bytes,
        final(next_write_bytes)@.write_protected == old(next_write_bytes)@.write_protected,
        final(next_write_bytes)@.read_block_faults == old(next_write_bytes)@.read_block_faults,
        final(next_write_bytes)@.write_block_faults == old(next_write_bytes)@.write_block_faults,
        final(next_write_bytes)@.read_bytes_faults == old(next_write_bytes)@.read_bytes_faults,
        final(next_write_bytes)@.operations == old(next_write_bytes)@.operations,
{
}

/// An error for an access to a place is lined up for that place and that sort of access alone.
pub proof fn errors_at_a_place_are_lined_up(
    read_block_at: &mut RamBackend,
    write_block_at: &mut RamBackend,
    read_bytes_at: &mut RamBackend,
    write_bytes_at: &mut RamBackend,
    lba: u32,
    address: usize,
    error: StorageError,
)
    requires
        call_ensures(RamBackend::inject_read_block_error_at, (read_block_at, lba, error), ()),
        call_ensures(RamBackend::inject_write_block_error_at, (write_block_at, lba, error), ()),
        call_ensures(RamBackend::inject_read_bytes_error_at, (read_bytes_at, address, error), ()),
        call_ensures(RamBackend::inject_write_bytes_error_at, (write_bytes_at, address, error), ()),
    ensures
        lined_up_at(old(read_block_at)@.read_block_faults, lba, error, final(read_block_at)@.read_block_faults),
        final(read_block_at)@.bytes == old(read_block_at)@.bytes,
        final(read_block_at)@.write_protected == old(read_block_at)@.write_protected,
        final(read_block_at)@.write_block_faults == old(read_block_at)@.write_block_faults,
        final(read_block_at)@.read_bytes_faults == old(read_block_at)@.read_bytes_faults,
        final(read_block_at)@.write_bytes_faults == old(read_block_at)@.write_bytes_faults,
        final(read_block_at)@.operations == old(read_block_at)@.operations,
        lined_up_at(old(write_block_at)@.write_block_faults, lba, error, final(write_block_at)@.write_block_faults),
        final(write_block_at)@.bytes == old(write_block_at)@.bytes,
        final(write_block_at)@.write_protected == old(write_block_at)@.write_protected,
        final(write_block_at)@.read_block_faults == old(write_block_at)@.read_block_faults,
        final(write_block_at)@.read_bytes_faults == old(write_block_at)@.read_bytes_faults,
        final(write_block_at)@.write_bytes_faults == old(write_block_at)@.write_bytes_faults,
        final(write_block_at)@.operations == old(write_block_at)@.operations,
        lined_up_at(old(read_bytes_at)@.read_bytes_faults, address, error, final(read_bytes_at)@.read_bytes_faults),
        final(read_bytes_at)@.bytes == old(read_bytes_at)@.bytes,
        final(read_bytes_at)@.write_protected == old(read_bytes_at)@.write_protected,
        final(read_bytes_at)@.read_block_faults == old(read_bytes_at)@.read_block_faults,
        final(read_bytes_at)@.write_block_faults == old(read_bytes_at)@.write_block_faults,
        final(read_bytes_at)@.write_bytes_faults == old(read_bytes_at)@.write_bytes_faults,
        final(read_bytes_at)@.operations == old(read_bytes_at)@.operations,
        lined_up_at(old(write_bytes_at)@.write_bytes_faults, address, error, final(write_bytes_at)@.write_bytes_faults),
        final(write_bytes_at)@.bytes == old(write_bytes_at)@.bytes,
        final(write_bytes_at)@.write_protected == old(write_bytes_at)@.write_protected,
        final(write_bytes_at)@.read_block_faults == old(write_bytes_at)@.read_block_faults,
        final(write_bytes_at)@.write_block_faults == old(write_bytes_at)@.write_block_faults,
        final(write_bytes_at)@.read_bytes_faults == old(write_bytes_at)@.read_bytes_faults,
        final(write_bytes_at)@.operations == old(write_bytes_at)@.operations,
{
}

/// A new memory is zeroed, writable, and fails nowhere; it has recorded nothing.
pub proof fn new_memories_are_zeroed(blocks: u32, backend: RamBackend)
    requires
        call_ensures(RamBackend::new, (blocks,), backend),
    ensures
        backend@.bytes.len() == 512 * blocks,
        forall|i: int| 0 <= i < 512 * blocks ==> #[trigger] backend@.bytes[i] == 0,
        !backend@.write_protected,
        none_lined_up(backend@.read_block_faults) && none_lined_up(backend@.write_block_faults),
        none_lined_up(backend@.read_bytes_faults) && none_lined_up(backend@.write_bytes_faults),
        backend@.operations.len() == 0,
{
}

/// A block of a memory is read as it is, unless an error was lined up for it. Reading is recorded, and
/// changes no byte.
pub proof fn memory_blocks_are_read(
    backend: &mut RamBackend,
    index: u32,
    out: &mut [u8; 512],
    r: Result<(), StorageError>,
    fault: Option<StorageError>,
)
    requires
        backend.wf(),
        call_ensures(RamBackend::read_physical_block, (backend, index, out), r),
        fault == match r {
            Ok(_) => None::<StorageError>,
            Err(error) => Some(error),
        },
    ensures
        ({
            let before = old(backend)@;
            let after = final(backend)@;
            &&& 512 * (index + 1) <= before.bytes.len() ==> met(
                before.read_block_faults,
                index,
                fault,
                after.read_block_faults,
            )
            // Behind the end only an error that was lined up comes first.
            &&& !(512 * (index + 1) <= before.bytes.len()) ==> exists|lined_up: Option<StorageError>|
                {
                    &&& #[trigger] met(before.read_block_faults, index, lined_up, after.read_block_faults)
                    &&& r == Err::<(), StorageError>(
                        match lined_up {
                            Some(error) => error,
                            None => StorageError::MediumError,
                        },
                    )
                }
            &&& after.bytes == before.bytes
            &&& r is Ok ==> forall|i: int|
                0 <= i < 512 ==> #[trigger] final(out)@[i] == before.bytes[512 * index + i]
            &&& r is Err ==> final(out)@ == old(out)@
            &&& after.operations == before.operations.push(
                BackendCall::ReadPhysicalBlock { block_index: index },
            )
            &&& after.write_protected == before.write_protected
            &&& after.write_block_faults == before.write_block_faults
            &&& after.read_bytes_faults == before.read_bytes_faults
            &&& after.write_bytes_faults == before.write_bytes_faults
        }),
{
    let before = backend@;
    let lined_up = before.read_block_faults.met_by(index);
    assert(met(before.read_block_faults, index, lined_up, before.read_block_faults.spent_by(index)));
}

/// A block of a memory that is not protected is written, unless an error was lined up for it. Every
/// other byte stays, and a write that fails changes none. Writing is recorded, failed or not.
pub proof fn memory_blocks_are_written(
    backend: &mut RamBackend,
    index: u32,
    data: &[u8; 512],
    r: Result<(), StorageError>,
    fault: Option<StorageError>,
)
    requires
        backend.wf(),
        call_ensures(RamBackend::write_physical_block, (backend, index, data), r),
        fault == match r {
            Ok(_) => None::<StorageError>,
            Err(error) => Some(error),
        },
    ensures
        ({
            let before = old(backend)@;
            let after = final(backend)@;
            &&& before.write_protected ==> r == Err::<(), StorageError>(
                StorageError::WriteProtect,
            ) && after.write_block_faults == before.write_block_faults
            &&& !before.write_protected && 512 * (index + 1) <= before.bytes.len() ==> met(
                before.write_block_faults,
                index,
                fault,
                after.write_block_faults,
            )
            // Behind the end only an error that was lined up comes first.
            &&& !before.write_protected && !(512 * (index + 1) <= before.bytes.len()) ==> exists|
                lined_up: Option<StorageError>,
            |
                {
                    &&& #[trigger] met(before.write_block_faults, index, lined_up, after.write_block_faults)
                    &&& r == Err::<(), StorageError>(
                        match lined_up {
                            Some(error) => error,
                            None => StorageError::MediumError,
                        },
                    )
                }
            &&& after.bytes.len() == before.bytes.len()
            &&& r is Ok ==> forall|i: int|
                0 <= i < 512 ==> after.bytes[512 * index + i] == #[trigger] data@[i]
            &&& forall|i: int|
                0 <= i < before.bytes.len() && !(r is Ok && 512 * index <= i < 512 * index + 512)
                    ==> #[trigger] after.bytes[i] == before.bytes[i]
            &&& after.operations == before.operations.push(
                BackendCall::WritePhysicalBlock { block_index: index, data: data@ },
            )
            &&& after.write_protected == before.write_protected
            &&& after.read_block_faults == before.read_block_faults
            &&& after.read_bytes_faults == before.read_bytes_faults
            &&& after.write_bytes_faults == before.write_bytes_faults
        }),
{
    let before = backend@;
    let lined_up = before.write_block_faults.met_by(index);
    assert(met(before.write_block_faults, index, lined_up, before.write_block_faults.spent_by(index)));
}

/// Bytes of a memory are read as they are, unless an error was lined up for the first of them.
pub proof fn memory_bytes_are_read(
    backend: &mut RamBackend,
    address: usize,
    out: &mut [u8],
    r: Result<(), StorageError>,
    fault: Option<StorageError>,
)
    requires
        backend.wf(),
        call_ensures(RamBackend::read_bytes, (backend, address, out), r),
        fault == match r {
            Ok(_) => None::<StorageError>,
            Err(error) => Some(error),
        },
    ensures
        ({
            let before = old(backend)@;
            let after = final(backend)@;
            &&& address + old(out)@.len() <= before.bytes.len() ==> met(
                before.read_bytes_faults,
                address,
                fault,
                after.read_bytes_faults,
            )
            // Behind the end only an error that was lined up comes first.
            &&& !(address + old(out)@.len() <= before.bytes.len()) ==> exists|
                lined_up: Option<StorageError>,
            |
                {
                    &&& #[trigger] met(before.read_bytes_faults, address, lined_up, after.read_bytes_faults)
                    &&& r == Err::<(), StorageError>(
                        match lined_up {
                            Some(error) => error,
                            None => StorageError::MediumError,
                        },
                    )
                }
            &&& after.bytes == before.bytes
            &&& r is Ok ==> forall|i: int|
                0 <= i < old(out)@.len() ==> #[trigger] final(out)@[i] == before.bytes[address + i]
            &&& r is Err ==> final(out)@ == old(out)@
            &&& after.operations == before.operations.push(
                BackendCall::ReadBytes { address, len: old(out)@.len() },
            )
            &&& after.write_protected == before.write_protected
            &&& after.read_block_faults == before.read_block_faults
            &&& after.write_block_faults == before.write_block_faults
            &&& after.write_bytes_faults == before.write_bytes_faults
        }),
{
    let before = backend@;
    let lined_up = before.read_bytes_faults.met_by(address);
    assert(met(before.read_bytes_faults, address, lined_up, before.read_bytes_faults.spent_by(address)));
}

/// Bytes of a memory that is not protected are written, unless an error was lined up for the first of
/// them. Every other byte stays, and a write that fails changes none.
pub proof fn memory_bytes_are_written(
    backend: &mut RamBackend,
    address: usize,
    data: &[u8],
    r: Result<(), StorageError>,
    fault: Option<StorageError>,
)
    requires
        backend.wf(),
        call_ensures(RamBackend::write_bytes, (backend, address, data), r),
        fault == match r {
            Ok(_) => None::<StorageError>,
            Err(error) => Some(error),
        },
    ensures
        ({
            let before = old(backend)@;
            let after = final(backend)@;
            &&& before.write_protected ==> r == Err::<(), StorageError>(
                StorageError::WriteProtect,
            ) && after.write_bytes_faults == before.write_bytes_faults
            &&& !before.write_protected && address + data@.len() <= before.bytes.len() ==> met(
                before.write_bytes_faults,
                address,
                fault,
                after.write_bytes_faults,
            )
            // Behind the end only an error that was lined up comes first.
            &&& !before.write_protected && !(address + data@.len() <= before.bytes.len()) ==> exists|
                lined_up: Option<StorageError>,
            |
                {
                    &&& #[trigger] met(before.write_bytes_faults, address, lined_up, after.write_bytes_faults)
                    &&& r == Err::<(), StorageError>(
                        match lined_up {
                            Some(error) => error,
                            None => StorageError::MediumError,
                        },
                    )
                }
            &&& after.bytes.len() == before.bytes.len()
            &&& r is Ok ==> forall|i: int|
                0 <= i < data@.len() ==> after.bytes[address + i] == #[trigger] data@[i]
            &&& forall|i: int|
                0 <= i < before.bytes.len() && !(r is Ok && address <= i < address + data@.len())
                    ==> #[trigger] after.bytes[i] == before.bytes[i]
            &&& after.operations == before.operations.push(
                BackendCall::WriteBytes { address, data: data@ },
            )
            &&& after.write_protected == before.write_protected
            &&& after.read_block_faults == before.read_block_faults
            &&& after.write_block_faults == before.write_block_faults
            &&& after.read_bytes_faults == before.read_bytes_faults
        }),
{
    let before = backend@;
    let lined_up = before.write_bytes_faults.met_by(address);
    assert(met(before.write_bytes_faults, address, lined_up, before.write_bytes_faults.spent_by(address)));
}

/// A memory can be protected, filled and looked at without a record: each changes what it says alone.
pub proof fn memory_settings_change_themselves_alone(
    locked: &mut RamBackend,
    write_protected: bool,
    filled: &mut RamBackend,
    index: u32,
    data: [u8; 512],
    looked_at: RamBackend,
    found: [u8; 512],
    address: usize,
    len: usize,
    bytes: Vec<u8>,
    count: u32,
)
    requires
        512 * (index + 1) <= filled@.bytes.len(),
        512 * (index + 1) <= looked_at@.bytes.len(),
        address + len <= looked_at@.bytes.len(),
        looked_at.wf(),
        call_ensures(RamBackend::set_write_protected, (locked, write_protected), ()),
        call_ensures(RamBackend::set_physical_block, (filled, index, data), ()),
        call_ensures(RamBackend::physical_block, (&looked_at, index), found),
        call_ensures(RamBackend::bytes_at, (&looked_at, address, len), bytes),
        call_ensures(RamBackend::physical_block_count, (&looked_at,), count),
    ensures
        final(locked)@.write_protected == write_protected,
        final(locked)@.bytes == old(locked)@.bytes,
        final(locked)@.operations == old(locked)@.operations,
        final(filled)@.bytes.len() == old(filled)@.bytes.len(),
        forall|o: int| 0 <= o < 512 ==> final(filled)@.bytes[512 * index + o] == #[trigger] data@[o],
        forall|i: int|
            0 <= i < old(filled)@.bytes.len() && !(512 * index <= i < 512 * index + 512)
                ==> #[trigger] final(filled)@.bytes[i] == old(filled)@.bytes[i],
        final(filled)@.write_protected == old(filled)@.write_protected,
        final(filled)@.operations == old(filled)@.operations,
        forall|o: int| 0 <= o < 512 ==> #[trigger] found@[o] == looked_at@.bytes[512 * index + o],
        bytes@.len() == len,
        forall|i: int| 0 <= i < len ==> #[trigger] bytes@[i] == looked_at@.bytes[address + i],
        512 * count == looked_at@.bytes.len(),
{
}

/// The record of a memory tells each access as it was asked for, the oldest first.
pub proof fn record_tells_what_was_asked_for(backend: RamBackend, record: &[BackendOp], i: int)
    requires
        call_ensures(RamBackend::operations, (&backend,), record),
        0 <= i < record@.len(),
    ensures
        record@.len() == backend@.operations.len(),
        match record@[i] {
            BackendOp::ReadPhysicalBlock { block_index } => backend@.operations[i]
                == BackendCall::ReadPhysicalBlock { block_index },
            BackendOp::WritePhysicalBlock { block_index, data } => backend@.operations[i]
                == BackendCall::WritePhysicalBlock { block_index, data: data@ },
            BackendOp::ReadBytes { address, len } => backend@.operations[i]
                == BackendCall::ReadBytes { address, len: len as nat },
            BackendOp::WriteBytes { address, data } => backend@.operations[i]
                == BackendCall::WriteBytes { address, data: data@ },
        },
{
    assert(record@[i]@ == backend@.operations[i]);
}

/// A cleared record is empty, and nothing else changes.
pub proof fn records_can_be_cleared(backend: &mut RamBackend)
    requires
        call_ensures(RamBackend::clear_operations, (backend,), ()),
    ensures
        final(backend)@.operations.len() == 0,
        final(backend)@.bytes == old(backend)@.bytes,
        final(backend)@.write_protected == old(backend)@.write_protected,
        final(backend)@.read_block_faults == old(backend)@.read_block_faults,
        final(backend)@.write_block_faults == old(backend)@.write_block_faults,
        final(backend)@.read_bytes_faults == old(backend)@.read_bytes_faults,
        final(backend)@.write_bytes_faults == old(backend)@.write_bytes_faults,
{
}

/// A new endpoint has nothing to say. Packets are queued behind each other, and the setting for an empty
/// queue is what it was set to.
pub proof fn packets_are_queued_in_order(
    new: MockEndpoint,
    endpoint: &mut MockEndpoint,
    packet: Vec<u8>,
    plain: MockEndpoint,
    enabled: bool,
    set: MockEndpoint,
)
    requires
        call_ensures(MockEndpoint::new, (), new),
        call_ensures(MockEndpoint::queue_read_packet, (endpoint, packet), ()),
        call_ensures(MockEndpoint::disabled_when_empty, (plain, enabled), set),
    ensures
        new@.queued.len() == 0 && new@.written.len() == 0,
        new@.fail_next_read is None && new@.fail_next_write is None && !new@.disabled_when_empty,
        final(endpoint)@.queued.len() == old(endpoint)@.queued.len() + 1,
        forall|i: int|
            0 <= i < old(endpoint)@.queued.len() ==> #[trigger] final(endpoint)@.queued[i]
                == old(endpoint)@.queued[i],
        final(endpoint)@.queued.last() == packet@,
        final(endpoint)@.written == old(endpoint)@.written,
        final(endpoint)@.fail_next_read == old(endpoint)@.fail_next_read,
        final(endpoint)@.fail_next_write == old(endpoint)@.fail_next_write,
        final(endpoint)@.disabled_when_empty == old(endpoint)@.disabled_when_empty,
        set@.disabled_when_empty == enabled,
        set@.queued == plain@.queued && set@.written == plain@.written,
        set@.fail_next_read == plain@.fail_next_read,
        set@.fail_next_write == plain@.fail_next_write,
{
}

/// A read that was to fail fails once, with its error, and takes no packet. Any other read takes the
/// packet that was queued first: it fills the start of the buffer, or is lost where the buffer is too
/// small. Where nothing is queued nothing comes, or the endpoint says that it is disabled.
pub proof fn packets_come_in_order(
    endpoint: &mut MockEndpoint,
    buf: &mut [u8],
    timeout_ms: u64,
    r: Result<Option<usize>, EndpointError>,
)
    requires
        call_ensures(MockEndpoint::endpoint_read, (endpoint, buf, timeout_ms), r),
    ensures
        ({
            let before = old(endpoint)@;
            let after = final(endpoint)@;
            &&& after.fail_next_read is None
            &&& before.fail_next_read matches Some(error) ==> r == Err::<Option<usize>, EndpointError>(
                error,
            )
            &&& before.fail_next_read is Some || before.queued.len() == 0 ==> after.queued
                == before.queued
            &&& before.fail_next_read is None && before.queued.len() > 0 ==> {
                &&& after.queued.len() == before.queued.len() - 1
                &&& forall|i: int|
                    0 <= i < after.queued.len() ==> #[trigger] after.queued[i] == before.queued[i
                        + 1]
                &&& before.queued[0].len() > old(buf)@.len() ==> r == Err::<
                    Option<usize>,
                    EndpointError,
                >(EndpointError::BufferOverflow)
                &&& before.queued[0].len() <= old(buf)@.len() ==> {
                    &&& r == Ok::<Option<usize>, EndpointError>(
                        Some(before.queued[0].len() as usize),
                    )
                    &&& forall|i: int|
                        0 <= i < before.queued[0].len() ==> #[trigger] final(buf)@[i]
                            == before.queued[0][i]
                }
            }
            &&& before.fail_next_read is None && before.queued.len() == 0 ==> r == if before
                .disabled_when_empty {
                Err::<Option<usize>, EndpointError>(EndpointError::Disabled)
            } else {
                Ok(None)
            }
            &&& after.written == before.written
            &&& after.fail_next_write == before.fail_next_write
            &&& after.disabled_when_empty == before.disabled_when_empty
        }),
{
}

/// A write that was to fail fails once, with its error, and keeps nothing. Any other packet that is
/// written is kept behind those before it.
pub proof fn written_packets_are_kept_in_order(
    endpoint: &mut MockEndpoint,
    buf: &[u8],
    r: Result<(), EndpointError>,
)
    requires
        call_ensures(MockEndpoint::endpoint_write, (endpoint, buf), r),
    ensures
        ({
            let before = old(endpoint)@;
            let after = final(endpoint)@;
            &&& after.fail_next_write is None
            &&& before.fail_next_write matches Some(error) ==> r == Err::<(), EndpointError>(error)
                && after.written == before.written
            &&& before.fail_next_write is None ==> {
                &&& r is Ok
                &&& after.written.len() == before.written.len() + 1
                &&& after.written.last() == buf@
                &&& forall|i: int|
                    0 <= i < before.written.len() ==> #[trigger] after.written[i]
                        == before.written[i]
            }
            &&& after.queued == before.queued
            &&& after.fail_next_read == before.fail_next_read
            &&& after.disabled_when_empty == before.disabled_when_empty
        }),
{
}

/// An endpoint is made to fail in one direction alone. What it kept can be looked at, and taken once.
pub proof fn kept_packets_are_taken_once(
    read: &mut MockEndpoint,
    write: &mut MockEndpoint,
    error: EndpointError,
    endpoint: MockEndpoint,
    seen: &[Vec<u8>],
    emptied: &mut MockEndpoint,
    taken: Vec<Vec<u8>>,
)
    requires
        call_ensures(MockEndpoint::set_fail_next_read, (read, error), ()),
        call_ensures(MockEndpoint::set_fail_next_write, (write, error), ()),
        call_ensures(MockEndpoint::writes, (&endpoint,), seen),
        call_ensures(MockEndpoint::take_writes, (emptied,), taken),
    ensures
        final(read)@.fail_next_read == Some(error),
        final(read)@.fail_next_write == old(read)@.fail_next_write,
        final(read)@.queued == old(read)@.queued,
        final(read)@.written == old(read)@.written,
        final(write)@.fail_next_write == Some(error),
        final(write)@.fail_next_read == old(write)@.fail_next_read,
        final(write)@.queued == old(write)@.queued,
        final(write)@.written == old(write)@.written,
        seen@.len() == endpoint@.written.len(),
        forall|i: int| 0 <= i < seen@.len() ==> #[trigger] seen@[i]@ == endpoint@.written[i],
        taken@.len() == old(emptied)@.written.len(),
        forall|i: int| 0 <= i < taken@.len() ==> #[trigger] taken@[i]@ == old(emptied)@.written[i],
        final(emptied)@.written.len() == 0,
        final(emptied)@.queued == old(emptied)@.queued,
{
    let packets = mock_endpoint::values(seen@);
    assert forall|i: int| 0 <= i < seen@.len() implies #[trigger] seen@[i]@ == endpoint@.written[i] by {
        assert(packets[i] == seen@[i]@);
    }
    let packets = mock_endpoint::values(taken@);
    let kept = emptied@.written;
    assert forall|i: int| 0 <= i < taken@.len() implies #[trigger] taken@[i]@ == kept[i] by {
        assert(packets[i] == taken@[i]@);
    }
}

/// The disk that does nothing has 2048 blocks, and the stack that asks it for no more than that takes
/// packets of 64 bytes. Neither changes when it is looked after.
pub proof fn idle_disk_stays_as_it_is<D: BlockDevice>(
    disk: Storage,
    blocks: u32,
    polled: &mut Storage,
    stack: MscStack,
    polling: &mut MscStack,
    device: &mut D,
)
    requires
        call_ensures(Storage::new, (), disk),
        call_ensures(Storage::block_count, (&disk,), blocks),
        call_ensures(Storage::poll, (polled,), ()),
        call_ensures(MscStack::new, (), stack),
        call_ensures(MscStack::poll::<D>, (polling, device), ()),
    ensures
        blocks == 2048,
        *final(polled) == *old(polled),
        stack.max_packet_size == 64,
        *final(polling) == *old(polling),
        *final(device) == *old(device),
{
}

} // verus!
