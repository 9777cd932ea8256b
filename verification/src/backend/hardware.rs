//! How the disk comes up on its memory.

use vstd::prelude::*;
use crate::storage::backend::JournalBackend;
use crate::storage::block::BlockStorage;
use crate::storage::error::StorageError;
use crate::storage::journal::layout::{
    self, visible_block_count_from_physical, JOURNAL_RESERVED_BLOCKS,
};
use crate::storage::journal::metadata::{self, MetadataJournalStorage};
use crate::storage::journal::script;
use crate::storage::medium::{self, BLOCK_SIZE};
use crate::storage::volume;

verus! {

/// Why the disk did not come up.
#[derive(Copy, Clone, Debug, PartialEq, Eq)]
pub enum HardwareInitError {
    MissingResource(&'static str),
    VolumeInitFailed,
    JournalInitFailed,
}

/// How many logical blocks a memory has.
pub open spec fn visible_blocks_of(m: Seq<u8>) -> u32 {
    layout::visible_blocks(m.len() as int / BLOCK_SIZE as int) as u32
}

/// The memory once it is made sure that it holds the volume.
pub open spec fn with_volume(m: Seq<u8>) -> Seq<u8> {
    if volume::holds_volume(m, visible_blocks_of(m), JOURNAL_RESERVED_BLOCKS) {
        m
    } else {
        medium::apply_writes(
            m,
            volume::format_writes(visible_blocks_of(m), JOURNAL_RESERVED_BLOCKS),
        )
    }
}

/// What the first of the two steps did that bring the disk up: it made sure of the volume.
pub open spec fn prepared_by<B: JournalBackend>(
    backend: &B,
    after: &B,
    r: Result<bool, StorageError>,
) -> bool {
    volume::ensured(
        backend,
        after,
        visible_blocks_of(backend.medium()),
        JOURNAL_RESERVED_BLOCKS,
        r,
    )
}

/// Brings the disk up: makes sure that the memory holds a volume behind the blocks of the journal,
/// and recovers what the journal holds. Tells also whether the volume had to be written.
/// The error names the step that failed: the volume, or the start of the journal on the backend
/// as the first step left it.
#[verifier::spinoff_prover]
pub fn open_storage<B: JournalBackend>(backend: B) -> (r: Result<
    (MetadataJournalStorage<B>, bool),
    HardwareInitError,
>)
    requires
        backend.wf(),
        backend.medium().len() > JOURNAL_RESERVED_BLOCKS * BLOCK_SIZE,
    ensures
        backend.healthy() && (JOURNAL_RESERVED_BLOCKS + volume::FORMATTED_BLOCKS) * BLOCK_SIZE
            <= backend.medium().len() ==> r is Ok,
        !volume::holds_volume(
            backend.medium(),
            visible_blocks_of(backend.medium()),
            JOURNAL_RESERVED_BLOCKS,
        ) && (JOURNAL_RESERVED_BLOCKS + volume::FORMATTED_BLOCKS) * BLOCK_SIZE
            > backend.medium().len() ==> r == Err::<
            (MetadataJournalStorage<B>, bool),
            HardwareInitError,
        >(HardwareInitError::VolumeInitFailed),
        backend.healthy() ==> r != Err::<(MetadataJournalStorage<B>, bool), HardwareInitError>(
            HardwareInitError::JournalInitFailed,
        ),
        match r {
            Ok((storage, formatted)) => {
                let m = with_volume(backend.medium());
                let count = visible_blocks_of(backend.medium());
                &&& formatted == !volume::holds_volume(
                    backend.medium(),
                    count,
                    JOURNAL_RESERVED_BLOCKS,
                )
                &&& storage.wf()
                &&& storage.ready()
                &&& storage.unfinished() is None
                &&& storage.count() == count
                &&& storage.protected() == layout::protected_range(m, count as int)
                &&& storage.contents() == script::recovered_blocks(m, count as int)
                &&& storage.errors().len() == 0
                &&& backend.healthy() ==> storage.healthy()
                &&& exists|prepared: B|
                    {
                        &&& #[trigger] prepared_by(&backend, &prepared, Ok(formatted))
                        &&& metadata::started(&prepared, &storage.store(), count as int, Ok(()))
                    }
            },
            Err(HardwareInitError::VolumeInitFailed) => exists|left: B, error: StorageError|
                #[trigger] prepared_by(&backend, &left, Err(error)),
            Err(HardwareInitError::JournalInitFailed) => exists|
                prepared: B,
                formatted: bool,
                left: B,
                error: StorageError,
            |
                {
                    &&& #[trigger] prepared_by(&backend, &prepared, Ok(formatted))
                    &&& #[trigger] metadata::started(
                        &prepared,
                        &left,
                        visible_blocks_of(backend.medium()) as int,
                        Err(error),
                    )
                },
            Err(HardwareInitError::MissingResource(_)) => false,
        },
{
    let mut backend = backend;
    let ghost given = backend;
    let ghost m0 = backend.medium();
    let physical_blocks = backend.physical_block_count();
    assert(physical_blocks == m0.len() as int / BLOCK_SIZE as int);
    let visible_blocks = visible_block_count_from_physical(physical_blocks);
    let ensured = volume::ensure_mass_storage_volume_for_total_blocks_at_offset(
        &mut backend,
        visible_blocks,
        JOURNAL_RESERVED_BLOCKS,
    );
    let ghost prepared = backend;
    assert(prepared_by(&given, &prepared, ensured));
    let formatted = match ensured {
        Ok(formatted) => formatted,
        Err(_) => {
            return Err(HardwareInitError::VolumeInitFailed);
        },
    };
    assert(medium::apply_writes(m0, Seq::empty()) == m0);
    let mut storage = MetadataJournalStorage::new(backend);
    let started = storage.initialize();
    assert(metadata::started(&prepared, &storage.store(), visible_blocks as int, started));
    match started {
        Ok(()) => Ok((storage, formatted)),
        Err(_) => Err(HardwareInitError::JournalInitFailed),
    }
}

} // verus!
