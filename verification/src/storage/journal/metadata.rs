//! Block storage that journals the writes to file-system metadata.

use vstd::prelude::*;
use crate::bytes;
use crate::storage::backend::{self, BackendCall, JournalBackend};
use crate::storage::block::{self, BlockStorage};
use crate::storage::error::{self, StorageError};
use crate::storage::journal::crash;
use crate::storage::journal::crc;
use crate::storage::journal::effects;
use crate::storage::journal::layout::{
    self, visible_block_count_from_physical, LbaRange, JOURNAL_HEADER_CRC_OFFSET,
    JOURNAL_HEADER_LEN, JOURNAL_HEADER_MAGIC_OFFSET, JOURNAL_HEADER_SHADOW_CRC_OFFSET,
    JOURNAL_HEADER_STATE_OFFSET, JOURNAL_HEADER_TARGET_LBA_OFFSET, JOURNAL_MAGIC,
    JOURNAL_RESERVED_BLOCKS, JOURNAL_STATE_CLEAN, JOURNAL_STATE_COMMITTED,
};
use crate::storage::journal::script;
use crate::storage::medium::{self, MediumWrite, BLOCK_SIZE};

verus! {

/// Metadata-only atomic journal wrapper.
///
/// Protected LBAs (FAT tables + root directory sectors) use journaled writes,
/// while all other LBAs directly passthrough to keep bulk data throughput high.
pub struct MetadataJournalStorage<B> {
    backend: B,
    logical_block_count: u32,
    data_start_lba: u32,
    journal_header_lba: u32,
    journal_shadow_lba: u32,
    protected_lbas: LbaRange,
    ready: bool,
    error_log: Ghost<Seq<StorageError>>,
}

impl<B: JournalBackend> MetadataJournalStorage<B> {
    /// The backend that the blocks are kept on.
    pub closed spec fn store(&self) -> B {
        self.backend
    }

    /// The number of logical blocks.
    pub closed spec fn count(&self) -> int {
        self.logical_block_count as int
    }

    /// The blocks whose writes are journaled.
    pub closed spec fn protected(&self) -> LbaRange {
        self.protected_lbas
    }

    /// Every byte of the medium.
    pub open spec fn medium(&self) -> Seq<u8> {
        self.store().medium()
    }

    /// The addresses agree with the size of the medium.
    spec fn laid_out(&self) -> bool {
        let physical = self.backend.medium().len() as int / BLOCK_SIZE as int;
        &&& self.backend.wf()
        &&& self.backend.medium().len() == physical * BLOCK_SIZE
        &&& physical <= u32::MAX
        &&& self.logical_block_count == layout::visible_blocks(physical)
        &&& self.data_start_lba == if physical < JOURNAL_RESERVED_BLOCKS {
            physical
        } else {
            JOURNAL_RESERVED_BLOCKS as int
        }
        &&& self.journal_header_lba == 0
        &&& self.journal_shadow_lba == if physical > 1 {
            1int
        } else {
            0
        }
    }

    /// Everything but the backend is as it was.
    spec fn same_but_backend(&self, other: &Self) -> bool {
        &&& self.logical_block_count == other.logical_block_count
        &&& self.data_start_lba == other.data_start_lba
        &&& self.journal_header_lba == other.journal_header_lba
        &&& self.journal_shadow_lba == other.journal_shadow_lba
        &&& self.protected_lbas == other.protected_lbas
        &&& self.ready == other.ready
        &&& self.error_log == other.error_log
    }

    /// Storage on `backend`, not ready before it has been initialized.
    pub fn new(backend: B) -> (storage: Self)
        requires
            backend.wf(),
        ensures
            storage.wf(),
            storage.store() == backend,
            storage.count() == layout::visible_blocks(
                backend.medium().len() as int / BLOCK_SIZE as int,
            ),
            storage.protected() == LbaRange::nothing(),
            !storage.ready(),
            storage.errors().len() == 0,
    {
        let physical_blocks = backend.physical_block_count();
        let data_start_lba = if physical_blocks < JOURNAL_RESERVED_BLOCKS {
            physical_blocks
        } else {
            JOURNAL_RESERVED_BLOCKS
        };
        let journal_shadow_lba: u32 = if physical_blocks > 1 {
            1
        } else {
            0
        };
        MetadataJournalStorage {
            backend,
            logical_block_count: visible_block_count_from_physical(physical_blocks),
            data_start_lba,
            journal_header_lba: 0,
            journal_shadow_lba,
            protected_lbas: LbaRange::empty(),
            ready: false,
            error_log: Ghost(Seq::empty()),
        }
    }

    /// The backend that the blocks are kept on.
    pub fn backend(&self) -> (backend: &B)
        ensures
            *backend == self.store(),
            self.wf() ==> backend.wf(),
    {
        &self.backend
    }

    fn is_logical_lba(&self, lba: u32) -> (b: bool)
        ensures
            b == (lba < self.count()),
    {
        lba < self.logical_block_count
    }

    fn is_protected_lba(&self, lba: u32) -> (b: bool)
        ensures
            b == self.protected().has(lba as int),
    {
        self.protected_lbas.contains(lba)
    }

    fn logical_to_physical_lba(&self, logical_lba: u32) -> (physical: u32)
        requires
            self.laid_out(),
            logical_lba < self.count(),
        ensures
            physical == JOURNAL_RESERVED_BLOCKS + logical_lba,
            (physical + 1) * BLOCK_SIZE <= self.medium().len(),
    {
        self.data_start_lba + logical_lba
    }

    fn journal_header_address(&self, offset: usize) -> (address: usize)
        requires
            self.journal_header_lba * BLOCK_SIZE + offset <= usize::MAX,
        ensures
            address == self.journal_header_lba * BLOCK_SIZE + offset,
    {
        self.journal_header_lba as usize * BLOCK_SIZE + offset
    }

    /// Makes write `k` of the sequence `ws`, which is one to the journal header.
    fn write_header_bytes(
        &mut self,
        offset: usize,
        data: &[u8],
        Ghost(m0): Ghost<Seq<u8>>,
        Ghost(log0): Ghost<Seq<MediumWrite>>,
        Ghost(calls0): Ghost<Seq<BackendCall>>,
        Ghost(ws): Ghost<Seq<MediumWrite>>,
        Ghost(k): Ghost<int>,
    ) -> (r: Result<(), StorageError>)
        requires
            old(self).laid_out(),
            old(self).count() > 0,
            offset + data@.len() <= JOURNAL_HEADER_LEN,
            script::progressed(m0, log0, ws, k, old(self).medium(), old(self).store().writes()),
            old(self).store().calls() == calls0 + script::write_calls(ws.take(k)),
            k < ws.len(),
            ws[k] == (MediumWrite { address: offset as int, data: data@ }),
        ensures
            final(self).laid_out(),
            final(self).same_but_backend(old(self)),
            backend::answered(&old(self).store(), &final(self).store(), r),
            old(self).store().healthy() ==> r is Ok && final(self).store().healthy(),
            r is Ok ==> script::progressed(
                m0,
                log0,
                ws,
                k + 1,
                final(self).medium(),
                final(self).store().writes(),
            ) && final(self).store().calls() == calls0 + script::write_calls(ws.take(k + 1)),
            r is Err ==> script::called(
                calls0,
                script::write_calls(ws),
                final(self).store().calls(),
                r,
            ),
            r is Err ==> script::attempted(
                m0,
                log0,
                ws,
                k + 1,
                final(self).medium(),
                final(self).store().writes(),
            ),
    {
        let address = self.journal_header_address(offset);
        let r = self.backend.write_bytes(address, data);
        proof {
            assert(ws.take(k + 1) =~= ws.take(k).push(ws[k]));
            assert(log0 + ws.take(k + 1) =~= (log0 + ws.take(k)).push(ws[k]));
            medium::lemma_apply_writes_push(m0, ws.take(k), ws[k]);
            script::lemma_write_calls(calls0, ws, k);
        }
        r
    }

    /// Makes write `k` of the sequence `ws`, which is one of the state byte.
    fn write_state(
        &mut self,
        state: u8,
        Ghost(m0): Ghost<Seq<u8>>,
        Ghost(log0): Ghost<Seq<MediumWrite>>,
        Ghost(calls0): Ghost<Seq<BackendCall>>,
        Ghost(ws): Ghost<Seq<MediumWrite>>,
        Ghost(k): Ghost<int>,
    ) -> (r: Result<(), StorageError>)
        requires
            old(self).laid_out(),
            old(self).count() > 0,
            script::progressed(m0, log0, ws, k, old(self).medium(), old(self).store().writes()),
            old(self).store().calls() == calls0 + script::write_calls(ws.take(k)),
            k < ws.len(),
            ws[k] == script::state_write(state),
        ensures
            final(self).laid_out(),
            final(self).same_but_backend(old(self)),
            backend::answered(&old(self).store(), &final(self).store(), r),
            old(self).store().healthy() ==> r is Ok && final(self).store().healthy(),
            r is Ok ==> script::progressed(
                m0,
                log0,
                ws,
                k + 1,
                final(self).medium(),
                final(self).store().writes(),
            ) && final(self).store().calls() == calls0 + script::write_calls(ws.take(k + 1)),
            r is Err ==> script::called(
                calls0,
                script::write_calls(ws),
                final(self).store().calls(),
                r,
            ),
            r is Err ==> script::attempted(
                m0,
                log0,
                ws,
                k + 1,
                final(self).medium(),
                final(self).store().writes(),
            ),
    {
        let marker = [state];
        assert(marker@ =~= seq![state]);
        self.write_header_bytes(
            JOURNAL_HEADER_STATE_OFFSET,
            &marker,
            Ghost(m0),
            Ghost(log0),
            Ghost(calls0),
            Ghost(ws),
            Ghost(k),
        )
    }

    /// Makes write `k` of the sequence `ws`, which is one of a whole block.
    fn write_whole_block(
        &mut self,
        physical: u32,
        data: &[u8; BLOCK_SIZE],
        Ghost(m0): Ghost<Seq<u8>>,
        Ghost(log0): Ghost<Seq<MediumWrite>>,
        Ghost(calls0): Ghost<Seq<BackendCall>>,
        Ghost(ws): Ghost<Seq<MediumWrite>>,
        Ghost(k): Ghost<int>,
    ) -> (r: Result<(), StorageError>)
        requires
            old(self).laid_out(),
            (physical + 1) * BLOCK_SIZE <= old(self).medium().len(),
            script::progressed(m0, log0, ws, k, old(self).medium(), old(self).store().writes()),
            old(self).store().calls() == calls0 + script::write_calls(ws.take(k)),
            k < ws.len(),
            ws[k] == MediumWrite::block(physical as int, data@),
        ensures
            final(self).laid_out(),
            final(self).same_but_backend(old(self)),
            backend::answered(&old(self).store(), &final(self).store(), r),
            old(self).store().healthy() ==> r is Ok && final(self).store().healthy(),
            r is Ok ==> script::progressed(
                m0,
                log0,
                ws,
                k + 1,
                final(self).medium(),
                final(self).store().writes(),
            ) && final(self).store().calls() == calls0 + script::write_calls(ws.take(k + 1)),
            r is Err ==> script::called(
                calls0,
                script::write_calls(ws),
                final(self).store().calls(),
                r,
            ),
            r is Err ==> script::attempted(
                m0,
                log0,
                ws,
                k + 1,
                final(self).medium(),
                final(self).store().writes(),
            ),
    {
        let r = self.backend.write_physical_block(physical, data);
        proof {
            assert(ws.take(k + 1) =~= ws.take(k).push(ws[k]));
            assert(log0 + ws.take(k + 1) =~= (log0 + ws.take(k)).push(ws[k]));
            medium::lemma_apply_writes_push(m0, ws.take(k), ws[k]);
            script::lemma_write_calls(calls0, ws, k);
        }
        r
    }

    fn read_journal_header(&mut self) -> (r: Result<[u8; JOURNAL_HEADER_LEN], StorageError>)
        requires
            old(self).laid_out(),
            old(self).count() > 0,
        ensures
            final(self).laid_out(),
            final(self).same_but_backend(old(self)),
            final(self).medium() == old(self).medium(),
            final(self).store().writes() == old(self).store().writes(),
            final(self).store().calls() == old(self).store().calls().push(script::header_read()),
            backend::answered(&old(self).store(), &final(self).store(), r),
            old(self).store().healthy() ==> r is Ok && final(self).store().healthy(),
            r matches Ok(header) ==> header@ == layout::header_of(old(self).medium()),
    {
        let mut header = [0u8; JOURNAL_HEADER_LEN];
        let address = self.journal_header_address(JOURNAL_HEADER_STATE_OFFSET);
        match self.backend.read_bytes(address, &mut header) {
            Ok(()) => {
                assert(header@ =~= layout::header_of(old(self).medium()));
                Ok(header)
            },
            Err(e) => Err(e),
        }
    }

    fn initialize_journal_header(&mut self) -> (r: Result<(), StorageError>)
        requires
            old(self).laid_out(),
            old(self).count() > 0,
        ensures
            final(self).laid_out(),
            final(self).same_but_backend(old(self)),
            backend::answered(&old(self).store(), &final(self).store(), r),
            old(self).store().healthy() ==> r is Ok && final(self).store().healthy(),
            script::ran(
                old(self).medium(),
                old(self).store().writes(),
                script::header_writes(old(self).medium()),
                final(self).medium(),
                final(self).store().writes(),
                r,
            ),
            script::called(
                old(self).store().calls(),
                script::header_calls(old(self).medium()),
                final(self).store().calls(),
                r,
            ),
    {
        let ghost m0 = self.medium();
        let ghost log0 = self.store().writes();
        let ghost ws = script::header_writes(m0);
        let ghost reads = seq![script::header_read()];
        let ghost calls0 = self.store().calls() + reads;
        proof {
            lemma_reads_then_writes(self.store().calls(), reads, ws);
            assert(reads.take(1) =~= reads);
            assert(calls0 =~= self.store().calls().push(script::header_read()));
            assert(ws.take(0) =~= Seq::empty());
            assert(log0 + ws.take(0) =~= log0);
            assert(ws.take(ws.len() as int) =~= ws);
            assert(script::attempted(m0, log0, ws, 0, m0, log0));
        }
        let header = match self.read_journal_header() {
            Ok(header) => header,
            Err(e) => {
                proof {
                    script::lemma_called_not_further::<(), StorageError>(
                        old(self).store().calls(),
                        reads,
                        script::write_calls(ws),
                        self.store().calls(),
                        Err(e),
                    );
                }
                return Err(e);
            },
        };
        if layout::check_header(&header) {
            return Ok(());
        }
        assert(ws == script::reset_writes());
        if let Err(e) = self.write_state(
            JOURNAL_STATE_CLEAN,
            Ghost(m0),
            Ghost(log0),
            Ghost(calls0),
            Ghost(ws),
            Ghost(0),
        ) {
            return Err(e);
        }
        if let Err(e) = self.write_header_bytes(
            JOURNAL_HEADER_MAGIC_OFFSET,
            &JOURNAL_MAGIC,
            Ghost(m0),
            Ghost(log0),
            Ghost(calls0),
            Ghost(ws),
            Ghost(1),
        ) {
            return Err(e);
        }
        if let Err(e) = self.write_header_bytes(
            JOURNAL_HEADER_TARGET_LBA_OFFSET,
            &bytes::le32(0),
            Ghost(m0),
            Ghost(log0),
            Ghost(calls0),
            Ghost(ws),
            Ghost(2),
        ) {
            return Err(e);
        }
        if let Err(e) = self.write_header_bytes(
            JOURNAL_HEADER_SHADOW_CRC_OFFSET,
            &bytes::le32(0),
            Ghost(m0),
            Ghost(log0),
            Ghost(calls0),
            Ghost(ws),
            Ghost(3),
        ) {
            return Err(e);
        }
        self.write_header_bytes(
            JOURNAL_HEADER_CRC_OFFSET,
            &bytes::le32(layout::header_crc(JOURNAL_STATE_CLEAN, 0, 0)),
            Ghost(m0),
            Ghost(log0),
            Ghost(calls0),
            Ghost(ws),
            Ghost(4),
        )
    }

    /// Reads what the journal says of a pending write: nothing where there is none, and otherwise
    /// its target, the CRC of its shadow block, and the shadow block where it is to be replayed.
    fn read_pending_write(&mut self) -> (r: Result<
        Option<(u32, u32, Option<[u8; BLOCK_SIZE]>)>,
        StorageError,
    >)
        requires
            old(self).laid_out(),
            old(self).count() > 0,
        ensures
            final(self).laid_out(),
            final(self).same_but_backend(old(self)),
            final(self).medium() == old(self).medium(),
            final(self).store().writes() == old(self).store().writes(),
            backend::answered(&old(self).store(), &final(self).store(), r),
            old(self).store().healthy() ==> r is Ok && final(self).store().healthy(),
            script::called(
                old(self).store().calls(),
                script::recovery_reads(
                    old(self).medium(),
                    old(self).count(),
                    old(self).protected(),
                ),
                final(self).store().calls(),
                r,
            ),
            r matches Ok(found) ==> match found {
                None => !script::pending(old(self).medium()),
                Some((target_lba, shadow_crc, shadow)) => {
                    &&& script::pending(old(self).medium())
                    &&& target_lba == script::target_of(old(self).medium())
                    &&& shadow_crc == script::shadow_crc_of(old(self).medium())
                    &&& shadow is Some == script::replays(
                        old(self).medium(),
                        old(self).count(),
                        old(self).protected(),
                    )
                    &&& shadow matches Some(block) ==> block@ == layout::shadow_of(
                        old(self).medium(),
                    )
                },
            },
    {
        let ghost m0 = self.medium();
        let ghost calls0 = self.store().calls();
        let ghost reads = script::recovery_reads(m0, self.count(), self.protected());
        proof {
            effects::lemma_header_fields(m0);
            assert(calls0 + reads.take(1) =~= calls0.push(script::header_read()));
            assert(reads.take(reads.len() as int) =~= reads);
            if reads.len() == 2 {
                assert(calls0 + reads.take(2) =~= calls0.push(script::header_read()).push(reads[1]));
            }
        }
        let header = match self.read_journal_header() {
            Ok(header) => header,
            Err(e) => {
                return Err(e);
            },
        };
        if header[JOURNAL_HEADER_STATE_OFFSET] != JOURNAL_STATE_COMMITTED {
            return Ok(None);
        }
        let target_lba = bytes::get_le32(&header, JOURNAL_HEADER_TARGET_LBA_OFFSET);
        let shadow_crc = bytes::get_le32(&header, JOURNAL_HEADER_SHADOW_CRC_OFFSET);
        if !(layout::check_header(&header) && self.is_logical_lba(target_lba)
            && self.is_protected_lba(target_lba)) {
            return Ok(Some((target_lba, shadow_crc, None)));
        }
        let mut shadow = [0u8; BLOCK_SIZE];
        if let Err(e) = self.backend.read_physical_block(self.journal_shadow_lba, &mut shadow) {
            return Err(e);
        }
        if crc::crc32(&shadow) == shadow_crc {
            Ok(Some((target_lba, shadow_crc, Some(shadow))))
        } else {
            Ok(Some((target_lba, shadow_crc, None)))
        }
    }

    /// Makes the last two writes of the sequence `ws`, which mark the journal clean.
    fn mark_clean(
        &mut self,
        target_lba: u32,
        shadow_crc: u32,
        Ghost(m0): Ghost<Seq<u8>>,
        Ghost(log0): Ghost<Seq<MediumWrite>>,
        Ghost(calls0): Ghost<Seq<BackendCall>>,
        Ghost(ws): Ghost<Seq<MediumWrite>>,
        Ghost(k): Ghost<int>,
    ) -> (r: Result<(), StorageError>)
        requires
            old(self).laid_out(),
            old(self).count() > 0,
            script::progressed(m0, log0, ws, k, old(self).medium(), old(self).store().writes()),
            old(self).store().calls() == calls0 + script::write_calls(ws.take(k)),
            ws.len() == k + 2,
            ws[k] == script::clean_writes(target_lba, shadow_crc)[0],
            ws[k + 1] == script::clean_writes(target_lba, shadow_crc)[1],
        ensures
            final(self).laid_out(),
            final(self).same_but_backend(old(self)),
            backend::answered(&old(self).store(), &final(self).store(), r),
            old(self).store().healthy() ==> r is Ok && final(self).store().healthy(),
            script::ran(m0, log0, ws, final(self).medium(), final(self).store().writes(), r),
            script::called(calls0, script::write_calls(ws), final(self).store().calls(), r),
    {
        assert(ws.take(k + 2) =~= ws);
        if let Err(e) = self.write_state(
            JOURNAL_STATE_CLEAN,
            Ghost(m0),
            Ghost(log0),
            Ghost(calls0),
            Ghost(ws),
            Ghost(k),
        ) {
            return Err(e);
        }
        self.write_header_bytes(
            JOURNAL_HEADER_CRC_OFFSET,
            &bytes::le32(layout::header_crc(JOURNAL_STATE_CLEAN, target_lba, shadow_crc)),
            Ghost(m0),
            Ghost(log0),
            Ghost(calls0),
            Ghost(ws),
            Ghost(k + 1),
        )
    }

    fn recover_pending_metadata_write(&mut self) -> (r: Result<(), StorageError>)
        requires
            old(self).laid_out(),
            old(self).count() > 0,
        ensures
            final(self).laid_out(),
            final(self).same_but_backend(old(self)),
            backend::answered(&old(self).store(), &final(self).store(), r),
            old(self).store().healthy() ==> r is Ok && final(self).store().healthy(),
            script::ran(
                old(self).medium(),
                old(self).store().writes(),
                script::recovery_writes(old(self).medium(), old(self).count(), old(self).protected()),
                final(self).medium(),
                final(self).store().writes(),
                r,
            ),
            script::called(
                old(self).store().calls(),
                script::recovery_calls(
                    old(self).medium(),
                    old(self).count(),
                    old(self).protected(),
                ),
                final(self).store().calls(),
                r,
            ),
    {
        let ghost m0 = self.medium();
        let ghost log0 = self.store().writes();
        let ghost ws = script::recovery_writes(m0, self.count(), self.protected());
        let ghost reads = script::recovery_reads(m0, self.count(), self.protected());
        let ghost calls0 = self.store().calls() + reads;
        proof {
            assert(ws.take(0) =~= Seq::empty());
            assert(log0 + ws.take(0) =~= log0);
            assert(ws.take(ws.len() as int) =~= ws);
            assert(script::attempted(m0, log0, ws, 0, m0, log0));
            lemma_reads_then_writes(self.store().calls(), reads, ws);
        }
        let (target_lba, shadow_crc, shadow) = match self.read_pending_write() {
            Ok(Some(found)) => found,
            Ok(None) => {
                return Ok(());
            },
            Err(e) => {
                proof {
                    script::lemma_called_not_further::<(), StorageError>(
                        old(self).store().calls(),
                        reads,
                        script::write_calls(ws),
                        self.store().calls(),
                        Err(e),
                    );
                }
                return Err(e);
            },
        };
        let ghost clean = script::clean_writes(target_lba, shadow_crc);
        match shadow {
            Some(block) => {
                let physical = self.logical_to_physical_lba(target_lba);
                assert(ws[0] == script::logical_write(target_lba as int, block@));
                assert(ws[1] == clean[0] && ws[2] == clean[1]);
                if let Err(e) = self.write_whole_block(
                    physical,
                    &block,
                    Ghost(m0),
                    Ghost(log0),
                    Ghost(calls0),
                    Ghost(ws),
                    Ghost(0),
                ) {
                    return Err(e);
                }
                self.mark_clean(
                    target_lba,
                    shadow_crc,
                    Ghost(m0),
                    Ghost(log0),
                    Ghost(calls0),
                    Ghost(ws),
                    Ghost(1),
                )
            },
            None => {
                assert(ws == clean);
                self.mark_clean(
                    target_lba,
                    shadow_crc,
                    Ghost(m0),
                    Ghost(log0),
                    Ghost(calls0),
                    Ghost(ws),
                    Ghost(0),
                )
            },
        }
    }

    /// Writes a block through the journal on a clean journal.
    fn commit_block(&mut self, block_index: u32, data: &[u8; BLOCK_SIZE]) -> (r: Result<
        (),
        StorageError,
    >)
        requires
            old(self).laid_out(),
            block_index < old(self).count(),
        ensures
            final(self).laid_out(),
            final(self).same_but_backend(old(self)),
            backend::answered(&old(self).store(), &final(self).store(), r),
            old(self).store().healthy() ==> r is Ok && final(self).store().healthy(),
            script::ran(
                old(self).medium(),
                old(self).store().writes(),
                script::commit_writes(block_index, data@),
                final(self).medium(),
                final(self).store().writes(),
                r,
            ),
            script::called(
                old(self).store().calls(),
                script::write_calls(script::commit_writes(block_index, data@)),
                final(self).store().calls(),
                r,
            ),
    {
        let ghost m0 = self.medium();
        let ghost log0 = self.store().writes();
        let ghost calls0 = self.store().calls();
        let ghost ws = script::commit_writes(block_index, data@);
        proof {
            assert(calls0 + script::write_calls(ws.take(0)) =~= calls0);
            assert(ws.take(0) =~= Seq::empty());
            assert(log0 + ws.take(0) =~= log0);
            assert(ws.take(ws.len() as int) =~= ws);
        }
        let shadow_crc = crc::crc32(data);
        let physical = self.logical_to_physical_lba(block_index);

        if let Err(e) = self.write_state(
            JOURNAL_STATE_CLEAN,
            Ghost(m0),
            Ghost(log0),
            Ghost(calls0),
            Ghost(ws),
            Ghost(0),
        ) {
            return Err(e);
        }
        if let Err(e) = self.write_header_bytes(
            JOURNAL_HEADER_TARGET_LBA_OFFSET,
            &bytes::le32(block_index),
            Ghost(m0),
            Ghost(log0),
            Ghost(calls0),
            Ghost(ws),
            Ghost(1),
        ) {
            return Err(e);
        }
        if let Err(e) = self.write_header_bytes(
            JOURNAL_HEADER_SHADOW_CRC_OFFSET,
            &bytes::le32(shadow_crc),
            Ghost(m0),
            Ghost(log0),
            Ghost(calls0),
            Ghost(ws),
            Ghost(2),
        ) {
            return Err(e);
        }
        if let Err(e) = self.write_header_bytes(
            JOURNAL_HEADER_CRC_OFFSET,
            &bytes::le32(layout::header_crc(JOURNAL_STATE_CLEAN, block_index, shadow_crc)),
            Ghost(m0),
            Ghost(log0),
            Ghost(calls0),
            Ghost(ws),
            Ghost(3),
        ) {
            return Err(e);
        }
        if let Err(e) = self.write_whole_block(
            self.journal_shadow_lba,
            data,
            Ghost(m0),
            Ghost(log0),
            Ghost(calls0),
            Ghost(ws),
            Ghost(4),
        ) {
            return Err(e);
        }

        // The single-byte commit marker is written last to make the replay decision atomic.
        if let Err(e) = self.write_header_bytes(
            JOURNAL_HEADER_CRC_OFFSET,
            &bytes::le32(layout::header_crc(JOURNAL_STATE_COMMITTED, block_index, shadow_crc)),
            Ghost(m0),
            Ghost(log0),
            Ghost(calls0),
            Ghost(ws),
            Ghost(5),
        ) {
            return Err(e);
        }
        if let Err(e) = self.write_state(
            JOURNAL_STATE_COMMITTED,
            Ghost(m0),
            Ghost(log0),
            Ghost(calls0),
            Ghost(ws),
            Ghost(6),
        ) {
            return Err(e);
        }

        if let Err(e) = self.write_whole_block(
            physical,
            data,
            Ghost(m0),
            Ghost(log0),
            Ghost(calls0),
            Ghost(ws),
            Ghost(7),
        ) {
            return Err(e);
        }
        self.mark_clean(
            block_index,
            shadow_crc,
            Ghost(m0),
            Ghost(log0),
            Ghost(calls0),
            Ghost(ws),
            Ghost(8),
        )
    }

    fn journaled_write_block(&mut self, block_index: u32, data: &[u8; BLOCK_SIZE]) -> (r: Result<
        (),
        StorageError,
    >)
        requires
            old(self).laid_out(),
            block_index < old(self).count(),
        ensures
            final(self).laid_out(),
            final(self).same_but_backend(old(self)),
            backend::answered(&old(self).store(), &final(self).store(), r),
            old(self).store().healthy() ==> r is Ok && final(self).store().healthy(),
            script::ran(
                old(self).medium(),
                old(self).store().writes(),
                script::journaled_writes(
                    old(self).medium(),
                    old(self).count(),
                    old(self).protected(),
                    block_index,
                    data@,
                ),
                final(self).medium(),
                final(self).store().writes(),
                r,
            ),
            script::called(
                old(self).store().calls(),
                script::journaled_calls(
                    old(self).medium(),
                    old(self).count(),
                    old(self).protected(),
                    block_index,
                    data@,
                ),
                final(self).store().calls(),
                r,
            ),
    {
        let ghost m0 = self.medium();
        let ghost log0 = self.store().writes();
        let ghost calls0 = self.store().calls();
        let ghost first_calls = script::recovery_calls(m0, self.count(), self.protected());
        let ghost second_calls = script::write_calls(script::commit_writes(block_index, data@));
        let ghost first = script::recovery_writes(m0, self.count(), self.protected());
        let ghost second = script::commit_writes(block_index, data@);
        let r = self.recover_pending_metadata_write();
        if r.is_err() {
            proof {
                script::lemma_ran_not_further(
                    m0,
                    log0,
                    first,
                    second,
                    self.medium(),
                    self.store().writes(),
                    r,
                );
                script::lemma_called_not_further(
                    calls0,
                    first_calls,
                    second_calls,
                    self.store().calls(),
                    r,
                );
            }
            return r;
        }
        let r = self.commit_block(block_index, data);
        proof {
            script::lemma_called_then(
                calls0,
                first_calls,
                second_calls,
                self.store().calls(),
                r,
            );
            script::lemma_ran_then(
                m0,
                log0,
                first,
                second,
                self.medium(),
                self.store().writes(),
                r,
            );
        }
        r
    }

    fn detect_protected_lba_range(&mut self) -> (r: Result<LbaRange, StorageError>)
        requires
            old(self).laid_out(),
            old(self).count() > 0,
        ensures
            final(self).laid_out(),
            final(self).same_but_backend(old(self)),
            final(self).medium() == old(self).medium(),
            final(self).store().writes() == old(self).store().writes(),
            backend::answered(&old(self).store(), &final(self).store(), r),
            old(self).store().healthy() ==> r is Ok && final(self).store().healthy(),
            r matches Ok(range) ==> range == layout::protected_range(
                old(self).medium(),
                old(self).count(),
            ),
            script::called(
                old(self).store().calls(),
                script::detect_calls(old(self).medium(), old(self).count()),
                final(self).store().calls(),
                r,
            ),
    {
        let ghost calls0 = self.store().calls();
        let ghost cs = script::detect_calls(self.medium(), self.count());
        proof {
            assert(calls0 + cs.take(1) =~= calls0.push(script::logical_read(0)));
            if cs.len() == 2 {
                assert(cs.take(2) =~= cs);
                assert(calls0 + cs.take(2) =~= calls0.push(script::logical_read(0)).push(cs[1]));
            } else {
                assert(cs.take(1) =~= cs);
            }
        }
        let mut mbr = [0u8; BLOCK_SIZE];
        let mbr_lba = self.logical_to_physical_lba(0);
        if let Err(e) = self.backend.read_physical_block(mbr_lba, &mut mbr) {
            return Err(e);
        }
        let (partition_start, partition_blocks) = layout::parse_partition_geometry(
            &mbr,
            self.logical_block_count,
        );
        if partition_blocks == 0 || partition_start >= self.logical_block_count {
            return Ok(LbaRange::empty());
        }
        let mut boot_sector = [0u8; BLOCK_SIZE];
        let boot_lba = self.logical_to_physical_lba(partition_start);
        if let Err(e) = self.backend.read_physical_block(boot_lba, &mut boot_sector) {
            return Err(e);
        }
        Ok(layout::parse_metadata_range(&boot_sector, partition_start, self.logical_block_count))
    }

    /// Makes the journal usable: makes sure of a header that can be trusted, finds out which
    /// blocks to protect, and finishes or drops the write that an interruption left pending. A
    /// start that fails leaves the blocks to protect as they were, unless they were found out
    /// before it failed.
    pub fn initialize(&mut self) -> (r: Result<(), StorageError>)
        requires
            old(self).wf(),
        ensures
            final(self).wf(),
            final(self).count() == old(self).count(),
            final(self).errors() == old(self).errors(),
            old(self).count() == 0 ==> {
                &&& r == Err::<(), StorageError>(StorageError::NotReady)
                &&& final(self).store() == old(self).store()
                &&& final(self).ready() == old(self).ready()
                &&& final(self).protected() == old(self).protected()
            },
            old(self).count() > 0 ==> {
                &&& started(&old(self).store(), &final(self).store(), old(self).count(), r)
                &&& old(self).healthy() ==> r is Ok && final(self).healthy()
            },
            r is Ok ==> {
                &&& final(self).ready()
                &&& final(self).unfinished() is None
                &&& final(self).protected() == layout::protected_range(
                    old(self).medium(),
                    old(self).count(),
                )
                &&& layout::header_valid(layout::header_of(final(self).medium()))
                &&& final(self).contents() == script::recovered_blocks(
                    old(self).medium(),
                    old(self).count(),
                )
            },
            r is Err && old(self).count() > 0 ==> {
                let found_out = script::header_calls(old(self).medium()) + script::detect_calls(
                    medium::apply_writes(
                        old(self).medium(),
                        script::header_writes(old(self).medium()),
                    ),
                    old(self).count(),
                );
                &&& final(self).ready() == old(self).ready()
                &&& final(self).protected() == if final(self).store().calls().len()
                    > old(self).store().calls().len() + found_out.len() {
                    layout::protected_range(old(self).medium(), old(self).count())
                } else {
                    old(self).protected()
                }
            },
    {
        if self.logical_block_count == 0 {
            return Err(StorageError::NotReady);
        }
        let ghost m0 = self.medium();
        let ghost log0 = self.store().writes();
        let ghost count = self.count();
        let ghost first = script::header_writes(m0);
        let ghost m1 = medium::apply_writes(m0, first);
        let ghost second = script::recovery_writes(m1, count, layout::protected_range(m0, count));
        let ghost calls0 = self.store().calls();
        let ghost header_calls = script::header_calls(m0);
        let ghost detect_calls = script::detect_calls(m1, count);
        let ghost recovery_calls = script::recovery_calls(
            m1,
            count,
            layout::protected_range(m0, count),
        );
        proof {
            effects::lemma_with_header(m0, count);
        }
        let r = self.initialize_journal_header();
        if r.is_err() {
            proof {
                script::lemma_ran_not_further(
                    m0,
                    log0,
                    first,
                    second,
                    self.medium(),
                    self.store().writes(),
                    r,
                );
                script::lemma_ran_interrupted(m0, log0, first, self.medium(), self.store().writes(), r);
                script::lemma_called_not_further(
                    calls0,
                    header_calls,
                    detect_calls,
                    self.store().calls(),
                    r,
                );
                script::lemma_called_not_further(
                    calls0,
                    header_calls + detect_calls,
                    recovery_calls,
                    self.store().calls(),
                    r,
                );
                if self.ready {
                    effects::lemma_initialize_keeps_magic(m0, first, self.medium());
                }
            }
            return r;
        }
        match self.detect_protected_lba_range() {
            Ok(range) => {
                self.protected_lbas = range;
            },
            Err(e) => {
                proof {
                    assert(second.take(0) =~= Seq::empty());
                    assert(log0 + first + second.take(0) =~= log0 + first);
                    assert(script::attempted(
                        m1,
                        log0 + first,
                        second,
                        0,
                        self.medium(),
                        self.store().writes(),
                    ));
                    script::lemma_ran_then::<(), StorageError>(
                        m0,
                        log0,
                        first,
                        second,
                        self.medium(),
                        self.store().writes(),
                        Err(e),
                    );
                    script::lemma_called_then::<LbaRange, StorageError>(
                        calls0,
                        header_calls,
                        detect_calls,
                        self.store().calls(),
                        Err(e),
                    );
                    script::lemma_called_not_further::<LbaRange, StorageError>(
                        calls0,
                        header_calls + detect_calls,
                        recovery_calls,
                        self.store().calls(),
                        Err(e),
                    );
                }
                return Err(e);
            },
        }
        proof {
            assert(calls0 + header_calls + detect_calls =~= calls0 + (header_calls + detect_calls));
        }
        let r = self.recover_pending_metadata_write();
        proof {
            script::lemma_called_then(
                calls0,
                header_calls + detect_calls,
                recovery_calls,
                self.store().calls(),
                r,
            );
            script::lemma_ran_then(
                m0,
                log0,
                first,
                second,
                self.medium(),
                self.store().writes(),
                r,
            );
            script::lemma_ran_interrupted(
                m1,
                log0 + first,
                second,
                self.medium(),
                self.store().writes(),
                r,
            );
            effects::lemma_recovery_keeps_magic(
                m1,
                count,
                layout::protected_range(m0, count),
                self.medium(),
            );
            effects::lemma_recovery(m1, count, layout::protected_range(m0, count));
        }
        if r.is_err() {
            return r;
        }
        self.ready = true;
        Ok(())
    }
}

/// What the start of a journal with `count` logical blocks did to its backend.
pub open spec fn started<B: JournalBackend>(
    before: &B,
    after: &B,
    count: int,
    r: Result<(), StorageError>,
) -> bool {
    &&& backend::answered(before, after, r)
    &&& script::ran(
        before.medium(),
        before.writes(),
        script::initialize_writes(before.medium(), count),
        after.medium(),
        after.writes(),
        r,
    )
    &&& script::called(
        before.calls(),
        script::initialize_calls(before.medium(), count),
        after.calls(),
        r,
    )
}

impl<B: JournalBackend> BlockStorage for MetadataJournalStorage<B> {
    closed spec fn wf(&self) -> bool {
        &&& self.laid_out()
        &&& self.protected_lbas.end_exclusive <= self.logical_block_count
        &&& self.ready ==> self.logical_block_count > 0 && layout::has_magic(
            layout::header_of(self.backend.medium()),
        )
    }

    open spec fn contents(&self) -> Seq<Seq<u8>> {
        layout::logical_blocks(self.medium(), self.count())
    }

    closed spec fn ready(&self) -> bool {
        self.ready
    }

    open spec fn write_protected(&self) -> bool {
        false
    }

    open spec fn unfinished(&self) -> Option<(int, Seq<u8>)> {
        if script::replays(self.medium(), self.count(), self.protected()) {
            Some((script::target_of(self.medium()) as int, layout::shadow_of(self.medium())))
        } else {
            None
        }
    }

    open spec fn healthy(&self) -> bool {
        self.store().healthy()
    }

    closed spec fn errors(&self) -> Seq<StorageError> {
        self.error_log@
    }

    fn block_count(&self) -> (n: u32) {
        self.logical_block_count
    }

    fn is_ready(&self) -> (b: bool) {
        self.ready
    }

    fn is_write_protected(&self) -> (b: bool) {
        false
    }

    fn read_block(&mut self, block_index: u32, out: &mut [u8; BLOCK_SIZE]) -> (r: Result<
        (),
        StorageError,
    >)
        ensures
            final(self).count() == old(self).count(),
            final(self).protected() == old(self).protected(),
            final(self).medium() == old(self).medium(),
            final(self).store().writes() == old(self).store().writes(),
            r is Ok ==> final(out)@ == old(self).contents()[block_index as int],
            old(self).ready() && block_index < old(self).contents().len()
                ==> final(self).store().calls() == old(self).store().calls().push(
                script::logical_read(block_index as int),
            ),
            !(old(self).ready() && block_index < old(self).contents().len()) ==> final(out)@ == old(out)@,
            old(self).ready() && block_index < old(self).contents().len() ==> backend::answered(
                &old(self).store(),
                &final(self).store(),
                r,
            ),
            !(old(self).ready() && block_index < old(self).contents().len()) ==> final(self).store()
                == old(self).store(),
    {
        if !self.ready {
            self.error_log = Ghost(self.error_log@.push(StorageError::NotReady));
            return Err(StorageError::NotReady);
        }
        if !self.is_logical_lba(block_index) {
            self.error_log = Ghost(self.error_log@.push(StorageError::MediumError));
            return Err(StorageError::MediumError);
        }
        let physical = self.logical_to_physical_lba(block_index);
        let r = self.backend.read_physical_block(physical, out);
        self.error_log = Ghost(error::extend_log(self.error_log@, r));
        r
    }

    fn write_block(&mut self, block_index: u32, data: &[u8; BLOCK_SIZE]) -> (r: Result<
        (),
        StorageError,
    >)
        ensures
            final(self).count() == old(self).count(),
            final(self).protected() == old(self).protected(),
            old(self).ready() && block_index < old(self).contents().len() ==> script::ran(
                old(self).medium(),
                old(self).store().writes(),
                if old(self).protected().has(block_index as int) {
                    script::journaled_writes(
                        old(self).medium(),
                        old(self).count(),
                        old(self).protected(),
                        block_index,
                        data@,
                    )
                } else {
                    seq![script::logical_write(block_index as int, data@)]
                },
                final(self).medium(),
                final(self).store().writes(),
                r,
            ),
            old(self).ready() && block_index < old(self).contents().len() && old(self).protected().has(block_index as int)
                ==> script::called(
                old(self).store().calls(),
                script::journaled_calls(
                    old(self).medium(),
                    old(self).count(),
                    old(self).protected(),
                    block_index,
                    data@,
                ),
                final(self).store().calls(),
                r,
            ),
            old(self).ready() && block_index < old(self).contents().len() && !old(self).protected().has(block_index as int)
                ==> final(self).store().calls() == old(self).store().calls().push(
                BackendCall::WritePhysicalBlock {
                    block_index: (JOURNAL_RESERVED_BLOCKS + block_index) as u32,
                    data: data@,
                },
            ),
            old(self).ready() && block_index < old(self).contents().len() ==> backend::answered(
                &old(self).store(),
                &final(self).store(),
                r,
            ),
            !(old(self).ready() && block_index < old(self).contents().len()) ==> final(self).store()
                == old(self).store(),
    {
        if !self.ready {
            self.error_log = Ghost(self.error_log@.push(StorageError::NotReady));
            return Err(StorageError::NotReady);
        }
        if !self.is_logical_lba(block_index) {
            self.error_log = Ghost(self.error_log@.push(StorageError::MediumError));
            return Err(StorageError::MediumError);
        }
        let ghost m0 = self.medium();
        let ghost log0 = self.store().writes();
        let ghost calls0 = self.store().calls();
        let ghost count = self.count();
        let ghost range = self.protected();
        let r = if self.is_protected_lba(block_index) {
            let r = self.journaled_write_block(block_index, data);
            proof {
                let ws = script::journaled_writes(m0, count, range, block_index, data@);
                script::lemma_ran_interrupted(m0, log0, ws, self.medium(), self.store().writes(), r);
                effects::lemma_journaled(m0, count, range, block_index, data@, self.medium());
                if script::replays(self.medium(), count, range) {
                    crash::lemma_journaled_pending(
                        m0,
                        count,
                        range,
                        block_index,
                        data@,
                        self.medium(),
                    );
                }
                assert(r is Ok ==> self.contents() =~= block::finished(
                    old(self).contents(),
                    old(self).unfinished(),
                ).update(block_index as int, data@));
            }
            r
        } else {
            let ghost ws = seq![script::logical_write(block_index as int, data@)];
            let physical = self.logical_to_physical_lba(block_index);
            proof {
                assert(ws.take(0) =~= Seq::empty());
                assert(log0 + ws.take(0) =~= log0);
                assert(ws.take(1) =~= ws);
                assert(calls0 + script::write_calls(ws.take(0)) =~= calls0);
                script::lemma_write_calls(calls0, ws, 0);
            }
            let r = self.write_whole_block(
                physical,
                data,
                Ghost(m0),
                Ghost(log0),
                Ghost(calls0),
                Ghost(ws),
                Ghost(0),
            );
            proof {
                effects::lemma_logical_write(m0, block_index as int, data@, count);
                effects::lemma_passthrough(m0, count, block_index, data@, self.medium());
            }
            r
        };
        self.error_log = Ghost(error::extend_log(self.error_log@, r));
        r
    }
}

/// Calls that write, made after calls that read, are the calls of both.
proof fn lemma_reads_then_writes(
    calls: Seq<BackendCall>,
    reads: Seq<BackendCall>,
    ws: Seq<MediumWrite>,
)
    ensures
        calls + reads + script::write_calls(ws.take(0)) == calls + reads,
        script::write_calls(ws).len() == 0 ==> calls + reads == calls + (reads
            + script::write_calls(ws)),
        forall|after: Seq<BackendCall>, r: Result<(), StorageError>| #[trigger]
            script::called(calls + reads, script::write_calls(ws), after, r) ==> script::called(
                calls,
                reads + script::write_calls(ws),
                after,
                r,
            ),
{
    let cs = script::write_calls(ws);
    assert(calls + reads + script::write_calls(ws.take(0)) =~= calls + reads);
    if cs.len() == 0 {
        assert(reads + cs =~= reads);
    }
    assert forall|after: Seq<BackendCall>, r: Result<(), StorageError>| #[trigger]
        script::called(calls + reads, cs, after, r) implies script::called(
        calls,
        reads + cs,
        after,
        r,
    ) by {
        script::lemma_called_then(calls, reads, cs, after, r);
    }
}

/// A disk that lost power in a protected write holds the old block or the new one, whole, once it
/// has started up again, and every other block as it was. `left` is what the write left of the
/// medium, and a start on it finds the blocks that it stands for.
pub proof fn restart_finds_the_old_or_the_new_block<B: JournalBackend>(
    disk: MetadataJournalStorage<B>,
    lba: u32,
    data: Seq<u8>,
    left: Seq<u8>,
)
    requires
        writes_through_journal(disk, lba, data),
        medium::interrupted(
            disk.medium(),
            script::journaled_writes(disk.medium(), disk.count(), disk.protected(), lba, data),
            left,
        ),
    ensures
        ({
            let blocks = block::finished(disk.contents(), disk.unfinished());
            let found = script::recovered_blocks(left, disk.count());
            found == blocks || found == blocks.update(lba as int, data)
        }),
        layout::protected_range(left, disk.count()) == disk.protected(),
{
    lemma_finished_is_recovered(disk);
    crash::protected_write_is_atomic(disk.medium(), disk.count(), lba, data, left);
    crash::protection_lasts(disk.medium(), disk.count(), lba, data, left);
}

/// A disk that lost power in a protected write behind its commit marker holds the new block, whole,
/// once it has started up again, however much of the target block was written. Every other block is
/// as it was.
pub proof fn restart_finds_a_committed_block<B: JournalBackend>(
    disk: MetadataJournalStorage<B>,
    lba: u32,
    data: Seq<u8>,
    left: Seq<u8>,
)
    requires
        writes_through_journal(disk, lba, data),
        medium::interrupted(
            medium::apply_writes(
                disk.medium(),
                script::committing_writes(
                    disk.medium(),
                    disk.count(),
                    disk.protected(),
                    lba,
                    data,
                ),
            ),
            script::finishing_writes(lba, data),
            left,
        ),
    ensures
        script::recovered_blocks(left, disk.count()) == block::finished(
            disk.contents(),
            disk.unfinished(),
        ).update(lba as int, data),
{
    lemma_finished_is_recovered(disk);
    crash::committed_write_is_made(disk.medium(), disk.count(), lba, data, left);
}

/// A disk that lost power in a protected write in front of its commit marker holds the old block
/// once it has started up again, and every other block as it was.
pub proof fn restart_finds_no_uncommitted_block<B: JournalBackend>(
    disk: MetadataJournalStorage<B>,
    lba: u32,
    data: Seq<u8>,
    left: Seq<u8>,
)
    requires
        writes_through_journal(disk, lba, data),
        medium::interrupted(
            disk.medium(),
            script::preparing_writes(disk.medium(), disk.count(), disk.protected(), lba, data),
            left,
        ),
    ensures
        script::recovered_blocks(left, disk.count()) == block::finished(
            disk.contents(),
            disk.unfinished(),
        ),
{
    lemma_finished_is_recovered(disk);
    crash::uncommitted_write_is_dropped(disk.medium(), disk.count(), lba, data, left);
}

/// A protected write that failed behind its commit marker is made by the next start. The log of
/// writes tells: `k` of them were attempted, one at least behind the marker.
pub proof fn write_that_failed_committed_is_made<B: JournalBackend>(
    disk: MetadataJournalStorage<B>,
    lba: u32,
    data: Seq<u8>,
    k: int,
    left: Seq<u8>,
    log: Seq<MediumWrite>,
)
    requires
        writes_through_journal(disk, lba, data),
        script::attempted(
            disk.medium(),
            disk.store().writes(),
            script::journaled_writes(disk.medium(), disk.count(), disk.protected(), lba, data),
            k,
            left,
            log,
        ),
        k > script::committing_writes(
            disk.medium(),
            disk.count(),
            disk.protected(),
            lba,
            data,
        ).len(),
    ensures
        script::recovered_blocks(left, disk.count()) == block::finished(
            disk.contents(),
            disk.unfinished(),
        ).update(lba as int, data),
{
    let m = disk.medium();
    let ws = script::journaled_writes(m, disk.count(), disk.protected(), lba, data);
    let committing = script::committing_writes(m, disk.count(), disk.protected(), lba, data);
    let n = committing.len() as int;
    script::lemma_attempted_past(m, disk.store().writes(), ws, k, left, log, n);
    assert(ws.take(n) =~= committing);
    assert(ws.skip(n) =~= script::finishing_writes(lba, data));
    restart_finds_a_committed_block(disk, lba, data, left);
}

/// A disk takes up the whole memory but for the two blocks of its journal, and one that is ready has
/// a block at least and a journal header.
pub proof fn disk_lies_behind_its_journal<B: JournalBackend>(disk: MetadataJournalStorage<B>)
    requires
        disk.wf(),
    ensures
        disk.store().wf(),
        disk.count() <= u32::MAX,
        disk.count() > 0 ==> disk.medium().len() == 512 * (disk.count() + 2),
        disk.count() == 0 ==> disk.medium().len() <= 512 * 2,
        disk.contents().len() == disk.count(),
        disk.protected().end_exclusive <= disk.count(),
        disk.ready() ==> disk.count() > 0 && disk.medium()[1] == 0x4A && disk.medium()[2] == 0x4E
            && disk.medium()[3] == 0x4C,
        forall|b: int, o: int|
            0 <= b < disk.count() && 0 <= o < 512 ==> #[trigger] disk.contents()[b][o]
                == disk.medium()[1024 + 512 * b + o],
{
    if disk.ready() {
        let header = layout::header_of(disk.medium());
        assert(header[1] == disk.medium()[1] && header[2] == disk.medium()[2] && header[3]
            == disk.medium()[3]);
    }
}

/// Whether a write of `data` to `lba` goes through the journal of a disk that is ready, and leaves
/// alone the two blocks that say which blocks are protected. So does a write that is still under
/// way.
pub open spec fn writes_through_journal<B: JournalBackend>(
    disk: MetadataJournalStorage<B>,
    lba: u32,
    data: Seq<u8>,
) -> bool {
    &&& disk.wf()
    &&& disk.ready()
    &&& disk.protected() == layout::protected_range(disk.medium(), disk.count())
    &&& disk.protected().has(lba as int)
    &&& !crash::places_metadata(disk.medium(), lba as int)
    &&& disk.unfinished() matches Some((target, _)) ==> !crash::places_metadata(
        disk.medium(),
        target,
    )
    &&& data.len() == BLOCK_SIZE
}

/// The medium stands for the blocks of the disk, with the write made that is still under way.
proof fn lemma_finished_is_recovered<B: JournalBackend>(disk: MetadataJournalStorage<B>)
    requires
        disk.protected() == layout::protected_range(disk.medium(), disk.count()),
    ensures
        script::recovered_blocks(disk.medium(), disk.count()) == block::finished(
            disk.contents(),
            disk.unfinished(),
        ),
{
    assert(script::recovered_blocks(disk.medium(), disk.count()) =~= block::finished(
        disk.contents(),
        disk.unfinished(),
    ));
}

} // verus!
