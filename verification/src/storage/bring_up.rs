//! How a disk comes up: what is asked of the memory, in which order, and what is left on it.

use vstd::prelude::*;
use crate::backend::hardware::{self, HardwareInitError};
use crate::storage::backend::{BackendCall, JournalBackend};
use crate::storage::block::BlockStorage;
use crate::storage::error::StorageError;
use crate::storage::journal::crc;
use crate::storage::journal::effects;
use crate::storage::journal::layout;
use crate::storage::journal::metadata::{self, MetadataJournalStorage};
use crate::storage::journal::record;
use crate::storage::journal::script;
use crate::storage::medium;
use crate::storage::volume;

verus! {

/// The block that a call writes as a whole.
pub open spec fn block_written(call: BackendCall) -> Option<int> {
    match call {
        BackendCall::WritePhysicalBlock { block_index, .. } => Some(block_index as int),
        _ => None,
    }
}

/// Formatting writes 18 blocks, each once: the partition table, the boot sector, then the six blocks of
/// both tables side by side, and the four of the root directory.
pub proof fn formatting_writes_in_order<B: JournalBackend>(
    backend: &mut B,
    total_blocks: u32,
    offset: u32,
    r: Result<(), StorageError>,
)
    requires
        call_ensures(volume::format_mass_storage_volume::<B>, (backend, total_blocks, offset), r),
        r is Ok,
        offset + 18 <= u32::MAX,
        total_blocks >= 1,
    ensures
        ({
            let n = old(backend).calls().len() as int;
            let calls = final(backend).calls();
            &&& calls.len() == n + 18
            &&& old(backend).calls().is_prefix_of(calls)
            &&& block_written(calls[n]) == Some(offset as int)
            &&& block_written(calls[n + 1]) == Some(offset + 1)
            &&& forall|i: int|
                0 <= i < 6 ==> block_written(#[trigger] calls[n + 2 + 2 * i]) == Some(offset + 2 + i)
            &&& forall|i: int|
                0 <= i < 6 ==> block_written(#[trigger] calls[n + 3 + 2 * i]) == Some(offset + 8 + i)
            &&& forall|i: int|
                14 <= i < 18 ==> block_written(#[trigger] calls[n + i]) == Some(offset + i)
        }),
{
    let ws = volume::format_writes(total_blocks, offset);
    let cs = script::write_calls(ws);
    assert forall|k: int| 0 <= k < 18 implies block_written(#[trigger] cs[k]) == Some(
        offset + volume::format_target(k),
    ) by {
        assert(ws[k].data.len() == 512);
        assert(ws[k].address == (offset + volume::format_target(k)) * 512);
    }
    assert forall|i: int| 0 <= i < 6 implies block_written(#[trigger] cs[2 + 2 * i]) == Some(
        offset + 2 + i,
    ) by {
        assert((2 + 2 * i) % 2 == 0 && (2 + 2 * i - 2) / 2 == i);
    }
    assert forall|i: int| 0 <= i < 6 implies block_written(#[trigger] cs[3 + 2 * i]) == Some(
        offset + 8 + i,
    ) by {
        assert((3 + 2 * i) % 2 == 1 && (3 + 2 * i - 2) / 2 == i);
    }
}

/// A medium that has the volume is left as it is, and any other is formatted. Which of the two it was is
/// told.
pub proof fn only_a_medium_without_the_volume_is_formatted<B: JournalBackend>(
    backend: &mut B,
    total_blocks: u32,
    offset: u32,
    r: Result<bool, StorageError>,
    asked: &mut B,
    valid: bool,
    other: &mut B,
)
    requires
        total_blocks >= 1,
        (offset + 2) * 512 <= backend.medium().len(),
        call_ensures(
            volume::ensure_mass_storage_volume_for_total_blocks_at_offset::<B>,
            (backend, total_blocks, offset),
            r,
        ),
        r is Ok,
        asked.medium() == backend.medium(),
        call_ensures(
            volume::has_valid_volume_layout::<B>,
            (asked, total_blocks, offset),
            Ok::<bool, StorageError>(valid),
        ),
        other.medium() == backend.medium(),
        call_ensures(
            volume::format_mass_storage_volume::<B>,
            (other, total_blocks, offset),
            Ok::<(), StorageError>(()),
        ),
    ensures
        r == Ok::<bool, StorageError>(!valid),
        valid ==> final(backend).medium() == old(backend).medium(),
        !valid ==> final(backend).medium() == final(other).medium(),
        valid ==> final(backend).writes() == old(backend).writes(),
{
    let m = backend.medium();
    assert(medium::apply_writes(m, Seq::empty()) == m);
    assert(backend.writes() + Seq::<medium::MediumWrite>::empty() =~= backend.writes());
}

/// A medium without a journal is the volume's as a whole.
pub proof fn volume_can_take_the_whole_medium<B: JournalBackend>(
    backend: &mut B,
    r: Result<bool, StorageError>,
    other: &mut B,
    total_blocks: u32,
    s: Result<bool, StorageError>,
)
    requires
        backend.medium().len() >= 512,
        backend.medium().len() == 512 * total_blocks,
        call_ensures(volume::ensure_mass_storage_volume::<B>, (backend,), r),
        r is Ok,
        other.medium() == backend.medium(),
        call_ensures(
            volume::ensure_mass_storage_volume_for_total_blocks_at_offset::<B>,
            (other, total_blocks, 0),
            s,
        ),
        s is Ok,
    ensures
        r == s,
        final(backend).medium() == final(other).medium(),
{
}

/// A disk that had to be formatted comes up with the blocks of the empty volume: `formatted` is the
/// memory after formatting behind the two blocks of the journal. Only a write to the tables or to the
/// root directory that the journal still held is made up for.
pub proof fn formatted_disk_comes_up_empty<B: JournalBackend>(
    backend: B,
    r: Result<(MetadataJournalStorage<B>, bool), HardwareInitError>,
    formatted: &mut B,
    total_blocks: u32,
)
    requires
        backend.medium().len() == 512 * (total_blocks + 2),
        total_blocks >= 18,
        total_blocks + 2 <= u32::MAX,
        call_ensures(hardware::open_storage::<B>, (backend,), r),
        r matches Ok((_, had_to)) && had_to,
        formatted.medium() == backend.medium(),
        call_ensures(
            volume::format_mass_storage_volume::<B>,
            (formatted, total_blocks, 2),
            Ok::<(), StorageError>(()),
        ),
    ensures
        r matches Ok((storage, _)) && {
            let m = final(formatted).medium();
            let target = m[4] + 0x100 * m[5] + 0x1_0000 * m[6] + 0x100_0000 * m[7];
            &&& storage.ready()
            &&& storage.contents().len() == total_blocks
            &&& forall|b: int, o: int|
                0 <= b < total_blocks && 0 <= o < 512 ==> #[trigger] storage.contents()[b][o] == if b
                    == target && record::awaits_replay(m, total_blocks as int) {
                    m[512 + o]
                } else {
                    m[1024 + 512 * b + o]
                }
        },
{
    let m = medium::apply_writes(backend.medium(), volume::format_writes(total_blocks, 2));
    medium::lemma_apply_writes_len(backend.medium(), volume::format_writes(total_blocks, 2));
    assert(hardware::visible_blocks_of(backend.medium()) == total_blocks);
    assert(m == hardware::with_volume(backend.medium()));
    record::lemma_awaits_replay(m, total_blocks as int);
    assert forall|b: int, o: int| 0 <= b < total_blocks && 0 <= o < 512 implies #[trigger] layout::logical_block(
        m,
        b,
    )[o] == m[1024 + 512 * b + o] by {}
    assert forall|o: int| 0 <= o < 512 implies #[trigger] layout::shadow_of(m)[o] == m[512 + o] by {}
}

/// A memory that is too small for the volume and does not begin with its partition table does not come
/// up.
pub proof fn small_memories_do_not_come_up<B: JournalBackend>(
    backend: B,
    r: Result<(MetadataJournalStorage<B>, bool), HardwareInitError>,
)
    requires
        1536 <= backend.medium().len() < 20 * 512,
        backend.medium()[1534] != 0x55,
        call_ensures(hardware::open_storage::<B>, (backend,), r),
    ensures
        r == Err::<(MetadataJournalStorage<B>, bool), HardwareInitError>(
            HardwareInitError::VolumeInitFailed,
        ),
{
    lemma_no_partition_table(backend.medium(), hardware::visible_blocks_of(backend.medium()));
}

proof fn lemma_no_partition_table(m: Seq<u8>, total_blocks: u32)
    requires
        1536 <= m.len(),
        m[1534] != 0x55,
    ensures
        !volume::holds_volume(m, total_blocks, 2),
{
    assert(medium::block_at(m, 2)[510] == m[1534]);
}

/// A memory that works comes up where it has room for the journal and the volume, and the journal is
/// never what stops it.
pub proof fn working_memories_come_up<B: JournalBackend>(
    backend: B,
    r: Result<(MetadataJournalStorage<B>, bool), HardwareInitError>,
)
    requires
        backend.healthy(),
        backend.medium().len() > 1024,
        call_ensures(hardware::open_storage::<B>, (backend,), r),
    ensures
        backend.medium().len() >= 20 * 512 ==> r is Ok,
        r is Err ==> r->Err_0 is VolumeInitFailed,
{
}

/// Whether the header on a medium can be trusted.
pub open spec fn header_is_sound(m: Seq<u8>) -> bool {
    &&& m[0] == 0 || m[0] == 0xA5
    &&& m[1] == 0x4A && m[2] == 0x4E && m[3] == 0x4C
    &&& m[12] + 0x100 * m[13] + 0x1_0000 * m[14] + 0x100_0000 * m[15] == crc::crc32_of(m.take(12))
}

/// The address of the bytes that a call writes.
pub open spec fn bytes_written(call: BackendCall) -> Option<int> {
    match call {
        BackendCall::WriteBytes { address, .. } => Some(address as int),
        _ => None,
    }
}

/// A start looks at the header first, and makes a new one where it cannot be trusted: the state, the
/// magic, the address, the CRC of the copy and its own. Then it looks at the first block of the disk,
/// and at the header again. Only a committed write makes it write more: the block, where that is made up
/// for, and the state and the CRC of the header.
pub proof fn start_asks_in_order<B: JournalBackend>(
    storage: &mut MetadataJournalStorage<B>,
    r: Result<(), StorageError>,
)
    requires
        storage.wf(),
        call_ensures(MetadataJournalStorage::<B>::initialize, (storage,), r),
        r is Ok,
    ensures
        ({
            let m = old(storage).medium();
            let count = old(storage).count();
            let n = old(storage).store().calls().len() as int;
            let calls = final(storage).store().calls();
            let end = calls.len() as int;
            let target = m[4] + 0x100 * m[5] + 0x1_0000 * m[6] + 0x100_0000 * m[7];
            let header = BackendCall::ReadBytes { address: 0, len: 16 };
            &&& old(storage).store().calls().is_prefix_of(calls)
            &&& end > n + 2
            &&& calls[n] == header
            &&& header_is_sound(m) ==> calls[n + 1] == (BackendCall::ReadPhysicalBlock {
                block_index: 2,
            })
            &&& !header_is_sound(m) ==> {
                &&& end > n + 7
                &&& calls[n + 1] == (BackendCall::WriteBytes { address: 0, data: seq![0u8] })
                &&& calls[n + 2] == (BackendCall::WriteBytes {
                    address: 1,
                    data: seq![0x4Au8, 0x4E, 0x4C],
                })
                &&& calls[n + 3] == (BackendCall::WriteBytes { address: 4, data: seq![0u8, 0, 0, 0] })
                &&& calls[n + 4] == (BackendCall::WriteBytes { address: 8, data: seq![0u8, 0, 0, 0] })
                &&& bytes_written(calls[n + 5]) == Some(12int)
                &&& calls[n + 6] == (BackendCall::ReadPhysicalBlock { block_index: 2 })
                &&& calls[end - 1] == header
            }
            &&& header_is_sound(m) && m[0] == 0 ==> calls[end - 1] == header
            &&& header_is_sound(m) && m[0] == 0xA5 ==> {
                &&& calls[end - 2] == (BackendCall::WriteBytes { address: 0, data: seq![0u8] })
                &&& bytes_written(calls[end - 1]) == Some(12int)
                &&& record::awaits_replay(m, count) ==> {
                    &&& calls[end - 5] == header
                    &&& calls[end - 4] == (BackendCall::ReadPhysicalBlock { block_index: 1 })
                    &&& calls[end - 3] == (BackendCall::WritePhysicalBlock {
                        block_index: (target + 2) as u32,
                        data: m.subrange(512, 1024),
                    })
                }
                &&& !record::awaits_replay(m, count) ==> block_written(calls[end - 3]) is None
            }
        }),
{
    metadata::disk_lies_behind_its_journal(*storage);
    lemma_start_calls(storage.medium(), storage.count());
}

proof fn lemma_start_calls(m: Seq<u8>, count: int)
    requires
        count > 0,
        m.len() == 512 * (count + 2),
        count <= u32::MAX,
    ensures
        ({
            let calls = script::initialize_calls(m, count);
            let end = calls.len() as int;
            let target = m[4] + 0x100 * m[5] + 0x1_0000 * m[6] + 0x100_0000 * m[7];
            let header = BackendCall::ReadBytes { address: 0, len: 16 };
            &&& end > 2
            &&& calls[0] == header
            &&& header_is_sound(m) ==> calls[1] == (BackendCall::ReadPhysicalBlock {
                block_index: 2,
            })
            &&& !header_is_sound(m) ==> {
                &&& end > 7
                &&& calls[1] == (BackendCall::WriteBytes { address: 0, data: seq![0u8] })
                &&& calls[2] == (BackendCall::WriteBytes {
                    address: 1,
                    data: seq![0x4Au8, 0x4E, 0x4C],
                })
                &&& calls[3] == (BackendCall::WriteBytes { address: 4, data: seq![0u8, 0, 0, 0] })
                &&& calls[4] == (BackendCall::WriteBytes { address: 8, data: seq![0u8, 0, 0, 0] })
                &&& bytes_written(calls[5]) == Some(12int)
                &&& calls[6] == (BackendCall::ReadPhysicalBlock { block_index: 2 })
                &&& calls[end - 1] == header
            }
            &&& header_is_sound(m) && m[0] == 0 ==> calls[end - 1] == header
            &&& header_is_sound(m) && m[0] == 0xA5 ==> {
                &&& calls[end - 2] == (BackendCall::WriteBytes { address: 0, data: seq![0u8] })
                &&& bytes_written(calls[end - 1]) == Some(12int)
                &&& record::awaits_replay(m, count) ==> {
                    &&& calls[end - 5] == header
                    &&& calls[end - 4] == (BackendCall::ReadPhysicalBlock { block_index: 1 })
                    &&& calls[end - 3] == (BackendCall::WritePhysicalBlock {
                        block_index: (target + 2) as u32,
                        data: m.subrange(512, 1024),
                    })
                }
                &&& !record::awaits_replay(m, count) ==> block_written(calls[end - 3]) is None
            }
        }),
{
    let h = layout::header_of(m);
    assert(h[0] == m[0] && h[1] == m[1] && h[2] == m[2] && h[3] == m[3]);
    assert(h[12] == m[12] && h[13] == m[13] && h[14] == m[14] && h[15] == m[15]);
    assert(h.take(12) =~= m.take(12));
    assert(header_is_sound(m) == layout::header_valid(h));
    record::lemma_awaits_replay(m, count);
    let range = layout::protected_range(m, count);
    let first = script::header_calls(m);
    if header_is_sound(m) {
        assert(medium::apply_writes(m, script::header_writes(m)) == m);
        assert(first =~= seq![script::header_read()]);
        let last = script::recovery_calls(m, count, range);
        assert(script::initialize_calls(m, count) =~= first + script::detect_calls(m, count) + last);
        if m[0] == 0 {
            assert(last =~= seq![script::header_read()]);
        } else {
            let ws = script::recovery_writes(m, count, range);
            let reads = script::recovery_reads(m, count, range);
            assert(last.len() == reads.len() + ws.len());
            assert(last[last.len() - 1] == script::write_call(ws[ws.len() - 1]));
            assert(last[last.len() - 2] == script::write_call(ws[ws.len() - 2]));
            if record::awaits_replay(m, count) {
                assert(last.len() == 5);
                assert(last[2] == script::write_call(ws[0]));
                assert(layout::shadow_of(m) =~= m.subrange(512, 1024));
            }
        }
    } else {
        let ws = script::reset_writes();
        let m1 = medium::apply_writes(m, ws);
        effects::lemma_reset(m, count);
        assert(first.len() == 6);
        assert(first[1] == script::write_call(ws[0]) && first[2] == script::write_call(ws[1])
            && first[3] == script::write_call(ws[2]) && first[4] == script::write_call(ws[3])
            && first[5] == script::write_call(ws[4]));
        assert(layout::JOURNAL_MAGIC@ =~= seq![0x4Au8, 0x4E, 0x4C]);
        assert(ws[2].data =~= seq![0u8, 0, 0, 0]);
        assert(ws[3].data =~= seq![0u8, 0, 0, 0]);
        let last = script::recovery_calls(m1, count, range);
        assert(last =~= seq![script::header_read()]);
        assert(script::initialize_calls(m, count) =~= first + script::detect_calls(m1, count) + last);
    }
}

} // verus!
