//! What stands on a journaled medium, byte by byte, and what the journal makes of it.

use vstd::prelude::*;
use crate::bytes;
use crate::storage::backend::{BackendCall, JournalBackend};
use crate::storage::block::BlockStorage;
use crate::storage::error::StorageError;
use crate::storage::journal::crc;
use crate::storage::journal::effects;
use crate::storage::journal::layout::{self, LbaRange};
use crate::storage::journal::metadata::{self, MetadataJournalStorage};
use crate::storage::journal::script;
use crate::storage::medium;

verus! {

/// The journal takes two blocks in front of the disk, and the disk has all others.
pub proof fn two_blocks_are_the_journals(physical: u32, visible: u32)
    requires
        call_ensures(layout::visible_block_count_from_physical, (physical,), visible),
    ensures
        physical >= 2 ==> visible + 2 == physical,
        physical < 2 ==> visible == 0,
{
}

/// A range has the addresses from its start to before its end; the empty one has none.
pub proof fn ranges_end_before_their_end(range: LbaRange, lba: u32, inside: bool, empty: LbaRange)
    requires
        call_ensures(LbaRange::contains, (&range, lba), inside),
        call_ensures(LbaRange::empty, (), empty),
    ensures
        inside <==> range.start <= lba && lba < range.end_exclusive,
        empty.end_exclusive <= empty.start,
{
    assert(!empty.has(empty.start as int));
}

/// The volume is the first partition of a master boot record that ends in the boot signature, where
/// its type and its size are not zero, and else the whole disk. As much of it counts as lies on the
/// disk.
pub proof fn first_partition_is_the_volume(mbr: [u8; 512], count: u32, geometry: (u32, u32))
    requires
        call_ensures(layout::parse_partition_geometry, (&mbr, count), geometry),
    ensures
        ({
            let size = mbr@[458] + 0x100 * mbr@[459] + 0x1_0000 * mbr@[460] + 0x100_0000 * mbr@[461];
            let partitioned = mbr@[510] == 0x55 && mbr@[511] == 0xAA && mbr@[450] != 0 && size > 0;
            &&& !partitioned ==> geometry == (0u32, count)
            &&& partitioned ==> {
                &&& geometry.0 % 0x100 == mbr@[454]
                &&& geometry.0 / 0x100 % 0x100 == mbr@[455]
                &&& geometry.0 / 0x1_0000 % 0x100 == mbr@[456]
                &&& geometry.0 / 0x100_0000 == mbr@[457]
                &&& geometry.1 <= size
                &&& geometry.0 >= count ==> geometry.1 == 0
                &&& geometry.0 < count ==> geometry.0 + geometry.1 <= count
                &&& geometry.0 < count ==> geometry.1 == size || geometry.0 + geometry.1 == count
            }
        }),
{
}

/// The protected blocks of a volume are its file allocation tables and its root directory, as far as
/// they lie on the disk: they start behind the reserved sectors. A boot sector that is not that of a
/// FAT volume with blocks of 512 bytes protects nothing.
pub proof fn tables_and_root_directory_are_protected(
    boot: [u8; 512],
    volume_start: u32,
    count: u32,
    range: LbaRange,
)
    requires
        call_ensures(layout::parse_metadata_range, (&boot, volume_start, count), range),
    ensures
        ({
            let short = boot@[22] + 0x100 * boot@[23];
            let table = if short != 0 {
                short
            } else {
                boot@[36] + 0x100 * boot@[37] + 0x1_0000 * boot@[38] + 0x100_0000 * boot@[39]
            };
            let entries = boot@[17] + 0x100 * boot@[18];
            let first = volume_start + boot@[14] + 0x100 * boot@[15];
            let behind = range.end_exclusive - first - boot@[16] * table;
            let fat = boot@[510] == 0x55 && boot@[511] == 0xAA && boot@[11] == 0 && boot@[12] == 2
                && boot@[16] != 0 && table != 0;
            &&& !fat ==> range.end_exclusive <= range.start
            &&& fat && first < count ==> {
                &&& range.start == first
                &&& range.start < range.end_exclusive <= count
                // The root directory has room for its entries, of 32 bytes each, and for no whole
                // block more.
                &&& 512 * behind < 32 * entries + 512
                &&& range.end_exclusive < count ==> 32 * entries <= 512 * behind
            }
            &&& fat && first >= count ==> range.end_exclusive <= range.start
        }),
{
    let short = boot@[22] + 0x100 * boot@[23];
    let table = if short != 0 {
        short
    } else {
        boot@[36] + 0x100 * boot@[37] + 0x1_0000 * boot@[38] + 0x100_0000 * boot@[39]
    };
    let fats = boot@[16] as int;
    assert(table == layout::fat_sectors(boot@));
    assert(table != 0 && fats != 0 ==> fats * table >= 1) by (nonlinear_arith)
        requires
            table >= 0,
            fats >= 0,
    ;
}

/// A journal header can be trusted exactly where it carries the magic "JNL", its state is clean or
/// committed, and its last four bytes are the CRC of the twelve before them.
pub proof fn header_is_checked(header: [u8; 16], valid: bool)
    requires
        call_ensures(layout::check_header, (&header,), valid),
    ensures
        valid <==> {
            &&& header@[1] == 0x4A && header@[2] == 0x4E && header@[3] == 0x4C
            &&& header@[0] == 0 || header@[0] == 0xA5
            &&& header@[12] + 0x100 * header@[13] + 0x1_0000 * header@[14] + 0x100_0000 * header@[15]
                == crc::crc32_of(header@.take(12))
        },
{
}

/// The CRC of a header is that of its state, the magic, its address and the CRC of the copy, both
/// little-endian.
pub proof fn header_crc_covers_the_header(
    state: u8,
    target: u32,
    shadow_crc: u32,
    crc: u32,
    covered: &[u8],
    expected: u32,
)
    requires
        call_ensures(layout::header_crc, (state, target, shadow_crc), crc),
        covered@.len() == 12,
        covered@[0] == state,
        covered@[1] == 0x4A && covered@[2] == 0x4E && covered@[3] == 0x4C,
        covered@[4] + 0x100 * covered@[5] + 0x1_0000 * covered@[6] + 0x100_0000 * covered@[7]
            == target,
        covered@[8] + 0x100 * covered@[9] + 0x1_0000 * covered@[10] + 0x100_0000 * covered@[11]
            == shadow_crc,
        call_ensures(crc::crc32, (covered,), expected),
    ensures
        crc == expected,
{
    bytes::lemma_le32_written_back(covered@, 4);
    bytes::lemma_le32_written_back(covered@, 8);
    let s = covered@;
    assert(layout::header_body(state, target, shadow_crc) =~= s) by {
        assert(s.take(4) =~= seq![state] + layout::JOURNAL_MAGIC@);
        assert(s =~= s.take(4) + s.subrange(4, 8) + s.subrange(8, 12));
    }
}

/// A new disk has the blocks of the memory behind its journal, protects nothing, and is not ready.
pub proof fn new_disk_is_not_ready<B: JournalBackend>(backend: B, disk: MetadataJournalStorage<B>)
    requires
        backend.wf(),
        call_ensures(MetadataJournalStorage::<B>::new, (backend,), disk),
    ensures
        disk.wf() && !disk.ready(),
        disk.store() == backend,
        disk.protected().end_exclusive <= disk.protected().start,
        backend.medium().len() > 1024 ==> 512 * (disk.count() + 2) == backend.medium().len(),
        backend.medium().len() <= 1024 ==> disk.count() == 0,
{
    metadata::disk_lies_behind_its_journal(disk);
}

/// Whether a write waits on a medium of `count` logical blocks to be made up for: the header can be
/// trusted and says so, the block that it names is a protected one of the disk, and the shadow block
/// is the one that was committed.
pub open spec fn awaits_replay(m: Seq<u8>, count: int) -> bool {
    let target = m[4] + 0x100 * m[5] + 0x1_0000 * m[6] + 0x100_0000 * m[7];
    &&& m[0] == 0xA5
    &&& m[1] == 0x4A && m[2] == 0x4E && m[3] == 0x4C
    &&& m[12] + 0x100 * m[13] + 0x1_0000 * m[14] + 0x100_0000 * m[15] == crc::crc32_of(m.take(12))
    &&& target < count
    &&& layout::protected_range(m, count).start <= target < layout::protected_range(
        m,
        count,
    ).end_exclusive
    &&& m[8] + 0x100 * m[9] + 0x1_0000 * m[10] + 0x100_0000 * m[11] == crc::crc32_of(
        m.subrange(512, 1024),
    )
}

/// What the bytes say of a waiting write is what the journal makes of them.
pub proof fn lemma_awaits_replay(m: Seq<u8>, count: int)
    requires
        m.len() >= 1024,
    ensures
        awaits_replay(m, count) == script::replays(m, count, layout::protected_range(m, count)),
        m[0] == 0xA5 ==> script::target_of(m) == m[4] + 0x100 * m[5] + 0x1_0000 * m[6] + 0x100_0000
            * m[7],
{
    let h = layout::header_of(m);
    assert(forall|i: int| 0 <= i < 16 ==> #[trigger] h[i] == m[i]);
    assert(h.take(12) =~= m.take(12));
    assert(layout::shadow_of(m) == m.subrange(512, 1024));
    bytes::lemma_le32_written_back(m, 4);
    bytes::lemma_le32_written_back(m, 8);
}

/// A start that succeeds finds every block as it was, but for one that was committed and not yet
/// written: that one is the shadow block. It leaves the disk ready, and a clean header that can be
/// trusted.
pub proof fn start_makes_up_for_a_committed_write<B: JournalBackend>(
    storage: &mut MetadataJournalStorage<B>,
    r: Result<(), StorageError>,
)
    requires
        storage.wf(),
        call_ensures(MetadataJournalStorage::<B>::initialize, (storage,), r),
    ensures
        r is Ok ==> {
            let m = old(storage).medium();
            let now = final(storage).medium();
            let count = old(storage).count();
            let target = m[4] + 0x100 * m[5] + 0x1_0000 * m[6] + 0x100_0000 * m[7];
            &&& count > 0
            &&& final(storage).ready()
            &&& final(storage).contents().len() == count
            &&& forall|b: int, o: int|
                0 <= b < count && 0 <= o < 512 ==> #[trigger] final(storage).contents()[b][o] == if b
                    == target && awaits_replay(m, count) {
                    m[512 + o]
                } else {
                    m[1024 + 512 * b + o]
                }
            &&& final(storage).protected() == layout::protected_range(m, count)
            &&& now.len() == m.len()
            &&& now[0] == 0
            &&& now[1] == 0x4A && now[2] == 0x4E && now[3] == 0x4C
            &&& now[12] + 0x100 * now[13] + 0x1_0000 * now[14] + 0x100_0000 * now[15]
                == crc::crc32_of(now.take(12))
        },
        r is Err ==> final(storage).ready() == old(storage).ready(),
        old(storage).count() == 0 ==> r == Err::<(), StorageError>(StorageError::NotReady),
        old(storage).count() > 0 && old(storage).healthy() ==> r is Ok,
{
    let disk = *storage;
    metadata::disk_lies_behind_its_journal(disk);
    let m = disk.medium();
    let count = disk.count();
    if count > 0 {
        let now = medium::apply_writes(m, script::initialize_writes(m, count));
        lemma_started(m, count);
        lemma_awaits_replay(m, count);
        assert forall|b: int, o: int| 0 <= b < count && 0 <= o < 512 implies #[trigger] layout::logical_block(
            m,
            b,
        )[o] == m[1024 + 512 * b + o] by {}
        assert forall|o: int| 0 <= o < 512 implies #[trigger] layout::shadow_of(m)[o] == m[512 + o] by {}
    }
}

proof fn lemma_started(m: Seq<u8>, count: int)
    requires
        count > 0,
        m.len() == 512 * (count + 2),
    ensures
        ({
            let now = medium::apply_writes(m, script::initialize_writes(m, count));
            &&& now.len() == m.len()
            &&& now[0] == 0
            &&& now[1] == 0x4A && now[2] == 0x4E && now[3] == 0x4C
            &&& now[12] + 0x100 * now[13] + 0x1_0000 * now[14] + 0x100_0000 * now[15]
                == crc::crc32_of(now.take(12))
        }),
{
    let range = layout::protected_range(m, count);
    let first = script::header_writes(m);
    let m1 = medium::apply_writes(m, first);
    let second = script::recovery_writes(m1, count, range);
    let now = medium::apply_writes(m1, second);
    effects::lemma_with_header(m, count);
    effects::lemma_recovery(m1, count, range);
    medium::lemma_apply_writes_concat(m, first, second);
    medium::lemma_apply_writes_len(m, first);
    medium::lemma_apply_writes_len(m1, second);
    let h = layout::header_of(now);
    assert(layout::header_valid(h));
    assert(forall|i: int| 0 <= i < 16 ==> #[trigger] h[i] == now[i]);
    assert(h.take(12) =~= now.take(12));
    assert(h[0] == now[0] && h[1] == now[1] && h[2] == now[2] && h[3] == now[3]);
    assert(h[12] == now[12] && h[13] == now[13] && h[14] == now[14] && h[15] == now[15]);
}

/// What a start protects is what the boot sector of the volume says, and the volume is where the first
/// block of the disk says. A volume with no block on the disk has nothing to protect.
pub proof fn start_protects_the_volume_on_the_disk<B: JournalBackend>(
    storage: &mut MetadataJournalStorage<B>,
    r: Result<(), StorageError>,
    mbr: [u8; 512],
    boot: [u8; 512],
    count: u32,
    geometry: (u32, u32),
    range: LbaRange,
)
    requires
        storage.wf(),
        call_ensures(MetadataJournalStorage::<B>::initialize, (storage,), r),
        r is Ok,
        count == storage.count(),
        forall|o: int| 0 <= o < 512 ==> #[trigger] mbr@[o] == storage.medium()[1024 + o],
        call_ensures(layout::parse_partition_geometry, (&mbr, count), geometry),
        geometry.0 < count ==> forall|o: int|
            0 <= o < 512 ==> #[trigger] boot@[o] == storage.medium()[1024 + 512 * geometry.0 + o],
        call_ensures(layout::parse_metadata_range, (&boot, geometry.0, count), range),
    ensures
        geometry.1 > 0 && geometry.0 < count ==> final(storage).protected() == range,
        !(geometry.1 > 0 && geometry.0 < count) ==> final(storage).protected().end_exclusive
            <= final(storage).protected().start,
{
    let disk = *storage;
    metadata::disk_lies_behind_its_journal(disk);
    let m = disk.medium();
    assert(mbr@ =~= layout::logical_block(m, 0));
    if geometry.0 < count {
        assert(boot@ =~= layout::logical_block(m, geometry.0 as int));
    }
}

/// Reading a block gives the 512 bytes of the memory that hold it, two blocks behind where its number
/// says, and changes nothing. Before the start, and behind the last block, reading is refused.
pub proof fn blocks_are_read_behind_the_journal<B: JournalBackend>(
    storage: &mut MetadataJournalStorage<B>,
    lba: u32,
    out: &mut [u8; 512],
    r: Result<(), StorageError>,
)
    requires
        storage.wf(),
        call_ensures(MetadataJournalStorage::<B>::read_block, (storage, lba, out), r),
    ensures
        final(storage).medium() == old(storage).medium(),
        !old(storage).ready() ==> r == Err::<(), StorageError>(StorageError::NotReady),
        old(storage).ready() && lba >= old(storage).count() ==> r == Err::<(), StorageError>(
            StorageError::MediumError,
        ),
        old(storage).ready() && lba < old(storage).count() && old(storage).healthy() ==> r is Ok,
        r is Ok ==> forall|o: int|
            0 <= o < 512 ==> #[trigger] final(out)@[o] == old(storage).medium()[1024 + 512 * lba + o],
        old(storage).ready() && lba < old(storage).count() ==> final(storage).store().calls()
            == old(storage).store().calls().push(
            BackendCall::ReadPhysicalBlock { block_index: (lba + 2) as u32 },
        ),
{
    metadata::disk_lies_behind_its_journal(*storage);
    if storage.ready() && lba < storage.count() {
        let b = storage.contents()[lba as int];
        assert forall|o: int| 0 <= o < 512 implies #[trigger] b[o] == storage.medium()[1024 + 512 * lba
            + o] by {
            assert(storage.contents()[lba as int][o] == storage.medium()[1024 + 512 * lba + o]);
        }
    }
}

/// A write to a block that is not protected changes the 512 bytes of the memory that hold it, and no
/// other, in one call; one that fails has left each of them old or new.
pub proof fn plain_writes_change_their_block_alone<B: JournalBackend>(
    storage: &mut MetadataJournalStorage<B>,
    lba: u32,
    data: &[u8; 512],
    r: Result<(), StorageError>,
)
    requires
        storage.wf(),
        storage.ready(),
        lba < storage.count(),
        !(storage.protected().start <= lba && lba < storage.protected().end_exclusive),
        call_ensures(MetadataJournalStorage::<B>::write_block, (storage, lba, data), r),
    ensures
        ({
            let m = old(storage).medium();
            let now = final(storage).medium();
            let at = 1024 + 512 * lba;
            &&& now.len() == m.len()
            &&& forall|i: int|
                0 <= i < m.len() && !(at <= i < at + 512) ==> #[trigger] now[i] == m[i]
            &&& forall|i: int|
                at <= i < at + 512 ==> #[trigger] now[i] == data@[i - at] || r is Err && now[i]
                    == m[i]
        }),
        old(storage).healthy() ==> r is Ok,
        final(storage).store().calls() == old(storage).store().calls().push(
            BackendCall::WritePhysicalBlock { block_index: (lba + 2) as u32, data: data@ },
        ),
{
    let disk = *storage;
    metadata::disk_lies_behind_its_journal(disk);
    let m = disk.medium();
    let w = script::logical_write(lba as int, data@);
    assert(seq![w].take(0) =~= Seq::<medium::MediumWrite>::empty());
    assert(seq![w].drop_last() =~= Seq::<medium::MediumWrite>::empty());
    assert(seq![w].take(1) =~= seq![w]);
    assert(medium::apply_writes(m, Seq::empty()) == m);
    assert(medium::apply_writes(m, seq![w]) == w.apply(m));
}

/// A write to a protected block that succeeds has left the block in place, its copy in the shadow
/// block, and a clean header that names both: the address, and the CRC of the copy.
pub proof fn protected_writes_leave_their_record<B: JournalBackend>(
    storage: &mut MetadataJournalStorage<B>,
    lba: u32,
    data: &[u8; 512],
    r: Result<(), StorageError>,
)
    requires
        storage.wf(),
        storage.ready(),
        storage.protected().start <= lba && lba < storage.protected().end_exclusive,
        call_ensures(MetadataJournalStorage::<B>::write_block, (storage, lba, data), r),
    ensures
        old(storage).healthy() ==> r is Ok,
        r is Ok ==> {
            let m = old(storage).medium();
            let now = final(storage).medium();
            let at = 1024 + 512 * lba;
            &&& now.len() == m.len()
            &&& forall|o: int| 0 <= o < 512 ==> now[at + o] == #[trigger] data@[o]
            &&& forall|o: int| 0 <= o < 512 ==> now[512 + o] == #[trigger] data@[o]
            &&& now[0] == 0
            &&& now[1] == 0x4A && now[2] == 0x4E && now[3] == 0x4C
            &&& now[4] + 0x100 * now[5] + 0x1_0000 * now[6] + 0x100_0000 * now[7] == lba
            &&& now[8] + 0x100 * now[9] + 0x1_0000 * now[10] + 0x100_0000 * now[11] == crc::crc32_of(
                data@,
            )
            &&& now[12] + 0x100 * now[13] + 0x1_0000 * now[14] + 0x100_0000 * now[15]
                == crc::crc32_of(now.take(12))
            &&& m[0] != 0xA5 ==> forall|b: int, o: int|
                0 <= b < old(storage).count() && b != lba && 0 <= o < 512
                    ==> #[trigger] final(storage).contents()[b][o] == m[1024 + 512 * b + o]
        },
{
    let disk = *storage;
    metadata::disk_lies_behind_its_journal(disk);
    let m = disk.medium();
    let count = disk.count();
    let header = layout::header_of(m);
    assert(header[1] == m[1] && header[2] == m[2] && header[3] == m[3]);
    lemma_recorded(m, count, disk.protected(), lba, data@);
    assert forall|b: int, o: int| 0 <= b < count && 0 <= o < 512 implies #[trigger] layout::logical_block(
        m,
        b,
    )[o] == m[1024 + 512 * b + o] by {}
}

proof fn lemma_recorded(m: Seq<u8>, count: int, range: LbaRange, lba: u32, data: Seq<u8>)
    requires
        count > 0,
        m.len() == 512 * (count + 2),
        layout::has_magic(layout::header_of(m)),
        lba < count,
        data.len() == 512,
    ensures
        ({
            let now = medium::apply_writes(
                m,
                script::journaled_writes(m, count, range, lba, data),
            );
            let at = 1024 + 512 * lba;
            &&& now.len() == m.len()
            &&& forall|o: int| 0 <= o < 512 ==> now[at + o] == #[trigger] data[o]
            &&& forall|o: int| 0 <= o < 512 ==> now[512 + o] == #[trigger] data[o]
            &&& now[0] == 0
            &&& now[1] == 0x4A && now[2] == 0x4E && now[3] == 0x4C
            &&& now[4] + 0x100 * now[5] + 0x1_0000 * now[6] + 0x100_0000 * now[7] == lba
            &&& now[8] + 0x100 * now[9] + 0x1_0000 * now[10] + 0x100_0000 * now[11] == crc::crc32_of(
                data,
            )
            &&& now[12] + 0x100 * now[13] + 0x1_0000 * now[14] + 0x100_0000 * now[15]
                == crc::crc32_of(now.take(12))
            &&& m[0] != 0xA5 ==> layout::logical_blocks(now, count) == layout::logical_blocks(
                m,
                count,
            ).update(lba as int, data)
        }),
{
    let first = script::recovery_writes(m, count, range);
    let second = script::commit_writes(lba, data);
    let m1 = medium::apply_writes(m, first);
    let now = medium::apply_writes(m1, second);
    medium::lemma_apply_writes_concat(m, first, second);
    medium::lemma_apply_writes_len(m, first);
    medium::lemma_apply_writes_len(m1, second);
    effects::lemma_recovery(m, count, range);
    effects::lemma_commit(m1, count, lba, data);
    effects::lemma_after_ends(m1, second);
    assert(now == effects::after(m1, second, 10));
    let marked = effects::after(m1, second, 7);
    let h = layout::header_of(now);
    effects::lemma_header_bytes_valid(0, lba, crc::crc32_of(data));
    assert(forall|i: int| 0 <= i < 16 ==> #[trigger] h[i] == now[i]);
    assert(h.take(12) =~= now.take(12));
    assert(h[0] == now[0] && h[1] == now[1] && h[2] == now[2] && h[3] == now[3]);
    assert(h[4] == now[4] && h[5] == now[5] && h[6] == now[6] && h[7] == now[7]);
    assert(h[8] == now[8] && h[9] == now[9] && h[10] == now[10] && h[11] == now[11]);
    assert(h[12] == now[12] && h[13] == now[13] && h[14] == now[14] && h[15] == now[15]);
    assert(layout::logical_blocks(now, count)[lba as int] == data);
    assert forall|o: int| 0 <= o < 512 implies now[1024 + 512 * lba + o] == #[trigger] data[o] by {
        assert(layout::logical_block(now, lba as int)[o] == now[1024 + 512 * lba + o]);
    }
    effects::lemma_after_step(m1, second, 8);
    effects::lemma_after_step(m1, second, 9);
    let placed = effects::after(m1, second, 8);
    assert forall|o: int| 0 <= o < 512 implies now[512 + o] == #[trigger] data[o] by {
        assert(layout::shadow_of(marked)[o] == data[o]);
        assert(marked[512 + o] == data[o]);
        assert(placed.take(1024)[512 + o] == marked.take(1024)[512 + o]);
        assert(placed[512 + o] == marked[512 + o]);
    }
}

/// A write to a protected block of a journal with nothing pending looks at the header and makes ten
/// writes: the header is made out first, then the copy, then its CRC says that it is committed, then
/// the state byte; only then the block itself is written, and the state is clean again.
pub proof fn protected_writes_commit_before_they_write<B: JournalBackend>(
    storage: &mut MetadataJournalStorage<B>,
    lba: u32,
    data: &[u8; 512],
    r: Result<(), StorageError>,
)
    requires
        storage.wf(),
        storage.ready(),
        storage.protected().start <= lba && lba < storage.protected().end_exclusive,
        storage.medium()[0] != 0xA5,
        call_ensures(MetadataJournalStorage::<B>::write_block, (storage, lba, data), r),
    ensures
        r is Ok ==> {
            let n = old(storage).store().calls().len() as int;
            let calls = final(storage).store().calls();
            &&& calls.len() == n + 11
            &&& old(storage).store().calls().is_prefix_of(calls)
            &&& calls[n] == BackendCall::ReadBytes { address: 0, len: 16 }
            &&& calls[n + 1] == BackendCall::WriteBytes { address: 0, data: seq![0u8] }
            &&& calls[n + 2] matches BackendCall::WriteBytes { address, .. } && address == 4
            &&& calls[n + 3] matches BackendCall::WriteBytes { address, .. } && address == 8
            &&& calls[n + 4] matches BackendCall::WriteBytes { address, .. } && address == 12
            &&& calls[n + 5] == BackendCall::WritePhysicalBlock { block_index: 1, data: data@ }
            &&& calls[n + 6] matches BackendCall::WriteBytes { address, .. } && address == 12
            &&& calls[n + 7] == BackendCall::WriteBytes { address: 0, data: seq![0xA5u8] }
            &&& calls[n + 8] == BackendCall::WritePhysicalBlock {
                block_index: (lba + 2) as u32,
                data: data@,
            }
            &&& calls[n + 9] == BackendCall::WriteBytes { address: 0, data: seq![0u8] }
            &&& calls[n + 10] matches BackendCall::WriteBytes { address, .. } && address == 12
        },
{
    let disk = *storage;
    metadata::disk_lies_behind_its_journal(disk);
    let cs = script::journaled_calls(disk.medium(), disk.count(), disk.protected(), lba, data@);
    let ws = script::commit_writes(lba, data@);
    assert(script::recovery_writes(disk.medium(), disk.count(), disk.protected()) =~= Seq::empty());
    assert(cs.len() == 11);
    assert(cs[0] == script::header_read());
    assert(forall|k: int| 0 <= k < 10 ==> #[trigger] cs[k + 1] == script::write_call(ws[k]));
    assert(cs[1] == script::write_call(ws[0]) && cs[2] == script::write_call(ws[1]) && cs[3]
        == script::write_call(ws[2]) && cs[4] == script::write_call(ws[3]) && cs[5]
        == script::write_call(ws[4]) && cs[6] == script::write_call(ws[5]) && cs[7]
        == script::write_call(ws[6]) && cs[8] == script::write_call(ws[7]) && cs[9]
        == script::write_call(ws[8]) && cs[10] == script::write_call(ws[9]));
}

} // verus!
