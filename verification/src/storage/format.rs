//! What a host finds on a formatted disk, byte by byte, and by what a disk is known that was
//! formatted before.

use vstd::prelude::*;
use crate::backend::hardware::{self, HardwareInitError};
use crate::bytes;
use crate::storage::backend::JournalBackend;
use crate::storage::block::BlockStorage;
use crate::storage::error::StorageError;
use crate::storage::journal::layout;
use crate::storage::journal::metadata::MetadataJournalStorage;
use crate::storage::medium;
use crate::storage::volume;

verus! {

/// A master boot record with one FAT12 partition of `blocks` blocks, which starts at block 1, and
/// nothing else.
pub open spec fn is_partition_table(mbr: Seq<u8>, blocks: int) -> bool {
    &&& mbr.len() == 512
    &&& mbr[446] == 0x00 && mbr[447] == 0x01 && mbr[448] == 0x01 && mbr[449] == 0x00
    &&& mbr[450] == 0x01 && mbr[451] == 0xFE && mbr[452] == 0xFF && mbr[453] == 0xFF
    &&& mbr[454] == 0x01 && mbr[455] == 0x00 && mbr[456] == 0x00 && mbr[457] == 0x00
    &&& mbr[510] == 0x55 && mbr[511] == 0xAA
    &&& mbr[458] + 0x100 * mbr[459] + 0x1_0000 * mbr[460] + 0x100_0000 * mbr[461] == blocks
    &&& forall|i: int| 0 <= i < 446 || 462 <= i < 510 ==> #[trigger] mbr[i] == 0
}

/// The boot sector of a FAT12 volume of `blocks` blocks: blocks of 512 bytes, one to a cluster, one
/// in front of two tables of six, and a root directory of 64 entries.
pub open spec fn is_boot_sector(boot: Seq<u8>, blocks: int) -> bool {
    &&& boot.len() == 512
    &&& boot[0] == 0xEB && boot[1] == 0x3C && boot[2] == 0x90 && boot[3] == 0x46
    &&& boot[4] == 0x52 && boot[5] == 0x41 && boot[6] == 0x4D && boot[7] == 0x44
    &&& boot[8] == 0x49 && boot[9] == 0x53 && boot[10] == 0x4B && boot[11] == 0x00
    &&& boot[12] == 0x02 && boot[13] == 0x01 && boot[14] == 0x01 && boot[15] == 0x00
    &&& boot[16] == 0x02 && boot[17] == 0x40 && boot[18] == 0x00 && boot[21] == 0xF8
    &&& boot[22] == 0x06 && boot[23] == 0x00 && boot[24] == 0x20 && boot[25] == 0x00
    &&& boot[26] == 0x40 && boot[27] == 0x00 && boot[28] == 0x01 && boot[29] == 0x00
    &&& boot[30] == 0x00 && boot[31] == 0x00 && boot[32] == 0x00 && boot[33] == 0x00
    &&& boot[34] == 0x00 && boot[35] == 0x00 && boot[36] == 0x80 && boot[37] == 0x00
    &&& boot[38] == 0x29 && boot[39] == 0x31 && boot[40] == 0x4D && boot[41] == 0x52
    &&& boot[42] == 0x46 && boot[43] == 0x46 && boot[44] == 0x45 && boot[45] == 0x52
    &&& boot[46] == 0x41 && boot[47] == 0x4D && boot[48] == 0x44 && boot[49] == 0x49
    &&& boot[50] == 0x53 && boot[51] == 0x4B && boot[52] == 0x20 && boot[53] == 0x20
    &&& boot[54] == 0x46 && boot[55] == 0x41 && boot[56] == 0x54 && boot[57] == 0x31
    &&& boot[58] == 0x32 && boot[59] == 0x20 && boot[60] == 0x20 && boot[61] == 0x20
    &&& boot[510] == 0x55 && boot[511] == 0xAA
    &&& boot[19] + 0x100 * boot[20] == blocks % 0x1_0000
    &&& forall|i: int| 62 <= i < 510 ==> #[trigger] boot[i] == 0
}

proof fn lemma_partition_table(blocks: u32)
    ensures
        is_partition_table(volume::mbr_sector(blocks), blocks as int),
{
    let mbr = volume::mbr_sector(blocks);
    let entry = volume::partition_entry(blocks);
    let digits = bytes::le32_bytes(blocks);
    bytes::lemma_le32_round_trip(blocks);
    assert(entry.len() == 16);
    assert(forall|i: int| 0 <= i < 16 ==> #[trigger] mbr[446 + i] == entry[i]);
    assert(mbr[446] == entry[0] && mbr[447] == entry[1] && mbr[448] == entry[2] && mbr[449]
        == entry[3]);
    assert(mbr[450] == entry[4] && mbr[451] == entry[5] && mbr[452] == entry[6] && mbr[453]
        == entry[7]);
    assert(mbr[454] == entry[8] && mbr[455] == entry[9] && mbr[456] == entry[10] && mbr[457]
        == entry[11]);
    assert(mbr[458] == digits[0] && mbr[459] == digits[1] && mbr[460] == digits[2] && mbr[461]
        == digits[3]);
}

proof fn lemma_boot_sector(blocks: u32)
    ensures
        is_boot_sector(volume::boot_sector(blocks), blocks as int),
{
    let boot = volume::boot_sector(blocks);
    let parameters = volume::boot_parameters(blocks);
    let identity = volume::boot_identity();
    let low = (blocks % 0x1_0000) as u16;
    bytes::lemma_le16_round_trip(low);
    assert(parameters.len() == 36);
    assert(identity.len() == 26);
    assert(forall|i: int| 0 <= i < 36 ==> #[trigger] boot[i] == parameters[i]);
    assert(forall|i: int| 0 <= i < 26 ==> #[trigger] boot[36 + i] == identity[i]);
    assert(parameters[0] == 0xEB);
    assert(parameters[1] == 0x3C);
    assert(parameters[2] == 0x90);
    assert(parameters[3] == 0x46);
    assert(parameters[4] == 0x52);
    assert(parameters[5] == 0x41);
    assert(parameters[6] == 0x4D);
    assert(parameters[7] == 0x44);
    assert(parameters[8] == 0x49);
    assert(parameters[9] == 0x53);
    assert(parameters[10] == 0x4B);
    assert(parameters[11] == 0x00);
    assert(parameters[12] == 0x02);
    assert(parameters[13] == 0x01);
    assert(parameters[14] == 0x01);
    assert(parameters[15] == 0x00);
    assert(parameters[16] == 0x02);
    assert(parameters[17] == 0x40);
    assert(parameters[18] == 0x00);
    assert(parameters[21] == 0xF8);
    assert(parameters[22] == 0x06);
    assert(parameters[23] == 0x00);
    assert(parameters[24] == 0x20);
    assert(parameters[25] == 0x00);
    assert(parameters[26] == 0x40);
    assert(parameters[27] == 0x00);
    assert(parameters[28] == 0x01);
    assert(parameters[29] == 0x00);
    assert(parameters[30] == 0x00);
    assert(parameters[31] == 0x00);
    assert(parameters[32] == 0x00);
    assert(parameters[33] == 0x00);
    assert(parameters[34] == 0x00);
    assert(parameters[35] == 0x00);
    assert(identity[0] == 0x80);
    assert(identity[1] == 0x00);
    assert(identity[2] == 0x29);
    assert(identity[3] == 0x31);
    assert(identity[4] == 0x4D);
    assert(identity[5] == 0x52);
    assert(identity[6] == 0x46);
    assert(identity[7] == 0x46);
    assert(identity[8] == 0x45);
    assert(identity[9] == 0x52);
    assert(identity[10] == 0x41);
    assert(identity[11] == 0x4D);
    assert(identity[12] == 0x44);
    assert(identity[13] == 0x49);
    assert(identity[14] == 0x53);
    assert(identity[15] == 0x4B);
    assert(identity[16] == 0x20);
    assert(identity[17] == 0x20);
    assert(identity[18] == 0x46);
    assert(identity[19] == 0x41);
    assert(identity[20] == 0x54);
    assert(identity[21] == 0x31);
    assert(identity[22] == 0x32);
    assert(identity[23] == 0x20);
    assert(identity[24] == 0x20);
    assert(identity[25] == 0x20);
    let digits = bytes::le16_bytes(low);
    assert(boot[19] == digits[0] && boot[20] == digits[1]);
}

/// The master boot record, the boot sector and the file allocation table that are built are those of
/// a FAT12 volume with no cluster in use.
pub proof fn sectors_are_those_of_an_empty_volume(
    blocks: u32,
    mbr: [u8; 512],
    boot: [u8; 512],
    fat: [u8; 3072],
)
    requires
        call_ensures(volume::build_mbr, (blocks,), mbr),
        call_ensures(volume::build_boot_sector, (blocks,), boot),
        call_ensures(volume::build_fat12_table, (), fat),
    ensures
        is_partition_table(mbr@, blocks as int),
        is_boot_sector(boot@, blocks as int),
        fat@[0] == 0xF8 && fat@[1] == 0xFF && fat@[2] == 0xFF,
        forall|i: int| 3 <= i < 3072 ==> #[trigger] fat@[i] == 0,
{
    lemma_partition_table(blocks);
    lemma_boot_sector(blocks);
}

/// Formatting that succeeds leaves, behind `offset` blocks, the partition table, the boot sector, two
/// file allocation tables whose bytes are F8 FF FF and zeros, so that no cluster is in use, and an
/// empty root directory. No other byte of the medium changes.
pub proof fn formatted_medium_is_an_empty_volume<B: JournalBackend>(
    backend: &mut B,
    total_blocks: u32,
    offset: u32,
    r: Result<(), StorageError>,
)
    requires
        call_ensures(
            volume::format_mass_storage_volume::<B>,
            (backend, total_blocks, offset),
            r,
        ),
        r is Ok,
        total_blocks >= 1,
        backend.medium().len() % 512 == 0,
    ensures
        ({
            let before = old(backend).medium();
            let after = final(backend).medium();
            let at = 512 * offset;
            &&& after.len() == before.len()
            &&& at + 18 * 512 <= after.len()
            &&& is_partition_table(after.subrange(at, at + 512), total_blocks - 1)
            &&& is_boot_sector(after.subrange(at + 512, at + 1024), total_blocks - 1)
            &&& forall|i: int|
                2 * 512 <= i < 18 * 512 ==> #[trigger] after[at + i] == if i == 2 * 512 || i == 8
                    * 512 {
                    0xF8u8
                } else if i == 2 * 512 + 1 || i == 2 * 512 + 2 || i == 8 * 512 + 1 || i == 8 * 512
                    + 2 {
                    0xFFu8
                } else {
                    0u8
                }
            &&& forall|i: int|
                0 <= i < before.len() && !(at <= i < at + 18 * 512) ==> #[trigger] after[i]
                    == before[i]
        }),
{
    lemma_formatted(old(backend).medium(), total_blocks, offset);
}

proof fn lemma_formatted(before: Seq<u8>, total_blocks: u32, offset: u32)
    requires
        total_blocks >= 1,
        (offset + 18) * 512 <= before.len(),
        before.len() % 512 == 0,
    ensures
        ({
            let after = medium::apply_writes(before, volume::format_writes(total_blocks, offset));
            let at = 512 * offset;
            &&& after.len() == before.len()
            &&& is_partition_table(after.subrange(at, at + 512), total_blocks - 1)
            &&& is_boot_sector(after.subrange(at + 512, at + 1024), total_blocks - 1)
            &&& forall|i: int|
                2 * 512 <= i < 18 * 512 ==> #[trigger] after[at + i] == if i == 2 * 512 || i == 8
                    * 512 {
                    0xF8u8
                } else if i == 2 * 512 + 1 || i == 2 * 512 + 2 || i == 8 * 512 + 1 || i == 8 * 512
                    + 2 {
                    0xFFu8
                } else {
                    0u8
                }
            &&& forall|i: int|
                0 <= i < before.len() && !(at <= i < at + 18 * 512) ==> #[trigger] after[i]
                    == before[i]
        }),
{
    let ws = volume::format_writes(total_blocks, offset);
    let after = medium::apply_writes(before, ws);
    let at = 512 * offset;
    medium::lemma_apply_writes_len(before, ws);
    assert forall|i: int| 2 * 512 <= i < 18 * 512 implies #[trigger] after[at + i] == if i == 2 * 512
        || i == 8 * 512 {
        0xF8u8
    } else if i == 2 * 512 + 1 || i == 2 * 512 + 2 || i == 8 * 512 + 1 || i == 8 * 512 + 2 {
        0xFFu8
    } else {
        0u8
    } by {
        lemma_table_byte(before, total_blocks, offset, i);
    }
    assert forall|i: int| 0 <= i < before.len() && !(at <= i < at + 18 * 512) implies #[trigger] after[i]
        == before[i] by {
        lemma_other_byte(before, total_blocks, offset, i);
    }
    lemma_first_sectors(before, total_blocks, offset);
}

proof fn lemma_first_sectors(before: Seq<u8>, total_blocks: u32, offset: u32)
    requires
        total_blocks >= 1,
        (offset + 18) * 512 <= before.len(),
    ensures
        ({
            let after = medium::apply_writes(before, volume::format_writes(total_blocks, offset));
            let at = 512 * offset;
            &&& is_partition_table(after.subrange(at, at + 512), total_blocks - 1)
            &&& is_boot_sector(after.subrange(at + 512, at + 1024), total_blocks - 1)
        }),
{
    let after = medium::apply_writes(before, volume::format_writes(total_blocks, offset));
    let at = 512 * offset;
    volume::formatting_writes_the_volume(before, total_blocks, offset);
    lemma_partition_table((total_blocks - 1) as u32);
    lemma_boot_sector((total_blocks - 1) as u32);
    assert(after.subrange(at, at + 512) == medium::block_at(after, offset as int));
    assert(after.subrange(at + 512, at + 1024) == medium::block_at(after, offset + 1));
}

proof fn lemma_other_byte(before: Seq<u8>, total_blocks: u32, offset: u32, i: int)
    requires
        total_blocks >= 1,
        (offset + 18) * 512 <= before.len(),
        before.len() % 512 == 0,
        0 <= i < before.len(),
        !(512 * offset <= i < 512 * offset + 18 * 512),
    ensures
        medium::apply_writes(before, volume::format_writes(total_blocks, offset))[i] == before[i],
{
    let ws = volume::format_writes(total_blocks, offset);
    let after = medium::apply_writes(before, ws);
    medium::lemma_apply_writes_len(before, ws);
    volume::formatting_writes_the_volume(before, total_blocks, offset);
    let b = i / 512;
    let o = i % 512;
    assert(i == 512 * b + o);
    assert(medium::block_at(after, b) == medium::block_at(before, b));
    assert(medium::block_at(after, b)[o] == after[i]);
    assert(medium::block_at(before, b)[o] == before[i]);
}

proof fn lemma_table_byte(before: Seq<u8>, total_blocks: u32, offset: u32, i: int)
    requires
        total_blocks >= 1,
        (offset + 18) * 512 <= before.len(),
        2 * 512 <= i < 18 * 512,
    ensures
        medium::apply_writes(before, volume::format_writes(total_blocks, offset))[512 * offset + i]
            == if i == 2 * 512 || i == 8 * 512 {
            0xF8u8
        } else if i == 2 * 512 + 1 || i == 2 * 512 + 2 || i == 8 * 512 + 1 || i == 8 * 512 + 2 {
            0xFFu8
        } else {
            0u8
        },
{
    let ws = volume::format_writes(total_blocks, offset);
    let after = medium::apply_writes(before, ws);
    medium::lemma_apply_writes_len(before, ws);
    volume::formatting_writes_the_volume(before, total_blocks, offset);
    let b = i / 512;
    let o = i % 512;
    assert(i == 512 * b + o);
    let block = medium::block_at(after, offset + b);
    assert(block[o] == after[512 * offset + i]);
    if b < 8 {
        let k = b - 2;
        assert(medium::block_at(after, offset + 2 + k) == volume::fat_sector(k));
        assert(block == volume::fat_sector(k));
        assert(block[o] == volume::fat12_table()[k * 512 + o]);
    } else if b < 14 {
        let k = b - 8;
        assert(medium::block_at(after, offset + 8 + k) == volume::fat_sector(k) && 0 <= k < 6) by {
            let s = volume::fat_sector(k);
        }
        assert(block == volume::fat_sector(k));
        assert(block[o] == volume::fat12_table()[k * 512 + o]);
    } else {
        assert(block == volume::zeros(512));
    }
}

/// A boot sector is that of the volume exactly where it ends in the boot signature and says: blocks of
/// 512 bytes, one to a cluster, one in front, two tables, 64 entries in the root directory, and six
/// blocks to a table.
pub proof fn boot_sector_is_known_by_its_parameters(boot: [u8; 512], valid: bool)
    requires
        call_ensures(volume::boot_sector_describes_volume, (&boot,), valid),
    ensures
        valid <==> {
            &&& boot@[510] == 0x55 && boot@[511] == 0xAA
            &&& boot@[11] == 0 && boot@[12] == 2
            &&& boot@[13] == 1
            &&& boot@[14] == 1 && boot@[15] == 0
            &&& boot@[16] == 2
            &&& boot@[17] == 64 && boot@[18] == 0
            &&& boot@[22] == 6 && boot@[23] == 0
        },
{
}

/// Nothing else in a boot sector matters: two that agree on the signature, on bytes 11 to 18 and on
/// bytes 22 and 23 are both that of the volume, or neither is.
pub proof fn boot_sectors_that_agree_are_both_known(
    a: [u8; 512],
    b: [u8; 512],
    known_a: bool,
    known_b: bool,
)
    requires
        call_ensures(volume::boot_sector_describes_volume, (&a,), known_a),
        call_ensures(volume::boot_sector_describes_volume, (&b,), known_b),
        forall|i: int|
            11 <= i <= 18 || 22 <= i <= 23 || 510 <= i <= 511 ==> #[trigger] a@[i] == b@[i],
    ensures
        known_a == known_b,
{
    assert(a@[11] == b@[11] && a@[12] == b@[12] && a@[13] == b@[13] && a@[14] == b@[14]);
    assert(a@[15] == b@[15] && a@[16] == b@[16] && a@[17] == b@[17] && a@[18] == b@[18]);
    assert(a@[22] == b@[22] && a@[23] == b@[23] && a@[510] == b@[510] && a@[511] == b@[511]);
}

/// A master boot record is that of the volume exactly where it ends in the boot signature and its
/// first entry is a FAT12 partition of `blocks` blocks that starts at block 1.
pub proof fn partition_table_is_known_by_its_first_entry(
    mbr: [u8; 512],
    blocks: u32,
    valid: bool,
)
    requires
        call_ensures(volume::mbr_describes_volume, (&mbr, blocks), valid),
    ensures
        valid <==> {
            &&& mbr@[510] == 0x55 && mbr@[511] == 0xAA
            &&& mbr@[450] == 1
            &&& mbr@[454] == 1 && mbr@[455] == 0 && mbr@[456] == 0 && mbr@[457] == 0
            &&& mbr@[458] == blocks % 0x100
            &&& mbr@[459] == blocks / 0x100 % 0x100
            &&& mbr@[460] == blocks / 0x1_0000 % 0x100
            &&& mbr@[461] == blocks / 0x100_0000
        },
{
}

/// Whether two media agree on every byte by which a volume behind `offset` blocks is known: the boot
/// signatures, the first partition entry from its type on, and the parameters of the boot sector.
pub open spec fn known_alike(a: Seq<u8>, b: Seq<u8>, offset: int) -> bool {
    &&& a.len() == b.len()
    &&& forall|i: int|
        i == 450 || 454 <= i <= 461 || 510 <= i <= 511 || 512 + 11 <= i <= 512 + 18 || 512 + 22 <= i
            <= 512 + 23 || 512 + 510 <= i <= 512 + 511 ==> #[trigger] a[512 * offset + i] == b[512
            * offset + i]
}

proof fn lemma_known_alike(a: Seq<u8>, b: Seq<u8>, total_blocks: u32, offset: u32)
    requires
        known_alike(a, b, offset as int),
        (offset + 2) * 512 <= a.len(),
    ensures
        volume::holds_volume(a, total_blocks, offset) == volume::holds_volume(
            b,
            total_blocks,
            offset,
        ),
{
    let at = 512 * offset;
    let mbr_a = medium::block_at(a, offset as int);
    let mbr_b = medium::block_at(b, offset as int);
    let boot_a = medium::block_at(a, offset + 1);
    let boot_b = medium::block_at(b, offset + 1);
    assert forall|i: int|
        i == 450 || 454 <= i <= 461 || 510 <= i <= 511 implies #[trigger] mbr_a[i] == mbr_b[i] by {
        assert(a[at + i] == b[at + i]);
    }
    assert forall|i: int|
        11 <= i <= 18 || 22 <= i <= 23 || 510 <= i <= 511 implies #[trigger] boot_a[i] == boot_b[i] by {
        assert(a[at + (512 + i)] == b[at + (512 + i)]);
    }
    assert(boot_a[11] == boot_b[11] && boot_a[12] == boot_b[12] && boot_a[13] == boot_b[13]
        && boot_a[14] == boot_b[14]);
    assert(boot_a[15] == boot_b[15] && boot_a[16] == boot_b[16] && boot_a[17] == boot_b[17]
        && boot_a[18] == boot_b[18]);
    assert(boot_a[22] == boot_b[22] && boot_a[23] == boot_b[23] && boot_a[510] == boot_b[510]
        && boot_a[511] == boot_b[511]);
    assert(mbr_a[450] == mbr_b[450] && mbr_a[454] == mbr_b[454] && mbr_a[455] == mbr_b[455]
        && mbr_a[456] == mbr_b[456]);
    assert(mbr_a[457] == mbr_b[457] && mbr_a[458] == mbr_b[458] && mbr_a[459] == mbr_b[459]
        && mbr_a[460] == mbr_b[460]);
    assert(mbr_a[461] == mbr_b[461] && mbr_a[510] == mbr_b[510] && mbr_a[511] == mbr_b[511]);
}

/// A disk that was formatted stays known, whatever a host has written since, as long as it left the
/// bytes by which the volume is known: its next start keeps what is on it. Here `used` is what the
/// host made of the medium `before` that formatting left.
pub proof fn used_volume_is_not_formatted_again<B: JournalBackend>(
    before: Seq<u8>,
    used: B,
    r: Result<(MetadataJournalStorage<B>, bool), HardwareInitError>,
)
    requires
        before.len() >= 20 * 512,
        before.len() % 512 == 0,
        before.len() / 512 <= u32::MAX,
        ({
            let total_blocks = (before.len() / 512 - 2) as u32;
            known_alike(
                used.medium(),
                medium::apply_writes(before, volume::format_writes(total_blocks, 2)),
                2,
            )
        }),
        call_ensures(hardware::open_storage::<B>, (used,), r),
        r is Ok,
    ensures
        r matches Ok((storage, formatted)) && !formatted,
{
    let total_blocks = (before.len() / 512 - 2) as u32;
    let formatted = medium::apply_writes(before, volume::format_writes(total_blocks, 2));
    medium::lemma_apply_writes_len(before, volume::format_writes(total_blocks, 2));
    volume::formatting_is_not_repeated(before, total_blocks, 2);
    lemma_known_alike(used.medium(), formatted, total_blocks, 2);
    assert(hardware::visible_blocks_of(used.medium()) == total_blocks);
}

/// Two disks on which the bytes agree by which a volume is known are both kept at their start, or both
/// formatted.
pub proof fn disks_known_alike_are_treated_alike<B: JournalBackend>(
    a: B,
    b: B,
    from_a: Result<(MetadataJournalStorage<B>, bool), HardwareInitError>,
    from_b: Result<(MetadataJournalStorage<B>, bool), HardwareInitError>,
)
    requires
        known_alike(a.medium(), b.medium(), 2),
        a.medium().len() >= 4 * 512,
        a.medium().len() / 512 <= u32::MAX,
        call_ensures(hardware::open_storage::<B>, (a,), from_a),
        call_ensures(hardware::open_storage::<B>, (b,), from_b),
        from_a is Ok,
        from_b is Ok,
    ensures
        from_a->Ok_0.1 == from_b->Ok_0.1,
{
    lemma_known_alike(a.medium(), b.medium(), hardware::visible_blocks_of(a.medium()), 2);
}

/// Whether a medium holds the volume is told by the bytes of its first two blocks behind `offset`
/// others, and telling it changes nothing.
pub proof fn volume_is_known_by_its_bytes<B: JournalBackend>(
    backend: &mut B,
    total_blocks: u32,
    offset: u32,
    r: Result<bool, StorageError>,
)
    requires
        call_ensures(volume::has_valid_volume_layout::<B>, (backend, total_blocks, offset), r),
        total_blocks >= 1,
        (offset + 2) * 512 <= backend.medium().len(),
    ensures
        final(backend).medium() == old(backend).medium(),
        r matches Ok(valid) ==> (valid <==> {
            let m = old(backend).medium();
            let at = 512 * offset;
            let blocks = total_blocks - 1;
            &&& m[at + 510] == 0x55 && m[at + 511] == 0xAA
            &&& m[at + 450] == 1
            &&& m[at + 454] == 1 && m[at + 455] == 0 && m[at + 456] == 0 && m[at + 457] == 0
            &&& m[at + 458] + 0x100 * m[at + 459] + 0x1_0000 * m[at + 460] + 0x100_0000 * m[at + 461]
                == blocks
            &&& m[at + 512 + 510] == 0x55 && m[at + 512 + 511] == 0xAA
            &&& m[at + 512 + 11] == 0 && m[at + 512 + 12] == 2 && m[at + 512 + 13] == 1
            &&& m[at + 512 + 14] == 1 && m[at + 512 + 15] == 0 && m[at + 512 + 16] == 2
            &&& m[at + 512 + 17] == 64 && m[at + 512 + 18] == 0
            &&& m[at + 512 + 22] == 6 && m[at + 512 + 23] == 0
        }),
{
    let m = backend.medium();
    let at = 512 * offset;
    let mbr = medium::block_at(m, offset as int);
    let boot = medium::block_at(m, offset + 1);
    assert(forall|i: int| 0 <= i < 512 ==> #[trigger] mbr[i] == m[at + i]);
    assert(forall|i: int| 0 <= i < 512 ==> #[trigger] boot[i] == m[at + 512 + i]);
}

/// A disk that comes up without being formatted has its blocks as they were on the memory, two blocks
/// in front of them being those of the journal, but for a block that the journal had still to write.
pub proof fn opened_disk_keeps_its_blocks<B: JournalBackend>(
    backend: B,
    r: Result<(MetadataJournalStorage<B>, bool), HardwareInitError>,
)
    requires
        call_ensures(hardware::open_storage::<B>, (backend,), r),
        r matches Ok((_, formatted)) && !formatted,
        backend.medium().len() % 512 == 0,
        2 * 512 < backend.medium().len(),
        backend.medium().len() / 512 <= u32::MAX,
    ensures
        r matches Ok((storage, _)) && {
            let m = backend.medium();
            let target = m[4] + 0x100 * m[5] + 0x1_0000 * m[6] + 0x100_0000 * m[7];
            &&& storage.ready()
            &&& storage.contents().len() == m.len() / 512 - 2
            &&& forall|b: int, o: int|
                0 <= b < storage.contents().len() && 0 <= o < 512 && !(b == target && m[0] == 0xA5)
                    ==> #[trigger] storage.contents()[b][o] == m[1024 + 512 * b + o]
            &&& forall|o: int|
                0 <= o < 512 && 0 <= target < storage.contents().len() ==> #[trigger] storage.contents()[target][o]
                    == m[1024 + 512 * target + o] || storage.contents()[target][o] == m[512 + o]
        },
{
    let m = backend.medium();
    let storage = r->Ok_0.0;
    let count = storage.contents().len() as int;
    assert(hardware::with_volume(m) == m);
    assert forall|b: int, o: int|
        0 <= b < count && 0 <= o < 512 implies #[trigger] layout::logical_block(
        m,
        b,
    )[o] == m[1024 + 512 * b + o] by {}
    assert forall|o: int| 0 <= o < 512 implies #[trigger] layout::shadow_of(m)[o]
        == m[512 + o] by {}
}

} // verus!
