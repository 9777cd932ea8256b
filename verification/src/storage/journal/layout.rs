//! Where the journal keeps its header and shadow block, and which logical blocks it protects.

use vstd::prelude::*;
use crate::bytes;
use crate::storage::journal::crc;
use crate::storage::medium::{self, BLOCK_SIZE};

verus! {

/// Physical blocks in front of the data area: the journal header and the shadow block.
pub const JOURNAL_RESERVED_BLOCKS: u32 = 2;

pub const JOURNAL_STATE_CLEAN: u8 = 0x00;

pub const JOURNAL_STATE_COMMITTED: u8 = 0xA5;

/// `JNL`.
pub const JOURNAL_MAGIC: [u8; 3] = [0x4A, 0x4E, 0x4C];

pub const JOURNAL_HEADER_STATE_OFFSET: usize = 0;

pub const JOURNAL_HEADER_MAGIC_OFFSET: usize = 1;

pub const JOURNAL_HEADER_TARGET_LBA_OFFSET: usize = 4;

pub const JOURNAL_HEADER_SHADOW_CRC_OFFSET: usize = 8;

pub const JOURNAL_HEADER_CRC_OFFSET: usize = 12;

pub const JOURNAL_HEADER_LEN: usize = 16;

/// A range of logical block addresses.
#[derive(Copy, Clone, Debug, PartialEq, Eq, Structural)]
pub struct LbaRange {
    pub start: u32,
    pub end_exclusive: u32,
}

impl LbaRange {
    /// Whether `lba` lies in the range.
    pub open spec fn has(self, lba: int) -> bool {
        self.start <= lba < self.end_exclusive
    }

    pub open spec fn nothing() -> LbaRange {
        LbaRange { start: 0, end_exclusive: 0 }
    }

    pub fn empty() -> (range: Self)
        ensures
            range == LbaRange::nothing(),
            forall|lba: int| !range.has(lba),
    {
        LbaRange { start: 0, end_exclusive: 0 }
    }

    pub fn contains(&self, lba: u32) -> (b: bool)
        ensures
            b == self.has(lba as int),
    {
        lba >= self.start && lba < self.end_exclusive
    }
}

/// How many logical blocks a medium of `physical` blocks has.
pub open spec fn visible_blocks(physical: int) -> int {
    if physical > JOURNAL_RESERVED_BLOCKS {
        physical - JOURNAL_RESERVED_BLOCKS
    } else {
        0
    }
}

pub fn visible_block_count_from_physical(physical_blocks: u32) -> (n: u32)
    ensures
        n == visible_blocks(physical_blocks as int),
{
    physical_blocks.saturating_sub(JOURNAL_RESERVED_BLOCKS)
}

/// The part of a journal header that its CRC covers.
pub open spec fn header_body(state: u8, target_lba: u32, shadow_crc: u32) -> Seq<u8> {
    seq![state] + JOURNAL_MAGIC@ + bytes::le32_bytes(target_lba) + bytes::le32_bytes(shadow_crc)
}

/// A whole journal header.
pub open spec fn header_bytes(state: u8, target_lba: u32, shadow_crc: u32) -> Seq<u8> {
    header_body(state, target_lba, shadow_crc) + bytes::le32_bytes(
        crc::crc32_of(header_body(state, target_lba, shadow_crc)),
    )
}

/// Whether a header carries the magic.
pub open spec fn has_magic(header: Seq<u8>) -> bool {
    &&& header[1] == JOURNAL_MAGIC[0]
    &&& header[2] == JOURNAL_MAGIC[1]
    &&& header[3] == JOURNAL_MAGIC[2]
}

/// Whether a header can be trusted: it carries the magic, its state is a known one, and its CRC
/// matches what it covers.
pub open spec fn header_valid(header: Seq<u8>) -> bool {
    &&& has_magic(header)
    &&& header[0] == JOURNAL_STATE_CLEAN || header[0] == JOURNAL_STATE_COMMITTED
    &&& bytes::le32_at(header, JOURNAL_HEADER_CRC_OFFSET as int) == crc::crc32_of(
        header.take(JOURNAL_HEADER_CRC_OFFSET as int),
    )
}

/// The journal header on the medium.
pub open spec fn header_of(m: Seq<u8>) -> Seq<u8> {
    m.take(JOURNAL_HEADER_LEN as int)
}

/// The shadow block on the medium.
pub open spec fn shadow_of(m: Seq<u8>) -> Seq<u8> {
    medium::block_at(m, 1)
}

/// Logical block `lba` of the medium.
pub open spec fn logical_block(m: Seq<u8>, lba: int) -> Seq<u8> {
    medium::block_at(m, JOURNAL_RESERVED_BLOCKS + lba)
}

/// All logical blocks of a medium of `count` logical blocks.
pub open spec fn logical_blocks(m: Seq<u8>, count: int) -> Seq<Seq<u8>> {
    Seq::new(count as nat, |lba: int| logical_block(m, lba))
}

/// Whether a sector ends in the boot signature.
pub open spec fn has_boot_signature(sector: Seq<u8>) -> bool {
    sector[510] == 0x55 && sector[511] == 0xAA
}

/// Whether a master boot record describes a partition in its first entry.
pub open spec fn describes_partition(mbr: Seq<u8>) -> bool {
    has_boot_signature(mbr) && mbr[450] != 0 && bytes::le32_at(mbr, 458) != 0
}

/// The first block of the volume: that of the first partition, or block 0 where there is none.
pub open spec fn partition_start(mbr: Seq<u8>) -> int {
    if describes_partition(mbr) {
        bytes::le32_at(mbr, 454)
    } else {
        0
    }
}

/// The blocks of the volume that lie on a medium of `count` logical blocks.
pub open spec fn partition_blocks(mbr: Seq<u8>, count: int) -> int {
    let start = partition_start(mbr);
    if !describes_partition(mbr) {
        count
    } else if start + bytes::le32_at(mbr, 458) <= count {
        bytes::le32_at(mbr, 458)
    } else if start <= count {
        count - start
    } else {
        0
    }
}

/// The sectors of one FAT: the 16-bit field, or the 32-bit one where that is zero.
pub open spec fn fat_sectors(boot: Seq<u8>) -> int {
    if bytes::le16_at(boot, 22) != 0 {
        bytes::le16_at(boot, 22)
    } else {
        bytes::le32_at(boot, 36)
    }
}

/// Whether a boot sector describes a FAT volume of 512-byte sectors.
pub open spec fn is_fat_boot_sector(boot: Seq<u8>) -> bool {
    &&& has_boot_signature(boot)
    &&& bytes::le16_at(boot, 11) == BLOCK_SIZE
    &&& boot[16] != 0
    &&& fat_sectors(boot) != 0
}

/// The sectors of the root directory, whose entries are 32 bytes each.
pub open spec fn root_dir_sectors(boot: Seq<u8>) -> int {
    (bytes::le16_at(boot, 17) * 32 + BLOCK_SIZE - 1) / BLOCK_SIZE as int
}

/// The first metadata block of a volume that starts at `volume`.
pub open spec fn metadata_start(boot: Seq<u8>, volume: int) -> int {
    volume + bytes::le16_at(boot, 14)
}

/// The block behind the file allocation tables and the root directory.
pub open spec fn metadata_end(boot: Seq<u8>, volume: int) -> int {
    metadata_start(boot, volume) + boot[16] * fat_sectors(boot) + root_dir_sectors(boot)
}

/// The metadata blocks that lie on a medium of `count` logical blocks, for the volume that starts
/// at `volume` with the boot sector `boot`.
pub open spec fn metadata_range(boot: Seq<u8>, volume: int, count: int) -> LbaRange {
    let start = metadata_start(boot, volume);
    let end = if metadata_end(boot, volume) < count {
        metadata_end(boot, volume)
    } else {
        count
    };
    if is_fat_boot_sector(boot) && start < end {
        LbaRange { start: start as u32, end_exclusive: end as u32 }
    } else {
        LbaRange::nothing()
    }
}

/// The logical blocks that the journal protects on the medium `m`: the file allocation tables and
/// the root directory of the FAT volume on it, if there is one.
pub open spec fn protected_range(m: Seq<u8>, count: int) -> LbaRange {
    let mbr = logical_block(m, 0);
    let volume = partition_start(mbr);
    if partition_blocks(mbr, count) == 0 || volume >= count {
        LbaRange::nothing()
    } else {
        metadata_range(logical_block(m, volume), volume, count)
    }
}

/// Tells whether a journal header can be trusted.
pub fn check_header(header: &[u8; JOURNAL_HEADER_LEN]) -> (valid: bool)
    ensures
        valid == header_valid(header@),
{
    let stored = bytes::get_le32(header, JOURNAL_HEADER_CRC_OFFSET);
    let computed = crc::crc32(
        vstd::slice::slice_subrange(header.as_slice(), 0, JOURNAL_HEADER_CRC_OFFSET),
    );
    assert(header@.subrange(0, 12) =~= header@.take(12));
    header[1] == JOURNAL_MAGIC[0] && header[2] == JOURNAL_MAGIC[1] && header[3] == JOURNAL_MAGIC[2]
        && (header[0] == JOURNAL_STATE_CLEAN || header[0] == JOURNAL_STATE_COMMITTED) && stored
        == computed
}

/// The CRC of a header with the given fields.
pub fn header_crc(state: u8, target_lba: u32, shadow_crc: u32) -> (crc: u32)
    ensures
        crc == crc::crc32_of(header_body(state, target_lba, shadow_crc)),
{
    let lba = bytes::le32(target_lba);
    let shadow = bytes::le32(shadow_crc);
    let body = [
        state,
        JOURNAL_MAGIC[0],
        JOURNAL_MAGIC[1],
        JOURNAL_MAGIC[2],
        lba[0],
        lba[1],
        lba[2],
        lba[3],
        shadow[0],
        shadow[1],
        shadow[2],
        shadow[3],
    ];
    assert(body@ =~= header_body(state, target_lba, shadow_crc));
    crc::crc32(&body)
}

/// Reads the partition table: the first block of the volume, and how many of its blocks lie on a
/// medium of `logical_block_count` blocks.
pub fn parse_partition_geometry(mbr: &[u8; BLOCK_SIZE], logical_block_count: u32) -> (geometry: (
    u32,
    u32,
))
    ensures
        geometry.0 == partition_start(mbr@),
        geometry.1 == partition_blocks(mbr@, logical_block_count as int),
{
    if mbr[510] == 0x55 && mbr[511] == 0xAA {
        let partition_type = mbr[450];
        let lba_start = bytes::get_le32(mbr, 454);
        let lba_size = bytes::get_le32(mbr, 458);
        if partition_type != 0 && lba_size != 0 {
            let space = logical_block_count.saturating_sub(lba_start);
            let clamped_size = if lba_size < space {
                lba_size
            } else {
                space
            };
            return (lba_start, clamped_size);
        }
    }
    (0, logical_block_count)
}

/// Reads a boot sector: the metadata blocks of the volume that starts at `volume_start`, as far as
/// they lie on a medium of `logical_block_count` blocks.
pub fn parse_metadata_range(
    boot_sector: &[u8; BLOCK_SIZE],
    volume_start: u32,
    logical_block_count: u32,
) -> (range: LbaRange)
    ensures
        range == metadata_range(boot_sector@, volume_start as int, logical_block_count as int),
{
    if boot_sector[510] != 0x55 || boot_sector[511] != 0xAA {
        return LbaRange::empty();
    }
    let bytes_per_sector = bytes::get_le16(boot_sector, 11);
    if bytes_per_sector != BLOCK_SIZE as u16 {
        return LbaRange::empty();
    }
    let reserved_sectors = bytes::get_le16(boot_sector, 14);
    let fat_count = boot_sector[16];
    let root_dir_entries = bytes::get_le16(boot_sector, 17);
    let fat_sectors_16 = bytes::get_le16(boot_sector, 22);
    let fat_sectors_32 = bytes::get_le32(boot_sector, 36);
    let fat_sectors: u32 = if fat_sectors_16 != 0 {
        fat_sectors_16 as u32
    } else {
        fat_sectors_32
    };
    if fat_count == 0 || fat_sectors == 0 {
        return LbaRange::empty();
    }
    let root_dir_sectors: u64 = (root_dir_entries as u64 * 32 + (BLOCK_SIZE as u64 - 1))
        / BLOCK_SIZE as u64;
    assert(0 <= fat_count * fat_sectors <= 0xFF * 0xFFFF_FFFF) by (nonlinear_arith)
        requires
            0 <= fat_count <= 0xFF,
            0 <= fat_sectors <= 0xFFFF_FFFF,
    ;
    let start: u64 = volume_start as u64 + reserved_sectors as u64;
    let metadata_end: u64 = start + fat_count as u64 * fat_sectors as u64 + root_dir_sectors;
    let end: u64 = if metadata_end < logical_block_count as u64 {
        metadata_end
    } else {
        logical_block_count as u64
    };
    if start >= end {
        LbaRange::empty()
    } else {
        LbaRange { start: start as u32, end_exclusive: end as u32 }
    }
}

} // verus!
