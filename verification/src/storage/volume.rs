//! The FAT12 volume that the disk is given when it holds none.

use vstd::prelude::*;
use crate::bytes;
use crate::storage::backend::{self, BackendCall, JournalBackend};
use crate::storage::error::StorageError;
use crate::storage::journal::crash;
use crate::storage::journal::effects;
use crate::storage::journal::layout::{self, LbaRange, JOURNAL_RESERVED_BLOCKS};
use crate::storage::journal::script;
use crate::storage::medium::{self, MediumWrite, BLOCK_SIZE};

verus! {

pub const PARTITION_START_BLOCK: u32 = 1;

pub const FAT_SECTORS: u16 = 6;

pub const FAT_TABLE_BYTES: usize = 3072;

pub const FAT_COUNT: u8 = 2;

pub const ROOT_DIR_ENTRIES: u16 = 64;

pub const ROOT_DIR_SECTORS: u16 = 4;

pub const RESERVED_SECTORS: u16 = 1;

pub const SECTORS_PER_CLUSTER: u8 = 1;

pub const PARTITION_TYPE_FAT12: u8 = 0x01;

/// The volume serial number.
pub const VOLUME_ID: u32 = 0x4652_4D31;

/// "FRAMDISK".
pub const BOOT_OEM_NAME: [u8; 8] = [0x46, 0x52, 0x41, 0x4D, 0x44, 0x49, 0x53, 0x4B];

/// "FERAMDISK", padded with blanks.
pub const VOLUME_LABEL: [u8; 11] = [
    0x46,
    0x45,
    0x52,
    0x41,
    0x4D,
    0x44,
    0x49,
    0x53,
    0x4B,
    0x20,
    0x20,
];

/// "FAT12", padded with blanks.
pub const FILE_SYSTEM_TYPE: [u8; 8] = [0x46, 0x41, 0x54, 0x31, 0x32, 0x20, 0x20, 0x20];

/// The blocks that formatting writes: the partition table, the boot sector, both file allocation
/// tables, and the root directory.
pub const FORMATTED_BLOCKS: u32 = 18;

/// `n` zero bytes.
pub open spec fn zeros(n: nat) -> Seq<u8> {
    Seq::new(n, |i: int| 0u8)
}

/// The boot signature.
pub open spec fn boot_signature() -> Seq<u8> {
    seq![0x55u8, 0xAAu8]
}

/// The one partition entry: a FAT12 partition of `partition_blocks` blocks.
pub open spec fn partition_entry(partition_blocks: u32) -> Seq<u8> {
    seq![0x00u8, 0x01, 0x01, 0x00, PARTITION_TYPE_FAT12, 0xFE, 0xFF, 0xFF] + bytes::le32_bytes(
        PARTITION_START_BLOCK,
    ) + bytes::le32_bytes(partition_blocks)
}

/// The master boot record.
pub open spec fn mbr_sector(partition_blocks: u32) -> Seq<u8> {
    zeros(446) + partition_entry(partition_blocks) + zeros(48) + boot_signature()
}

/// The BIOS parameter block of the boot sector, with what comes before it.
pub open spec fn boot_parameters(partition_blocks: u32) -> Seq<u8> {
    seq![0xEBu8, 0x3C, 0x90] + BOOT_OEM_NAME@ + bytes::le16_bytes(BLOCK_SIZE as u16) + seq![
        SECTORS_PER_CLUSTER,
    ] + bytes::le16_bytes(RESERVED_SECTORS) + seq![FAT_COUNT] + bytes::le16_bytes(ROOT_DIR_ENTRIES)
        + bytes::le16_bytes((partition_blocks % 0x1_0000) as u16) + seq![0xF8u8]
        + bytes::le16_bytes(FAT_SECTORS) + bytes::le16_bytes(0x20) + bytes::le16_bytes(0x40)
        + bytes::le32_bytes(PARTITION_START_BLOCK) + bytes::le32_bytes(0)
}

/// The extended boot record: drive, serial number, label, and file system.
pub open spec fn boot_identity() -> Seq<u8> {
    seq![0x80u8, 0x00, 0x29] + bytes::le32_bytes(VOLUME_ID) + VOLUME_LABEL@ + FILE_SYSTEM_TYPE@
}

/// The boot sector.
pub open spec fn boot_sector(partition_blocks: u32) -> Seq<u8> {
    boot_parameters(partition_blocks) + boot_identity() + zeros(448) + boot_signature()
}

/// A file allocation table with no cluster in use.
pub open spec fn fat12_table() -> Seq<u8> {
    seq![0xF8u8, 0xFF, 0xFF] + zeros((FAT_TABLE_BYTES - 3) as nat)
}

/// Whether a master boot record is that of the volume.
pub open spec fn is_volume_mbr(mbr: Seq<u8>, partition_blocks: u32) -> bool {
    &&& layout::has_boot_signature(mbr)
    &&& mbr[450] == PARTITION_TYPE_FAT12
    &&& bytes::le32_at(mbr, 454) == PARTITION_START_BLOCK
    &&& bytes::le32_at(mbr, 458) == partition_blocks
}

/// Whether a boot sector is that of the volume.
pub open spec fn is_volume_boot_sector(boot: Seq<u8>) -> bool {
    &&& layout::has_boot_signature(boot)
    &&& bytes::le16_at(boot, 11) == BLOCK_SIZE
    &&& boot[13] == SECTORS_PER_CLUSTER
    &&& bytes::le16_at(boot, 14) == RESERVED_SECTORS
    &&& boot[16] == FAT_COUNT
    &&& bytes::le16_at(boot, 17) == ROOT_DIR_ENTRIES
    &&& bytes::le16_at(boot, 22) == FAT_SECTORS
}

/// Whether the medium holds the volume, `total_blocks` long and behind `offset` blocks.
pub open spec fn holds_volume(m: Seq<u8>, total_blocks: u32, offset: u32) -> bool {
    &&& is_volume_mbr(
        medium::block_at(m, offset as int),
        (total_blocks - PARTITION_START_BLOCK) as u32,
    )
    &&& is_volume_boot_sector(medium::block_at(m, offset + PARTITION_START_BLOCK))
}

/// Sector `i` of a file allocation table.
pub open spec fn fat_sector(i: int) -> Seq<u8> {
    fat12_table().subrange(i * BLOCK_SIZE, i * BLOCK_SIZE + BLOCK_SIZE)
}

/// The block that formatting writes in step `k`. The two tables are written side by side.
pub open spec fn format_target(k: int) -> int {
    if k < 2 || k >= 14 {
        k
    } else if k % 2 == 0 {
        2 + (k - 2) / 2
    } else {
        2 + FAT_SECTORS + (k - 2) / 2
    }
}

/// What formatting writes in step `k`.
pub open spec fn format_data(k: int, total_blocks: u32) -> Seq<u8> {
    if k == 0 {
        mbr_sector((total_blocks - PARTITION_START_BLOCK) as u32)
    } else if k == 1 {
        boot_sector((total_blocks - PARTITION_START_BLOCK) as u32)
    } else if k < 14 {
        fat_sector((k - 2) / 2)
    } else {
        zeros(BLOCK_SIZE as nat)
    }
}

/// The writes of formatting, behind `offset` blocks.
pub open spec fn format_writes(total_blocks: u32, offset: u32) -> Seq<MediumWrite> {
    Seq::new(
        FORMATTED_BLOCKS as nat,
        |k: int| MediumWrite::block(offset + format_target(k), format_data(k, total_blocks)),
    )
}

/// The calls that find out whether the medium holds the volume: its boot sector is read where the
/// master boot record is that of the volume.
pub open spec fn layout_calls(m: Seq<u8>, total_blocks: u32, offset: u32) -> Seq<BackendCall> {
    let mbr_read = BackendCall::ReadPhysicalBlock { block_index: offset };
    if is_volume_mbr(
        medium::block_at(m, offset as int),
        (total_blocks - PARTITION_START_BLOCK) as u32,
    ) {
        seq![
            mbr_read,
            BackendCall::ReadPhysicalBlock { block_index: (offset + PARTITION_START_BLOCK) as u32 },
        ]
    } else {
        seq![mbr_read]
    }
}

/// The writes that make sure of the volume: none where it is there.
pub open spec fn ensure_writes(m: Seq<u8>, total_blocks: u32, offset: u32) -> Seq<MediumWrite> {
    if holds_volume(m, total_blocks, offset) {
        Seq::empty()
    } else {
        format_writes(total_blocks, offset)
    }
}

/// What making sure of the volume did to a backend.
pub open spec fn ensured<B: JournalBackend>(
    before: &B,
    after: &B,
    total_blocks: u32,
    offset: u32,
    r: Result<bool, StorageError>,
) -> bool {
    let ws = ensure_writes(before.medium(), total_blocks, offset);
    &&& after.wf()
    &&& after.medium().len() == before.medium().len()
    &&& backend::answered(before, after, r)
    &&& before.healthy() ==> after.healthy()
    &&& script::called(
        before.calls(),
        layout_calls(before.medium(), total_blocks, offset) + script::write_calls(ws),
        after.calls(),
        r,
    )
    &&& r matches Ok(formatted) ==> {
        &&& formatted == !holds_volume(before.medium(), total_blocks, offset)
        &&& formatted ==> (offset + FORMATTED_BLOCKS) * BLOCK_SIZE <= before.medium().len()
    }
    &&& script::ran(before.medium(), before.writes(), ws, after.medium(), after.writes(), r)
}

pub fn build_mbr(partition_blocks: u32) -> (sector: [u8; BLOCK_SIZE])
    ensures
        sector@ == mbr_sector(partition_blocks),
{
    let mut sector = [0u8; BLOCK_SIZE];
    sector[447] = 0x01;
    sector[448] = 0x01;
    sector[450] = PARTITION_TYPE_FAT12;
    sector[451] = 0xFE;
    sector[452] = 0xFF;
    sector[453] = 0xFF;
    bytes::put(&mut sector, 454, &bytes::le32(PARTITION_START_BLOCK));
    bytes::put(&mut sector, 458, &bytes::le32(partition_blocks));
    sector[510] = 0x55;
    sector[511] = 0xAA;
    assert(sector@ =~= mbr_sector(partition_blocks));
    sector
}

fn build_boot_parameters(partition_blocks: u32) -> (parameters: [u8; 36])
    ensures
        parameters@ == boot_parameters(partition_blocks),
{
    let mut parameters = [0u8; 36];
    parameters[0] = 0xEB;
    parameters[1] = 0x3C;
    parameters[2] = 0x90;
    bytes::put(&mut parameters, 3, &BOOT_OEM_NAME);
    bytes::put(&mut parameters, 11, &bytes::le16(BLOCK_SIZE as u16));
    parameters[13] = SECTORS_PER_CLUSTER;
    bytes::put(&mut parameters, 14, &bytes::le16(RESERVED_SECTORS));
    parameters[16] = FAT_COUNT;
    bytes::put(&mut parameters, 17, &bytes::le16(ROOT_DIR_ENTRIES));
    bytes::put(&mut parameters, 19, &bytes::le16((partition_blocks % 0x1_0000) as u16));
    parameters[21] = 0xF8;
    bytes::put(&mut parameters, 22, &bytes::le16(FAT_SECTORS));
    bytes::put(&mut parameters, 24, &bytes::le16(0x20));
    bytes::put(&mut parameters, 26, &bytes::le16(0x40));
    bytes::put(&mut parameters, 28, &bytes::le32(PARTITION_START_BLOCK));
    assert(parameters@ =~= boot_parameters(partition_blocks));
    parameters
}

fn build_boot_identity() -> (identity: [u8; 26])
    ensures
        identity@ == boot_identity(),
{
    let mut identity = [0u8; 26];
    identity[0] = 0x80;
    identity[2] = 0x29;
    bytes::put(&mut identity, 3, &bytes::le32(VOLUME_ID));
    bytes::put(&mut identity, 7, &VOLUME_LABEL);
    bytes::put(&mut identity, 18, &FILE_SYSTEM_TYPE);
    assert(identity@ =~= boot_identity());
    identity
}

pub fn build_boot_sector(partition_blocks: u32) -> (sector: [u8; BLOCK_SIZE])
    ensures
        sector@ == boot_sector(partition_blocks),
{
    let mut sector = [0u8; BLOCK_SIZE];
    bytes::put(&mut sector, 0, &build_boot_parameters(partition_blocks));
    bytes::put(&mut sector, 36, &build_boot_identity());
    sector[510] = 0x55;
    sector[511] = 0xAA;
    assert(sector@ =~= boot_sector(partition_blocks));
    sector
}

pub fn build_fat12_table() -> (fat: [u8; FAT_TABLE_BYTES])
    ensures
        fat@ == fat12_table(),
{
    let mut fat = [0u8; FAT_TABLE_BYTES];
    fat[0] = 0xF8;
    fat[1] = 0xFF;
    fat[2] = 0xFF;
    assert(fat@ =~= fat12_table());
    fat
}

/// Tells whether a master boot record is that of the volume.
pub fn mbr_describes_volume(mbr: &[u8; BLOCK_SIZE], partition_blocks: u32) -> (valid: bool)
    ensures
        valid == is_volume_mbr(mbr@, partition_blocks),
{
    mbr[510] == 0x55 && mbr[511] == 0xAA && mbr[450] == PARTITION_TYPE_FAT12 && bytes::get_le32(
        mbr,
        454,
    ) == PARTITION_START_BLOCK && bytes::get_le32(mbr, 458) == partition_blocks
}

/// Tells whether a boot sector is that of the volume.
pub fn boot_sector_describes_volume(boot_sector: &[u8; BLOCK_SIZE]) -> (valid: bool)
    ensures
        valid == is_volume_boot_sector(boot_sector@),
{
    if boot_sector[510] != 0x55 || boot_sector[511] != 0xAA {
        return false;
    }
    if bytes::get_le16(boot_sector, 11) != BLOCK_SIZE as u16 {
        return false;
    }
    if boot_sector[13] != SECTORS_PER_CLUSTER || bytes::get_le16(boot_sector, 14)
        != RESERVED_SECTORS {
        return false;
    }
    if boot_sector[16] != FAT_COUNT || bytes::get_le16(boot_sector, 17) != ROOT_DIR_ENTRIES {
        return false;
    }
    bytes::get_le16(boot_sector, 22) == FAT_SECTORS
}

/// Tells whether the medium holds the volume.
pub fn has_valid_volume_layout<B: JournalBackend>(
    backend: &mut B,
    total_blocks: u32,
    offset: u32,
) -> (r: Result<bool, StorageError>)
    requires
        old(backend).wf(),
        total_blocks >= PARTITION_START_BLOCK,
        offset + FORMATTED_BLOCKS <= u32::MAX,
    ensures
        final(backend).wf(),
        final(backend).medium() == old(backend).medium(),
        final(backend).writes() == old(backend).writes(),
        backend::answered(old(backend), final(backend), r),
        old(backend).healthy() ==> final(backend).healthy(),
        old(backend).healthy() && (offset + 2) * BLOCK_SIZE <= old(backend).medium().len()
            ==> r is Ok,
        r matches Ok(valid) ==> valid == holds_volume(old(backend).medium(), total_blocks, offset),
        script::called(
            old(backend).calls(),
            layout_calls(old(backend).medium(), total_blocks, offset),
            final(backend).calls(),
            r,
        ),
{
    proof {
        let calls0 = backend.calls();
        let cs = layout_calls(backend.medium(), total_blocks, offset);
        assert(calls0 + cs.take(1) =~= calls0.push(cs[0]));
        assert(cs.take(cs.len() as int) =~= cs);
        if cs.len() == 2 {
            assert(calls0 + cs.take(2) =~= calls0.push(cs[0]).push(cs[1]));
        }
    }
    let mut mbr = [0u8; BLOCK_SIZE];
    if let Err(error) = backend.read_physical_block(offset, &mut mbr) {
        return Err(error);
    }
    if !mbr_describes_volume(&mbr, total_blocks - PARTITION_START_BLOCK) {
        return Ok(false);
    }
    let mut boot_sector = [0u8; BLOCK_SIZE];
    if let Err(error) = backend.read_physical_block(
        offset + PARTITION_START_BLOCK,
        &mut boot_sector,
    ) {
        return Err(error);
    }
    Ok(boot_sector_describes_volume(&boot_sector))
}

/// Makes step `k` of formatting.
fn write_step<B: JournalBackend>(
    backend: &mut B,
    block: u32,
    data: &[u8; BLOCK_SIZE],
    Ghost(m0): Ghost<Seq<u8>>,
    Ghost(log0): Ghost<Seq<MediumWrite>>,
    Ghost(calls0): Ghost<Seq<BackendCall>>,
    Ghost(ws): Ghost<Seq<MediumWrite>>,
    Ghost(k): Ghost<int>,
) -> (r: Result<(), StorageError>)
    requires
        old(backend).wf(),
        script::progressed(m0, log0, ws, k, old(backend).medium(), old(backend).writes()),
        old(backend).calls() == calls0 + script::write_calls(ws.take(k)),
        k < ws.len(),
        ws[k] == MediumWrite::block(block as int, data@),
    ensures
        final(backend).wf(),
        final(backend).medium().len() == old(backend).medium().len(),
        backend::answered(old(backend), final(backend), r),
        old(backend).healthy() ==> final(backend).healthy(),
        old(backend).healthy() && (block + 1) * BLOCK_SIZE <= old(backend).medium().len()
            ==> r is Ok,
        r is Ok ==> script::progressed(
            m0,
            log0,
            ws,
            k + 1,
            final(backend).medium(),
            final(backend).writes(),
        ) && (block + 1) * BLOCK_SIZE <= old(backend).medium().len(),
        r is Ok ==> final(backend).calls() == calls0 + script::write_calls(ws.take(k + 1)),
        r is Err ==> script::called(calls0, script::write_calls(ws), final(backend).calls(), r),
        r is Err ==> script::attempted(
            m0,
            log0,
            ws,
            k + 1,
            final(backend).medium(),
            final(backend).writes(),
        ),
{
    let r = backend.write_physical_block(block, data);
    proof {
        assert(ws.take(k + 1) =~= ws.take(k).push(ws[k]));
        assert(log0 + ws.take(k + 1) =~= (log0 + ws.take(k)).push(ws[k]));
        medium::lemma_apply_writes_push(m0, ws.take(k), ws[k]);
        script::lemma_write_calls(calls0, ws, k);
    }
    r
}

/// Writes the volume, with nothing in it, behind `offset` blocks.
pub fn format_mass_storage_volume<B: JournalBackend>(
    backend: &mut B,
    total_blocks: u32,
    offset: u32,
) -> (r: Result<(), StorageError>)
    requires
        old(backend).wf(),
        total_blocks >= PARTITION_START_BLOCK,
        offset + FORMATTED_BLOCKS <= u32::MAX,
    ensures
        final(backend).wf(),
        final(backend).medium().len() == old(backend).medium().len(),
        backend::answered(old(backend), final(backend), r),
        old(backend).healthy() ==> final(backend).healthy(),
        old(backend).healthy() && (offset + FORMATTED_BLOCKS) * BLOCK_SIZE <= old(backend).medium().len() ==> r is Ok,
        script::ran(
            old(backend).medium(),
            old(backend).writes(),
            format_writes(total_blocks, offset),
            final(backend).medium(),
            final(backend).writes(),
            r,
        ),
        script::called(
            old(backend).calls(),
            script::write_calls(format_writes(total_blocks, offset)),
            final(backend).calls(),
            r,
        ),
        r is Ok ==> (offset + FORMATTED_BLOCKS) * BLOCK_SIZE <= old(backend).medium().len(),
{
    let ghost m0 = backend.medium();
    let ghost log0 = backend.writes();
    let ghost calls0 = backend.calls();
    let ghost ws = format_writes(total_blocks, offset);
    proof {
        assert(calls0 + script::write_calls(ws.take(0)) =~= calls0);
        assert(ws.take(0) =~= Seq::empty());
        assert(log0 + ws.take(0) =~= log0);
        assert(ws.take(ws.len() as int) =~= ws);
    }
    let partition_blocks = total_blocks - PARTITION_START_BLOCK;
    if let Err(error) = write_step(
        backend,
        offset,
        &build_mbr(partition_blocks),
        Ghost(m0),
        Ghost(log0),
        Ghost(calls0),
        Ghost(ws),
        Ghost(0),
    ) {
        return Err(error);
    }
    if let Err(error) = write_step(
        backend,
        offset + PARTITION_START_BLOCK,
        &build_boot_sector(partition_blocks),
        Ghost(m0),
        Ghost(log0),
        Ghost(calls0),
        Ghost(ws),
        Ghost(1),
    ) {
        return Err(error);
    }

    let fat = build_fat12_table();
    let fat_start = offset + PARTITION_START_BLOCK + RESERVED_SECTORS as u32;
    let mut sector_offset: u32 = 0;
    while sector_offset < FAT_SECTORS as u32
        invariant
            sector_offset <= FAT_SECTORS,
            fat_start == offset + 2,
            offset + FORMATTED_BLOCKS <= u32::MAX,
            fat@ == fat12_table(),
            m0 == old(backend).medium(),
            log0 == old(backend).writes(),
            calls0 == old(backend).calls(),
            ws == format_writes(total_blocks, offset),
            backend.wf(),
            backend.medium().len() == m0.len(),
            backend::answered(old(backend), backend, Ok::<(), StorageError>(())),
            old(backend).healthy() ==> backend.healthy(),
            script::progressed(
                m0,
                log0,
                ws,
                2 + 2 * sector_offset,
                backend.medium(),
                backend.writes(),
            ),
            backend.calls() == calls0 + script::write_calls(ws.take(2 + 2 * sector_offset)),
        decreases FAT_SECTORS - sector_offset,
    {
        let start = sector_offset as usize * BLOCK_SIZE;
        let mut sector = [0u8; BLOCK_SIZE];
        bytes::put(
            &mut sector,
            0,
            vstd::slice::slice_subrange(fat.as_slice(), start, start + BLOCK_SIZE),
        );
        assert(sector@ =~= fat_sector(sector_offset as int));
        let ghost k = 2 + 2 * sector_offset;
        assert(k % 2 == 0 && (k - 2) / 2 == sector_offset);
        assert((k + 1) % 2 == 1 && (k + 1 - 2) / 2 == sector_offset);
        if let Err(error) = write_step(
            backend,
            fat_start + sector_offset,
            &sector,
            Ghost(m0),
            Ghost(log0),
            Ghost(calls0),
            Ghost(ws),
            Ghost(k),
        ) {
            return Err(error);
        }
        if let Err(error) = write_step(
            backend,
            fat_start + FAT_SECTORS as u32 + sector_offset,
            &sector,
            Ghost(m0),
            Ghost(log0),
            Ghost(calls0),
            Ghost(ws),
            Ghost(k + 1),
        ) {
            return Err(error);
        }
        sector_offset = sector_offset + 1;
    }

    let zero_sector = [0u8; BLOCK_SIZE];
    assert(zero_sector@ =~= zeros(BLOCK_SIZE as nat));
    let root_start = fat_start + FAT_SECTORS as u32 * 2;
    let mut sector_index: u32 = 0;
    while sector_index < ROOT_DIR_SECTORS as u32
        invariant
            sector_index <= ROOT_DIR_SECTORS,
            root_start == offset + 14,
            offset + FORMATTED_BLOCKS <= u32::MAX,
            zero_sector@ == zeros(BLOCK_SIZE as nat),
            m0 == old(backend).medium(),
            log0 == old(backend).writes(),
            calls0 == old(backend).calls(),
            ws == format_writes(total_blocks, offset),
            backend.wf(),
            backend.medium().len() == m0.len(),
            backend::answered(old(backend), backend, Ok::<(), StorageError>(())),
            old(backend).healthy() ==> backend.healthy(),
            sector_index > 0 ==> (root_start + sector_index) * BLOCK_SIZE <= m0.len(),
            script::progressed(
                m0,
                log0,
                ws,
                14 + sector_index,
                backend.medium(),
                backend.writes(),
            ),
            backend.calls() == calls0 + script::write_calls(ws.take(14 + sector_index)),
        decreases ROOT_DIR_SECTORS - sector_index,
    {
        if let Err(error) = write_step(
            backend,
            root_start + sector_index,
            &zero_sector,
            Ghost(m0),
            Ghost(log0),
            Ghost(calls0),
            Ghost(ws),
            Ghost(14 + sector_index),
        ) {
            return Err(error);
        }
        sector_index = sector_index + 1;
    }
    Ok(())
}

/// Makes sure that the medium holds the volume, `total_blocks` long and behind `offset` blocks, and
/// tells whether it had to be written. A volume that is there is left as it is.
pub fn ensure_mass_storage_volume_for_total_blocks_at_offset<B: JournalBackend>(
    backend: &mut B,
    total_blocks: u32,
    offset: u32,
) -> (r: Result<bool, StorageError>)
    requires
        old(backend).wf(),
        total_blocks >= PARTITION_START_BLOCK,
        offset + FORMATTED_BLOCKS <= u32::MAX,
    ensures
        ensured(old(backend), final(backend), total_blocks, offset, r),
        old(backend).healthy() && (offset + FORMATTED_BLOCKS) * BLOCK_SIZE <= old(backend).medium().len() ==> r is Ok,
{
    let ghost reads = layout_calls(backend.medium(), total_blocks, offset);
    let ghost ws = ensure_writes(backend.medium(), total_blocks, offset);
    let ghost cs = script::write_calls(ws);
    proof {
        assert(ws.take(0) =~= Seq::empty());
        assert(backend.writes() + ws.take(0) =~= backend.writes());
        assert(backend.writes() + Seq::<MediumWrite>::empty() =~= backend.writes());
        assert(script::attempted(
            backend.medium(),
            backend.writes(),
            ws,
            0,
            backend.medium(),
            backend.writes(),
        ));
        if cs.len() == 0 {
            assert(reads + cs =~= reads);
        }
    }
    match has_valid_volume_layout(backend, total_blocks, offset) {
        Ok(true) => Ok(false),
        Ok(false) => {
            let r = format_mass_storage_volume(backend, total_blocks, offset);
            proof {
                script::lemma_called_then(old(backend).calls(), reads, cs, backend.calls(), r);
            }
            match r {
                Ok(()) => Ok(true),
                Err(error) => Err(error),
            }
        },
        Err(error) => {
            proof {
                script::lemma_called_not_further::<bool, StorageError>(
                    old(backend).calls(),
                    reads,
                    cs,
                    backend.calls(),
                    Err(error),
                );
            }
            Err(error)
        },
    }
}

/// Makes sure that a medium that the volume takes up whole holds it.
pub fn ensure_mass_storage_volume<B: JournalBackend>(backend: &mut B) -> (r: Result<
    bool,
    StorageError,
>)
    requires
        old(backend).wf(),
        old(backend).medium().len() >= BLOCK_SIZE,
    ensures
        ensured(
            old(backend),
            final(backend),
            (old(backend).medium().len() / BLOCK_SIZE as nat) as u32,
            0,
            r,
        ),
        old(backend).healthy() && FORMATTED_BLOCKS * BLOCK_SIZE <= old(backend).medium().len()
            ==> r is Ok,
{
    let total_blocks = backend.physical_block_count();
    ensure_mass_storage_volume_for_total_blocks_at_offset(backend, total_blocks, 0)
}

/// The write of a block changes that block, and no other.
proof fn lemma_block_written(m: Seq<u8>, index: int, data: Seq<u8>, other: int)
    requires
        0 <= index,
        0 <= other,
        (index + 1) * BLOCK_SIZE <= m.len(),
        (other + 1) * BLOCK_SIZE <= m.len(),
        data.len() == BLOCK_SIZE,
    ensures
        MediumWrite::block(index, data).apply(m).len() == m.len(),
        medium::block_at(MediumWrite::block(index, data).apply(m), other) == if other == index {
            data
        } else {
            medium::block_at(m, other)
        },
{
    let after = MediumWrite::block(index, data).apply(m);
    if other == index {
        assert(medium::block_at(after, other) =~= data);
    } else {
        assert(medium::block_at(after, other) =~= medium::block_at(m, other));
    }
}

/// The first `n` steps of formatting leave the blocks that they write, and every other block.
proof fn lemma_formatted_blocks(m: Seq<u8>, total_blocks: u32, offset: u32, n: int, other: int)
    requires
        0 <= n <= FORMATTED_BLOCKS,
        (offset + FORMATTED_BLOCKS) * BLOCK_SIZE <= m.len(),
        0 <= other,
        (other + 1) * BLOCK_SIZE <= m.len(),
    ensures
        ({
            let after = medium::apply_writes(m, format_writes(total_blocks, offset).take(n));
            &&& after.len() == m.len()
            &&& forall|k: int|
                0 <= k < n && other == offset + #[trigger] format_target(k) ==> medium::block_at(
                    after,
                    other,
                ) == format_data(k, total_blocks)
            &&& (forall|k: int| 0 <= k < n ==> other != offset + #[trigger] format_target(k))
                ==> medium::block_at(after, other) == medium::block_at(m, other)
        }),
    decreases n,
{
    let ws = format_writes(total_blocks, offset);
    if n == 0 {
        assert(ws.take(0) =~= Seq::empty());
    } else {
        lemma_formatted_blocks(m, total_blocks, offset, n - 1, other);
        let before = medium::apply_writes(m, ws.take(n - 1));
        assert(ws.take(n) =~= ws.take(n - 1).push(ws[n - 1]));
        medium::lemma_apply_writes_push(m, ws.take(n - 1), ws[n - 1]);
        let target = format_target(n - 1);
        assert(0 <= target < FORMATTED_BLOCKS);
        assert(format_data(n - 1, total_blocks).len() == BLOCK_SIZE);
        lemma_block_written(
            before,
            offset + target,
            format_data(n - 1, total_blocks),
            other,
        );
        assert forall|k: int| 0 <= k < n - 1 implies #[trigger] format_target(k) != target by {}
    }
}

/// Formatting leaves the partition table, the boot sector, two equal tables with no cluster in use
/// and an empty root directory, and no other block changes.
pub proof fn formatting_writes_the_volume(m: Seq<u8>, total_blocks: u32, offset: u32)
    requires
        total_blocks >= PARTITION_START_BLOCK,
        (offset + FORMATTED_BLOCKS) * BLOCK_SIZE <= m.len(),
    ensures
        ({
            let after = medium::apply_writes(m, format_writes(total_blocks, offset));
            let partition_blocks = (total_blocks - PARTITION_START_BLOCK) as u32;
            &&& medium::block_at(after, offset as int) == mbr_sector(partition_blocks)
            &&& medium::block_at(after, offset + 1) == boot_sector(partition_blocks)
            &&& forall|i: int|
                0 <= i < FAT_SECTORS ==> medium::block_at(after, offset + 2 + i)
                    == #[trigger] fat_sector(i) && medium::block_at(after, offset + 8 + i)
                    == fat_sector(i)
            &&& forall|i: int|
                14 <= i < FORMATTED_BLOCKS ==> #[trigger] medium::block_at(after, offset + i)
                    == zeros(BLOCK_SIZE as nat)
            &&& forall|i: int|
                0 <= i && (i + 1) * BLOCK_SIZE <= m.len() && !(offset <= i < offset
                    + FORMATTED_BLOCKS) ==> #[trigger] medium::block_at(after, i)
                    == medium::block_at(m, i)
        }),
{
    let ws = format_writes(total_blocks, offset);
    let after = medium::apply_writes(m, ws);
    assert(ws.take(FORMATTED_BLOCKS as int) =~= ws);
    lemma_formatted_blocks(m, total_blocks, offset, 18, offset as int);
    lemma_formatted_blocks(m, total_blocks, offset, 18, offset + 1);
    assert(format_target(0) == 0 && format_target(1) == 1);
    assert forall|i: int| 0 <= i < FAT_SECTORS implies medium::block_at(after, offset + 2 + i)
        == #[trigger] fat_sector(i) && medium::block_at(after, offset + 8 + i) == fat_sector(i) by {
        let k = 2 + 2 * i;
        assert(k % 2 == 0 && (k - 2) / 2 == i);
        assert((k + 1) % 2 == 1 && (k + 1 - 2) / 2 == i);
        lemma_formatted_blocks(m, total_blocks, offset, 18, offset + 2 + i);
        lemma_formatted_blocks(m, total_blocks, offset, 18, offset + 8 + i);
        assert(format_target(k) == 2 + i);
        assert(format_target(k + 1) == 8 + i);
    }
    assert forall|i: int| 14 <= i < FORMATTED_BLOCKS implies #[trigger] medium::block_at(
        after,
        offset + i,
    ) == zeros(BLOCK_SIZE as nat) by {
        lemma_formatted_blocks(m, total_blocks, offset, 18, offset + i);
        assert(format_target(i) == i);
    }
    assert forall|i: int|
        0 <= i && (i + 1) * BLOCK_SIZE <= m.len() && !(offset <= i < offset
            + FORMATTED_BLOCKS) implies #[trigger] medium::block_at(after, i) == medium::block_at(
        m,
        i,
    ) by {
        lemma_formatted_blocks(m, total_blocks, offset, 18, i);
        assert forall|k: int| 0 <= k < 18 implies i != offset + #[trigger] format_target(k) by {}
    }
}

/// A medium that was formatted holds the volume, so that it is not formatted again.
pub proof fn formatting_is_not_repeated(m: Seq<u8>, total_blocks: u32, offset: u32)
    requires
        total_blocks >= PARTITION_START_BLOCK,
        (offset + FORMATTED_BLOCKS) * BLOCK_SIZE <= m.len(),
    ensures
        holds_volume(
            medium::apply_writes(m, format_writes(total_blocks, offset)),
            total_blocks,
            offset,
        ),
{
    formatting_writes_the_volume(m, total_blocks, offset);
    let partition_blocks = (total_blocks - PARTITION_START_BLOCK) as u32;
    lemma_mbr_fields(partition_blocks);
    lemma_boot_sector_fields(partition_blocks);
}

proof fn lemma_mbr_fields(partition_blocks: u32)
    ensures
        is_volume_mbr(mbr_sector(partition_blocks), partition_blocks),
{
    let mbr = mbr_sector(partition_blocks);
    bytes::lemma_le32_round_trip(PARTITION_START_BLOCK);
    bytes::lemma_le32_round_trip(partition_blocks);
    assert(bytes::le32_at(mbr, 454) == bytes::le32_at(bytes::le32_bytes(PARTITION_START_BLOCK), 0));
    assert(bytes::le32_at(mbr, 458) == bytes::le32_at(bytes::le32_bytes(partition_blocks), 0));
}

proof fn lemma_boot_sector_fields(partition_blocks: u32)
    ensures
        is_volume_boot_sector(boot_sector(partition_blocks)),
        bytes::le16_at(boot_sector(partition_blocks), 19) == partition_blocks % 0x1_0000,
{
    let boot = boot_sector(partition_blocks);
    let parameters = boot_parameters(partition_blocks);
    assert(parameters.len() == 36);
    assert(boot_identity().len() == 26);
    assert(forall|i: int| 0 <= i < 36 ==> #[trigger] boot[i] == parameters[i]);
    bytes::lemma_le16_round_trip(BLOCK_SIZE as u16);
    bytes::lemma_le16_round_trip(RESERVED_SECTORS);
    bytes::lemma_le16_round_trip(ROOT_DIR_ENTRIES);
    bytes::lemma_le16_round_trip((partition_blocks % 0x1_0000) as u16);
    bytes::lemma_le16_round_trip(FAT_SECTORS);
}

/// The boot sector counts the blocks of the partition: together with the one before it they are
/// the blocks of the disk.
pub proof fn boot_sector_counts_the_blocks(total_blocks: u32)
    requires
        PARTITION_START_BLOCK <= total_blocks <= 0x1_0000,
    ensures
        bytes::le16_at(boot_sector((total_blocks - PARTITION_START_BLOCK) as u32), 19)
            + PARTITION_START_BLOCK == total_blocks,
{
    lemma_boot_sector_fields((total_blocks - PARTITION_START_BLOCK) as u32);
}

/// On a journaled medium that holds the volume, the protected blocks are the file allocation tables
/// and the root directory: not the partition table, not the boot sector, and no file data.
pub proof fn volume_metadata_is_protected(m: Seq<u8>, count: u32)
    requires
        FORMATTED_BLOCKS <= count,
        holds_volume(m, count, JOURNAL_RESERVED_BLOCKS),
    ensures
        layout::protected_range(m, count as int) == (LbaRange {
            start: (PARTITION_START_BLOCK + RESERVED_SECTORS) as u32,
            end_exclusive: FORMATTED_BLOCKS,
        }),
{
    let mbr = layout::logical_block(m, 0);
    let boot = layout::logical_block(m, 1);
    assert(mbr == medium::block_at(m, JOURNAL_RESERVED_BLOCKS as int));
    assert(boot == medium::block_at(m, JOURNAL_RESERVED_BLOCKS + PARTITION_START_BLOCK));
    assert(layout::describes_partition(mbr));
    assert(layout::partition_start(mbr) == 1);
    assert(layout::fat_sectors(boot) == FAT_SECTORS);
    assert(layout::root_dir_sectors(boot) == ROOT_DIR_SECTORS);
}

/// On a medium that holds the volume every protected write is atomic: wherever it stops, the medium
/// stands either for the blocks it stood for before, or for those with the whole new block in
/// place.
pub proof fn volume_metadata_writes_are_atomic(
    m: Seq<u8>,
    count: u32,
    lba: u32,
    data: Seq<u8>,
    m2: Seq<u8>,
)
    requires
        effects::roomy(m, count as int),
        layout::has_magic(layout::header_of(m)),
        FORMATTED_BLOCKS <= count,
        holds_volume(m, count, JOURNAL_RESERVED_BLOCKS),
        layout::protected_range(m, count as int).has(lba as int),
        data.len() == BLOCK_SIZE,
        medium::interrupted(
            m,
            script::journaled_writes(
                m,
                count as int,
                layout::protected_range(m, count as int),
                lba,
                data,
            ),
            m2,
        ),
    ensures
        script::recovered_blocks(m2, count as int) == script::recovered_blocks(m, count as int)
            || script::recovered_blocks(m2, count as int) == script::recovered_blocks(
            m,
            count as int,
        ).update(lba as int, data),
{
    volume_metadata_is_protected(m, count);
    let mbr = layout::logical_block(m, 0);
    assert(mbr == medium::block_at(m, JOURNAL_RESERVED_BLOCKS as int));
    assert(layout::partition_start(mbr) == 1);
    crash::protected_write_is_atomic(m, count as int, lba, data, m2);
}

/// On a medium that holds the volume every protected write is made once its commit marker is
/// written: wherever it stops from there on, the medium stands for the whole new block.
pub proof fn committed_volume_metadata_is_made(
    m: Seq<u8>,
    count: u32,
    lba: u32,
    data: Seq<u8>,
    left: Seq<u8>,
)
    requires
        effects::roomy(m, count as int),
        layout::has_magic(layout::header_of(m)),
        FORMATTED_BLOCKS <= count,
        holds_volume(m, count, JOURNAL_RESERVED_BLOCKS),
        layout::protected_range(m, count as int).has(lba as int),
        data.len() == BLOCK_SIZE,
        medium::interrupted(
            medium::apply_writes(
                m,
                script::committing_writes(
                    m,
                    count as int,
                    layout::protected_range(m, count as int),
                    lba,
                    data,
                ),
            ),
            script::finishing_writes(lba, data),
            left,
        ),
    ensures
        script::recovered_blocks(left, count as int) == script::recovered_blocks(
            m,
            count as int,
        ).update(lba as int, data),
{
    volume_metadata_is_protected(m, count);
    let mbr = layout::logical_block(m, 0);
    assert(mbr == medium::block_at(m, JOURNAL_RESERVED_BLOCKS as int));
    assert(layout::partition_start(mbr) == 1);
    crash::committed_write_is_made(m, count as int, lba, data, left);
}

} // verus!
