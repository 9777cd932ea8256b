use feramdisk_firmware::backend::hardware::{open_storage, HardwareInitError};
use feramdisk_firmware::backend::simulated::{BackendOp, RamBackend, StorageError, BLOCK_SIZE};
use feramdisk_firmware::storage::volume::{
    boot_sector_describes_volume, build_boot_sector, build_fat12_table, build_mbr,
    ensure_mass_storage_volume, ensure_mass_storage_volume_for_total_blocks_at_offset,
    format_mass_storage_volume, has_valid_volume_layout, mbr_describes_volume,
};
use feramdisk_firmware::storage::{BlockStorage, JOURNAL_RESERVED_BLOCKS};

#[test]
fn mbr_holds_one_fat12_partition() {
    let mbr = build_mbr(2047);
    assert!(mbr[..446].iter().all(|byte| *byte == 0));
    assert_eq!(
        mbr[446..462],
        [0x00, 0x01, 0x01, 0x00, 0x01, 0xFE, 0xFF, 0xFF, 1, 0, 0, 0, 0xFF, 0x07, 0, 0]
    );
    assert!(mbr[462..510].iter().all(|byte| *byte == 0));
    assert_eq!(mbr[510..], [0x55, 0xAA]);
    assert!(mbr_describes_volume(&mbr, 2047));
    assert!(!mbr_describes_volume(&mbr, 2046));
}

#[test]
fn boot_sector_holds_the_parameters() {
    let boot = build_boot_sector(2047);
    assert_eq!(boot[0..3], [0xEB, 0x3C, 0x90]);
    assert_eq!(&boot[3..11], b"FRAMDISK");
    assert_eq!(boot[11..13], [0x00, 0x02]);
    assert_eq!(boot[13], 1);
    assert_eq!(boot[14..16], [1, 0]);
    assert_eq!(boot[16], 2);
    assert_eq!(boot[17..19], [64, 0]);
    assert_eq!(boot[19..21], [0xFF, 0x07]);
    assert_eq!(boot[21], 0xF8);
    assert_eq!(boot[22..24], [6, 0]);
    assert_eq!(boot[24..28], [0x20, 0, 0x40, 0]);
    assert_eq!(boot[28..32], [1, 0, 0, 0]);
    assert_eq!(boot[32..36], [0, 0, 0, 0]);
    assert_eq!(boot[36..39], [0x80, 0x00, 0x29]);
    assert_eq!(boot[39..43], 0x4652_4D31u32.to_le_bytes());
    assert_eq!(&boot[43..54], b"FERAMDISK  ");
    assert_eq!(&boot[54..62], b"FAT12   ");
    assert!(boot[62..510].iter().all(|byte| *byte == 0));
    assert_eq!(boot[510..], [0x55, 0xAA]);
    assert!(boot_sector_describes_volume(&boot));
}

#[test]
fn boot_sector_is_checked_field_by_field() {
    let boot = build_boot_sector(100);
    for (at, value) in [
        (510usize, 0u8),
        (511, 0),
        (11, 1),
        (12, 4),
        (13, 2),
        (14, 2),
        (16, 1),
        (17, 32),
        (22, 7),
        (23, 1),
    ] {
        let mut changed = boot;
        changed[at] = value;
        assert!(!boot_sector_describes_volume(&changed));
    }
    let mut renamed = boot;
    renamed[43] = b'X';
    assert!(boot_sector_describes_volume(&renamed));
}

#[test]
fn fat_table_has_no_cluster_in_use() {
    let fat = build_fat12_table();
    assert_eq!(fat[..3], [0xF8, 0xFF, 0xFF]);
    assert!(fat[3..].iter().all(|byte| *byte == 0));
    assert_eq!(fat.len(), 6 * BLOCK_SIZE);
}

#[test]
fn blank_medium_is_formatted_once() {
    let mut backend = RamBackend::new(2048);
    assert_eq!(has_valid_volume_layout(&mut backend, 2048, 0), Ok(false));
    assert_eq!(ensure_mass_storage_volume(&mut backend), Ok(true));
    assert_eq!(has_valid_volume_layout(&mut backend, 2048, 0), Ok(true));
    backend.clear_operations();
    assert_eq!(ensure_mass_storage_volume(&mut backend), Ok(false));
    assert!(backend
        .operations()
        .iter()
        .all(|op| matches!(op, BackendOp::ReadPhysicalBlock { .. })));
}

#[test]
fn formatting_writes_the_blocks_in_order() {
    let mut backend = RamBackend::new(40);
    format_mass_storage_volume(&mut backend, 38, 2).expect("format failed");
    let targets: Vec<u32> = backend
        .operations()
        .iter()
        .map(|op| match op {
            BackendOp::WritePhysicalBlock { block_index, .. } => *block_index,
            _ => panic!("only blocks are written"),
        })
        .collect();
    assert_eq!(
        targets,
        vec![2, 3, 4, 10, 5, 11, 6, 12, 7, 13, 8, 14, 9, 15, 16, 17, 18, 19]
    );
    assert_eq!(backend.physical_block(2), build_mbr(37));
    assert_eq!(backend.physical_block(3), build_boot_sector(37));
    assert_eq!(backend.bytes_at(4 * BLOCK_SIZE, 4), vec![0xF8, 0xFF, 0xFF, 0]);
    assert_eq!(backend.physical_block(4), backend.physical_block(10));
    assert_eq!(backend.physical_block(5), [0u8; BLOCK_SIZE]);
}

#[test]
fn formatting_leaves_the_other_blocks() {
    let mut backend = RamBackend::new(40);
    for block in 0..40 {
        backend.set_physical_block(block, [0xC9u8; BLOCK_SIZE]);
    }
    format_mass_storage_volume(&mut backend, 38, 2).expect("format failed");
    for block in (0..2).chain(20..40) {
        assert_eq!(backend.physical_block(block), [0xC9u8; BLOCK_SIZE]);
    }
    for block in 16..20 {
        assert_eq!(backend.physical_block(block), [0u8; BLOCK_SIZE]);
    }
}

#[test]
fn medium_without_room_is_not_formatted() {
    let mut backend = RamBackend::new(12);
    assert_eq!(
        ensure_mass_storage_volume_for_total_blocks_at_offset(&mut backend, 10, 2),
        Err(StorageError::MediumError)
    );
}

#[test]
fn format_passes_errors_on() {
    let mut backend = RamBackend::new(40);
    backend.inject_write_block_error_at(9, StorageError::HardwareError);
    assert_eq!(
        ensure_mass_storage_volume(&mut backend),
        Err(StorageError::HardwareError)
    );
    let mut backend = RamBackend::new(40);
    backend.inject_read_block_error_at(0, StorageError::HardwareError);
    assert_eq!(
        has_valid_volume_layout(&mut backend, 40, 0),
        Err(StorageError::HardwareError)
    );
}

#[test]
fn opened_disk_protects_the_volume_metadata() {
    let (mut storage, formatted) = open_storage(RamBackend::new(2048)).expect("open failed");
    assert!(formatted);
    assert!(storage.is_ready());
    assert_eq!(storage.block_count(), 2046);
    for lba in 0..24u32 {
        let mut block = [0u8; BLOCK_SIZE];
        storage.read_block(lba, &mut block).expect("read failed");
        let seen = storage.backend().operations().len();
        storage.write_block(lba, &block).expect("write failed");
        let journaled = storage.backend().operations()[seen..]
            .iter()
            .any(|op| matches!(op, BackendOp::WritePhysicalBlock { block_index: 1, .. }));
        assert_eq!(journaled, (2..18).contains(&lba));
    }
    let mut mbr = [0u8; BLOCK_SIZE];
    storage.read_block(0, &mut mbr).expect("read failed");
    assert_eq!(mbr, build_mbr(2045));
}

#[test]
fn opened_disk_keeps_a_volume_that_is_there() {
    let (mut storage, _) = open_storage(RamBackend::new(64)).expect("open failed");
    storage
        .write_block(30, &[0x3Du8; BLOCK_SIZE])
        .expect("write failed");
    let bytes = storage.backend().bytes_at(0, 64 * BLOCK_SIZE);
    let mut backend = RamBackend::new(64);
    for block in 0..64u32 {
        let mut data = [0u8; BLOCK_SIZE];
        let start = block as usize * BLOCK_SIZE;
        data.copy_from_slice(&bytes[start..start + BLOCK_SIZE]);
        backend.set_physical_block(block, data);
    }
    let (mut storage, formatted) = open_storage(backend).expect("open failed");
    assert!(!formatted);
    let mut block = [0u8; BLOCK_SIZE];
    storage.read_block(30, &mut block).expect("read failed");
    assert_eq!(block, [0x3Du8; BLOCK_SIZE]);
}

#[test]
fn disk_says_what_did_not_come_up() {
    assert!(matches!(
        open_storage(RamBackend::new(19)),
        Err(HardwareInitError::VolumeInitFailed)
    ));
    let mut backend = RamBackend::new(64);
    backend.inject_next_read_bytes_error(StorageError::HardwareError);
    assert!(matches!(
        open_storage(backend),
        Err(HardwareInitError::JournalInitFailed)
    ));
    assert_ne!(
        HardwareInitError::MissingResource("SPI already consumed"),
        HardwareInitError::VolumeInitFailed
    );
    assert_eq!(JOURNAL_RESERVED_BLOCKS, 2);
}

/// A memory that holds the volume of a disk.
fn prepared_memory() -> RamBackend {
    let mut backend = RamBackend::new(64);
    ensure_mass_storage_volume_for_total_blocks_at_offset(
        &mut backend,
        64 - JOURNAL_RESERVED_BLOCKS,
        JOURNAL_RESERVED_BLOCKS,
    )
    .expect("format failed");
    backend
}

#[test]
fn failing_read_of_the_volume_is_no_failure_of_the_journal() {
    for block in [2u32, 3] {
        let mut backend = prepared_memory();
        backend.inject_read_block_error_at(block, StorageError::HardwareError);
        assert!(matches!(
            open_storage(backend),
            Err(HardwareInitError::VolumeInitFailed)
        ));
    }
}

#[test]
fn failing_header_write_is_a_failure_of_the_journal() {
    for address in [0usize, 1, 4, 8, 12] {
        let mut backend = prepared_memory();
        backend.inject_write_bytes_error_at(address, StorageError::HardwareError);
        assert!(matches!(
            open_storage(backend),
            Err(HardwareInitError::JournalInitFailed)
        ));
    }
}

#[test]
fn volume_that_is_there_takes_two_reads() {
    let mut backend = prepared_memory();
    backend.clear_operations();
    assert_eq!(
        ensure_mass_storage_volume_for_total_blocks_at_offset(&mut backend, 62, 2),
        Ok(false)
    );
    assert_eq!(
        backend.operations(),
        &[
            BackendOp::ReadPhysicalBlock { block_index: 2 },
            BackendOp::ReadPhysicalBlock { block_index: 3 },
        ]
    );
    let mut blank = RamBackend::new(64);
    assert_eq!(has_valid_volume_layout(&mut blank, 62, 2), Ok(false));
    assert_eq!(
        blank.operations(),
        &[BackendOp::ReadPhysicalBlock { block_index: 2 }]
    );
}
