use feramdisk_firmware::backend::simulated::{
    BackendOp, JournalBackend, RamBackend, StorageError, BLOCK_SIZE,
};
use feramdisk_firmware::storage::journal::crc::crc32;
use feramdisk_firmware::storage::volume::ensure_mass_storage_volume_for_total_blocks_at_offset;
use feramdisk_firmware::storage::{BlockStorage, MetadataJournalStorage, JOURNAL_RESERVED_BLOCKS};

const PHYSICAL_BLOCKS: u32 = 40;
const LOGICAL_BLOCKS: u32 = PHYSICAL_BLOCKS - JOURNAL_RESERVED_BLOCKS;

/// A memory that loses power in the middle of a write: of write `left`, the first `torn` bytes
/// arrive, and nothing after it.
struct DyingMemory {
    bytes: Vec<u8>,
    left: usize,
    torn: usize,
    dead: bool,
}

impl DyingMemory {
    fn store(&mut self, address: usize, data: &[u8]) -> Result<(), StorageError> {
        if self.dead {
            return Err(StorageError::HardwareError);
        }
        if self.left == 0 {
            self.dead = true;
            let torn = self.torn.min(data.len());
            self.bytes[address..address + torn].copy_from_slice(&data[..torn]);
            return Err(StorageError::HardwareError);
        }
        self.left -= 1;
        self.bytes[address..address + data.len()].copy_from_slice(data);
        Ok(())
    }
}

impl JournalBackend for DyingMemory {
    fn physical_block_count(&self) -> u32 {
        (self.bytes.len() / BLOCK_SIZE) as u32
    }

    fn read_physical_block(
        &mut self,
        block_index: u32,
        out: &mut [u8; BLOCK_SIZE],
    ) -> Result<(), StorageError> {
        self.read_bytes(block_index as usize * BLOCK_SIZE, out)
    }

    fn write_physical_block(
        &mut self,
        block_index: u32,
        data: &[u8; BLOCK_SIZE],
    ) -> Result<(), StorageError> {
        self.store(block_index as usize * BLOCK_SIZE, data)
    }

    fn read_bytes(&mut self, address: usize, out: &mut [u8]) -> Result<(), StorageError> {
        if self.dead {
            return Err(StorageError::HardwareError);
        }
        out.copy_from_slice(&self.bytes[address..address + out.len()]);
        Ok(())
    }

    fn write_bytes(&mut self, address: usize, data: &[u8]) -> Result<(), StorageError> {
        self.store(address, data)
    }
}

fn memory(bytes: Vec<u8>, left: usize, torn: usize) -> DyingMemory {
    DyingMemory {
        bytes,
        left,
        torn,
        dead: false,
    }
}

fn lasting(bytes: Vec<u8>) -> DyingMemory {
    memory(bytes, usize::MAX, 0)
}

/// A formatted medium whose blocks all differ, with an initialized journal.
fn formatted_medium() -> Vec<u8> {
    let mut backend = RamBackend::new(PHYSICAL_BLOCKS);
    let formatted = ensure_mass_storage_volume_for_total_blocks_at_offset(
        &mut backend,
        LOGICAL_BLOCKS,
        JOURNAL_RESERVED_BLOCKS,
    );
    assert_eq!(formatted, Ok(true));
    let mut storage = MetadataJournalStorage::new(backend);
    storage.initialize().expect("initialize failed");
    for lba in 2..LOGICAL_BLOCKS {
        storage
            .write_block(lba, &[lba as u8; BLOCK_SIZE])
            .expect("write failed");
    }
    storage
        .backend()
        .bytes_at(0, PHYSICAL_BLOCKS as usize * BLOCK_SIZE)
}

fn blocks_after_restart(bytes: Vec<u8>) -> Vec<[u8; BLOCK_SIZE]> {
    let mut storage = MetadataJournalStorage::new(lasting(bytes));
    storage.initialize().expect("restart failed");
    (0..LOGICAL_BLOCKS)
        .map(|lba| {
            let mut block = [0u8; BLOCK_SIZE];
            storage.read_block(lba, &mut block).expect("read failed");
            block
        })
        .collect()
}

#[test]
fn protected_write_is_all_or_nothing_wherever_power_is_lost() {
    let medium = formatted_medium();
    let before = blocks_after_restart(medium.clone());
    let lba = 5usize;
    let new_block = [0xE7u8; BLOCK_SIZE];
    let mut after = before.clone();
    after[lba] = new_block;

    let mut old_seen = 0;
    let mut new_seen = 0;
    for left in 0..14 {
        for torn in [0usize, 1, 2, 3, 100, 511, 512] {
            let mut storage = MetadataJournalStorage::new(lasting(medium.clone()));
            storage.initialize().expect("initialize failed");
            let bytes = storage.backend().bytes.clone();
            let mut storage = MetadataJournalStorage::new(memory(bytes, left, torn));
            storage.initialize().expect("a clean journal is not written");
            let result = storage.write_block(lba as u32, &new_block);
            let found = blocks_after_restart(storage.backend().bytes.clone());
            if result.is_ok() {
                assert!(found == after);
            }
            if found == before {
                old_seen += 1;
            } else {
                assert!(found == after);
                new_seen += 1;
            }
        }
    }
    assert!(old_seen > 0);
    assert!(new_seen > 0);
}

/// A medium on which a committed write to `lba` waits to be replayed.
fn pending_medium(lba: u32, shadow: [u8; BLOCK_SIZE]) -> Vec<u8> {
    let mut medium = formatted_medium();
    medium[0] = 0xA5;
    medium[4..8].copy_from_slice(&lba.to_le_bytes());
    medium[8..12].copy_from_slice(&crc32(&shadow).to_le_bytes());
    let header_crc = crc32(&medium[..12]);
    medium[12..16].copy_from_slice(&header_crc.to_le_bytes());
    medium[BLOCK_SIZE..2 * BLOCK_SIZE].copy_from_slice(&shadow);
    medium
}

#[test]
fn interrupted_recovery_finds_the_same_blocks() {
    let shadow = [0x9Bu8; BLOCK_SIZE];
    let medium = pending_medium(7, shadow);
    let expected = blocks_after_restart(medium.clone());
    assert!(expected[7] == shadow);

    for left in 0..4 {
        for torn in [0usize, 1, 3, 300, 512] {
            let mut storage = MetadataJournalStorage::new(memory(medium.clone(), left, torn));
            let result = storage.initialize();
            assert_eq!(result.is_ok(), left >= 3);
            let found = blocks_after_restart(storage.backend().bytes.clone());
            assert!(found == expected);
        }
    }
}

#[test]
fn interrupted_reset_of_a_damaged_header_finds_the_same_blocks() {
    let mut medium = formatted_medium();
    let expected = blocks_after_restart(medium.clone());
    medium[0] = 0xA5;
    medium[13] ^= 0xFF;

    for left in 0..6 {
        for torn in [0usize, 1, 2, 3] {
            let mut storage = MetadataJournalStorage::new(memory(medium.clone(), left, torn));
            let _ = storage.initialize();
            let found = blocks_after_restart(storage.backend().bytes.clone());
            assert!(found == expected);
        }
    }
}

#[test]
fn second_initialization_writes_nothing() {
    let mut backend = RamBackend::new(24);
    backend.set_physical_block(0, [0xFFu8; BLOCK_SIZE]);
    let mut storage = MetadataJournalStorage::new(backend);
    storage.initialize().expect("first init");
    let seen = storage.backend().operations().len();
    storage.initialize().expect("second init");
    let ops = &storage.backend().operations()[seen..];
    assert!(!ops.is_empty());
    assert!(ops.iter().all(|op| matches!(
        op,
        BackendOp::ReadBytes { .. } | BackendOp::ReadPhysicalBlock { .. }
    )));
}

#[test]
fn completed_protected_write_survives_a_restart() {
    let medium = formatted_medium();
    let mut storage = MetadataJournalStorage::new(lasting(medium));
    storage.initialize().expect("initialize failed");
    storage
        .write_block(3, &[0x61u8; BLOCK_SIZE])
        .expect("write failed");
    let bytes = storage.backend().bytes.clone();
    assert_eq!(bytes[0], 0x00);
    assert_eq!(crc32(&bytes[..12]).to_le_bytes(), bytes[12..16]);
    let found = blocks_after_restart(bytes);
    assert!(found[3] == [0x61u8; BLOCK_SIZE]);
    assert!(found[4] == [4u8; BLOCK_SIZE]);
}

#[test]
fn unprotected_write_is_one_write_and_keeps_the_header() {
    let medium = formatted_medium();
    let header = medium[..2 * BLOCK_SIZE].to_vec();
    let mut storage = MetadataJournalStorage::new(memory(medium, 1, 0));
    storage.initialize().expect("initialize failed");
    storage
        .write_block(20, &[0x5Eu8; BLOCK_SIZE])
        .expect("write failed");
    assert_eq!(storage.backend().left, 0);
    assert!(storage.backend().bytes[..2 * BLOCK_SIZE] == header[..]);
}

#[test]
fn replay_outside_the_protected_blocks_is_dropped() {
    let shadow = [0x9Bu8; BLOCK_SIZE];
    let found = blocks_after_restart(pending_medium(20, shadow));
    assert!(found[20] == [20u8; BLOCK_SIZE]);
}

#[test]
fn a_failed_write_is_finished_by_the_next_one() {
    let mut backend = RamBackend::new(PHYSICAL_BLOCKS);
    ensure_mass_storage_volume_for_total_blocks_at_offset(
        &mut backend,
        LOGICAL_BLOCKS,
        JOURNAL_RESERVED_BLOCKS,
    )
    .expect("format failed");
    backend.inject_write_block_error_at(JOURNAL_RESERVED_BLOCKS + 4, StorageError::MediumError);
    // The error is lined up behind the formatting, for the next write of that block.
    let mut storage = MetadataJournalStorage::new(backend);
    storage.initialize().expect("initialize failed");
    assert_eq!(
        storage.write_block(4, &[0x44u8; BLOCK_SIZE]),
        Err(StorageError::MediumError)
    );
    assert_eq!(storage.backend().bytes_at(0, 1), vec![0xA5]);
    storage
        .write_block(6, &[0x66u8; BLOCK_SIZE])
        .expect("write failed");
    let mut block = [0u8; BLOCK_SIZE];
    storage.read_block(4, &mut block).expect("read failed");
    assert!(block == [0x44u8; BLOCK_SIZE]);
    storage.read_block(6, &mut block).expect("read failed");
    assert!(block == [0x66u8; BLOCK_SIZE]);
}

#[test]
fn blocks_behind_the_last_are_refused() {
    let mut storage = MetadataJournalStorage::new(RamBackend::new(12));
    storage.initialize().expect("initialize failed");
    assert_eq!(storage.block_count(), 10);
    assert!(storage.is_ready());
    assert!(!storage.is_write_protected());
    let mut block = [0u8; BLOCK_SIZE];
    assert_eq!(
        storage.read_block(10, &mut block),
        Err(StorageError::MediumError)
    );
    assert_eq!(
        storage.write_block(10, &block),
        Err(StorageError::MediumError)
    );
}

#[test]
fn crc32_has_the_usual_check_value() {
    assert_eq!(crc32(b"123456789"), 0xCBF4_3926);
    assert_eq!(crc32(b""), 0);
}

#[test]
fn the_same_blocks_are_protected_after_power_was_lost() {
    let medium = formatted_medium();
    for left in 0..11 {
        let mut storage = MetadataJournalStorage::new(memory(medium.clone(), left, 0));
        storage.initialize().expect("a clean journal is not written");
        let _ = storage.write_block(9, &[0x99u8; BLOCK_SIZE]);

        let mut restarted = MetadataJournalStorage::new(lasting(storage.backend().bytes.clone()));
        restarted.initialize().expect("restart failed");
        for lba in 2..24u32 {
            let shadow = restarted.backend().bytes[BLOCK_SIZE..2 * BLOCK_SIZE].to_vec();
            let block = [0xA0u8 + lba as u8; BLOCK_SIZE];
            restarted.write_block(lba, &block).expect("write failed");
            let journaled = restarted.backend().bytes[BLOCK_SIZE..2 * BLOCK_SIZE] != shadow[..];
            assert_eq!(journaled, lba < 18);
        }
    }
}

#[test]
fn a_refused_read_leaves_the_buffer() {
    let mut block = [0x6Au8; BLOCK_SIZE];
    let mut storage = MetadataJournalStorage::new(RamBackend::new(12));
    assert_eq!(
        storage.read_block(0, &mut block),
        Err(StorageError::NotReady)
    );
    assert!(block == [0x6Au8; BLOCK_SIZE]);
    storage.initialize().expect("initialize failed");
    assert_eq!(
        storage.read_block(10, &mut block),
        Err(StorageError::MediumError)
    );
    assert!(block == [0x6Au8; BLOCK_SIZE]);
}

/// A backend that holds a formatted volume and has recorded nothing yet.
fn formatted_backend() -> RamBackend {
    let mut backend = RamBackend::new(PHYSICAL_BLOCKS);
    ensure_mass_storage_volume_for_total_blocks_at_offset(
        &mut backend,
        LOGICAL_BLOCKS,
        JOURNAL_RESERVED_BLOCKS,
    )
    .expect("format failed");
    backend.clear_operations();
    backend
}

fn bytes_write(address: usize, data: &[u8]) -> BackendOp {
    BackendOp::WriteBytes {
        address,
        data: data.to_vec(),
    }
}

fn block_write(block_index: u32, data: &[u8; BLOCK_SIZE]) -> BackendOp {
    BackendOp::WritePhysicalBlock {
        block_index,
        data: data.to_vec(),
    }
}

#[test]
fn initialization_asks_for_nothing_more_than_it_needs() {
    let mut storage = MetadataJournalStorage::new(formatted_backend());
    storage.initialize().expect("initialize failed");
    let header = storage.backend().bytes_at(0, 16);
    assert_eq!(
        storage.backend().operations(),
        &[
            BackendOp::ReadBytes { address: 0, len: 16 },
            bytes_write(0, &[0x00]),
            bytes_write(1, b"JNL"),
            bytes_write(4, &[0; 4]),
            bytes_write(8, &[0; 4]),
            bytes_write(12, &crc32(&header[..12]).to_le_bytes()),
            BackendOp::ReadPhysicalBlock { block_index: 2 },
            BackendOp::ReadPhysicalBlock { block_index: 3 },
            BackendOp::ReadBytes { address: 0, len: 16 },
        ]
    );
}

#[test]
fn unprotected_write_is_one_access() {
    let mut storage = MetadataJournalStorage::new(formatted_backend());
    storage.initialize().expect("initialize failed");
    let data = [0x5Eu8; BLOCK_SIZE];
    let seen = storage.backend().operations().len();
    storage.write_block(20, &data).expect("write failed");
    assert_eq!(
        storage.backend().operations()[seen..],
        [block_write(JOURNAL_RESERVED_BLOCKS + 20, &data)]
    );
}

#[test]
fn failing_unprotected_write_is_one_access_too() {
    let mut backend = formatted_backend();
    backend.inject_write_block_error_at(JOURNAL_RESERVED_BLOCKS + 20, StorageError::HardwareError);
    let mut storage = MetadataJournalStorage::new(backend);
    storage.initialize().expect("initialize failed");
    let data = [0x5Eu8; BLOCK_SIZE];
    let seen = storage.backend().operations().len();
    assert_eq!(
        storage.write_block(20, &data),
        Err(StorageError::HardwareError)
    );
    assert_eq!(
        storage.backend().operations()[seen..],
        [block_write(JOURNAL_RESERVED_BLOCKS + 20, &data)]
    );
}

#[test]
fn protected_write_asks_for_the_header_and_ten_writes() {
    let mut storage = MetadataJournalStorage::new(formatted_backend());
    storage.initialize().expect("initialize failed");
    let data = [0x71u8; BLOCK_SIZE];
    let seen = storage.backend().operations().len();
    storage.write_block(4, &data).expect("write failed");
    let lba = 4u32.to_le_bytes();
    let shadow_crc = crc32(&data).to_le_bytes();
    let header_crc = |state: u8| {
        let mut header = storage.backend().bytes_at(0, 12);
        header[0] = state;
        crc32(&header).to_le_bytes()
    };
    assert_eq!(
        storage.backend().operations()[seen..],
        [
            BackendOp::ReadBytes { address: 0, len: 16 },
            bytes_write(0, &[0x00]),
            bytes_write(4, &lba),
            bytes_write(8, &shadow_crc),
            bytes_write(12, &header_crc(0x00)),
            block_write(1, &data),
            bytes_write(12, &header_crc(0xA5)),
            bytes_write(0, &[0xA5]),
            block_write(JOURNAL_RESERVED_BLOCKS + 4, &data),
            bytes_write(0, &[0x00]),
            bytes_write(12, &header_crc(0x00)),
        ]
    );
}

#[test]
fn the_commit_marker_decides_which_block_a_restart_finds() {
    let medium = formatted_medium();
    let before = blocks_after_restart(medium.clone());
    let mut after = before.clone();
    after[9] = [0xE3u8; BLOCK_SIZE];

    // The marker is the seventh write.
    for left in 0..10 {
        for torn in [0usize, 1, 2, 300, 512] {
            let mut storage = MetadataJournalStorage::new(memory(medium.clone(), left, torn));
            storage.initialize().expect("a clean journal is not written");
            assert!(storage.write_block(9, &[0xE3u8; BLOCK_SIZE]).is_err());
            let found = blocks_after_restart(storage.backend().bytes.clone());
            let made = left > 6 || (left == 6 && torn > 0);
            assert!(found == if made { after.clone() } else { before.clone() });
        }
    }
}

#[test]
fn record_holds_the_accesses_since_it_was_cleared() {
    let mut backend = RamBackend::new(12);
    backend.inject_read_block_error_at(3, StorageError::HardwareError);
    let mut block = [0u8; BLOCK_SIZE];
    assert_eq!(
        backend.read_physical_block(3, &mut block),
        Err(StorageError::HardwareError)
    );
    assert_eq!(backend.write_bytes(7, &[1, 2]), Ok(()));
    assert_eq!(
        backend.operations(),
        &[
            BackendOp::ReadPhysicalBlock { block_index: 3 },
            bytes_write(7, &[1, 2]),
        ]
    );
    backend.clear_operations();
    assert!(backend.operations().is_empty());
    assert_eq!(backend.read_physical_block(3, &mut block), Ok(()));
    assert_eq!(
        backend.operations(),
        &[BackendOp::ReadPhysicalBlock { block_index: 3 }]
    );
}
