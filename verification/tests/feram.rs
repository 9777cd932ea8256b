use feramdisk_firmware::drivers::feram::{
    check_range, finish, map_feram_error, ChipChunk, ChipCommand, ChipCursor, FeRam, FeRamError,
    CHIP_SIZE_BYTES, CMD_RDID, TOTAL_SIZE_BYTES,
};
use feramdisk_firmware::drivers::spi::FramSpiError;
use feramdisk_firmware::storage::StorageError;

type Error = FeRamError<u8, u8>;

fn chunks(address: usize, len: usize) -> Vec<ChipChunk> {
    let mut cursor = ChipCursor::new(address, len);
    let mut chunks = Vec::new();
    while let Some(chunk) = cursor.next_chunk() {
        chunks.push(chunk);
    }
    assert_eq!(cursor.next_chunk(), None);
    chunks
}

#[test]
fn memory_is_one_mebibyte() {
    let fram = FeRam::new(7u8);
    assert_eq!(fram.bus, 7);
    assert_eq!(fram.capacity_bytes(), 1024 * 1024);
    assert_eq!(fram.block_count(), 2048);
}

#[test]
fn range_on_one_chip_is_one_part() {
    assert_eq!(
        chunks(CHIP_SIZE_BYTES + 5, 512),
        vec![ChipChunk {
            chip: 1,
            address: 5,
            start: 0,
            len: 512
        }]
    );
    assert!(chunks(3, 0).is_empty());
}

#[test]
fn range_is_split_where_a_chip_ends() {
    assert_eq!(
        chunks(CHIP_SIZE_BYTES - 100, CHIP_SIZE_BYTES + 300),
        vec![
            ChipChunk {
                chip: 0,
                address: CHIP_SIZE_BYTES as u32 - 100,
                start: 0,
                len: 100
            },
            ChipChunk {
                chip: 1,
                address: 0,
                start: 100,
                len: CHIP_SIZE_BYTES
            },
            ChipChunk {
                chip: 2,
                address: 0,
                start: CHIP_SIZE_BYTES + 100,
                len: 200
            },
        ]
    );
    let last = chunks(TOTAL_SIZE_BYTES - 1, 1);
    assert_eq!(last[0].chip, 3);
    assert_eq!(last[0].address as usize, CHIP_SIZE_BYTES - 1);
}

#[test]
fn ranges_outside_the_memory_are_refused() {
    assert_eq!(check_range::<u8, u8>(0, TOTAL_SIZE_BYTES), Ok(()));
    assert_eq!(
        check_range::<u8, u8>(1, TOTAL_SIZE_BYTES),
        Err(Error::OutOfRange)
    );
    assert_eq!(
        check_range::<u8, u8>(usize::MAX, 2),
        Err(Error::OutOfRange)
    );
    assert_eq!(check_range::<u8, u8>(usize::MAX, 0), Ok(()));
}

#[test]
fn commands_carry_the_address() {
    assert_eq!(
        ChipCommand::read(0x2_3456).as_bytes(),
        &[0x03, 0x02, 0x34, 0x56]
    );
    assert_eq!(
        ChipCommand::fast_read(0x1_0203).as_bytes(),
        &[0x0B, 0x01, 0x02, 0x03, 0x00]
    );
    let [enable, write] = ChipCommand::write(0x3_FFFF);
    assert_eq!(enable.as_bytes(), &[0x06]);
    assert_eq!(write.as_bytes(), &[0x02, 0x03, 0xFF, 0xFF]);
    let [enable, write] = ChipCommand::write_status(0x8C);
    assert_eq!(enable.as_bytes(), &[0x06]);
    assert_eq!(write.as_bytes(), &[0x01, 0x8C]);
    assert_eq!(ChipCommand::plain(CMD_RDID).as_bytes(), &[0x9F]);
    // Bits above the chip's address lines are not sent.
    assert_eq!(
        ChipCommand::read(0x4_0001).as_bytes(),
        &[0x03, 0x00, 0x00, 0x01]
    );
}

#[test]
fn transfer_errors_come_first() {
    let spi_error = Error::Bus(FramSpiError::Spi(1));
    let cs_error = FramSpiError::Cs(2);
    assert_eq!(finish::<u16, u8, u8>(Ok(9), Ok(())), Ok(9));
    assert_eq!(
        finish::<u16, u8, u8>(Ok(9), Err(cs_error)),
        Err(Error::Bus(FramSpiError::Cs(2)))
    );
    assert_eq!(finish::<u16, u8, u8>(Err(spi_error), Ok(())), Err(spi_error));
    assert_eq!(
        finish::<u16, u8, u8>(Err(spi_error), Err(cs_error)),
        Err(spi_error)
    );
}

#[test]
fn memory_errors_become_storage_errors() {
    assert_eq!(
        map_feram_error(Error::OutOfRange),
        StorageError::MediumError
    );
    assert_eq!(
        map_feram_error(Error::Bus(FramSpiError::InvalidChip)),
        StorageError::HardwareError
    );
}
