use std::collections::VecDeque;

use feramdisk_firmware::backend::hardware::open_storage;
use feramdisk_firmware::backend::simulated::{
    execute_command, init_storage, Cbw, CommandOutcome, MockEndpoint, RamBackend, RamStorage, SenseData,
    StallAfterCsw, StorageError, BLOCK_SIZE, CSW_STATUS_FAILED, CSW_STATUS_PASSED,
    CSW_STATUS_PHASE_ERROR, SCSI_INQUIRY, SCSI_MODE_SENSE_10, SCSI_MODE_SENSE_6, SCSI_READ_10,
    SCSI_READ_CAPACITY_10, SCSI_READ_FORMAT_CAPACITIES, SCSI_REQUEST_SENSE, SCSI_TEST_UNIT_READY,
    SCSI_WRITE_10,
};
use feramdisk_firmware::storage::BlockStorage;
use feramdisk_firmware::usb::block_reader::TransferError;
use feramdisk_firmware::usb::block_writer::{write_blocks, WriteTransfer};
use feramdisk_firmware::usb::bot::{read_cbw, Csw, DataEndpoint, EndpointError};
use feramdisk_firmware::usb::commands::block_range_valid;

struct Bench {
    storage: RamStorage,
    out_ep: MockEndpoint,
    in_ep: MockEndpoint,
    sense: SenseData,
    prevent: bool,
}

impl Bench {
    fn new(blocks: u32) -> Self {
        Bench {
            storage: RamStorage::new(blocks),
            out_ep: MockEndpoint::new(),
            in_ep: MockEndpoint::new(),
            sense: SenseData::good(),
            prevent: false,
        }
    }

    fn run(&mut self, cbw: Cbw) -> Result<CommandOutcome, EndpointError> {
        execute_command(
            &mut self.storage,
            &mut self.out_ep,
            &mut self.in_ep,
            &mut self.sense,
            &mut self.prevent,
            cbw,
        )
    }

    fn sent(&mut self) -> Vec<u8> {
        self.in_ep.take_writes().into_iter().flatten().collect()
    }
}

fn cbw(opcode: u8, expected: u32, flags: u8, fields: &[(usize, u8)]) -> Cbw {
    let mut command = [0u8; 16];
    command[0] = opcode;
    for (at, value) in fields {
        command[*at] = *value;
    }
    Cbw::new(0x0BAD_CAFE, expected, flags, 0, 10, command)
}

fn transfer_cbw(opcode: u8, lba: u32, blocks: u16, expected: u32) -> Cbw {
    let flags = if opcode == SCSI_READ_10 { 0x80 } else { 0x00 };
    let l = lba.to_be_bytes();
    let b = blocks.to_be_bytes();
    cbw(
        opcode,
        expected,
        flags,
        &[(2, l[0]), (3, l[1]), (4, l[2]), (5, l[3]), (7, b[0]), (8, b[1])],
    )
}

#[test]
fn host_reads_back_what_it_wrote() {
    let mut bench = Bench::new(16);
    let data: Vec<u8> = (0..3 * BLOCK_SIZE).map(|i| (i % 251) as u8).collect();
    for packet in data.chunks(64) {
        bench.out_ep.queue_read_packet(packet.to_vec());
    }
    let written = bench
        .run(transfer_cbw(SCSI_WRITE_10, 5, 3, data.len() as u32))
        .expect("endpoint error");
    assert_eq!(
        written.csw,
        Csw { tag: 0x0BAD_CAFE, residue: 0, status: CSW_STATUS_PASSED }
    );
    let read = bench
        .run(transfer_cbw(SCSI_READ_10, 5, 3, data.len() as u32))
        .expect("endpoint error");
    assert_eq!(read.csw.residue, 0);
    assert_eq!(bench.sent(), data);
    assert_eq!(bench.storage.block(4), [0u8; BLOCK_SIZE]);
    assert_eq!(bench.storage.block(8), [0u8; BLOCK_SIZE]);
}

#[test]
fn write_passes_only_where_the_lengths_agree() {
    for (announced, sent, blocks, passes) in [
        (512usize, 512usize, 1u16, true),
        (512, 512, 2, false),
        (1024, 1024, 1, false),
        (512, 448, 1, false),
        (512, 576, 1, true),
        (500, 512, 1, false),
        (0, 0, 0, true),
        (0, 0, 1, false),
    ] {
        let mut bench = Bench::new(8);
        for packet in vec![0x5Fu8; sent].chunks(64) {
            bench.out_ep.queue_read_packet(packet.to_vec());
        }
        let outcome = bench
            .run(transfer_cbw(SCSI_WRITE_10, 0, blocks, announced as u32))
            .expect("endpoint error");
        assert_eq!(outcome.csw.status == CSW_STATUS_PASSED, passes);
        assert_eq!(bench.sense == SenseData::good(), passes);
    }
}

#[test]
fn residue_and_moved_bytes_make_up_the_expected() {
    let mut bench = Bench::new(8);
    let outcome = bench
        .run(transfer_cbw(SCSI_READ_10, 0, 1, 700))
        .expect("endpoint error");
    assert_eq!(outcome.csw.residue, 700 - 512);
    let outcome = bench
        .run(transfer_cbw(SCSI_READ_10, 0, 2, 700))
        .expect("endpoint error");
    assert_eq!(outcome.csw.residue, 0);
    let outcome = bench
        .run(cbw(SCSI_INQUIRY, 36, 0x80, &[(4, 5)]))
        .expect("endpoint error");
    assert_eq!(outcome.csw.residue, 31);
}

#[test]
fn data_the_wrong_way_is_a_phase_error() {
    for packet in [
        cbw(SCSI_TEST_UNIT_READY, 4, 0x00, &[]),
        cbw(SCSI_TEST_UNIT_READY, 4, 0x80, &[]),
        cbw(SCSI_INQUIRY, 36, 0x00, &[(4, 36)]),
        transfer_cbw(SCSI_WRITE_10, 0, 1, 512),
    ] {
        let mut bench = Bench::new(8);
        let mut packet = packet;
        if packet.opcode() == SCSI_WRITE_10 {
            packet.flags = 0x80;
        }
        let outcome = bench.run(packet).expect("endpoint error");
        assert_eq!(outcome.csw.status, CSW_STATUS_PHASE_ERROR);
        assert_eq!(outcome.csw.residue, packet.data_transfer_length);
        assert_eq!(outcome.stall_after_csw, StallAfterCsw::Both);
        assert_eq!(bench.sense, SenseData::good());
        assert!(bench.sent().is_empty());
    }
}

#[test]
fn failed_commands_stall_the_waiting_endpoint() {
    let mut bench = Bench::new(4);
    let read = bench
        .run(transfer_cbw(SCSI_READ_10, 9, 1, 512))
        .expect("endpoint error");
    assert_eq!(read.stall_after_csw, StallAfterCsw::In);
    let write = bench
        .run(transfer_cbw(SCSI_WRITE_10, 9, 1, 512))
        .expect("endpoint error");
    assert_eq!(write.stall_after_csw, StallAfterCsw::Out);
    let none = bench.run(cbw(0xEE, 0, 0x00, &[])).expect("endpoint error");
    assert_eq!(none.csw.status, CSW_STATUS_FAILED);
    assert_eq!(none.stall_after_csw, StallAfterCsw::NoStall);
    assert_eq!(none.stall_before_csw, StallAfterCsw::NoStall);
}

#[test]
fn capacities_are_answered() {
    let mut bench = Bench::new(0x0102);
    bench
        .run(cbw(SCSI_READ_CAPACITY_10, 8, 0x80, &[]))
        .expect("endpoint error");
    assert_eq!(bench.sent(), vec![0, 0, 1, 1, 0, 0, 2, 0]);
    bench
        .run(cbw(SCSI_READ_FORMAT_CAPACITIES, 12, 0x80, &[(8, 12)]))
        .expect("endpoint error");
    assert_eq!(bench.sent(), vec![0, 0, 0, 8, 0, 0, 1, 2, 2, 0, 2, 0]);
    let mut empty = Bench::new(0);
    empty
        .run(cbw(SCSI_READ_CAPACITY_10, 8, 0x80, &[]))
        .expect("endpoint error");
    assert_eq!(empty.sent(), vec![0, 0, 0, 0, 0, 0, 2, 0]);
}

#[test]
fn mode_pages_are_answered() {
    let mut page = vec![0x08, 0x12, 0x01];
    page.resize(20, 0);
    let mut bench = Bench::new(4);
    bench
        .run(cbw(SCSI_MODE_SENSE_6, 24, 0x80, &[(2, 0x3F), (4, 24)]))
        .expect("endpoint error");
    assert_eq!(bench.sent(), [vec![23, 0, 0, 0], page.clone()].concat());
    bench.storage.set_write_protected(true);
    bench
        .run(cbw(SCSI_MODE_SENSE_10, 28, 0x80, &[(2, 0x08), (8, 28)]))
        .expect("endpoint error");
    assert_eq!(
        bench.sent(),
        [vec![0, 26, 0, 0x80, 0, 0, 0, 0], page].concat()
    );
    let changeable = bench
        .run(cbw(SCSI_MODE_SENSE_6, 24, 0x80, &[(2, 0x48), (4, 24)]))
        .expect("endpoint error");
    assert_eq!(changeable.csw.status, CSW_STATUS_FAILED);
}

#[test]
fn inquiry_is_the_whole_table() {
    let mut bench = Bench::new(4);
    bench
        .run(cbw(SCSI_INQUIRY, 64, 0x80, &[(4, 64)]))
        .expect("endpoint error");
    let mut expected = vec![0x00, 0x80, 0x06, 0x02, 31, 0, 0, 0];
    expected.extend_from_slice(b"FeRam   FeRamDisk       1.00");
    assert_eq!(bench.sent(), expected);
}

#[test]
fn sense_data_has_the_fixed_format() {
    assert_eq!(
        SenseData::good().to_response(),
        [0x70, 0, 0, 0, 0, 0, 0, 10, 0, 0, 0, 0, 0, 0, 0, 0, 0, 0]
    );
    assert_eq!(
        SenseData::lba_out_of_range(0x0102_0304).to_response(),
        [0xF0, 0, 5, 1, 2, 3, 4, 10, 0, 0, 0, 0, 0x21, 0, 0, 0, 0, 0]
    );
    assert_eq!(
        SenseData::transfer_length_mismatch(0x20, 7).to_response(),
        [0xF0, 0, 0x25, 0, 0, 0, 0x20, 10, 0, 0, 0, 0, 0x24, 0, 0, 0xC0, 0, 7]
    );
    assert_eq!(SenseData::default(), SenseData::good());
}

#[test]
fn storage_errors_have_their_sense() {
    for (error, is_write, key, asc, ascq) in [
        (StorageError::NotReady, false, 2u8, 0x04u8, 0x02u8),
        (StorageError::MediumError, false, 3, 0x11, 0),
        (StorageError::MediumError, true, 3, 0x0C, 0),
        (StorageError::WriteProtect, true, 7, 0x27, 0),
        (StorageError::HardwareError, false, 4, 0x44, 0),
    ] {
        let response = SenseData::from_storage_error(error, is_write).to_response();
        assert_eq!(response[2], key);
        assert_eq!(response[12], asc);
        assert_eq!(response[13], ascq);
        assert_eq!(response[0], 0x70);
    }
}

#[test]
fn unit_that_is_not_ready_refuses_media_commands() {
    let mut bench = Bench::new(4);
    bench.storage.set_ready(false);
    for packet in [
        transfer_cbw(SCSI_READ_10, 0, 1, 512),
        transfer_cbw(SCSI_WRITE_10, 0, 1, 512),
        cbw(SCSI_TEST_UNIT_READY, 0, 0x00, &[]),
    ] {
        let outcome = bench.run(packet).expect("endpoint error");
        assert_eq!(outcome.csw.status, CSW_STATUS_FAILED);
        assert_eq!(bench.sense, SenseData::not_ready_initializing());
    }
}

#[test]
fn sense_stays_where_it_could_not_be_sent() {
    let mut bench = Bench::new(4);
    bench.run(cbw(0xEE, 0, 0x00, &[])).expect("endpoint error");
    let latched = bench.sense;
    assert_ne!(latched, SenseData::good());
    bench.in_ep.set_fail_next_write(EndpointError::Disabled);
    let request = cbw(SCSI_REQUEST_SENSE, 18, 0x80, &[(4, 18)]);
    assert_eq!(bench.run(request), Err(EndpointError::Disabled));
    assert_eq!(bench.sense, latched);
    bench.run(request).expect("endpoint error");
    assert_eq!(bench.sense, SenseData::good());
    assert_eq!(bench.sent(), latched.to_response().to_vec());
}

#[test]
fn endpoint_errors_end_a_data_phase() {
    let mut bench = Bench::new(4);
    bench.in_ep.set_fail_next_write(EndpointError::Disabled);
    assert_eq!(
        bench.run(transfer_cbw(SCSI_READ_10, 0, 1, 512)),
        Err(EndpointError::Disabled)
    );
    bench.out_ep.queue_read_packet(vec![1; 65]);
    assert_eq!(
        bench.run(transfer_cbw(SCSI_WRITE_10, 0, 1, 512)),
        Err(EndpointError::BufferOverflow)
    );
}

#[test]
fn blocks_before_a_failing_one_are_written() {
    let mut bench = Bench::new(8);
    bench
        .storage
        .inject_write_error_at(3, StorageError::MediumError);
    for _ in 0..24 {
        bench.out_ep.queue_read_packet(vec![0x7Du8; 64]);
    }
    let outcome = bench
        .run(transfer_cbw(SCSI_WRITE_10, 2, 3, 1536))
        .expect("endpoint error");
    assert_eq!(outcome.csw.status, CSW_STATUS_FAILED);
    assert_eq!(outcome.csw.residue, 1536);
    assert_eq!(bench.storage.block(2), [0x7Du8; BLOCK_SIZE]);
    assert_eq!(bench.storage.block(3), [0u8; BLOCK_SIZE]);
    assert_eq!(bench.storage.block(4), [0u8; BLOCK_SIZE]);
}

fn transfer(packets: &[usize], blocks: u16, expected: u32) -> (WriteTransfer, MockEndpoint) {
    let mut storage = RamStorage::new(8);
    let mut out_ep = MockEndpoint::new();
    for len in packets {
        out_ep.queue_read_packet(vec![0x11; *len]);
    }
    let result = write_blocks(&mut storage, &mut out_ep, 0, blocks, expected);
    (result.expect("transfer failed"), out_ep)
}

#[test]
fn data_phase_ends_at_a_short_packet() {
    let (short, _) = transfer(&[64, 0, 64, 10, 64], 1, 512);
    assert_eq!(
        short,
        WriteTransfer {
            written_bytes: 0,
            consumed_bytes: 138,
            short_packet: true,
            packet_overflow: false
        }
    );
}

#[test]
fn data_phase_that_brings_too_much_is_drained() {
    let (overflow, mut out_ep) = transfer(&[64, 64, 64, 0, 64, 8, 64], 1, 150);
    assert_eq!(
        overflow,
        WriteTransfer {
            written_bytes: 0,
            consumed_bytes: 150,
            short_packet: false,
            packet_overflow: true
        }
    );
    let mut storage = RamStorage::new(8);
    let rest = write_blocks(&mut storage, &mut out_ep, 0, 1, 64).expect("transfer failed");
    assert_eq!(rest.consumed_bytes, 64);
}

#[test]
fn draining_gives_up_after_128_packets() {
    let mut packets = vec![64usize; 131];
    packets.push(9);
    let (overflow, mut out_ep) = transfer(&packets, 1, 10);
    assert!(overflow.packet_overflow);
    // One packet brought the data, 128 were thrown away: two full ones and the short one are left.
    let mut storage = RamStorage::new(8);
    let rest = write_blocks(&mut storage, &mut out_ep, 0, 1, 512).expect("transfer failed");
    assert_eq!(rest.consumed_bytes, 64 + 64 + 9);
}

#[test]
fn nothing_announced_is_nothing_read() {
    let (nothing, _) = transfer(&[64], 1, 0);
    assert_eq!(
        nothing,
        WriteTransfer {
            written_bytes: 0,
            consumed_bytes: 0,
            short_packet: false,
            packet_overflow: false
        }
    );
}

#[test]
fn storage_and_endpoint_errors_are_told_apart() {
    let mut storage = RamStorage::new(8);
    storage.inject_next_write_error(StorageError::HardwareError);
    let mut out_ep = MockEndpoint::new();
    for _ in 0..8 {
        out_ep.queue_read_packet(vec![0; 64]);
    }
    assert_eq!(
        write_blocks(&mut storage, &mut out_ep, 0, 1, 512),
        Err(TransferError::Storage(StorageError::HardwareError))
    );
    out_ep.set_fail_next_read(EndpointError::Disabled);
    assert_eq!(
        write_blocks(&mut storage, &mut out_ep, 0, 1, 512),
        Err(TransferError::Endpoint(EndpointError::Disabled))
    );
}

#[test]
fn block_ranges_are_checked_without_overflow() {
    assert!(block_range_valid(8, 7, 1));
    assert!(!block_range_valid(8, 7, 2));
    assert!(!block_range_valid(8, u32::MAX, 1));
    assert!(block_range_valid(8, u32::MAX, 0));
}

#[test]
fn simulated_disk_has_256_blocks() {
    let mut storage = init_storage();
    assert_eq!(storage.block_count(), 256);
    storage.inject_next_read_error(StorageError::HardwareError);
    let mut block = [1u8; BLOCK_SIZE];
    assert_eq!(
        storage.read_block(0, &mut block),
        Err(StorageError::HardwareError)
    );
    assert_eq!(storage.read_block(0, &mut block), Ok(()));
    assert_eq!(block, [0u8; BLOCK_SIZE]);
    assert_eq!(
        storage.read_block(256, &mut block),
        Err(StorageError::MediumError)
    );
    storage.set_ready(false);
    assert_eq!(
        storage.write_block(0, &block),
        Err(StorageError::NotReady)
    );
    storage.set_ready(true);
    storage.set_write_protected(true);
    assert_eq!(
        storage.write_block(256, &block),
        Err(StorageError::WriteProtect)
    );
}

#[test]
fn blocks_before_one_that_cannot_be_read_are_sent() {
    let mut bench = Bench::new(8);
    for lba in 0..8 {
        bench.storage.set_block(lba, [lba as u8; BLOCK_SIZE]);
    }
    bench
        .storage
        .inject_read_error_at(4, StorageError::MediumError);
    let outcome = bench
        .run(transfer_cbw(SCSI_READ_10, 2, 4, 2048))
        .expect("endpoint error");
    assert_eq!(outcome.csw.status, CSW_STATUS_FAILED);
    assert_eq!(outcome.csw.residue, 2048);
    assert_eq!(outcome.stall_after_csw, StallAfterCsw::In);
    let mut expected = vec![2u8; BLOCK_SIZE];
    expected.extend_from_slice(&[3u8; BLOCK_SIZE]);
    assert_eq!(bench.sent(), expected);
}

/// A bulk-OUT endpoint that keeps for how long each read was ready to wait.
struct WaitingEndpoint {
    packets: VecDeque<Vec<u8>>,
    waits: Vec<u64>,
}

impl WaitingEndpoint {
    fn holding(packets: &[usize]) -> Self {
        WaitingEndpoint {
            packets: packets.iter().map(|len| vec![0x2Cu8; *len]).collect(),
            waits: Vec::new(),
        }
    }
}

impl DataEndpoint for WaitingEndpoint {
    fn endpoint_read(
        &mut self,
        buf: &mut [u8],
        timeout_ms: u64,
    ) -> Result<Option<usize>, EndpointError> {
        self.waits.push(timeout_ms);
        match self.packets.pop_front() {
            Some(packet) => {
                buf[..packet.len()].copy_from_slice(&packet);
                Ok(Some(packet.len()))
            }
            None => Ok(None),
        }
    }

    fn endpoint_write(&mut self, _buf: &[u8]) -> Result<(), EndpointError> {
        Err(EndpointError::Disabled)
    }
}

fn waits(packets: &[usize], expected: u32) -> Vec<u64> {
    let mut storage = RamStorage::new(8);
    let mut out_ep = WaitingEndpoint::holding(packets);
    write_blocks(&mut storage, &mut out_ep, 0, 1, expected).expect("transfer failed");
    out_ep.waits
}

#[test]
fn data_is_awaited_longer_than_what_is_thrown_away() {
    assert_eq!(waits(&[64; 8], 512), vec![1500; 8]);
    assert_eq!(waits(&[64, 10], 512), vec![1500, 1500]);
    assert_eq!(waits(&[64, 64], 512), vec![1500, 1500, 1500]);
    assert_eq!(waits(&[64, 64, 64, 5], 100), vec![1500, 1500, 20, 20]);
    assert_eq!(waits(&[64, 64], 100), vec![1500, 1500, 20]);
    assert_eq!(waits(&[64], 0), Vec::<u64>::new());
}

#[test]
fn wrapper_is_awaited_once() {
    let mut out_ep = WaitingEndpoint::holding(&[31]);
    assert!(matches!(read_cbw(&mut out_ep), Ok(Some(_))));
    assert_eq!(out_ep.waits, vec![1500]);
    assert!(matches!(read_cbw(&mut out_ep), Ok(None)));
    assert_eq!(out_ep.waits, vec![1500, 1500]);
}

#[test]
fn unfinished_block_is_made_up_for_by_the_next_transfer() {
    let (mut storage, _) = open_storage(RamBackend::new(64)).expect("open failed");
    let mut backend = RamBackend::new(64);
    for block in 0..64 {
        backend.set_physical_block(block, storage.backend().physical_block(block));
    }
    backend.inject_write_block_error_at(2 + 4, StorageError::MediumError);
    (storage, _) = open_storage(backend).expect("open failed");

    let mut write = |lba: u32, value: u8, blocks: u16| {
        let mut out_ep = MockEndpoint::new();
        for _ in 0..8 * blocks {
            out_ep.queue_read_packet(vec![value; 64]);
        }
        write_blocks(&mut storage, &mut out_ep, lba, blocks, 512 * blocks as u32)
    };
    // The target block fails once the write is committed, which leaves it to be made up for.
    assert_eq!(
        write(4, 0x44, 1),
        Err(TransferError::Storage(StorageError::MediumError))
    );
    let second = write(5, 0x55, 2).expect("transfer failed");
    assert_eq!(second.written_bytes, 1024);

    for (lba, value) in [(3u32, 0x00u8), (4, 0x44), (5, 0x55), (6, 0x55), (7, 0x00)] {
        let mut block = [0u8; BLOCK_SIZE];
        storage.read_block(lba, &mut block).expect("read failed");
        assert_eq!(block, [value; BLOCK_SIZE]);
    }
}
