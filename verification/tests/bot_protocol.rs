use std::collections::VecDeque;

use feramdisk_firmware::backend::simulated::RamStorage;
use feramdisk_firmware::usb::bot::{BotControl, DataEndpoint, EndpointError};
use feramdisk_firmware::usb::session::{BotSession, BotState, SessionStep};

/// A bulk-OUT endpoint that counts its reads, and marks the one at which a reset comes.
struct BotOutEndpoint {
    packets: VecDeque<Vec<u8>>,
    read_count: usize,
    reset_at: Option<usize>,
    reset_due: bool,
}

impl BotOutEndpoint {
    fn signal_reset_on_read(&mut self, trigger_read_count: usize) {
        self.reset_at = Some(trigger_read_count);
    }
}

impl DataEndpoint for BotOutEndpoint {
    fn endpoint_read(
        &mut self,
        buf: &mut [u8],
        _timeout_ms: u64,
    ) -> Result<Option<usize>, EndpointError> {
        self.read_count += 1;
        if let Some(trigger) = self.reset_at {
            if self.read_count >= trigger {
                self.reset_due = true;
                self.reset_at = None;
            }
        }
        match self.packets.pop_front() {
            Some(packet) if packet.len() > buf.len() => Err(EndpointError::BufferOverflow),
            Some(packet) => {
                buf[..packet.len()].copy_from_slice(&packet);
                Ok(Some(packet.len()))
            }
            None => Ok(None),
        }
    }

    fn endpoint_write(&mut self, _buf: &[u8]) -> Result<(), EndpointError> {
        Err(EndpointError::BufferOverflow)
    }
}

/// A bulk-IN endpoint that keeps what it is sent.
struct BotInEndpoint {
    packets: Vec<Vec<u8>>,
}

impl DataEndpoint for BotInEndpoint {
    fn endpoint_read(
        &mut self,
        _buf: &mut [u8],
        _timeout_ms: u64,
    ) -> Result<Option<usize>, EndpointError> {
        Err(EndpointError::BufferOverflow)
    }

    fn endpoint_write(&mut self, buf: &[u8]) -> Result<(), EndpointError> {
        self.packets.push(buf.to_vec());
        Ok(())
    }
}

struct BotTestHarness {
    bot_control: BotControl,
    out_ep: BotOutEndpoint,
    in_ep: BotInEndpoint,
    storage: RamStorage,
}

impl BotTestHarness {
    fn new(block_count: u32) -> Self {
        Self {
            bot_control: BotControl::new(),
            out_ep: BotOutEndpoint {
                packets: VecDeque::new(),
                read_count: 0,
                reset_at: None,
                reset_due: false,
            },
            in_ep: BotInEndpoint { packets: Vec::new() },
            storage: RamStorage::new(block_count),
        }
    }

    fn queue_out_packet(&mut self, packet: Vec<u8>) {
        self.out_ep.packets.push_back(packet);
    }

    /// Runs a session until it waits for a command that does not come.
    fn run(&mut self) {
        let mut session = BotSession::new();
        for _ in 0..64 {
            let idle = matches!(session.state, BotState::WaitingForCbw)
                && self.out_ep.packets.is_empty()
                && self.bot_control.msc_events == 0;
            let step = session.step(
                &mut self.storage,
                &mut self.out_ep,
                &mut self.in_ep,
                &mut self.bot_control,
            );
            assert_eq!(step, SessionStep::Continue);
            if self.out_ep.reset_due {
                self.out_ep.reset_due = false;
                self.bot_control.signal_bulk_reset();
            } else if idle {
                return;
            }
        }
        panic!("the session did not come to rest");
    }

    fn in_packets(&self) -> Vec<Vec<u8>> {
        self.in_ep.packets.clone()
    }

    fn take_bus_actions(&mut self) -> u8 {
        self.bot_control.take_bus_actions()
    }
}

const CBW_SIGNATURE: u32 = 0x4342_5355;
const CSW_SIGNATURE: u32 = 0x5342_5355;
const CSW_STATUS_PASSED: u8 = 0;
const CSW_STATUS_PHASE_ERROR: u8 = 2;
const BOT_ACTION_STALL_IN: u8 = 1 << 0;
const BOT_ACTION_STALL_OUT: u8 = 1 << 1;

fn build_cbw_packet(
    tag: u32,
    data_len: u32,
    flags: u8,
    lun: u8,
    command_len: u8,
    command: [u8; 16],
) -> Vec<u8> {
    let mut cbw = [0u8; 31];
    cbw[0..4].copy_from_slice(&CBW_SIGNATURE.to_le_bytes());
    cbw[4..8].copy_from_slice(&tag.to_le_bytes());
    cbw[8..12].copy_from_slice(&data_len.to_le_bytes());
    cbw[12] = flags;
    cbw[13] = lun;
    cbw[14] = command_len;
    cbw[15..31].copy_from_slice(&command);
    cbw.to_vec()
}

fn cbw_test_unit_ready(tag: u32) -> Vec<u8> {
    let mut cdb = [0u8; 16];
    cdb[0] = 0x00;
    build_cbw_packet(tag, 0, 0x00, 0, 6, cdb)
}

fn cbw_write_10(tag: u32, lba: u32, blocks: u16, expected_len: u32) -> Vec<u8> {
    let mut cdb = [0u8; 16];
    cdb[0] = 0x2A;
    cdb[2..6].copy_from_slice(&lba.to_be_bytes());
    cdb[7..9].copy_from_slice(&blocks.to_be_bytes());
    build_cbw_packet(tag, expected_len, 0x00, 0, 10, cdb)
}

fn cbw_read_10(tag: u32, lba: u32, blocks: u16, expected_len: u32) -> Vec<u8> {
    let mut cdb = [0u8; 16];
    cdb[0] = 0x28;
    cdb[2..6].copy_from_slice(&lba.to_be_bytes());
    cdb[7..9].copy_from_slice(&blocks.to_be_bytes());
    build_cbw_packet(tag, expected_len, 0x80, 0, 10, cdb)
}

fn parse_csw(packet: &[u8]) -> Option<(u32, u32, u8)> {
    if packet.len() != 13 {
        return None;
    }

    let signature = u32::from_le_bytes([packet[0], packet[1], packet[2], packet[3]]);
    if signature != CSW_SIGNATURE {
        return None;
    }

    let tag = u32::from_le_bytes([packet[4], packet[5], packet[6], packet[7]]);
    let residue = u32::from_le_bytes([packet[8], packet[9], packet[10], packet[11]]);
    let status = packet[12];
    Some((tag, residue, status))
}

fn collect_csws(harness: &BotTestHarness) -> Vec<(u32, u32, u8)> {
    harness
        .in_packets()
        .into_iter()
        .filter_map(|packet| parse_csw(&packet))
        .collect()
}

#[test]
// Verify a valid CBW command sequence produces a PASSED CSW.
fn bot_valid_cbw_produces_csw() {
    let mut harness = BotTestHarness::new(16);
    harness.queue_out_packet(cbw_test_unit_ready(0xA1A2_A3A4));

    harness.run();

    let csws = collect_csws(&harness);
    assert!(csws
        .iter()
        .any(|(tag, _, status)| *tag == 0xA1A2_A3A4 && *status == CSW_STATUS_PASSED));
}

#[test]
// Verify invalid CBW signature yields Phase Error CSW and stalls both bulk endpoints.
fn bot_invalid_cbw_signature_stalls_both_endpoints() {
    let mut harness = BotTestHarness::new(8);
    let mut bad = cbw_test_unit_ready(0x0102_0304);
    bad[0..4].copy_from_slice(&0xDEAD_BEEFu32.to_le_bytes());
    harness.queue_out_packet(bad);

    harness.run();

    let csws = collect_csws(&harness);
    assert!(csws
        .iter()
        .any(|(tag, _, status)| *tag == 0x0102_0304 && *status == CSW_STATUS_PHASE_ERROR));

    let actions = harness.take_bus_actions();
    assert_eq!(actions & (BOT_ACTION_STALL_IN | BOT_ACTION_STALL_OUT), BOT_ACTION_STALL_IN | BOT_ACTION_STALL_OUT);
}

#[test]
// Verify invalid CBW length yields Phase Error CSW and dual-endpoint stall request.
fn bot_invalid_cbw_length_stalls_both_endpoints() {
    let mut harness = BotTestHarness::new(8);
    let mut truncated = cbw_test_unit_ready(0x1111_2222);
    truncated.pop();
    harness.queue_out_packet(truncated);

    harness.run();

    let csws = collect_csws(&harness);
    assert!(csws
        .iter()
        .any(|(tag, _, status)| *tag == 0x1111_2222 && *status == CSW_STATUS_PHASE_ERROR));

    let actions = harness.take_bus_actions();
    assert_eq!(actions & (BOT_ACTION_STALL_IN | BOT_ACTION_STALL_OUT), BOT_ACTION_STALL_IN | BOT_ACTION_STALL_OUT);
}

#[test]
// Verify oversized CBW packets are accepted and extra bytes are ignored.
fn bot_oversized_cbw_is_accepted() {
    let mut harness = BotTestHarness::new(16);
    let mut oversized = cbw_test_unit_ready(0xABCD_0001);
    oversized.push(0xFF);
    harness.queue_out_packet(oversized);

    harness.run();

    let csws = collect_csws(&harness);
    assert!(csws.iter().any(|(tag, _, status)| *tag == 0xABCD_0001 && *status == CSW_STATUS_PASSED));
}

#[test]
// Verify invalid LUN in CBW yields Phase Error CSW and dual-endpoint stall request.
fn bot_invalid_lun_stalls_both_endpoints() {
    let mut harness = BotTestHarness::new(8);
    let mut cdb = [0u8; 16];
    cdb[0] = 0x00;
    harness.queue_out_packet(build_cbw_packet(0x2222_3333, 0, 0x00, 1, 6, cdb));

    harness.run();

    let csws = collect_csws(&harness);
    assert!(csws
        .iter()
        .any(|(tag, _, status)| *tag == 0x2222_3333 && *status == CSW_STATUS_PHASE_ERROR));

    let actions = harness.take_bus_actions();
    assert_eq!(actions & (BOT_ACTION_STALL_IN | BOT_ACTION_STALL_OUT), BOT_ACTION_STALL_IN | BOT_ACTION_STALL_OUT);
}

#[test]
// Verify a bulk reset injected during command execution resets BOT flow to wait for next CBW.
fn bot_bulk_reset_during_execution_recovers_to_next_command() {
    let mut harness = BotTestHarness::new(32);
    harness.queue_out_packet(cbw_write_10(0xAAAA_0001, 0, 1, 512));
    harness.queue_out_packet(vec![0x5A; 64]);

    // Inject reset deterministically during command execution:
    // CBW read is count=1, first WRITE(10) data packet read is count=2.
    harness.out_ep.signal_reset_on_read(2);

    harness.run();

    // First command should not emit CSW because reset is consumed before SendingCsw.
    let csws_after_reset = collect_csws(&harness);
    assert!(!csws_after_reset.iter().any(|(tag, _, _)| *tag == 0xAAAA_0001));

    // After reset, BOT returns to WaitingForCbw and processes the next command normally.
    harness.queue_out_packet(cbw_test_unit_ready(0xBBBB_0002));
    harness.run();

    let csws = collect_csws(&harness);
    assert!(csws
        .iter()
        .any(|(tag, _, status)| *tag == 0xBBBB_0002 && *status == CSW_STATUS_PASSED));
}

#[test]
// Verify command failure causes endpoint stall request according to BOT rules.
fn bot_command_failure_requests_stall() {
    let mut harness = BotTestHarness::new(4);
    harness.queue_out_packet(cbw_read_10(0x3333_4444, 99, 1, 512));

    harness.run();

    let actions = harness.take_bus_actions();
    assert_ne!(actions & BOT_ACTION_STALL_IN, 0);
}

#[test]
// Verify write failures request a bulk-OUT stall after the CSW.
fn bot_write_failure_requests_out_stall() {
    let mut harness = BotTestHarness::new(4);
    harness.storage.set_write_protected(true);
    harness.queue_out_packet(cbw_write_10(0x5555_6666, 0, 1, 512));
    harness.queue_out_packet(vec![0x00; 64]);

    harness.run();

    let actions = harness.take_bus_actions();
    assert_ne!(actions & BOT_ACTION_STALL_OUT, 0);
}
