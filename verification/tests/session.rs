use feramdisk_firmware::backend::simulated::{MockEndpoint, RamStorage, SenseData};
use feramdisk_firmware::storage::device::{BlockDevice, Storage};
use feramdisk_firmware::usb::bot::{read_cbw, BotControl, Cbw, Csw, EndpointError};
use feramdisk_firmware::usb::commands::StallAfterCsw;
use feramdisk_firmware::usb::session::{
    request_stall_after_csw, stall_mask, BotSession, BotState, SessionStep, StallAckWait,
};
use feramdisk_firmware::usb_msc::MscStack;

fn wrapper(tag: u32, opcode: u8) -> Vec<u8> {
    let mut packet = vec![0u8; 31];
    packet[..4].copy_from_slice(&0x4342_5355u32.to_le_bytes());
    packet[4..8].copy_from_slice(&tag.to_le_bytes());
    packet[14] = 6;
    packet[15] = opcode;
    packet
}

struct Line {
    session: BotSession,
    storage: RamStorage,
    out_ep: MockEndpoint,
    in_ep: MockEndpoint,
    control: BotControl,
}

impl Line {
    fn new() -> Self {
        Line {
            session: BotSession::new(),
            storage: RamStorage::new(4),
            out_ep: MockEndpoint::new(),
            in_ep: MockEndpoint::new(),
            control: BotControl::new(),
        }
    }

    fn step(&mut self) -> SessionStep {
        self.session.step(
            &mut self.storage,
            &mut self.out_ep,
            &mut self.in_ep,
            &mut self.control,
        )
    }
}

#[test]
fn one_command_is_three_steps() {
    let mut line = Line::new();
    line.out_ep.queue_read_packet(wrapper(7, 0x00));
    assert_eq!(line.step(), SessionStep::Continue);
    assert!(matches!(line.session.state, BotState::Executing(cbw) if cbw.tag == 7));
    assert_eq!(line.step(), SessionStep::Continue);
    assert!(matches!(line.session.state, BotState::SendingCsw { .. }));
    assert!(line.in_ep.writes().is_empty());
    assert_eq!(line.step(), SessionStep::Continue);
    assert!(matches!(line.session.state, BotState::WaitingForCbw));
    let expected = Csw { tag: 7, residue: 0, status: 0 }.to_bytes();
    assert_eq!(line.in_ep.writes(), &[expected.to_vec()]);
    assert_eq!(line.control, BotControl::new());
}

#[test]
fn status_wrapper_is_thirteen_bytes() {
    let csw = Csw { tag: 0x0403_0201, residue: 0x0807_0605, status: 2 };
    assert_eq!(
        csw.to_bytes(),
        [0x55, 0x53, 0x42, 0x53, 1, 2, 3, 4, 5, 6, 7, 8, 2]
    );
}

#[test]
fn session_ends_with_its_endpoints() {
    let mut line = Line::new();
    line.out_ep.set_fail_next_read(EndpointError::Disabled);
    assert_eq!(line.step(), SessionStep::Ended);
    line.out_ep.queue_read_packet(wrapper(1, 0x00));
    line.step();
    line.step();
    line.in_ep.set_fail_next_write(EndpointError::Disabled);
    assert_eq!(line.step(), SessionStep::Ended);
    assert!(matches!(line.session.state, BotState::SendingCsw { .. }));
    line.session.restart();
    assert!(matches!(line.session.state, BotState::WaitingForCbw));
}

#[test]
fn bulk_reset_drops_the_command_and_the_sense() {
    let mut line = Line::new();
    line.out_ep.queue_read_packet(wrapper(1, 0xEE));
    line.step();
    line.step();
    assert_ne!(line.session.sense, SenseData::good());
    line.control.signal_bulk_reset();
    assert_eq!(line.step(), SessionStep::Continue);
    assert!(matches!(line.session.state, BotState::WaitingForCbw));
    assert_eq!(line.session.sense, SenseData::good());
    assert!(line.in_ep.writes().is_empty());
    assert_eq!(line.control.msc_events, 0);
}

#[test]
fn silence_and_empty_packets_are_no_command() {
    let mut out_ep = MockEndpoint::new();
    assert!(matches!(read_cbw(&mut out_ep), Ok(None)));
    out_ep.queue_read_packet(Vec::new());
    assert!(matches!(read_cbw(&mut out_ep), Ok(None)));
    out_ep.queue_read_packet(vec![0x55]);
    assert!(matches!(read_cbw(&mut out_ep), Ok(Some(cbw)) if cbw.packet_len == 1));
}

#[test]
fn missing_bytes_of_a_wrapper_are_zero() {
    let cbw = Cbw::parse(&[0x55, 0x53, 0x42, 0x43, 9]);
    assert!(cbw.signature_valid);
    assert_eq!(cbw.tag, 9);
    assert_eq!(cbw.command, [0u8; 16]);
    assert!(!cbw.is_valid());
}

#[test]
fn stalls_are_requested_by_their_bits() {
    for (stall, mask) in [
        (StallAfterCsw::NoStall, 0u8),
        (StallAfterCsw::In, 1),
        (StallAfterCsw::Out, 2),
        (StallAfterCsw::Both, 3),
    ] {
        assert_eq!(stall_mask(stall), mask);
        let mut control = BotControl::new();
        request_stall_after_csw(&mut control, stall);
        assert_eq!(control.take_bus_actions(), mask);
        assert_eq!(control.take_bus_actions(), 0);
    }
}

#[test]
fn stall_wait_ends_with_the_last_acknowledgement() {
    let mut wait = StallAckWait::new(StallAfterCsw::Both);
    assert!(!wait.note(0x01));
    assert!(!wait.note(0xFC));
    assert!(wait.note(0x02));
}

#[test]
fn stall_before_the_status_takes_the_acknowledgements() {
    let mut line = Line::new();
    line.session.state = BotState::SendingCsw {
        csw: Csw { tag: 1, residue: 0, status: 0 },
        stall_before_csw: StallAfterCsw::In,
        stall_after_csw: StallAfterCsw::Out,
    };
    line.control.acknowledge_bus_actions(0x01);
    assert_eq!(line.step(), SessionStep::Continue);
    assert_eq!(line.control.take_bus_action_acks(), 0);
    assert_eq!(line.control.take_bus_actions(), 0x03);
}

#[test]
fn placeholder_disk_has_one_mebibyte() {
    let mut disk = Storage::new();
    let mut stack = MscStack::new();
    stack.poll(&mut disk);
    disk.poll();
    assert_eq!(disk.block_count(), 2048);
    assert_eq!(stack.max_packet_size, 64);
}
