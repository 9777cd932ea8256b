use feramdisk_firmware::usb::bot::{BotControl, Cbw, DataDirection};
use feramdisk_firmware::usb::constants::{
    BOT_ACTION_STALL_IN, BOT_ACTION_STALL_OUT, CBW_SIGNATURE, LUN_COUNT,
};

fn build_cbw_packet(signature: u32, flags: u8, lun: u8, cmd_len: u8, transfer_len: u32) -> [u8; 31] {
    let mut packet = [0u8; 31];
    packet[0..4].copy_from_slice(&signature.to_le_bytes());
    packet[4..8].copy_from_slice(&0xAABB_CCDD_u32.to_le_bytes());
    packet[8..12].copy_from_slice(&transfer_len.to_le_bytes());
    packet[12] = flags;
    packet[13] = lun;
    packet[14] = cmd_len;
    packet[15] = 0x12;
    packet
}

#[test]
fn cbw_parse_extracts_fields() {
    let packet = build_cbw_packet(CBW_SIGNATURE, 0x80, 0, 10, 512);
    let cbw = Cbw::parse(&packet);

    assert_eq!(cbw.packet_len, 31);
    assert!(cbw.signature_valid);
    assert_eq!(cbw.tag, 0xAABB_CCDD);
    assert_eq!(cbw.data_transfer_length, 512);
    assert_eq!(cbw.flags, 0x80);
    assert_eq!(cbw.command_length, 10);
    assert_eq!(cbw.opcode(), 0x12);
}

#[test]
fn cbw_is_valid_checks_core_constraints() {
    let valid = Cbw::parse(&build_cbw_packet(CBW_SIGNATURE, 0x80, 0, 10, 1));
    assert!(valid.is_valid());

    let invalid_signature = Cbw::parse(&build_cbw_packet(0xDEAD_BEEF, 0x80, 0, 10, 1));
    assert!(!invalid_signature.is_valid());

    let invalid_flags = Cbw::parse(&build_cbw_packet(CBW_SIGNATURE, 0x01, 0, 10, 1));
    assert!(!invalid_flags.is_valid());

    let invalid_lun = Cbw::parse(&build_cbw_packet(CBW_SIGNATURE, 0x80, LUN_COUNT, 10, 1));
    assert!(!invalid_lun.is_valid());

    let invalid_cmd_len = Cbw::parse(&build_cbw_packet(CBW_SIGNATURE, 0x80, 0, 0, 1));
    assert!(!invalid_cmd_len.is_valid());
}

#[test]
fn cbw_data_direction_matches_flags_and_length() {
    let none = Cbw::parse(&build_cbw_packet(CBW_SIGNATURE, 0x80, 0, 10, 0));
    assert!(matches!(none.data_direction(), DataDirection::NoData));

    let in_dir = Cbw::parse(&build_cbw_packet(CBW_SIGNATURE, 0x80, 0, 10, 64));
    assert!(matches!(in_dir.data_direction(), DataDirection::In));

    let out_dir = Cbw::parse(&build_cbw_packet(CBW_SIGNATURE, 0x00, 0, 10, 64));
    assert!(matches!(out_dir.data_direction(), DataDirection::Out));
}

#[test]
fn bot_control_acknowledges_and_consumes_stall_bits() {
    let mut control = BotControl::new();

    control.request_stall_in();
    control.request_stall_out();
    let requested = control.take_bus_actions();
    assert_eq!(requested & (BOT_ACTION_STALL_IN | BOT_ACTION_STALL_OUT), BOT_ACTION_STALL_IN | BOT_ACTION_STALL_OUT);

    control.acknowledge_bus_actions(requested);
    let applied = control.take_bus_action_acks();
    assert_eq!(applied & (BOT_ACTION_STALL_IN | BOT_ACTION_STALL_OUT), BOT_ACTION_STALL_IN | BOT_ACTION_STALL_OUT);

    assert_eq!(control.take_bus_action_acks(), 0);
}

#[test]
fn empty_packet_holds_no_wrapper() {
    assert!(Cbw::received(&[]).is_none());
    let cbw = Cbw::received(&build_cbw_packet(CBW_SIGNATURE, 0x80, 0, 10, 64));
    assert!(matches!(cbw, Some(cbw) if cbw.is_valid() && cbw.tag == 0xAABB_CCDD));
    assert!(matches!(Cbw::received(&[0x55]), Some(cbw) if !cbw.is_valid()));
}
