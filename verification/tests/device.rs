use feramdisk_firmware::usb::descriptors::{build_string_descriptor, UsbDescriptors};
use feramdisk_firmware::usb::device::{
    bus_reset_plan, handle_setup, pending_bot_actions, stall_query, BusOp, ControlPlan,
    ControlReply, SetupPacket,
};

fn descriptors() -> UsbDescriptors {
    UsbDescriptors::new(0x01, 0x81)
}

fn setup(request_type: u8, request: u8, value: u16, index: u16, length: u16) -> SetupPacket {
    let v = value.to_le_bytes();
    let i = index.to_le_bytes();
    let l = length.to_le_bytes();
    SetupPacket::parse([request_type, request, v[0], v[1], i[0], i[1], l[0], l[1]])
}

fn decide(packet: SetupPacket, configuration: u8) -> ControlPlan {
    handle_setup(descriptors(), packet, configuration, false)
}

fn data(plan: &ControlPlan) -> Vec<u8> {
    match &plan.reply {
        ControlReply::Data(data) => data.as_slice().to_vec(),
        _ => panic!("no data"),
    }
}

fn rejected(packet: SetupPacket) -> bool {
    let plan = decide(packet, 1);
    matches!(plan.reply, ControlReply::Reject)
        && plan.before.is_empty()
        && plan.after.is_empty()
        && plan.configuration == 1
        && !plan.bulk_reset
}

#[test]
fn setup_packet_fields_are_parsed() {
    let packet = SetupPacket::parse([0xA1, 0xFE, 0x34, 0x12, 0x78, 0x56, 0xBC, 0x9A]);
    assert_eq!(packet.request_type, 0xA1);
    assert_eq!(packet.request, 0xFE);
    assert_eq!(packet.value, 0x1234);
    assert_eq!(packet.index, 0x5678);
    assert_eq!(packet.length, 0x9ABC);
    assert_eq!(packet.recipient(), 0x01);
    assert_eq!(packet.request_kind(), 0x20);
    assert!(packet.is_in());
}

#[test]
fn device_descriptor_is_read() {
    let plan = decide(setup(0x80, 0x06, 0x0100, 0, 64), 0);
    assert_eq!(
        data(&plan),
        vec![18, 1, 0, 2, 0, 0, 0, 64, 0x09, 0x12, 0x01, 0x00, 0, 1, 1, 2, 3, 1]
    );
    let short = decide(setup(0x80, 0x06, 0x0100, 0, 8), 0);
    assert_eq!(data(&short), vec![18, 1, 0, 2, 0, 0, 0, 64]);
    assert!(rejected(setup(0x80, 0x06, 0x0100, 0, 0)));
    assert!(rejected(setup(0x00, 0x06, 0x0100, 0, 64)));
}

#[test]
fn configuration_descriptor_is_read() {
    let plan = decide(setup(0x80, 0x06, 0x0200, 0, 255), 0);
    assert_eq!(
        data(&plan),
        vec![
            9, 2, 32, 0, 1, 1, 0, 0x80, 0x32, 9, 4, 0, 0, 2, 8, 6, 0x50, 0, 7, 5, 0x01, 2, 64, 0,
            0, 7, 5, 0x81, 2, 64, 0, 0
        ]
    );
}

#[test]
fn string_descriptors_are_read() {
    assert_eq!(
        data(&decide(setup(0x80, 0x06, 0x0300, 0, 255), 0)),
        vec![4, 3, 9, 4]
    );
    assert_eq!(
        data(&decide(setup(0x80, 0x06, 0x0301, 0, 255), 0)),
        vec![12, 3, b'F', 0, b'e', 0, b'R', 0, b'a', 0, b'm', 0]
    );
    assert_eq!(
        data(&decide(setup(0x80, 0x06, 0x0303, 0, 255), 0)),
        vec![10, 3, b'0', 0, b'0', 0, b'0', 0, b'1', 0]
    );
    assert_eq!(data(&decide(setup(0x80, 0x06, 0x0302, 0, 255), 0)).len(), 20);
    assert!(rejected(setup(0x80, 0x06, 0x0304, 0, 255)));
    assert!(rejected(setup(0x80, 0x06, 0x0F00, 0, 255)));
}

#[test]
fn strings_are_utf16_and_cut_at_the_room() {
    let euro_and_clef = build_string_descriptor("\u{20AC}\u{1D11E}");
    assert_eq!(
        euro_and_clef.as_slice(),
        &[8, 3, 0xAC, 0x20, 0x34, 0xD8, 0x1E, 0xDD]
    );
    let long = build_string_descriptor("0123456789012345678901234567890123456789");
    assert_eq!(long.len(), 64);
    assert_eq!(long.as_slice()[0], 64);
    assert_eq!(long.as_slice()[62..], [b'0', 0]);
    assert_eq!(build_string_descriptor("").as_slice(), &[2, 3]);
}

#[test]
fn address_is_accepted_up_to_127() {
    assert!(matches!(
        decide(setup(0x00, 0x05, 127, 0, 0), 0).reply,
        ControlReply::AcceptAddress(127)
    ));
    assert!(rejected(setup(0x00, 0x05, 128, 0, 0)));
}

#[test]
fn configuration_is_set_and_read_back() {
    let on = decide(setup(0x00, 0x09, 1, 0, 0), 0);
    assert!(matches!(on.reply, ControlReply::Accept));
    assert_eq!(on.configuration, 1);
    assert_eq!(
        on.before,
        vec![
            BusOp::SetEnabled { endpoint: 0x01, enabled: true },
            BusOp::SetEnabled { endpoint: 0x81, enabled: true },
        ]
    );
    assert_eq!(
        data(&decide(setup(0x80, 0x08, 0, 0, 1), on.configuration)),
        vec![1]
    );
    let off = decide(setup(0x00, 0x09, 0, 0, 0), 1);
    assert_eq!(off.configuration, 0);
    assert_eq!(
        off.before,
        vec![
            BusOp::SetEnabled { endpoint: 0x01, enabled: false },
            BusOp::SetEnabled { endpoint: 0x81, enabled: false },
            BusOp::SetStalled { endpoint: 0x01, stalled: false },
            BusOp::SetStalled { endpoint: 0x81, stalled: false },
        ]
    );
    assert!(rejected(setup(0x00, 0x09, 2, 0, 0)));
    assert!(rejected(setup(0x00, 0x09, 1, 1, 0)));
    assert!(rejected(setup(0x80, 0x08, 0, 0, 0)));
}

#[test]
fn endpoint_halt_is_set_cleared_and_reported() {
    let halt = decide(setup(0x02, 0x03, 0, 0x81, 0), 1);
    assert_eq!(
        halt.before,
        vec![BusOp::SetStalled { endpoint: 0x81, stalled: true }]
    );
    let clear = decide(setup(0x02, 0x01, 0, 0x81, 0), 1);
    assert_eq!(
        clear.before,
        vec![BusOp::SetStalled { endpoint: 0x81, stalled: false }]
    );
    let status = setup(0x82, 0x00, 0, 0x81, 2);
    assert_eq!(stall_query(status), Some(0x81));
    assert_eq!(
        data(&handle_setup(descriptors(), status, 1, true)),
        vec![1, 0]
    );
    assert_eq!(
        data(&handle_setup(descriptors(), status, 1, false)),
        vec![0, 0]
    );
    assert!(rejected(setup(0x00, 0x03, 0, 0, 0)));
    assert!(rejected(setup(0x01, 0x01, 0, 0, 0)));
}

#[test]
fn device_and_interface_status_are_zero() {
    assert_eq!(stall_query(setup(0x80, 0x00, 0, 0, 2)), None);
    assert_eq!(data(&decide(setup(0x80, 0x00, 0, 0, 2), 1)), vec![0, 0]);
    assert_eq!(data(&decide(setup(0x81, 0x00, 0, 0, 2), 1)), vec![0, 0]);
    assert!(rejected(setup(0x83, 0x00, 0, 0, 2)));
}

#[test]
fn interface_has_one_alternate_setting() {
    assert_eq!(data(&decide(setup(0x81, 0x0A, 0, 0, 1), 1)), vec![0]);
    assert!(matches!(
        decide(setup(0x01, 0x0B, 0, 0, 0), 1).reply,
        ControlReply::Accept
    ));
    assert!(rejected(setup(0x01, 0x0B, 1, 0, 0)));
    assert!(rejected(setup(0x81, 0x0A, 0, 1, 1)));
    assert!(rejected(setup(0x80, 0x0C, 0, 0, 1)));
}

#[test]
fn max_lun_is_zero() {
    assert_eq!(data(&decide(setup(0xA1, 0xFE, 0, 0, 1), 1)), vec![0]);
    assert!(rejected(setup(0xA1, 0xFE, 0, 1, 1)));
    assert!(rejected(setup(0x21, 0xFE, 0, 0, 1)));
}

#[test]
fn bulk_only_reset_clears_and_restarts_the_endpoints() {
    let plan = decide(setup(0x21, 0xFF, 0, 0, 0), 1);
    assert!(matches!(plan.reply, ControlReply::Accept));
    assert!(plan.bulk_reset);
    assert!(plan.before.is_empty());
    assert_eq!(
        plan.after,
        vec![
            BusOp::SetStalled { endpoint: 0x01, stalled: false },
            BusOp::SetStalled { endpoint: 0x81, stalled: false },
            BusOp::SetStalled { endpoint: 0x01, stalled: false },
            BusOp::SetStalled { endpoint: 0x81, stalled: false },
            BusOp::SetEnabled { endpoint: 0x01, enabled: false },
            BusOp::SetEnabled { endpoint: 0x81, enabled: false },
            BusOp::SetEnabled { endpoint: 0x01, enabled: true },
            BusOp::SetEnabled { endpoint: 0x81, enabled: true },
        ]
    );
    let unconfigured = decide(setup(0x21, 0xFF, 0, 0, 0), 0);
    assert_eq!(unconfigured.after.len(), 6);
    assert!(rejected(setup(0x21, 0xFF, 1, 0, 0)));
}

#[test]
fn vendor_requests_are_rejected() {
    assert!(rejected(setup(0xC0, 0x06, 0x0100, 0, 64)));
}

#[test]
fn bus_reset_unconfigures_the_device() {
    let plan = bus_reset_plan(descriptors());
    assert_eq!(plan.configuration, 0);
    assert!(plan.bulk_reset);
    assert_eq!(
        plan.ops,
        vec![
            BusOp::SetEnabled { endpoint: 0x01, enabled: false },
            BusOp::SetEnabled { endpoint: 0x81, enabled: false },
            BusOp::SetStalled { endpoint: 0x01, stalled: false },
            BusOp::SetStalled { endpoint: 0x81, stalled: false },
        ]
    );
}

#[test]
fn requested_stalls_are_applied() {
    assert_eq!(pending_bot_actions(descriptors(), 0), vec![]);
    assert_eq!(
        pending_bot_actions(descriptors(), 3),
        vec![
            BusOp::SetStalled { endpoint: 0x01, stalled: true },
            BusOp::SetStalled { endpoint: 0x81, stalled: true },
        ]
    );
    assert_eq!(
        pending_bot_actions(descriptors(), 1),
        vec![BusOp::SetStalled { endpoint: 0x81, stalled: true }]
    );
}

#[test]
fn bulk_endpoints_are_enabled_exactly_while_configured() {
    let requests = [
        setup(0x00, 0x09, 1, 0, 0),
        setup(0x21, 0xFF, 0, 0, 0),
        setup(0x02, 0x03, 0, 0x81, 0),
        setup(0x00, 0x09, 2, 0, 0),
        setup(0x00, 0x09, 0, 0, 0),
        setup(0x21, 0xFF, 0, 0, 0),
        setup(0x00, 0x09, 1, 0, 0),
    ];
    let mut configuration = 0u8;
    let mut enabled = [false, false];
    for request in requests {
        let plan = decide(request, configuration);
        for op in plan.before.iter().chain(plan.after.iter()) {
            if let BusOp::SetEnabled { endpoint, enabled: on } = *op {
                enabled[if endpoint == 0x01 { 0 } else { 1 }] = on;
            }
        }
        configuration = plan.configuration;
        assert_eq!(enabled, [configuration == 1; 2]);
    }
}
