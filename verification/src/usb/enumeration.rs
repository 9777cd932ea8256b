//! What a host sees of the control requests: the bytes of a setup packet, and what each of them is
//! answered.

use vstd::prelude::*;
use vstd::string::*;
use crate::bytes;
use crate::usb::descriptors::{self, ControlData, UsbDescriptors};
use crate::usb::device::{self, BusOp, BusResetPlan, ControlPlan, ControlReply, Reply, SetupPacket};

verus! {

/// Whether a plan is an answer and nothing else: no endpoint is touched, the configuration stays,
/// and the data path goes on.
pub open spec fn only_answers(plan: ControlPlan, reply: Reply, configuration: u8) -> bool {
    &&& plan@.reply == reply
    &&& plan@.before.len() == 0
    &&& plan@.after.len() == 0
    &&& plan.configuration == configuration
    &&& !plan.bulk_reset
}

/// A setup packet is the request type, the request, and three little-endian numbers.
pub proof fn setup_packet_is_taken_apart(raw: [u8; 8], setup: SetupPacket)
    requires
        call_ensures(SetupPacket::parse, (raw,), setup),
    ensures
        setup.request_type == raw@[0],
        setup.request == raw@[1],
        setup.value % 0x100 == raw@[2] && setup.value / 0x100 == raw@[3],
        setup.index % 0x100 == raw@[4] && setup.index / 0x100 == raw@[5],
        setup.length % 0x100 == raw@[6] && setup.length / 0x100 == raw@[7],
{
}

/// The request type says whom a request is for, of which kind it is, and which way its data goes.
pub proof fn request_type_has_three_fields(
    setup: SetupPacket,
    recipient: u8,
    kind: u8,
    inward: bool,
)
    requires
        call_ensures(SetupPacket::recipient, (&setup,), recipient),
        call_ensures(SetupPacket::request_kind, (&setup,), kind),
        call_ensures(SetupPacket::is_in, (&setup,), inward),
    ensures
        recipient == setup.request_type % 32,
        kind == 32 * (setup.request_type / 32 % 4),
        inward <==> setup.request_type >= 0x80,
{
    bytes::lemma_bit_fields(setup.request_type);
}

/// A standard request and one of the class are handled as such, and any other is rejected.
pub proof fn requests_are_handled_by_their_kind(
    d: UsbDescriptors,
    setup: SetupPacket,
    configuration: u8,
    stalled: bool,
    plan: ControlPlan,
    standard: ControlPlan,
    class: ControlPlan,
)
    requires
        call_ensures(device::handle_setup, (d, setup, configuration, stalled), plan),
        call_ensures(
            device::handle_standard_request,
            (d, setup, configuration, stalled),
            standard,
        ),
        call_ensures(device::handle_class_request, (d, setup, configuration), class),
    ensures
        setup.request_type / 32 % 4 == 0 ==> plan@ == standard@,
        setup.request_type / 32 % 4 == 1 ==> plan@ == class@,
        setup.request_type / 32 % 4 > 1 ==> only_answers(plan, Reply::Reject, configuration),
{
    bytes::lemma_bit_fields(setup.request_type);
}

/// SET ADDRESS with an address up to 127 is accepted with that very address, and with none above.
pub proof fn set_address_assigns_the_address(
    d: UsbDescriptors,
    setup: SetupPacket,
    configuration: u8,
    stalled: bool,
    plan: ControlPlan,
)
    requires
        call_ensures(device::handle_setup, (d, setup, configuration, stalled), plan),
        setup.request_type / 32 % 4 == 0,
        setup.request == 5,
    ensures
        setup.value <= 127 ==> plan@.reply == Reply::AcceptAddress(setup.value as u8),
        setup.value <= 127 ==> plan@.before.len() == 0 && plan@.after.len() == 0 && plan.configuration
            == configuration && !plan.bulk_reset,
        setup.value > 127 ==> only_answers(plan, Reply::Reject, configuration),
{
    bytes::lemma_bit_fields(setup.request_type);
}

/// Hosts that assign different addresses are told apart: a device listens at the address that it was
/// given, and at no other.
pub proof fn addresses_are_told_apart(
    d: UsbDescriptors,
    a: SetupPacket,
    b: SetupPacket,
    configuration: u8,
    stalled: bool,
    plan_a: ControlPlan,
    plan_b: ControlPlan,
)
    requires
        call_ensures(device::handle_standard_request, (d, a, configuration, stalled), plan_a),
        call_ensures(device::handle_standard_request, (d, b, configuration, stalled), plan_b),
        a.request == 5,
        b.request == 5,
        a.value <= 127,
        b.value <= 127,
    ensures
        plan_a.reply matches ControlReply::AcceptAddress(address) && address == a.value,
        plan_a.reply == plan_b.reply ==> a.value == b.value,
{
    assert(plan_a@.reply == Reply::AcceptAddress(a.value as u8));
    assert(plan_b@.reply == Reply::AcceptAddress(b.value as u8));
}

/// SET CONFIGURATION with value 1 configures the device and enables both bulk endpoints; with value 0 it
/// unconfigures the device, disables both, and clears their stalls. Anything else is rejected.
pub proof fn set_configuration_switches_the_endpoints(
    d: UsbDescriptors,
    setup: SetupPacket,
    configuration: u8,
    stalled: bool,
    plan: ControlPlan,
)
    requires
        call_ensures(device::handle_setup, (d, setup, configuration, stalled), plan),
        setup.request_type / 32 % 4 == 0,
        setup.request == 9,
    ensures
        setup.index == 0 && setup.value == 1 ==> {
            &&& plan@.reply == Reply::Accept
            &&& plan.configuration == 1
            &&& plan@.before == seq![
                BusOp::SetEnabled { endpoint: d.bulk_out, enabled: true },
                BusOp::SetEnabled { endpoint: d.bulk_in, enabled: true },
            ]
            &&& plan@.after.len() == 0
            &&& !plan.bulk_reset
        },
        setup.index == 0 && setup.value == 0 ==> {
            &&& plan@.reply == Reply::Accept
            &&& plan.configuration == 0
            &&& plan@.before == seq![
                BusOp::SetEnabled { endpoint: d.bulk_out, enabled: false },
                BusOp::SetEnabled { endpoint: d.bulk_in, enabled: false },
                BusOp::SetStalled { endpoint: d.bulk_out, stalled: false },
                BusOp::SetStalled { endpoint: d.bulk_in, stalled: false },
            ]
            &&& plan@.after.len() == 0
            &&& !plan.bulk_reset
        },
        setup.index != 0 || setup.value > 1 ==> only_answers(plan, Reply::Reject, configuration),
{
    bytes::lemma_bit_fields(setup.request_type);
    if setup.index == 0 && setup.value <= 1 {
        let enabled = setup.value == 1;
        assert(plan@.before =~= device::enable_ops(d, enabled) + if enabled {
            Seq::empty()
        } else {
            device::unstall_ops(d)
        });
    }
}

/// GET CONFIGURATION answers the configuration in one byte, to a host that asks for any.
pub proof fn get_configuration_tells_the_configuration(
    d: UsbDescriptors,
    setup: SetupPacket,
    configuration: u8,
    stalled: bool,
    plan: ControlPlan,
)
    requires
        call_ensures(device::handle_setup, (d, setup, configuration, stalled), plan),
        setup.request_type / 32 % 4 == 0,
        setup.request == 8,
    ensures
        setup.length > 0 ==> only_answers(plan, Reply::Data(seq![configuration]), configuration),
        setup.length == 0 ==> only_answers(plan, Reply::Reject, configuration),
{
    bytes::lemma_bit_fields(setup.request_type);
}

/// GET STATUS answers two bytes: 1 and 0 of an endpoint that is stalled, and zeros of one that is not,
/// of the device, and of the interface.
pub proof fn get_status_tells_whether_an_endpoint_is_stalled(
    d: UsbDescriptors,
    setup: SetupPacket,
    configuration: u8,
    stalled: bool,
    plan: ControlPlan,
)
    requires
        call_ensures(device::handle_setup, (d, setup, configuration, stalled), plan),
        setup.request_type / 32 % 4 == 0,
        setup.request == 0,
    ensures
        setup.request_type % 32 <= 2 ==> only_answers(
            plan,
            Reply::Data(
                seq![
                    if setup.request_type % 32 == 2 && stalled {
                        1u8
                    } else {
                        0u8
                    },
                    0u8,
                ],
            ),
            configuration,
        ),
        setup.request_type % 32 > 2 ==> only_answers(plan, Reply::Reject, configuration),
{
    bytes::lemma_bit_fields(setup.request_type);
}

/// SET FEATURE for an endpoint stalls the endpoint that the low byte of the index names, and CLEAR
/// FEATURE ends that. Neither is known of anything else.
pub proof fn features_halt_and_resume_an_endpoint(
    d: UsbDescriptors,
    setup: SetupPacket,
    configuration: u8,
    stalled: bool,
    plan: ControlPlan,
)
    requires
        call_ensures(device::handle_setup, (d, setup, configuration, stalled), plan),
        setup.request_type / 32 % 4 == 0,
        setup.request == 1 || setup.request == 3,
    ensures
        setup.request_type % 32 == 2 ==> {
            &&& plan@.reply == Reply::Accept
            &&& plan@.before == seq![
                BusOp::SetStalled {
                    endpoint: (setup.index % 0x100) as u8,
                    stalled: setup.request == 3,
                },
            ]
            &&& plan@.after.len() == 0
            &&& plan.configuration == configuration
            &&& !plan.bulk_reset
        },
        setup.request_type % 32 != 2 ==> only_answers(plan, Reply::Reject, configuration),
{
    bytes::lemma_bit_fields(setup.request_type);
}

/// The only interface has one setting, 0: GET INTERFACE answers it, and SET INTERFACE accepts no other.
pub proof fn the_interface_has_one_setting(
    d: UsbDescriptors,
    setup: SetupPacket,
    configuration: u8,
    stalled: bool,
    plan: ControlPlan,
)
    requires
        call_ensures(device::handle_setup, (d, setup, configuration, stalled), plan),
        setup.request_type / 32 % 4 == 0,
        setup.request == 0x0A || setup.request == 0x0B,
    ensures
        ({
            let known = setup.request_type % 32 == 1 && setup.index == 0;
            &&& setup.request == 0x0A && known && setup.length > 0 ==> only_answers(
                plan,
                Reply::Data(seq![0u8]),
                configuration,
            )
            &&& setup.request == 0x0B && known && setup.value == 0 ==> only_answers(
                plan,
                Reply::Accept,
                configuration,
            )
            &&& !known ==> only_answers(plan, Reply::Reject, configuration)
            &&& setup.request == 0x0A && setup.length == 0 ==> only_answers(
                plan,
                Reply::Reject,
                configuration,
            )
            &&& setup.request == 0x0B && setup.value != 0 ==> only_answers(
                plan,
                Reply::Reject,
                configuration,
            )
        }),
{
    bytes::lemma_bit_fields(setup.request_type);
}

/// A standard request that is none of the nine that there are is rejected.
pub proof fn other_standard_requests_are_rejected(
    d: UsbDescriptors,
    setup: SetupPacket,
    configuration: u8,
    stalled: bool,
    plan: ControlPlan,
)
    requires
        call_ensures(device::handle_setup, (d, setup, configuration, stalled), plan),
        setup.request_type / 32 % 4 == 0,
        !(setup.request == 0 || setup.request == 1 || setup.request == 3 || setup.request == 5
            || setup.request == 6 || setup.request == 8 || setup.request == 9 || setup.request == 0x0A
            || setup.request == 0x0B),
    ensures
        only_answers(plan, Reply::Reject, configuration),
{
    bytes::lemma_bit_fields(setup.request_type);
}

/// GET MAX LUN answers that the last unit is unit 0. A Bulk-Only reset is accepted and has the data path
/// start anew: both bulk endpoints are cleared of stalls, then disabled, and enabled again where the
/// device is configured. Any other request of the class is rejected.
pub proof fn class_requests_reset_and_count_units(
    d: UsbDescriptors,
    setup: SetupPacket,
    configuration: u8,
    stalled: bool,
    plan: ControlPlan,
)
    requires
        call_ensures(device::handle_setup, (d, setup, configuration, stalled), plan),
        setup.request_type / 32 % 4 == 1,
    ensures
        setup.request == 0xFE && setup.request_type == 0xA1 && setup.index == 0 && setup.length > 0
            ==> only_answers(plan, Reply::Data(seq![0u8]), configuration),
        setup.request == 0xFF && setup.request_type == 0x21 && setup.index == 0 && setup.value == 0
            && setup.length == 0 ==> {
            &&& plan@.reply == Reply::Accept
            &&& plan.bulk_reset
            &&& plan.configuration == configuration
            &&& plan@.before.len() == 0
            &&& plan@.after == seq![
                BusOp::SetStalled { endpoint: d.bulk_out, stalled: false },
                BusOp::SetStalled { endpoint: d.bulk_in, stalled: false },
                BusOp::SetStalled { endpoint: d.bulk_out, stalled: false },
                BusOp::SetStalled { endpoint: d.bulk_in, stalled: false },
                BusOp::SetEnabled { endpoint: d.bulk_out, enabled: false },
                BusOp::SetEnabled { endpoint: d.bulk_in, enabled: false },
            ] + if configuration == 1 {
                seq![
                    BusOp::SetEnabled { endpoint: d.bulk_out, enabled: true },
                    BusOp::SetEnabled { endpoint: d.bulk_in, enabled: true },
                ]
            } else {
                Seq::empty()
            }
        },
        !(setup.request == 0xFE && setup.request_type == 0xA1 && setup.index == 0 && setup.length > 0)
            && !(setup.request == 0xFF && setup.request_type == 0x21 && setup.index == 0
            && setup.value == 0 && setup.length == 0) ==> only_answers(
            plan,
            Reply::Reject,
            configuration,
        ),
{
    bytes::lemma_bit_fields(setup.request_type);
    assert(plan@.bulk_reset ==> plan@.after =~= device::unstall_ops(d) + device::reset_ops(
        d,
        configuration,
    ));
}

/// GET DESCRIPTOR answers the device descriptor: USB 2.0, its class given by the interface, packets of 64
/// bytes, vendor 0x1209, product 0x0001, release 1.00, three strings, and one configuration. As much of
/// it comes as the host asks for.
pub proof fn device_descriptor_is_read(
    d: UsbDescriptors,
    setup: SetupPacket,
    configuration: u8,
    stalled: bool,
    plan: ControlPlan,
)
    requires
        call_ensures(device::handle_setup, (d, setup, configuration, stalled), plan),
        setup.request_type / 32 % 4 == 0,
        setup.request == 6,
        setup.request_type >= 0x80,
        setup.value / 0x100 == 1,
    ensures
        setup.length == 0 ==> only_answers(plan, Reply::Reject, configuration),
        setup.length > 0 ==> (plan@.reply matches Reply::Data(data) && {
            &&& data.is_prefix_of(
                seq![
                    0x12u8,
                    0x01u8,
                    0x00u8,
                    0x02u8,
                    0x00u8,
                    0x00u8,
                    0x00u8,
                    0x40u8,
                    0x09u8,
                    0x12u8,
                    0x01u8,
                    0x00u8,
                    0x00u8,
                    0x01u8,
                    0x01u8,
                    0x02u8,
                    0x03u8,
                    0x01u8,
                ],
            )
            &&& data.len() == if setup.length < 18 {
                setup.length as int
            } else {
                18
            }
            &&& only_answers(plan, Reply::Data(data), configuration)
        }),
{
    bytes::lemma_bit_fields(setup.request_type);
    let full = seq![
        0x12u8,
        0x01u8,
        0x00u8,
        0x02u8,
        0x00u8,
        0x00u8,
        0x00u8,
        0x40u8,
        0x09u8,
        0x12u8,
        0x01u8,
        0x00u8,
        0x00u8,
        0x01u8,
        0x01u8,
        0x02u8,
        0x03u8,
        0x01u8,
    ];
    assert(descriptors::device_descriptor_of() =~= full);
}

/// GET DESCRIPTOR answers the configuration descriptor: one configuration, 1, bus-powered, at most 100 mA,
/// and in it one interface for mass storage by SCSI commands over the Bulk-Only Transport, with the two
/// bulk endpoints, whose packets are 64 bytes.
pub proof fn configuration_descriptor_is_read(
    d: UsbDescriptors,
    setup: SetupPacket,
    configuration: u8,
    stalled: bool,
    plan: ControlPlan,
)
    requires
        call_ensures(device::handle_setup, (d, setup, configuration, stalled), plan),
        setup.request_type / 32 % 4 == 0,
        setup.request == 6,
        setup.request_type >= 0x80,
        setup.value / 0x100 == 2,
    ensures
        setup.length == 0 ==> only_answers(plan, Reply::Reject, configuration),
        setup.length > 0 ==> (plan@.reply matches Reply::Data(data) && {
            &&& data.is_prefix_of(
                seq![
                    9u8,
                    0x02u8,
                    32u8,
                    0u8,
                    1u8,
                    1u8,
                    0u8,
                    0x80u8,
                    0x32u8,
                    9u8,
                    0x04u8,
                    0u8,
                    0u8,
                    2u8,
                    0x08u8,
                    0x06u8,
                    0x50u8,
                    0u8,
                    7u8,
                    0x05u8,
                    d.bulk_out,
                    0x02u8,
                    64u8,
                    0u8,
                    0u8,
                    7u8,
                    0x05u8,
                    d.bulk_in,
                    0x02u8,
                    64u8,
                    0u8,
                    0u8,
                ],
            )
            &&& data.len() == if setup.length < 32 {
                setup.length as int
            } else {
                32
            }
            &&& only_answers(plan, Reply::Data(data), configuration)
        }),
{
    bytes::lemma_bit_fields(setup.request_type);
    let full = seq![
        9u8,
        0x02u8,
        32u8,
        0u8,
        1u8,
        1u8,
        0u8,
        0x80u8,
        0x32u8,
        9u8,
        0x04u8,
        0u8,
        0u8,
        2u8,
        0x08u8,
        0x06u8,
        0x50u8,
        0u8,
        7u8,
        0x05u8,
        d.bulk_out,
        0x02u8,
        64u8,
        0u8,
        0u8,
        7u8,
        0x05u8,
        d.bulk_in,
        0x02u8,
        64u8,
        0u8,
        0u8,
    ];
    assert(d.configuration() =~= full);
}

/// GET DESCRIPTOR with string index 0 answers the languages, which are English alone.
pub proof fn language_list_is_read(
    d: UsbDescriptors,
    setup: SetupPacket,
    configuration: u8,
    stalled: bool,
    plan: ControlPlan,
)
    requires
        call_ensures(device::handle_setup, (d, setup, configuration, stalled), plan),
        setup.request_type / 32 % 4 == 0,
        setup.request == 6,
        setup.request_type >= 0x80,
        setup.value == 0x300,
    ensures
        setup.length == 0 ==> only_answers(plan, Reply::Reject, configuration),
        setup.length > 0 ==> (plan@.reply matches Reply::Data(data) && {
            &&& data.is_prefix_of(
                seq![
                    4u8,
                    3u8,
                    0x09u8,
                    0x04u8,
                ],
            )
            &&& data.len() == if setup.length < 4 {
                setup.length as int
            } else {
                4
            }
            &&& only_answers(plan, Reply::Data(data), configuration)
        }),
{
    bytes::lemma_bit_fields(setup.request_type);
    assert(descriptors::language_descriptor() =~= seq![
        4u8,
        3u8,
        0x09u8,
        0x04u8,
    ]);
}

/// GET DESCRIPTOR with string index 1 answers the manufacturer, "FeRam".
pub proof fn manufacturer_string_is_read(
    d: UsbDescriptors,
    setup: SetupPacket,
    configuration: u8,
    stalled: bool,
    plan: ControlPlan,
)
    requires
        call_ensures(device::handle_setup, (d, setup, configuration, stalled), plan),
        setup.request_type / 32 % 4 == 0,
        setup.request == 6,
        setup.request_type >= 0x80,
        setup.value == 0x301,
    ensures
        setup.length == 0 ==> only_answers(plan, Reply::Reject, configuration),
        setup.length > 0 ==> (plan@.reply matches Reply::Data(data) && {
            &&& data.is_prefix_of(
                seq![
                    12u8,
                    3u8,
                    0x46u8,
                    0u8,
                    0x65u8,
                    0u8,
                    0x52u8,
                    0u8,
                    0x61u8,
                    0u8,
                    0x6Du8,
                    0u8,
                ],
            )
            &&& data.len() == if setup.length < 12 {
                setup.length as int
            } else {
                12
            }
            &&& only_answers(plan, Reply::Data(data), configuration)
        }),
{
    bytes::lemma_bit_fields(setup.request_type);
    lemma_manufacturer();
    let full = seq![
        12u8,
        3u8,
        0x46u8,
        0u8,
        0x65u8,
        0u8,
        0x52u8,
        0u8,
        0x61u8,
        0u8,
        0x6Du8,
        0u8,
    ];
    assert(d.string(1) == Some(full));
}

proof fn lemma_manufacturer()
    ensures
        descriptors::string_descriptor_of("FeRam"@) == seq![
            12u8,
            3u8,
            0x46u8,
            0u8,
            0x65u8,
            0u8,
            0x52u8,
            0u8,
            0x61u8,
            0u8,
            0x6Du8,
            0u8,
        ],
{
    reveal_strlit("FeRam");
    reveal_with_fuel(descriptors::utf16, 6);
    let text = "FeRam"@;
    assert(text.take(1).drop_last() =~= text.take(0));
    assert(text.take(2).drop_last() =~= text.take(1));
    assert(text.take(3).drop_last() =~= text.take(2));
    assert(text.take(4).drop_last() =~= text.take(3));
    assert(text.take(5).drop_last() =~= text.take(4));
    assert(text.take(5) =~= text);
    let units = descriptors::utf16(text);
    assert(units =~= seq![0x46u16, 0x65u16, 0x52u16, 0x61u16, 0x6Du16]);
    let full = seq![
        12u8,
        3u8,
        0x46u8,
        0u8,
        0x65u8,
        0u8,
        0x52u8,
        0u8,
        0x61u8,
        0u8,
        0x6Du8,
        0u8,
    ];
    assert(descriptors::string_descriptor_of(text) =~= full);
}

/// GET DESCRIPTOR with string index 2 answers the product, "FeRamDisk".
pub proof fn product_string_is_read(
    d: UsbDescriptors,
    setup: SetupPacket,
    configuration: u8,
    stalled: bool,
    plan: ControlPlan,
)
    requires
        call_ensures(device::handle_setup, (d, setup, configuration, stalled), plan),
        setup.request_type / 32 % 4 == 0,
        setup.request == 6,
        setup.request_type >= 0x80,
        setup.value == 0x302,
    ensures
        setup.length == 0 ==> only_answers(plan, Reply::Reject, configuration),
        setup.length > 0 ==> (plan@.reply matches Reply::Data(data) && {
            &&& data.is_prefix_of(
                seq![
                    20u8,
                    3u8,
                    0x46u8,
                    0u8,
                    0x65u8,
                    0u8,
                    0x52u8,
                    0u8,
                    0x61u8,
                    0u8,
                    0x6Du8,
                    0u8,
                    0x44u8,
                    0u8,
                    0x69u8,
                    0u8,
                    0x73u8,
                    0u8,
                    0x6Bu8,
                    0u8,
                ],
            )
            &&& data.len() == if setup.length < 20 {
                setup.length as int
            } else {
                20
            }
            &&& only_answers(plan, Reply::Data(data), configuration)
        }),
{
    bytes::lemma_bit_fields(setup.request_type);
    lemma_product();
    let full = seq![
        20u8,
        3u8,
        0x46u8,
        0u8,
        0x65u8,
        0u8,
        0x52u8,
        0u8,
        0x61u8,
        0u8,
        0x6Du8,
        0u8,
        0x44u8,
        0u8,
        0x69u8,
        0u8,
        0x73u8,
        0u8,
        0x6Bu8,
        0u8,
    ];
    assert(d.string(2) == Some(full));
}

proof fn lemma_product()
    ensures
        descriptors::string_descriptor_of("FeRamDisk"@) == seq![
            20u8,
            3u8,
            0x46u8,
            0u8,
            0x65u8,
            0u8,
            0x52u8,
            0u8,
            0x61u8,
            0u8,
            0x6Du8,
            0u8,
            0x44u8,
            0u8,
            0x69u8,
            0u8,
            0x73u8,
            0u8,
            0x6Bu8,
            0u8,
        ],
{
    reveal_strlit("FeRamDisk");
    reveal_with_fuel(descriptors::utf16, 10);
    let text = "FeRamDisk"@;
    assert(text.take(1).drop_last() =~= text.take(0));
    assert(text.take(2).drop_last() =~= text.take(1));
    assert(text.take(3).drop_last() =~= text.take(2));
    assert(text.take(4).drop_last() =~= text.take(3));
    assert(text.take(5).drop_last() =~= text.take(4));
    assert(text.take(6).drop_last() =~= text.take(5));
    assert(text.take(7).drop_last() =~= text.take(6));
    assert(text.take(8).drop_last() =~= text.take(7));
    assert(text.take(9).drop_last() =~= text.take(8));
    assert(text.take(9) =~= text);
    let units = descriptors::utf16(text);
    assert(units =~= seq![0x46u16, 0x65u16, 0x52u16, 0x61u16, 0x6Du16, 0x44u16, 0x69u16, 0x73u16, 0x6Bu16]);
    let full = seq![
        20u8,
        3u8,
        0x46u8,
        0u8,
        0x65u8,
        0u8,
        0x52u8,
        0u8,
        0x61u8,
        0u8,
        0x6Du8,
        0u8,
        0x44u8,
        0u8,
        0x69u8,
        0u8,
        0x73u8,
        0u8,
        0x6Bu8,
        0u8,
    ];
    assert(descriptors::string_descriptor_of(text) =~= full);
}

/// GET DESCRIPTOR with string index 3 answers the serial number, "0001".
pub proof fn serial_number_string_is_read(
    d: UsbDescriptors,
    setup: SetupPacket,
    configuration: u8,
    stalled: bool,
    plan: ControlPlan,
)
    requires
        call_ensures(device::handle_setup, (d, setup, configuration, stalled), plan),
        setup.request_type / 32 % 4 == 0,
        setup.request == 6,
        setup.request_type >= 0x80,
        setup.value == 0x303,
    ensures
        setup.length == 0 ==> only_answers(plan, Reply::Reject, configuration),
        setup.length > 0 ==> (plan@.reply matches Reply::Data(data) && {
            &&& data.is_prefix_of(
                seq![
                    10u8,
                    3u8,
                    0x30u8,
                    0u8,
                    0x30u8,
                    0u8,
                    0x30u8,
                    0u8,
                    0x31u8,
                    0u8,
                ],
            )
            &&& data.len() == if setup.length < 10 {
                setup.length as int
            } else {
                10
            }
            &&& only_answers(plan, Reply::Data(data), configuration)
        }),
{
    bytes::lemma_bit_fields(setup.request_type);
    lemma_serial_number();
    let full = seq![
        10u8,
        3u8,
        0x30u8,
        0u8,
        0x30u8,
        0u8,
        0x30u8,
        0u8,
        0x31u8,
        0u8,
    ];
    assert(d.string(3) == Some(full));
}

proof fn lemma_serial_number()
    ensures
        descriptors::string_descriptor_of("0001"@) == seq![
            10u8,
            3u8,
            0x30u8,
            0u8,
            0x30u8,
            0u8,
            0x30u8,
            0u8,
            0x31u8,
            0u8,
        ],
{
    reveal_strlit("0001");
    reveal_with_fuel(descriptors::utf16, 5);
    let text = "0001"@;
    assert(text.take(1).drop_last() =~= text.take(0));
    assert(text.take(2).drop_last() =~= text.take(1));
    assert(text.take(3).drop_last() =~= text.take(2));
    assert(text.take(4).drop_last() =~= text.take(3));
    assert(text.take(4) =~= text);
    let units = descriptors::utf16(text);
    assert(units =~= seq![0x30u16, 0x30u16, 0x30u16, 0x31u16]);
    let full = seq![
        10u8,
        3u8,
        0x30u8,
        0u8,
        0x30u8,
        0u8,
        0x30u8,
        0u8,
        0x31u8,
        0u8,
    ];
    assert(descriptors::string_descriptor_of(text) =~= full);
}

/// GET DESCRIPTOR for anything else, or by a host that does not ask for data, is rejected.
pub proof fn other_descriptors_are_rejected(
    d: UsbDescriptors,
    setup: SetupPacket,
    configuration: u8,
    stalled: bool,
    plan: ControlPlan,
)
    requires
        call_ensures(device::handle_setup, (d, setup, configuration, stalled), plan),
        setup.request_type / 32 % 4 == 0,
        setup.request == 6,
        ({
            ||| setup.request_type < 0x80
            ||| setup.value / 0x100 == 0 || setup.value / 0x100 > 3
            ||| setup.value / 0x100 == 3 && setup.value % 0x100 > 3
        }),
    ensures
        only_answers(plan, Reply::Reject, configuration),
{
    bytes::lemma_bit_fields(setup.request_type);
}

/// What is sent to a host that asks for `requested` bytes is the first of them, as many as there
/// are; nothing to send is a rejection.
pub proof fn answers_are_cut_at_what_is_asked_for(
    data: ControlData,
    requested: u16,
    reply: ControlReply,
)
    requires
        call_ensures(device::send_control_in, (data, requested), reply),
    ensures
        data.bytes().len() == 0 || requested == 0 <==> reply@ == Reply::Reject,
        data.bytes().len() > 0 && requested > 0 ==> (reply@ matches Reply::Data(sent) && {
            &&& sent.is_prefix_of(data.bytes())
            &&& sent.len() == if data.bytes().len() < requested {
                data.bytes().len() as int
            } else {
                requested as int
            }
        }),
{
}

/// A bus reset unconfigures the device: both bulk endpoints are disabled and cleared of stalls, and
/// the data path starts anew.
pub proof fn bus_reset_starts_anew(d: UsbDescriptors, plan: BusResetPlan)
    requires
        call_ensures(device::bus_reset_plan, (d,), plan),
    ensures
        plan.configuration == 0,
        plan.bulk_reset,
        plan.ops@ == seq![
            BusOp::SetEnabled { endpoint: d.bulk_out, enabled: false },
            BusOp::SetEnabled { endpoint: d.bulk_in, enabled: false },
            BusOp::SetStalled { endpoint: d.bulk_out, stalled: false },
            BusOp::SetStalled { endpoint: d.bulk_in, stalled: false },
        ],
{
    assert(plan.ops@ =~= device::bus_reset_ops(d));
}

/// The endpoints that are stalled for the data path are those that it asked for: bit 0 is the
/// bulk-IN, bit 1 the bulk-OUT endpoint.
pub proof fn requested_stalls_are_applied(d: UsbDescriptors, actions: u8, ops: Vec<BusOp>)
    requires
        call_ensures(device::pending_bot_actions, (d, actions), ops),
    ensures
        actions % 2 == 1 <==> ops@.contains(
            BusOp::SetStalled { endpoint: d.bulk_in, stalled: true },
        ) && (d.bulk_in == d.bulk_out ==> actions % 4 != 2),
        actions / 2 % 2 == 1 <==> ops@.contains(
            BusOp::SetStalled { endpoint: d.bulk_out, stalled: true },
        ) && (d.bulk_in == d.bulk_out ==> actions % 4 != 1),
        ops@.len() == actions % 2 + actions / 2 % 2,
{
    bytes::lemma_bit_fields(actions);
    let out_op = BusOp::SetStalled { endpoint: d.bulk_out, stalled: true };
    let in_op = BusOp::SetStalled { endpoint: d.bulk_in, stalled: true };
    if actions / 2 % 2 == 1 {
        assert(ops@[0] == out_op);
        if actions % 2 == 1 {
            assert(ops@[1] == in_op);
        }
    } else if actions % 2 == 1 {
        assert(ops@[0] == in_op);
    }
}

/// The one request whose answer depends on whether an endpoint is stalled is GET STATUS for it, and
/// the low byte of the index says which endpoint that is.
pub proof fn only_get_status_looks_at_an_endpoint(setup: SetupPacket, endpoint: Option<u8>)
    requires
        call_ensures(device::stall_query, (setup,), endpoint),
    ensures
        endpoint is Some <==> setup.request_type / 32 % 4 == 0 && setup.request == 0
            && setup.request_type % 32 == 2,
        endpoint matches Some(e) ==> e == setup.index % 0x100,
{
    bytes::lemma_bit_fields(setup.request_type);
}

/// The bulk endpoints are reset by clearing their stalls, disabling them, and enabling them again
/// where the device is configured.
pub proof fn endpoints_are_reset(d: UsbDescriptors, configuration: u8, ops: Vec<BusOp>)
    requires
        call_ensures(device::reset_bulk_endpoints, (d, configuration), ops),
    ensures
        ops@.take(4) == seq![
            BusOp::SetStalled { endpoint: d.bulk_out, stalled: false },
            BusOp::SetStalled { endpoint: d.bulk_in, stalled: false },
            BusOp::SetEnabled { endpoint: d.bulk_out, enabled: false },
            BusOp::SetEnabled { endpoint: d.bulk_in, enabled: false },
        ],
        configuration != 1 ==> ops@.len() == 4,
        configuration == 1 ==> ops@.skip(4) == seq![
            BusOp::SetEnabled { endpoint: d.bulk_out, enabled: true },
            BusOp::SetEnabled { endpoint: d.bulk_in, enabled: true },
        ],
{
    assert(ops@ =~= device::reset_ops(d, configuration));
}

/// A string descriptor of text in the first plane is its length, the type, and two bytes for each
/// character: its code, the low byte first.
/// There is room for 31 characters, and the text is cut behind them.
pub proof fn plain_text_is_two_bytes_a_character(text: &str, descriptor: ControlData)
    requires
        call_ensures(descriptors::build_string_descriptor, (text,), descriptor),
        forall|i: int| 0 <= i < text@.len() ==> (#[trigger] text@[i]) as u32 <= 0xFFFF,
    ensures
        ({
            let kept = if text@.len() < 31 {
                text@.len() as int
            } else {
                31
            };
            let data = descriptor.bytes();
            &&& data.len() == 2 + 2 * kept
            &&& data[0] == data.len()
            &&& data[1] == 3
            &&& forall|i: int|
                0 <= i < kept ==> data[2 + 2 * i] + 0x100 * data[2 + 2 * i + 1] == (
                #[trigger] text@[i]) as u32
        }),
{
    lemma_plain_units(text@);
    let units = descriptors::utf16(text@);
    let data = descriptor.bytes();
    let kept = if units.len() <= 31 {
        units
    } else {
        units.take(31)
    };
    assert(data == descriptors::string_descriptor_of(text@));
    assert forall|i: int| 0 <= i < kept.len() implies data[2 + 2 * i] + 0x100 * data[2 + 2
        * i + 1] == (#[trigger] text@[i]) as u32 by {
        assert(kept[i] == units[i]);
        assert(units[i] == text@[i] as u32);
        let b = descriptors::unit_bytes(kept);
        assert(data[2 + 2 * i] == b[2 * i]);
        assert(data[2 + 2 * i + 1] == b[2 * i + 1]);
        assert((2 * i) / 2 == i && (2 * i) % 2 == 0 && (2 * i + 1) / 2 == i && (2 * i + 1) % 2 == 1);
    }
}

proof fn lemma_plain_units(text: Seq<char>)
    requires
        forall|i: int| 0 <= i < text.len() ==> (#[trigger] text[i]) as u32 <= 0xFFFF,
    ensures
        descriptors::utf16(text).len() == text.len(),
        forall|i: int|
            0 <= i < text.len() ==> #[trigger] descriptors::utf16(text)[i] == text[i] as u32,
    decreases text.len(),
{
    if text.len() > 0 {
        let init = text.drop_last();
        assert forall|i: int| 0 <= i < init.len() implies (#[trigger] init[i]) as u32 <= 0xFFFF by {
            assert(init[i] == text[i]);
        }
        lemma_plain_units(init);
        assert(text.last() == text[text.len() - 1]);
    }
}

/// A character beyond the first plane takes two code units, a high and a low surrogate, ten bits in
/// each; any other takes one, which is its code.
pub proof fn characters_are_utf16(c: char)
    ensures
        ({
            let units = descriptors::utf16_units(c);
            &&& (c as u32) < 0x1_0000 ==> units.len() == 1 && units[0] == c as u32
            &&& (c as u32) >= 0x1_0000 ==> {
                &&& units.len() == 2
                &&& 0xD800 <= units[0] < 0xDC00
                &&& 0xDC00 <= units[1] < 0xE000
                &&& 0x1_0000 + 0x400 * (units[0] - 0xD800) + (units[1] - 0xDC00) == c as u32
            }
        }),
{
}

} // verus!
