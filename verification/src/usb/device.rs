//! The control requests: what each of them is answered, and what it does to the bulk endpoints.

use vstd::prelude::*;
use crate::bytes;
use crate::usb::constants::{BOT_ACTION_STALL_IN, BOT_ACTION_STALL_OUT};
use crate::usb::descriptors::{
    self, ControlData, UsbDescriptors, CONFIGURATION_VALUE, INTERFACE_NUMBER,
};

verus! {

pub const REQUEST_GET_STATUS: u8 = 0x00;

pub const REQUEST_CLEAR_FEATURE: u8 = 0x01;

pub const REQUEST_SET_FEATURE: u8 = 0x03;

pub const REQUEST_SET_ADDRESS: u8 = 0x05;

pub const REQUEST_GET_DESCRIPTOR: u8 = 0x06;

pub const REQUEST_GET_CONFIGURATION: u8 = 0x08;

pub const REQUEST_SET_CONFIGURATION: u8 = 0x09;

pub const REQUEST_GET_INTERFACE: u8 = 0x0A;

pub const REQUEST_SET_INTERFACE: u8 = 0x0B;

pub const REQUEST_GET_MAX_LUN: u8 = 0xFE;

pub const REQUEST_BULK_ONLY_RESET: u8 = 0xFF;

pub const KIND_STANDARD: u8 = 0x00;

pub const KIND_CLASS: u8 = 0x20;

pub const RECIPIENT_DEVICE: u8 = 0x00;

pub const RECIPIENT_INTERFACE: u8 = 0x01;

pub const RECIPIENT_ENDPOINT: u8 = 0x02;

/// A setup packet.
#[derive(Copy, Clone, Debug, PartialEq, Eq, Structural)]
pub struct SetupPacket {
    pub request_type: u8,
    pub request: u8,
    pub value: u16,
    pub index: u16,
    pub length: u16,
}

impl SetupPacket {
    pub fn parse(raw: [u8; 8]) -> (setup: Self)
        ensures
            setup.request_type == raw@[0],
            setup.request == raw@[1],
            setup.value == bytes::le16_at(raw@, 2),
            setup.index == bytes::le16_at(raw@, 4),
            setup.length == bytes::le16_at(raw@, 6),
    {
        SetupPacket {
            request_type: raw[0],
            request: raw[1],
            value: bytes::get_le16(&raw, 2),
            index: bytes::get_le16(&raw, 4),
            length: bytes::get_le16(&raw, 6),
        }
    }

    /// Whom the request is for.
    pub open spec fn addressee(&self) -> u8 {
        self.request_type & 0x1F
    }

    pub fn recipient(&self) -> (recipient: u8)
        ensures
            recipient == self.addressee(),
    {
        self.request_type & 0x1F
    }

    /// Whether the request is standard, or of the class.
    pub open spec fn kind(&self) -> u8 {
        self.request_type & 0x60
    }

    pub fn request_kind(&self) -> (kind: u8)
        ensures
            kind == self.kind(),
    {
        self.request_type & 0x60
    }

    /// Whether the host asks for data.
    pub open spec fn inward(&self) -> bool {
        self.request_type & 0x80 != 0
    }

    pub fn is_in(&self) -> (b: bool)
        ensures
            b == self.inward(),
    {
        self.request_type & 0x80 != 0
    }

    /// The endpoint that the request names.
    pub open spec fn endpoint(&self) -> u8 {
        (self.index % 0x100) as u8
    }

    fn endpoint_address(&self) -> (endpoint: u8)
        ensures
            endpoint == self.endpoint(),
    {
        (self.index % 0x100) as u8
    }
}

/// Something to be done to an endpoint.
#[derive(Copy, Clone, Debug, PartialEq, Eq, Structural)]
pub enum BusOp {
    SetEnabled { endpoint: u8, enabled: bool },
    SetStalled { endpoint: u8, stalled: bool },
}

/// How a control request is answered.
#[derive(Copy, Clone, Debug)]
pub enum ControlReply {
    Accept,
    AcceptAddress(u8),
    Reject,
    Data(ControlData),
}

/// What a `ControlReply` says.
#[verifier::ext_equal]
pub enum Reply {
    Accept,
    AcceptAddress(u8),
    Reject,
    Data(Seq<u8>),
}

impl View for ControlReply {
    type V = Reply;

    open spec fn view(&self) -> Reply {
        match *self {
            ControlReply::Accept => Reply::Accept,
            ControlReply::AcceptAddress(address) => Reply::AcceptAddress(address),
            ControlReply::Reject => Reply::Reject,
            ControlReply::Data(data) => Reply::Data(data.bytes()),
        }
    }
}

/// What is to be done about a control request.
#[derive(Debug)]
pub struct ControlPlan {
    /// What is done to the endpoints before the answer.
    pub before: Vec<BusOp>,
    pub reply: ControlReply,
    /// What is done to the endpoints after the answer.
    pub after: Vec<BusOp>,
    /// The configuration from then on.
    pub configuration: u8,
    /// Whether the data path is to be reset.
    pub bulk_reset: bool,
}

/// What a `ControlPlan` says.
#[verifier::ext_equal]
pub struct Plan {
    pub before: Seq<BusOp>,
    pub reply: Reply,
    pub after: Seq<BusOp>,
    pub configuration: u8,
    pub bulk_reset: bool,
}

impl View for ControlPlan {
    type V = Plan;

    open spec fn view(&self) -> Plan {
        Plan {
            before: self.before@,
            reply: self.reply@,
            after: self.after@,
            configuration: self.configuration,
            bulk_reset: self.bulk_reset,
        }
    }
}

impl ControlPlan {
    /// Whether the data of the answer, where there is any, is fit to be sent.
    pub open spec fn wf(&self) -> bool {
        self.reply matches ControlReply::Data(data) ==> data.wf()
    }

    fn answer(reply: ControlReply, configuration: u8) -> (plan: Self)
        ensures
            plan@ == answer_plan(reply@, configuration),
            plan.reply == reply,
    {
        let plan = ControlPlan {
            before: Vec::new(),
            reply,
            after: Vec::new(),
            configuration,
            bulk_reset: false,
        };
        assert(plan@ =~= answer_plan(reply@, configuration));
        plan
    }
}

/// An answer, and nothing else.
pub open spec fn answer_plan(reply: Reply, configuration: u8) -> Plan {
    Plan {
        before: Seq::empty(),
        reply,
        after: Seq::empty(),
        configuration,
        bulk_reset: false,
    }
}

/// The answer that sends `data` to a host that asks for `requested` bytes. Nothing to send is a
/// rejection.
pub open spec fn data_reply(data: Seq<u8>, requested: u16) -> Reply {
    if data.len() == 0 || requested == 0 {
        Reply::Reject
    } else if data.len() <= requested {
        Reply::Data(data)
    } else {
        Reply::Data(data.take(requested as int))
    }
}

/// Both bulk endpoints are enabled, or disabled.
pub open spec fn enable_ops(d: UsbDescriptors, enabled: bool) -> Seq<BusOp> {
    seq![
        BusOp::SetEnabled { endpoint: d.bulk_out, enabled },
        BusOp::SetEnabled { endpoint: d.bulk_in, enabled },
    ]
}

/// Neither bulk endpoint is stalled any longer.
pub open spec fn unstall_ops(d: UsbDescriptors) -> Seq<BusOp> {
    seq![
        BusOp::SetStalled { endpoint: d.bulk_out, stalled: false },
        BusOp::SetStalled { endpoint: d.bulk_in, stalled: false },
    ]
}

/// The bulk endpoints are cleared of stalls and switched off, and on again where they were.
pub open spec fn reset_ops(d: UsbDescriptors, configuration: u8) -> Seq<BusOp> {
    unstall_ops(d) + enable_ops(d, false) + if configuration == CONFIGURATION_VALUE {
        enable_ops(d, true)
    } else {
        Seq::empty()
    }
}

/// What a bus reset does to the endpoints: they are switched off, and cleared of stalls.
pub open spec fn bus_reset_ops(d: UsbDescriptors) -> Seq<BusOp> {
    enable_ops(d, false) + unstall_ops(d)
}

/// The descriptor that a GET DESCRIPTOR names.
pub open spec fn descriptor_of(d: UsbDescriptors, value: u16) -> Option<Seq<u8>> {
    let descriptor_type = value / 0x100;
    let descriptor_index = (value % 0x100) as u8;
    if descriptor_type == 0x01 {
        Some(descriptors::device_descriptor_of())
    } else if descriptor_type == 0x02 {
        Some(d.configuration())
    } else if descriptor_type == 0x03 {
        d.string(descriptor_index)
    } else {
        None
    }
}

/// Whether a request is for the one interface.
pub open spec fn for_interface(setup: SetupPacket) -> bool {
    setup.addressee() == RECIPIENT_INTERFACE && setup.index == INTERFACE_NUMBER
}

/// The answer of a standard request that does nothing to the endpoints and keeps the configuration.
/// `stalled` tells whether the endpoint is stalled that the request names.
pub open spec fn standard_reply(
    d: UsbDescriptors,
    setup: SetupPacket,
    configuration: u8,
    stalled: bool,
) -> Reply {
    if setup.request == REQUEST_GET_DESCRIPTOR && setup.inward() {
        match descriptor_of(d, setup.value) {
            Some(descriptor) => data_reply(descriptor, setup.length),
            None => Reply::Reject,
        }
    } else if setup.request == REQUEST_SET_ADDRESS && setup.value <= 127 {
        Reply::AcceptAddress(setup.value as u8)
    } else if setup.request == REQUEST_GET_CONFIGURATION && setup.length >= 1 {
        Reply::Data(seq![configuration])
    } else if setup.request == REQUEST_GET_STATUS && setup.addressee() <= RECIPIENT_ENDPOINT {
        Reply::Data(
            seq![
                if setup.addressee() == RECIPIENT_ENDPOINT && stalled {
                    1u8
                } else {
                    0u8
                },
                0u8,
            ],
        )
    } else if setup.request == REQUEST_GET_INTERFACE && for_interface(setup) && setup.length >= 1 {
        Reply::Data(seq![0u8])
    } else if setup.request == REQUEST_SET_INTERFACE && for_interface(setup) && setup.value == 0 {
        Reply::Accept
    } else {
        Reply::Reject
    }
}

/// What a standard request does.
pub open spec fn standard_plan(
    d: UsbDescriptors,
    setup: SetupPacket,
    configuration: u8,
    stalled: bool,
) -> Plan {
    if setup.request == REQUEST_SET_CONFIGURATION && setup.index == 0 && setup.value <= 1 {
        let enabled = setup.value == CONFIGURATION_VALUE;
        Plan {
            before: enable_ops(d, enabled) + if enabled {
                Seq::empty()
            } else {
                unstall_ops(d)
            },
            ..answer_plan(Reply::Accept, setup.value as u8)
        }
    } else if (setup.request == REQUEST_CLEAR_FEATURE || setup.request == REQUEST_SET_FEATURE)
        && setup.addressee() == RECIPIENT_ENDPOINT {
        Plan {
            before: seq![
                BusOp::SetStalled {
                    endpoint: setup.endpoint(),
                    stalled: setup.request == REQUEST_SET_FEATURE,
                },
            ],
            ..answer_plan(Reply::Accept, configuration)
        }
    } else {
        answer_plan(standard_reply(d, setup, configuration, stalled), configuration)
    }
}

/// What a class request does.
pub open spec fn class_plan(d: UsbDescriptors, setup: SetupPacket, configuration: u8) -> Plan {
    if setup.request == REQUEST_GET_MAX_LUN && setup.request_type == 0xA1 && setup.index
        == INTERFACE_NUMBER && setup.length >= 1 {
        answer_plan(Reply::Data(seq![0u8]), configuration)
    } else if setup.request == REQUEST_BULK_ONLY_RESET && setup.request_type == 0x21 && setup.index
        == INTERFACE_NUMBER && setup.value == 0 && setup.length == 0 {
        Plan {
            after: unstall_ops(d) + reset_ops(d, configuration),
            bulk_reset: true,
            ..answer_plan(Reply::Accept, configuration)
        }
    } else {
        answer_plan(Reply::Reject, configuration)
    }
}

/// What a control request does.
pub open spec fn setup_plan(
    d: UsbDescriptors,
    setup: SetupPacket,
    configuration: u8,
    stalled: bool,
) -> Plan {
    if setup.kind() == KIND_STANDARD {
        standard_plan(d, setup, configuration, stalled)
    } else if setup.kind() == KIND_CLASS {
        class_plan(d, setup, configuration)
    } else {
        answer_plan(Reply::Reject, configuration)
    }
}

/// The answer that sends `data` to a host that asks for `requested_length` bytes.
pub fn send_control_in(data: ControlData, requested_length: u16) -> (reply: ControlReply)
    requires
        data.wf(),
    ensures
        reply@ == data_reply(data.bytes(), requested_length),
        reply matches ControlReply::Data(sent) ==> sent.wf(),
{
    let length = if data.len() < requested_length as usize {
        data.len()
    } else {
        requested_length as usize
    };
    if length == 0 {
        ControlReply::Reject
    } else {
        let sent = data.truncated(length);
        assert(data.bytes().take(data.bytes().len() as int) =~= data.bytes());
        ControlReply::Data(sent)
    }
}

fn push_enable_ops(ops: &mut Vec<BusOp>, d: UsbDescriptors, enabled: bool)
    ensures
        final(ops)@ == old(ops)@ + enable_ops(d, enabled),
{
    ops.push(BusOp::SetEnabled { endpoint: d.bulk_out, enabled });
    ops.push(BusOp::SetEnabled { endpoint: d.bulk_in, enabled });
    assert(ops@ =~= old(ops)@ + enable_ops(d, enabled));
}

fn push_unstall_ops(ops: &mut Vec<BusOp>, d: UsbDescriptors)
    ensures
        final(ops)@ == old(ops)@ + unstall_ops(d),
{
    ops.push(BusOp::SetStalled { endpoint: d.bulk_out, stalled: false });
    ops.push(BusOp::SetStalled { endpoint: d.bulk_in, stalled: false });
    assert(ops@ =~= old(ops)@ + unstall_ops(d));
}

/// What resets the bulk endpoints.
///
/// BOT Reset requires clearing endpoint halt and re-synchronizing data toggle. A bus driver has no
/// explicit "reset toggle" primitive, so the most portable sequence is used: clear STALL, then
/// disable and enable the endpoints.
pub fn reset_bulk_endpoints(d: UsbDescriptors, configuration: u8) -> (ops: Vec<BusOp>)
    ensures
        ops@ == reset_ops(d, configuration),
{
    let mut ops: Vec<BusOp> = Vec::new();
    push_unstall_ops(&mut ops, d);
    push_enable_ops(&mut ops, d, false);
    if configuration == CONFIGURATION_VALUE {
        push_enable_ops(&mut ops, d, true);
    }
    assert(ops@ =~= reset_ops(d, configuration));
    ops
}

/// What is to be done about a bus reset.
#[derive(Debug)]
pub struct BusResetPlan {
    /// What is done to the endpoints.
    pub ops: Vec<BusOp>,
    /// The configuration from then on.
    pub configuration: u8,
    /// Whether the data path is to be reset.
    pub bulk_reset: bool,
}

/// Decides on a bus reset: the device is unconfigured, and the data path starts anew.
pub fn bus_reset_plan(d: UsbDescriptors) -> (plan: BusResetPlan)
    ensures
        plan.ops@ == bus_reset_ops(d),
        plan.configuration == 0,
        plan.bulk_reset,
{
    let mut ops: Vec<BusOp> = Vec::new();
    push_enable_ops(&mut ops, d, false);
    push_unstall_ops(&mut ops, d);
    assert(ops@ =~= bus_reset_ops(d));
    BusResetPlan { ops, configuration: 0, bulk_reset: true }
}

/// The stalls that the data path has asked for with `actions`.
pub open spec fn stall_ops(d: UsbDescriptors, actions: u8) -> Seq<BusOp> {
    (if actions & BOT_ACTION_STALL_OUT != 0 {
        seq![BusOp::SetStalled { endpoint: d.bulk_out, stalled: true }]
    } else {
        Seq::empty()
    }) + if actions & BOT_ACTION_STALL_IN != 0 {
        seq![BusOp::SetStalled { endpoint: d.bulk_in, stalled: true }]
    } else {
        Seq::empty()
    }
}

/// What applies the actions that the data path has asked for.
pub fn pending_bot_actions(d: UsbDescriptors, actions: u8) -> (ops: Vec<BusOp>)
    ensures
        ops@ == stall_ops(d, actions),
{
    let mut ops: Vec<BusOp> = Vec::new();
    if actions & BOT_ACTION_STALL_OUT != 0 {
        ops.push(BusOp::SetStalled { endpoint: d.bulk_out, stalled: true });
    }
    if actions & BOT_ACTION_STALL_IN != 0 {
        ops.push(BusOp::SetStalled { endpoint: d.bulk_in, stalled: true });
    }
    assert(ops@ =~= stall_ops(d, actions));
    ops
}

/// The endpoint whose stall the answer of a request depends on.
pub fn stall_query(setup: SetupPacket) -> (endpoint: Option<u8>)
    ensures
        endpoint == if setup.kind() == KIND_STANDARD && setup.request == REQUEST_GET_STATUS
            && setup.addressee() == RECIPIENT_ENDPOINT {
            Some(setup.endpoint())
        } else {
            None
        },
{
    if setup.request_kind() == KIND_STANDARD && setup.request == REQUEST_GET_STATUS
        && setup.recipient() == RECIPIENT_ENDPOINT {
        Some(setup.endpoint_address())
    } else {
        None
    }
}

/// Decides on a control request. `stalled` tells whether the endpoint is stalled that `stall_query`
/// names.
pub fn handle_setup(d: UsbDescriptors, setup: SetupPacket, configuration: u8, stalled: bool) -> (
plan: ControlPlan)
    ensures
        plan.wf(),
        plan@ == setup_plan(d, setup, configuration, stalled),
{
    if setup.request_kind() == KIND_STANDARD {
        handle_standard_request(d, setup, configuration, stalled)
    } else if setup.request_kind() == KIND_CLASS {
        handle_class_request(d, setup, configuration)
    } else {
        ControlPlan::answer(ControlReply::Reject, configuration)
    }
}

fn get_descriptor(d: UsbDescriptors, setup: SetupPacket) -> (reply: ControlReply)
    ensures
        reply@ == match descriptor_of(d, setup.value) {
            Some(descriptor) => data_reply(descriptor, setup.length),
            None => Reply::Reject,
        },
        reply matches ControlReply::Data(sent) ==> sent.wf(),
{
    let descriptor_type = setup.value / 0x100;
    let descriptor_index = (setup.value % 0x100) as u8;
    if descriptor_type == 0x01 {
        send_control_in(ControlData::new(&d.device_descriptor()), setup.length)
    } else if descriptor_type == 0x02 {
        send_control_in(ControlData::new(&d.configuration_descriptor()), setup.length)
    } else if descriptor_type == 0x03 {
        match d.string_descriptor(descriptor_index) {
            Some(descriptor) => send_control_in(descriptor, setup.length),
            None => ControlReply::Reject,
        }
    } else {
        ControlReply::Reject
    }
}

fn one_byte(value: u8) -> (reply: ControlReply)
    ensures
        reply@ == Reply::Data(seq![value]),
        reply matches ControlReply::Data(sent) ==> sent.wf(),
{
    let data = [value];
    assert(data@ =~= seq![value]);
    ControlReply::Data(ControlData::new(&data))
}

pub fn handle_standard_request(
    d: UsbDescriptors,
    setup: SetupPacket,
    configuration: u8,
    stalled: bool,
) -> (plan: ControlPlan)
    ensures
        plan.wf(),
        plan@ == standard_plan(d, setup, configuration, stalled),
{
    if setup.request == REQUEST_GET_DESCRIPTOR {
        if setup.is_in() {
            return ControlPlan::answer(get_descriptor(d, setup), configuration);
        }
    } else if setup.request == REQUEST_SET_ADDRESS {
        if setup.value <= 127 {
            return ControlPlan::answer(
                ControlReply::AcceptAddress(setup.value as u8),
                configuration,
            );
        }
    } else if setup.request == REQUEST_SET_CONFIGURATION {
        if setup.index == 0 && (setup.value == 0 || setup.value == 1) {
            let configuration = setup.value as u8;
            let enabled = configuration == CONFIGURATION_VALUE;
            let mut before: Vec<BusOp> = Vec::new();
            push_enable_ops(&mut before, d, enabled);
            if !enabled {
                push_unstall_ops(&mut before, d);
            }
            let mut plan = ControlPlan::answer(ControlReply::Accept, configuration);
            plan.before = before;
            assert(plan@ =~= standard_plan(d, setup, configuration, stalled));
            return plan;
        }
    } else if setup.request == REQUEST_GET_CONFIGURATION {
        if setup.length >= 1 {
            return ControlPlan::answer(one_byte(configuration), configuration);
        }
    } else if setup.request == REQUEST_GET_STATUS {
        let recipient = setup.recipient();
        if recipient == RECIPIENT_DEVICE || recipient == RECIPIENT_INTERFACE || recipient
            == RECIPIENT_ENDPOINT {
            let status = [
                if recipient == RECIPIENT_ENDPOINT && stalled {
                    1u8
                } else {
                    0u8
                },
                0u8,
            ];
            let reply = ControlReply::Data(ControlData::new(&status));
            assert(reply@ =~= standard_reply(d, setup, configuration, stalled));
            return ControlPlan::answer(reply, configuration);
        }
    } else if setup.request == REQUEST_CLEAR_FEATURE || setup.request == REQUEST_SET_FEATURE {
        if setup.recipient() == RECIPIENT_ENDPOINT {
            let mut before: Vec<BusOp> = Vec::new();
            before.push(
                BusOp::SetStalled {
                    endpoint: setup.endpoint_address(),
                    stalled: setup.request == REQUEST_SET_FEATURE,
                },
            );
            let mut plan = ControlPlan::answer(ControlReply::Accept, configuration);
            plan.before = before;
            assert(plan@ =~= standard_plan(d, setup, configuration, stalled));
            return plan;
        }
    } else if setup.request == REQUEST_GET_INTERFACE {
        if setup.recipient() == RECIPIENT_INTERFACE && setup.index == INTERFACE_NUMBER as u16
            && setup.length >= 1 {
            return ControlPlan::answer(one_byte(0), configuration);
        }
    } else if setup.request == REQUEST_SET_INTERFACE {
        if setup.recipient() == RECIPIENT_INTERFACE && setup.index == INTERFACE_NUMBER as u16
            && setup.value == 0 {
            return ControlPlan::answer(ControlReply::Accept, configuration);
        }
    }
    ControlPlan::answer(ControlReply::Reject, configuration)
}

pub fn handle_class_request(d: UsbDescriptors, setup: SetupPacket, configuration: u8) -> (plan:
    ControlPlan)
    ensures
        plan.wf(),
        plan@ == class_plan(d, setup, configuration),
{
    if setup.request == REQUEST_GET_MAX_LUN && setup.request_type == 0xA1 && setup.index
        == INTERFACE_NUMBER as u16 && setup.length >= 1 {
        return ControlPlan::answer(one_byte(0), configuration);
    }
    if setup.request == REQUEST_BULK_ONLY_RESET && setup.request_type == 0x21 && setup.index
        == INTERFACE_NUMBER as u16 && setup.value == 0 && setup.length == 0 {
        let mut after: Vec<BusOp> = Vec::new();
        push_unstall_ops(&mut after, d);
        let mut reset = reset_bulk_endpoints(d, configuration);
        after.append(&mut reset);
        let mut plan = ControlPlan::answer(ControlReply::Accept, configuration);
        plan.after = after;
        plan.bulk_reset = true;
        assert(plan@ =~= class_plan(d, setup, configuration));
        return plan;
    }
    ControlPlan::answer(ControlReply::Reject, configuration)
}

/// The host reads back the configuration that it set.
pub proof fn configuration_reads_back(
    d: UsbDescriptors,
    set: SetupPacket,
    get: SetupPacket,
    configuration: u8,
)
    requires
        set.kind() == KIND_STANDARD,
        set.request == REQUEST_SET_CONFIGURATION,
        set.index == 0,
        set.value <= 1,
        get.kind() == KIND_STANDARD,
        get.request == REQUEST_GET_CONFIGURATION,
        get.length >= 1,
    ensures
        ({
            let plan = setup_plan(d, set, configuration, false);
            &&& plan.reply == Reply::Accept
            &&& setup_plan(d, get, plan.configuration, false).reply == Reply::Data(
                seq![set.value as u8],
            )
        }),
{
}

/// The stall state of an endpoint after bus operations.
pub open spec fn stalled_after(ops: Seq<BusOp>, endpoint: u8, stalled: bool) -> bool
    decreases ops.len(),
{
    if ops.len() == 0 {
        stalled
    } else {
        match ops.last() {
            BusOp::SetStalled { endpoint: e, stalled: s } => if e == endpoint {
                s
            } else {
                stalled_after(ops.drop_last(), endpoint, stalled)
            },
            BusOp::SetEnabled { .. } => stalled_after(ops.drop_last(), endpoint, stalled),
        }
    }
}

/// The host reads back the halt that it set or cleared: GET STATUS reports what SET FEATURE and
/// CLEAR FEATURE have left.
pub proof fn endpoint_halt_reads_back(
    d: UsbDescriptors,
    feature: SetupPacket,
    status: SetupPacket,
    configuration: u8,
    stalled: bool,
)
    requires
        feature.kind() == KIND_STANDARD,
        feature.request == REQUEST_SET_FEATURE || feature.request == REQUEST_CLEAR_FEATURE,
        feature.addressee() == RECIPIENT_ENDPOINT,
        status.kind() == KIND_STANDARD,
        status.request == REQUEST_GET_STATUS,
        status.addressee() == RECIPIENT_ENDPOINT,
        status.endpoint() == feature.endpoint(),
    ensures
        ({
            let plan = setup_plan(d, feature, configuration, stalled);
            let now = stalled_after(plan.before, status.endpoint(), stalled);
            let halted = feature.request == REQUEST_SET_FEATURE;
            &&& plan.reply == Reply::Accept
            &&& now == halted
            &&& setup_plan(d, status, configuration, now).reply == Reply::Data(
                seq![
                    if halted {
                        1u8
                    } else {
                        0u8
                    },
                    0u8,
                ],
            )
        }),
{
}

/// A Bulk-Only reset is accepted, leaves neither bulk endpoint stalled, keeps the configuration,
/// and has the data path start anew.
pub proof fn bulk_only_reset_clears_the_stalls(
    d: UsbDescriptors,
    setup: SetupPacket,
    configuration: u8,
    stalled: bool,
)
    requires
        setup.request == REQUEST_BULK_ONLY_RESET,
        setup.request_type == 0x21,
        setup.index == INTERFACE_NUMBER,
        setup.value == 0,
        setup.length == 0,
    ensures
        ({
            let plan = setup_plan(d, setup, configuration, stalled);
            &&& plan.reply == Reply::Accept
            &&& plan.bulk_reset
            &&& plan.configuration == configuration
            &&& !stalled_after(plan.after, d.bulk_out, stalled)
            &&& !stalled_after(plan.after, d.bulk_in, stalled)
        }),
{
    assert(0x21u8 & 0x60 == 0x20) by (bit_vector);
    let ops = unstall_ops(d) + reset_ops(d, configuration);
    reveal_with_fuel(stalled_after, 9);
    if configuration == CONFIGURATION_VALUE {
        assert(ops.len() == 8);
    } else {
        assert(ops.len() == 6);
    }
}

/// Whether an endpoint is enabled after bus operations.
pub open spec fn enabled_after(ops: Seq<BusOp>, endpoint: u8, enabled: bool) -> bool
    decreases ops.len(),
{
    if ops.len() == 0 {
        enabled
    } else {
        match ops.last() {
            BusOp::SetEnabled { endpoint: e, enabled: on } => if e == endpoint {
                on
            } else {
                enabled_after(ops.drop_last(), endpoint, enabled)
            },
            BusOp::SetStalled { .. } => enabled_after(ops.drop_last(), endpoint, enabled),
        }
    }
}

/// The bulk endpoints are enabled while the device is configured, and only then: every control
/// request keeps it so, and so does a bus reset.
pub proof fn bulk_endpoints_are_enabled_while_configured(
    d: UsbDescriptors,
    setup: SetupPacket,
    configuration: u8,
    stalled: bool,
    endpoint: u8,
)
    requires
        endpoint == d.bulk_out || endpoint == d.bulk_in,
    ensures
        ({
            let plan = setup_plan(d, setup, configuration, stalled);
            enabled_after(
                plan.before + plan.after,
                endpoint,
                configuration == CONFIGURATION_VALUE,
            ) == (plan.configuration == CONFIGURATION_VALUE)
        }),
        !enabled_after(bus_reset_ops(d), endpoint, configuration == CONFIGURATION_VALUE),
        !stalled_after(bus_reset_ops(d), endpoint, stalled),
{
    reveal_with_fuel(enabled_after, 9);
    reveal_with_fuel(stalled_after, 9);
    assert(bus_reset_ops(d).len() == 4);
    let plan = setup_plan(d, setup, configuration, stalled);
    let ops = plan.before + plan.after;
    if plan.bulk_reset {
        assert(ops =~= unstall_ops(d) + reset_ops(d, configuration));
    } else {
        assert(ops =~= plan.before);
    }
}

} // verus!
