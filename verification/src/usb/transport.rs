//! What a host sees of the transport: the bytes of the wrappers, the packets of a data phase, and
//! what the two paths of the device ask of each other.

use vstd::prelude::*;
use crate::bytes;
use crate::storage::block::BlockStorage;
use crate::usb::bot::{self, BotControl, Cbw, Csw, DataDirection, DataEndpoint, EndpointError};
use crate::usb::commands::{self, CommandOutcome, StallAfterCsw};
use crate::usb::packets;
use crate::usb::session::{self, BotSession, BotState, SessionStep, StallAckWait};

verus! {

/// A command wrapper says what its bytes say: the tag and the length of the data little-endian from
/// bytes 4 and 8 on, the flags, the unit, the length of the command block, and the command block.
/// A packet that is shorter has zeros for the rest.
pub proof fn wrapper_is_taken_apart(packet: &[u8], cbw: Cbw)
    requires
        call_ensures(Cbw::parse, (packet,), cbw),
    ensures
        cbw.packet_len == packet@.len(),
        cbw.signature_valid <==> {
            &&& packet@.len() >= 4
            &&& packet@[0] == 0x55 && packet@[1] == 0x53 && packet@[2] == 0x42 && packet@[3] == 0x43
        },
        ({
            // A byte that is missing is zero.
            let byte = |i: int|
                if i < packet@.len() {
                    packet@[i]
                } else {
                    0u8
                };
            &&& cbw.tag == byte(4) + 0x100 * byte(5) + 0x1_0000 * byte(6) + 0x100_0000 * byte(7)
            &&& cbw.data_transfer_length == byte(8) + 0x100 * byte(9) + 0x1_0000 * byte(10)
                + 0x100_0000 * byte(11)
        }),
        packet@.len() > 12 ==> cbw.flags == packet@[12],
        packet@.len() > 13 ==> cbw.lun == packet@[13],
        packet@.len() > 14 ==> cbw.command_length == packet@[14],
        packet@.len() <= 12 ==> cbw.flags == 0,
        packet@.len() <= 13 ==> cbw.lun == 0,
        packet@.len() <= 14 ==> cbw.command_length == 0,
        forall|i: int|
            0 <= i < 16 ==> #[trigger] cbw.command@[i] == if 15 + i < packet@.len() {
                packet@[15 + i]
            } else {
                0u8
            },
{
    let raw = bot::cbw_bytes(packet@);
    assert(cbw.command@ == raw.subrange(15, 31));
    assert forall|i: int| 0 <= i < 16 implies #[trigger] cbw.command@[i] == if 15 + i
        < packet@.len() {
        packet@[15 + i]
    } else {
        0u8
    } by {
        assert(cbw.command@[i] == raw[15 + i]);
    }
}

/// A command wrapper is valid exactly where it is whole, begins with the signature, has no flag but
/// the direction, is for the only unit, and has a command block of 1 to 16 bytes.
pub proof fn wrapper_is_checked(packet: &[u8], cbw: Cbw, valid: bool)
    requires
        call_ensures(Cbw::parse, (packet,), cbw),
        call_ensures(Cbw::is_valid, (&cbw,), valid),
    ensures
        valid <==> {
            &&& packet@.len() >= 31
            &&& packet@[0] == 0x55 && packet@[1] == 0x53 && packet@[2] == 0x42 && packet@[3] == 0x43
            &&& packet@[12] == 0 || packet@[12] == 0x80
            &&& packet@[13] == 0
            &&& 1 <= packet@[14] <= 16
        },
{
    wrapper_is_taken_apart(packet, cbw);
    bytes::lemma_bit_fields(cbw.flags);
}

/// A wrapper is taken from every packet that holds something, as its bytes say.
pub proof fn wrapper_is_received(packet: &[u8], received: Option<Cbw>, parsed: Cbw)
    requires
        call_ensures(Cbw::received, (packet,), received),
        call_ensures(Cbw::parse, (packet,), parsed),
    ensures
        packet@.len() == 0 <==> received is None,
        received matches Some(cbw) ==> {
            &&& cbw.packet_len == parsed.packet_len
            &&& cbw.signature_valid == parsed.signature_valid
            &&& cbw.tag == parsed.tag
            &&& cbw.data_transfer_length == parsed.data_transfer_length
            &&& cbw.flags == parsed.flags
            &&& cbw.lun == parsed.lun
            &&& cbw.command_length == parsed.command_length
            &&& cbw.command@ == parsed.command@
        },
{
}

/// The first byte of the command block says which command it is.
pub proof fn command_block_begins_with_the_operation_code(cbw: Cbw, opcode: u8)
    requires
        call_ensures(Cbw::opcode, (&cbw,), opcode),
    ensures
        opcode == cbw.command@[0],
{
}

/// A host that announces no data has none, and else bit 7 of the flags tells which way it goes.
pub proof fn flags_tell_the_direction(cbw: Cbw, inward: bool, direction: DataDirection)
    requires
        call_ensures(Cbw::expects_in, (&cbw,), inward),
        call_ensures(Cbw::data_direction, (&cbw,), direction),
    ensures
        inward <==> cbw.flags >= 0x80,
        direction == DataDirection::NoData <==> cbw.data_transfer_length == 0,
        direction == DataDirection::In <==> cbw.data_transfer_length > 0 && cbw.flags >= 0x80,
        direction == DataDirection::Out <==> cbw.data_transfer_length > 0 && cbw.flags < 0x80,
{
    bytes::lemma_bit_fields(cbw.flags);
}

/// A wrapper that is made of its fields has them, and is whole.
pub proof fn wrapper_is_made_of_its_fields(
    tag: u32,
    data_transfer_length: u32,
    flags: u8,
    lun: u8,
    command_length: u8,
    command: [u8; 16],
    cbw: Cbw,
)
    requires
        call_ensures(
            Cbw::new,
            (tag, data_transfer_length, flags, lun, command_length, command),
            cbw,
        ),
    ensures
        cbw.packet_len == 31,
        cbw.signature_valid,
        cbw.tag == tag,
        cbw.data_transfer_length == data_transfer_length,
        cbw.flags == flags,
        cbw.lun == lun,
        cbw.command_length == command_length,
        cbw.command == command,
{
}

/// Whether 13 bytes are a status wrapper: the signature, then the tag and what is missing, both
/// little-endian, and the status.
pub open spec fn is_status_wrapper(wire: Seq<u8>, csw: Csw) -> bool {
    &&& wire.len() == 13
    &&& wire[0] == 0x55 && wire[1] == 0x53 && wire[2] == 0x42 && wire[3] == 0x53
    &&& wire[4] + 0x100 * wire[5] + 0x1_0000 * wire[6] + 0x100_0000 * wire[7] == csw.tag
    &&& wire[8] + 0x100 * wire[9] + 0x1_0000 * wire[10] + 0x100_0000 * wire[11] == csw.residue
    &&& wire[12] == csw.status
}

proof fn lemma_wire(csw: Csw)
    ensures
        is_status_wrapper(csw.wire(), csw),
{
    let wire = csw.wire();
    let tag = bytes::le32_bytes(csw.tag);
    let residue = bytes::le32_bytes(csw.residue);
    bytes::lemma_le32_round_trip(csw.tag);
    bytes::lemma_le32_round_trip(csw.residue);
    assert(wire[4] == tag[0] && wire[5] == tag[1] && wire[6] == tag[2] && wire[7] == tag[3]);
    assert(wire[8] == residue[0] && wire[9] == residue[1] && wire[10] == residue[2] && wire[11]
        == residue[3]);
}

/// A status wrapper is the signature, the tag of its command, what is missing, and the status.
pub proof fn status_wrapper_is_thirteen_bytes(csw: Csw, wire: [u8; 13])
    requires
        call_ensures(Csw::to_bytes, (csw,), wire),
    ensures
        is_status_wrapper(wire@, csw),
{
    lemma_wire(csw);
}

/// Two status wrappers look the same on the wire only where they are.
pub proof fn status_wrappers_are_told_apart(a: Csw, b: Csw, wire: Seq<u8>)
    requires
        is_status_wrapper(wire, a),
        is_status_wrapper(wire, b),
    ensures
        a == b,
{
}

/// A bulk-IN data phase sends the data, as far as the host expects it, in packets of 64 bytes and a
/// shorter last one. An empty packet follows exactly where the host expects more and no packet was
/// short.
pub proof fn data_is_sent_in_packets_of_64<IN: DataEndpoint>(
    in_ep: &mut IN,
    data: &[u8],
    expected: u32,
    expects_in: bool,
    r: Result<u32, EndpointError>,
)
    requires
        call_ensures(bot::send_in_data::<IN>, (in_ep, data, expected, expects_in), r),
        r is Ok,
    ensures
        ({
            let n = if data@.len() < expected {
                data@.len() as int
            } else {
                expected as int
            };
            let filled = (n + 63) / 64;
            let ended = expects_in && 0 < n < expected && n % 64 == 0;
            let first = old(in_ep).sent().len();
            &&& r == Ok::<u32, EndpointError>(n as u32)
            &&& final(in_ep).sent().len() == first + filled + if ended {
                1int
            } else {
                0
            }
            &&& forall|j: int|
                0 <= j < first ==> #[trigger] final(in_ep).sent()[j] == old(in_ep).sent()[j]
            &&& forall|j: int|
                0 <= j < filled ==> (#[trigger] final(in_ep).sent()[first + j]).len() == if 64 * j + 64
                    <= n {
                    64int
                } else {
                    n - 64 * j
                }
            &&& forall|j: int, o: int|
                0 <= j < filled && 0 <= o < final(in_ep).sent()[first + j].len()
                    ==> #[trigger] final(in_ep).sent()[first + j][o] == data@[64 * j + o]
            &&& ended ==> final(in_ep).sent().last().len() == 0
        }),
{
}

/// Joining packets puts their bytes one behind the other.
pub proof fn packets_are_joined_in_order(packets: Seq<Seq<u8>>, packet: Seq<u8>)
    ensures
        packets::joined(Seq::empty()).len() == 0,
        packets::joined(packets.push(packet)).len() == packets::joined(packets).len()
            + packet.len(),
        forall|i: int|
            0 <= i < packets::joined(packets).len() ==> #[trigger] packets::joined(
                packets.push(packet),
            )[i] == packets::joined(packets)[i],
        forall|i: int|
            0 <= i < packet.len() ==> packets::joined(packets.push(packet))[packets::joined(
                packets,
            ).len() + i] == #[trigger] packet[i],
{
    packets::lemma_joined_push(packets, packet);
}

/// A session that waits takes the next packet for a wrapper. A valid one is executed next; any
/// other is answered with a phase error under its tag, with everything missing and both endpoints
/// stalled. The session waits 1500 milliseconds for it, and keeps what outlives a command.
pub proof fn session_takes_a_wrapper<OUT: DataEndpoint, IN: DataEndpoint, S: BlockStorage>(
    session: (BotSession, BotSession),
    storage: (&S, &S),
    out_ep: (&OUT, &OUT),
    in_ep: (&IN, &IN),
    control: (BotControl, BotControl),
    r: SessionStep,
    packet: &[u8],
    parsed: Cbw,
    valid: bool,
)
    requires
        session::stepped(session, storage, out_ep, in_ep, control, r),
        session.0.state == BotState::WaitingForCbw,
        control.0.msc_events % 2 == 0,
        out_ep.0.healthy(),
        out_ep.0.incoming().len() > 0,
        out_ep.0.incoming()[0] == packet@,
        0 < packet@.len() <= 64,
        call_ensures(Cbw::parse, (packet,), parsed),
        call_ensures(Cbw::is_valid, (&parsed,), valid),
    ensures
        r == SessionStep::Continue,
        valid ==> (session.1.state matches BotState::Executing(cbw) && {
            &&& cbw.tag == parsed.tag
            &&& cbw.data_transfer_length == parsed.data_transfer_length
            &&& cbw.flags == parsed.flags
            &&& cbw.command@ == parsed.command@
        }),
        !valid ==> session.1.state == (BotState::SendingCsw {
            csw: Csw { tag: parsed.tag, residue: parsed.data_transfer_length, status: 2 },
            stall_before_csw: StallAfterCsw::NoStall,
            stall_after_csw: StallAfterCsw::Both,
        }),
        session.1.sense == session.0.sense,
        session.1.prevent_medium_removal == session.0.prevent_medium_removal,
        out_ep.1.incoming() == out_ep.0.incoming().drop_first(),
        out_ep.1.waits() == out_ep.0.waits().push(1500),
        in_ep.1.sent() == in_ep.0.sent(),
        storage.1.contents() == storage.0.contents(),
{
    bytes::lemma_bit_fields(control.0.msc_events);
}

/// A session that has nothing to take stays as it is.
pub proof fn session_waits_on_where_nothing_comes<
    OUT: DataEndpoint,
    IN: DataEndpoint,
    S: BlockStorage,
>(
    session: (BotSession, BotSession),
    storage: (&S, &S),
    out_ep: (&OUT, &OUT),
    in_ep: (&IN, &IN),
    control: (BotControl, BotControl),
    r: SessionStep,
)
    requires
        session::stepped(session, storage, out_ep, in_ep, control, r),
        session.0.state == BotState::WaitingForCbw,
        control.0.msc_events % 2 == 0,
        out_ep.0.healthy(),
        out_ep.0.incoming().len() == 0 || out_ep.0.incoming()[0].len() == 0,
    ensures
        r == SessionStep::Continue,
        session.1 == session.0,
        in_ep.1.sent() == in_ep.0.sent(),
        storage.1.contents() == storage.0.contents(),
{
    bytes::lemma_bit_fields(control.0.msc_events);
}

/// A session that has an answer to send sends exactly one packet, the status wrapper, and then waits
/// for the next command. The stalls that belong to it are requested, bit 0 for the bulk-IN and bit 1
/// for the bulk-OUT endpoint, and no request is lost.
pub proof fn session_sends_one_status_wrapper<OUT: DataEndpoint, IN: DataEndpoint, S: BlockStorage>(
    session: (BotSession, BotSession),
    storage: (&S, &S),
    out_ep: (&OUT, &OUT),
    in_ep: (&IN, &IN),
    control: (BotControl, BotControl),
    r: SessionStep,
    csw: Csw,
    before: StallAfterCsw,
    after: StallAfterCsw,
)
    requires
        session::stepped(session, storage, out_ep, in_ep, control, r),
        session.0.state == (BotState::SendingCsw {
            csw,
            stall_before_csw: before,
            stall_after_csw: after,
        }),
        control.0.msc_events % 2 == 0,
        in_ep.0.healthy(),
    ensures
        r == SessionStep::Continue,
        session.1.state == BotState::WaitingForCbw,
        session.1.sense == session.0.sense,
        session.1.prevent_medium_removal == session.0.prevent_medium_removal,
        in_ep.1.sent().len() == in_ep.0.sent().len() + 1,
        in_ep.0.sent().is_prefix_of(in_ep.1.sent()),
        is_status_wrapper(in_ep.1.sent().last(), csw),
        control.1.bus_actions % 2 == 1 <==> control.0.bus_actions % 2 == 1 || before
            == StallAfterCsw::In || before == StallAfterCsw::Both || after == StallAfterCsw::In
            || after == StallAfterCsw::Both,
        control.1.bus_actions / 2 % 2 == 1 <==> control.0.bus_actions / 2 % 2 == 1 || before
            == StallAfterCsw::Out || before == StallAfterCsw::Both || after == StallAfterCsw::Out
            || after == StallAfterCsw::Both,
        control.1.bus_actions / 4 == control.0.bus_actions / 4,
        storage.1.contents() == storage.0.contents(),
        out_ep.1.incoming() == out_ep.0.incoming(),
{
    bytes::lemma_bit_fields(control.0.msc_events);
    lemma_wire(csw);
    let a = control.0.bus_actions;
    let x = session::mask_of(before);
    let y = session::mask_of(after);
    assert(0 <= x <= 3 && 0 <= y <= 3);
    assert(((a | x) | y) % 2 == 1 <==> (a % 2 == 1 || x % 2 == 1 || y % 2 == 1)) by (bit_vector);
    assert(((a | x) | y) / 2 % 2 == 1 <==> (a / 2 % 2 == 1 || x / 2 % 2 == 1 || y / 2 % 2 == 1))
        by (bit_vector);
    assert(x <= 3 && y <= 3 ==> ((a | x) | y) / 4 == a / 4) by (bit_vector);
}

/// A session that executes a command has the outcome of that command to send next, as it is, and
/// the sense data and the removal switch as the command left them.
pub proof fn session_sends_the_outcome_of_the_command<
    OUT: DataEndpoint,
    IN: DataEndpoint,
    S: BlockStorage,
>(
    session: (BotSession, BotSession),
    storage: (&S, &S),
    out_ep: (&OUT, &OUT),
    in_ep: (&IN, &IN),
    control: (BotControl, BotControl),
    r: SessionStep,
    cbw: Cbw,
)
    requires
        session::stepped(session, storage, out_ep, in_ep, control, r),
        session.0.state == BotState::Executing(cbw),
        control.0.msc_events % 2 == 0,
    ensures
        exists|outcome: Result<CommandOutcome, EndpointError>|
            {
                &&& #[trigger] commands::executed(
                    cbw,
                    storage,
                    out_ep,
                    in_ep,
                    (session.0.sense, session.1.sense),
                    (session.0.prevent_medium_removal, session.1.prevent_medium_removal),
                    outcome,
                )
                &&& outcome is Err ==> r == SessionStep::Ended
                &&& outcome matches Ok(ended) ==> {
                    &&& r == SessionStep::Continue
                    &&& session.1.state == (BotState::SendingCsw {
                        csw: ended.csw,
                        stall_before_csw: ended.stall_before_csw,
                        stall_after_csw: ended.stall_after_csw,
                    })
                }
            },
{
    bytes::lemma_bit_fields(control.0.msc_events);
}

/// A reset, bit 0 of the events, drops whatever was under way: nothing is sent, nothing is to be
/// reported, the session waits for a command, and the events are taken. Whether removal is prevented
/// outlives it.
pub proof fn reset_drops_what_was_under_way<OUT: DataEndpoint, IN: DataEndpoint, S: BlockStorage>(
    session: (BotSession, BotSession),
    storage: (&S, &S),
    out_ep: (&OUT, &OUT),
    in_ep: (&IN, &IN),
    control: (BotControl, BotControl),
    r: SessionStep,
)
    requires
        session::stepped(session, storage, out_ep, in_ep, control, r),
        control.0.msc_events % 2 == 1,
    ensures
        r == SessionStep::Continue,
        session.1.state == BotState::WaitingForCbw,
        session.1.sense.key == 0 && session.1.sense.asc == 0 && session.1.sense.ascq == 0,
        session.1.sense.information is None && !session.1.sense.ili
            && session.1.sense.field_pointer is None,
        session.1.prevent_medium_removal == session.0.prevent_medium_removal,
        control.1.msc_events == 0,
        control.1.bus_actions == control.0.bus_actions,
        in_ep.1.sent() == in_ep.0.sent(),
        out_ep.1.incoming() == out_ep.0.incoming(),
        storage.1.contents() == storage.0.contents(),
{
    bytes::lemma_bit_fields(control.0.msc_events);
}

/// What a step of a session does is what the laws speak of.
pub proof fn steps_are_what_the_laws_speak_of<OUT: DataEndpoint, IN: DataEndpoint, S: BlockStorage>(
    session: &mut BotSession,
    storage: &mut S,
    out_ep: &mut OUT,
    in_ep: &mut IN,
    control: &mut BotControl,
    r: SessionStep,
)
    requires
        call_ensures(
            BotSession::step::<OUT, IN, S>,
            (session, storage, out_ep, in_ep, control),
            r,
        ),
    ensures
        session::stepped(
            (*old(session), *final(session)),
            (old(storage), final(storage)),
            (old(out_ep), final(out_ep)),
            (old(in_ep), final(in_ep)),
            (*old(control), *final(control)),
            r,
        ),
{
}

/// A session begins waiting, with nothing to report and removal allowed; it begins anew in the same
/// way, but for what outlives it.
pub proof fn session_begins_waiting(fresh: BotSession, again: &mut BotSession)
    requires
        call_ensures(BotSession::new, (), fresh),
        call_ensures(BotSession::restart, (again,), ()),
    ensures
        fresh.state == BotState::WaitingForCbw,
        fresh.sense.key == 0 && fresh.sense.asc == 0 && fresh.sense.ascq == 0,
        fresh.sense.information is None && !fresh.sense.ili && fresh.sense.field_pointer is None,
        !fresh.prevent_medium_removal,
        final(again).state == BotState::WaitingForCbw,
        final(again).sense == old(again).sense,
        final(again).prevent_medium_removal == old(again).prevent_medium_removal,
{
}

/// What the driver of a session takes note of is what the session does next.
pub proof fn session_follows_what_it_is_told(
    wrapped: &mut BotSession,
    cbw: Cbw,
    valid: bool,
    ended: &mut BotSession,
    outcome: CommandOutcome,
    sent: &mut BotSession,
    told: &mut BotSession,
    events: u8,
    reset: bool,
)
    requires
        call_ensures(BotSession::cbw_received, (wrapped, cbw), ()),
        call_ensures(Cbw::is_valid, (&cbw,), valid),
        call_ensures(BotSession::command_finished, (ended, outcome), ()),
        call_ensures(BotSession::csw_sent, (sent,), ()),
        call_ensures(BotSession::handle_events, (told, events), reset),
    ensures
        final(wrapped).state == if valid {
            BotState::Executing(cbw)
        } else {
            BotState::SendingCsw {
                csw: Csw { tag: cbw.tag, residue: cbw.data_transfer_length, status: 2 },
                stall_before_csw: StallAfterCsw::NoStall,
                stall_after_csw: StallAfterCsw::Both,
            }
        },
        final(wrapped).sense == old(wrapped).sense,
        final(ended).state == (BotState::SendingCsw {
            csw: outcome.csw,
            stall_before_csw: outcome.stall_before_csw,
            stall_after_csw: outcome.stall_after_csw,
        }),
        final(ended).sense == old(ended).sense,
        final(sent).state == BotState::WaitingForCbw,
        final(sent).sense == old(sent).sense,
        reset == (events % 2 == 1),
        reset ==> final(told).state == BotState::WaitingForCbw && final(told).sense.key == 0
            && final(told).sense.asc == 0 && final(told).sense.information is None,
        !reset ==> *final(told) == *old(told),
        final(told).prevent_medium_removal == old(told).prevent_medium_removal,
{
    bytes::lemma_bit_fields(events);
}

/// A stall that is requested is bit 0 for the bulk-IN and bit 1 for the bulk-OUT endpoint.
pub proof fn stalls_have_their_bits(stall: StallAfterCsw, mask: u8, wait: StallAckWait)
    requires
        call_ensures(session::stall_mask, (stall,), mask),
        call_ensures(StallAckWait::new, (stall,), wait),
    ensures
        mask < 4,
        mask % 2 == 1 <==> stall == StallAfterCsw::In || stall == StallAfterCsw::Both,
        mask / 2 == 1 <==> stall == StallAfterCsw::Out || stall == StallAfterCsw::Both,
        wait.expected_mask == mask,
        wait.seen == 0,
{
}

/// A wait for stalls is over exactly where every stall that is waited for was seen, in this portion
/// of acknowledgements or in one before.
pub proof fn wait_ends_with_the_last_stall(wait: &mut StallAckWait, acks: u8, done: bool)
    requires
        call_ensures(StallAckWait::note, (wait, acks), done),
        wait.expected_mask < 4,
        wait.seen < 4,
        wait.seen % 2 == 1 ==> wait.expected_mask % 2 == 1,
        wait.seen / 2 == 1 ==> wait.expected_mask / 2 == 1,
    ensures
        done <==> {
            &&& old(wait).expected_mask % 2 == 1 ==> old(wait).seen % 2 == 1 || acks % 2 == 1
            &&& old(wait).expected_mask / 2 == 1 ==> old(wait).seen / 2 == 1 || acks / 2 % 2 == 1
        },
        final(wait).expected_mask == old(wait).expected_mask,
{
    let s = wait.seen;
    let e = wait.expected_mask;
    assert(s < 4 && e < 4 && (s % 2 == 1 ==> e % 2 == 1) && (s / 2 == 1 ==> e / 2 == 1) ==> ((s | (
    acks & e)) == e <==> ((e % 2 == 1 ==> s % 2 == 1 || acks % 2 == 1) && (e / 2 == 1 ==> s / 2 == 1
        || acks / 2 % 2 == 1)))) by (bit_vector);
}

/// The two paths hand each other what they ask for: every request is added to those that are there,
/// and what is taken is everything that was asked for, once.
pub proof fn requests_are_added_and_taken_once(
    stall_in: &mut BotControl,
    stall_out: &mut BotControl,
    reset: &mut BotControl,
    acked: &mut BotControl,
    applied: u8,
)
    requires
        call_ensures(BotControl::request_stall_in, (stall_in,), ()),
        call_ensures(BotControl::request_stall_out, (stall_out,), ()),
        call_ensures(BotControl::signal_bulk_reset, (reset,), ()),
        call_ensures(BotControl::acknowledge_bus_actions, (acked, applied), ()),
    ensures
        final(stall_in).bus_actions % 2 == 1,
        final(stall_in).bus_actions / 2 == old(stall_in).bus_actions / 2,
        final(stall_in).bus_actions_applied == old(stall_in).bus_actions_applied,
        final(stall_in).msc_events == old(stall_in).msc_events,
        final(stall_out).bus_actions / 2 % 2 == 1,
        final(stall_out).bus_actions % 2 == old(stall_out).bus_actions % 2,
        final(stall_out).bus_actions / 4 == old(stall_out).bus_actions / 4,
        final(stall_out).bus_actions_applied == old(stall_out).bus_actions_applied,
        final(stall_out).msc_events == old(stall_out).msc_events,
        final(reset).msc_events % 2 == 1,
        final(reset).msc_events / 2 == old(reset).msc_events / 2,
        final(reset).bus_actions == old(reset).bus_actions,
        final(reset).bus_actions_applied == old(reset).bus_actions_applied,
        final(acked).bus_actions_applied & applied == applied,
        final(acked).bus_actions_applied & old(acked).bus_actions_applied
            == old(acked).bus_actions_applied,
        final(acked).bus_actions_applied & !applied == old(acked).bus_actions_applied & !applied,
        final(acked).bus_actions == old(acked).bus_actions,
        final(acked).msc_events == old(acked).msc_events,
{
    let i = stall_in.bus_actions;
    assert((i | 1u8) % 2 == 1 && (i | 1u8) / 2 == i / 2) by (bit_vector);
    let o = stall_out.bus_actions;
    assert((o | 2u8) / 2 % 2 == 1 && (o | 2u8) % 2 == o % 2 && (o | 2u8) / 4 == o / 4)
        by (bit_vector);
    let e = reset.msc_events;
    assert((e | 1u8) % 2 == 1 && (e | 1u8) / 2 == e / 2) by (bit_vector);
    let a = acked.bus_actions_applied;
    assert((a | applied) & applied == applied && (a | applied) & a == a && (a | applied) & !applied
        == a & !applied) by (bit_vector);
}

/// What is taken is all that was there, and it is taken once.
pub proof fn what_is_taken_is_gone(
    actions: &mut BotControl,
    taken: u8,
    acks: &mut BotControl,
    seen: u8,
    events: &mut BotControl,
    told: u8,
    fresh: BotControl,
)
    requires
        call_ensures(BotControl::new, (), fresh),
        call_ensures(BotControl::take_bus_actions, (actions,), taken),
        call_ensures(BotControl::take_bus_action_acks, (acks,), seen),
        call_ensures(BotControl::take_msc_events, (events,), told),
    ensures
        fresh.bus_actions == 0 && fresh.bus_actions_applied == 0 && fresh.msc_events == 0,
        taken == old(actions).bus_actions,
        final(actions).bus_actions == 0,
        final(actions).bus_actions_applied == old(actions).bus_actions_applied,
        final(actions).msc_events == old(actions).msc_events,
        seen == old(acks).bus_actions_applied,
        final(acks).bus_actions_applied == 0,
        final(acks).bus_actions == old(acks).bus_actions,
        final(acks).msc_events == old(acks).msc_events,
        told == old(events).msc_events,
        final(events).msc_events == 0,
        final(events).bus_actions == old(events).bus_actions,
        final(events).bus_actions_applied == old(events).bus_actions_applied,
{
}

} // verus!
