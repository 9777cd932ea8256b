//! The Bulk-Only Transport: its wrappers, its endpoints, and what the data path and the control
//! path tell each other.

use vstd::prelude::*;
use crate::bytes;
use crate::storage::error;
use crate::usb::constants::{
    BOT_ACTION_STALL_IN, BOT_ACTION_STALL_OUT, BOT_EVENT_BULK_RESET, CBW_LEN, CBW_READ_TIMEOUT_MS,
    CBW_SIGNATURE, CSW_LEN, CSW_SIGNATURE, LUN_COUNT, USB_PACKET_SIZE,
};
use crate::usb::packets::{self, PacketCursor};

verus! {

/// Why an endpoint transfer failed.
#[derive(Copy, Clone, Debug, PartialEq, Eq, Structural)]
pub enum EndpointError {
    /// The packet is longer than the buffer.
    BufferOverflow,
    /// The endpoint is disabled.
    Disabled,
}

/// Bulk-Only Transport control structure shared between MSC data path and control path.
#[derive(Copy, Clone, Debug, PartialEq, Eq, Structural)]
pub struct BotControl {
    pub bus_actions: u8,
    pub bus_actions_applied: u8,
    pub msc_events: u8,
}

impl BotControl {
    /// Create a new BOT shared control state.
    pub fn new() -> (control: Self)
        ensures
            control == (BotControl { bus_actions: 0, bus_actions_applied: 0, msc_events: 0 }),
    {
        BotControl { bus_actions: 0, bus_actions_applied: 0, msc_events: 0 }
    }

    /// Request that the control task stall the bulk-IN endpoint.
    pub fn request_stall_in(&mut self)
        ensures
            *final(self) == (BotControl {
                bus_actions: old(self).bus_actions | BOT_ACTION_STALL_IN,
                ..*old(self)
            }),
    {
        self.bus_actions = self.bus_actions | BOT_ACTION_STALL_IN;
    }

    /// Request that the control task stall the bulk-OUT endpoint.
    pub fn request_stall_out(&mut self)
        ensures
            *final(self) == (BotControl {
                bus_actions: old(self).bus_actions | BOT_ACTION_STALL_OUT,
                ..*old(self)
            }),
    {
        self.bus_actions = self.bus_actions | BOT_ACTION_STALL_OUT;
    }

    /// Signal a BOT reset event to the MSC state machine.
    pub fn signal_bulk_reset(&mut self)
        ensures
            *final(self) == (BotControl {
                msc_events: old(self).msc_events | BOT_EVENT_BULK_RESET,
                ..*old(self)
            }),
    {
        self.msc_events = self.msc_events | BOT_EVENT_BULK_RESET;
    }

    /// Consume and clear pending endpoint actions for the control task.
    pub fn take_bus_actions(&mut self) -> (actions: u8)
        ensures
            actions == old(self).bus_actions,
            *final(self) == (BotControl { bus_actions: 0, ..*old(self) }),
    {
        let actions = self.bus_actions;
        self.bus_actions = 0;
        actions
    }

    /// Acknowledge that requested endpoint actions were applied by the control task.
    pub fn acknowledge_bus_actions(&mut self, applied: u8)
        ensures
            *final(self) == (BotControl {
                bus_actions_applied: old(self).bus_actions_applied | applied,
                ..*old(self)
            }),
    {
        self.bus_actions_applied = self.bus_actions_applied | applied;
    }

    /// Consume and clear action-ack bits from the control task.
    pub fn take_bus_action_acks(&mut self) -> (acks: u8)
        ensures
            acks == old(self).bus_actions_applied,
            *final(self) == (BotControl { bus_actions_applied: 0, ..*old(self) }),
    {
        let acks = self.bus_actions_applied;
        self.bus_actions_applied = 0;
        acks
    }

    /// Consume and clear pending BOT events for the MSC task.
    pub fn take_msc_events(&mut self) -> (events: u8)
        ensures
            events == old(self).msc_events,
            *final(self) == (BotControl { msc_events: 0, ..*old(self) }),
    {
        let events = self.msc_events;
        self.msc_events = 0;
        events
    }
}

/// A request is never lost: whatever else was requested before, and in whatever order, the bit is
/// among the actions that are taken next.
pub proof fn requested_stalls_are_taken(actions: u8)
    ensures
        (actions | BOT_ACTION_STALL_IN) & BOT_ACTION_STALL_IN == BOT_ACTION_STALL_IN,
        (actions | BOT_ACTION_STALL_OUT) & BOT_ACTION_STALL_OUT == BOT_ACTION_STALL_OUT,
        (actions | BOT_ACTION_STALL_IN) & BOT_ACTION_STALL_OUT == actions & BOT_ACTION_STALL_OUT,
        (actions | BOT_ACTION_STALL_OUT) & BOT_ACTION_STALL_IN == actions & BOT_ACTION_STALL_IN,
        (actions | BOT_EVENT_BULK_RESET) & BOT_EVENT_BULK_RESET != 0,
{
    assert((actions | 1u8) & 1u8 == 1u8) by (bit_vector);
    assert((actions | 2u8) & 2u8 == 2u8) by (bit_vector);
    assert((actions | 1u8) & 2u8 == actions & 2u8) by (bit_vector);
    assert((actions | 2u8) & 1u8 == actions & 1u8) by (bit_vector);
}

/// Which way the data phase of a command goes.
#[derive(Copy, Clone, Debug, PartialEq, Eq, Structural)]
pub enum DataDirection {
    NoData,
    In,
    Out,
}

/// A bulk endpoint as the data path sees it.
///
/// `incoming` are the packets that the host has still to send. While an endpoint is `healthy`,
/// each of them arrives in time and every packet written is taken.
///
/// The spec functions describe the state. Their defaults are for drivers in plain Rust, which need
/// not spell them out.
pub trait DataEndpoint {
    /// The packets that the host has still to send.
    closed spec fn incoming(&self) -> Seq<Seq<u8>> {
        Seq::empty()
    }

    /// The packets that were read, oldest first.
    closed spec fn received(&self) -> Seq<Seq<u8>> {
        Seq::empty()
    }

    /// The packets that were written, oldest first.
    closed spec fn sent(&self) -> Seq<Seq<u8>> {
        Seq::empty()
    }

    /// The errors that were returned, oldest first.
    closed spec fn errors(&self) -> Seq<EndpointError> {
        Seq::empty()
    }

    /// How long each read was to wait for its packet, in milliseconds, oldest first.
    closed spec fn waits(&self) -> Seq<u64> {
        Seq::empty()
    }

    /// Whether nothing fails and nothing is late from here on.
    closed spec fn healthy(&self) -> bool {
        false
    }

    /// Reads one packet, and gives `None` where none came for `timeout_ms`.
    fn endpoint_read(&mut self, buf: &mut [u8], timeout_ms: u64) -> (r: Result<
        Option<usize>,
        EndpointError,
    >)
        ensures
            final(buf)@.len() == old(buf)@.len(),
            final(self).sent() == old(self).sent(),
            final(self).waits() == old(self).waits().push(timeout_ms),
            error::error_logged(old(self).errors(), final(self).errors(), r),
            old(self).healthy() ==> final(self).healthy(),
            match r {
                Ok(Some(len)) => {
                    &&& old(self).incoming().len() > 0
                    &&& len <= old(buf)@.len()
                    &&& final(buf)@.take(len as int) == old(self).incoming()[0]
                    &&& final(self).incoming() == old(self).incoming().drop_first()
                    &&& final(self).received() == old(self).received().push(
                        old(self).incoming()[0],
                    )
                },
                Ok(None) => {
                    &&& final(self).incoming() == old(self).incoming()
                    &&& final(self).received() == old(self).received()
                    &&& old(self).healthy() ==> old(self).incoming().len() == 0
                },
                Err(_) => {
                    &&& final(self).received() == old(self).received()
                    &&& old(self).healthy() ==> old(self).incoming().len() > 0 && old(self).incoming()[0].len() > old(buf)@.len()
                },
            },
    ;

    /// Writes one packet.
    fn endpoint_write(&mut self, buf: &[u8]) -> (r: Result<(), EndpointError>)
        ensures
            final(self).incoming() == old(self).incoming(),
            final(self).received() == old(self).received(),
            final(self).waits() == old(self).waits(),
            error::error_logged(old(self).errors(), final(self).errors(), r),
            old(self).healthy() ==> r is Ok && final(self).healthy(),
            final(self).sent() == if r is Ok {
                old(self).sent().push(buf@)
            } else {
                old(self).sent()
            },
    ;
}

/// `after` is `before` with a first part of `packets` behind it.
pub open spec fn sent_part(
    before: Seq<Seq<u8>>,
    packets: Seq<Seq<u8>>,
    after: Seq<Seq<u8>>,
) -> bool {
    exists|k: int|
        0 <= k <= packets.len() && after == before + #[trigger] packets.take(k)
}

/// A command block wrapper, as it was received.
#[derive(Copy, Clone, Debug)]
pub struct Cbw {
    pub packet_len: usize,
    pub signature_valid: bool,
    pub tag: u32,
    pub data_transfer_length: u32,
    pub flags: u8,
    pub lun: u8,
    pub command_length: u8,
    pub command: [u8; 16],
}

/// The first bytes of a packet, with zeros for those that are missing.
pub open spec fn cbw_bytes(packet: Seq<u8>) -> Seq<u8> {
    Seq::new(
        CBW_LEN as nat,
        |i: int|
            if i < packet.len() {
                packet[i]
            } else {
                0
            },
    )
}

impl Cbw {
    /// A well-formed wrapper with the given fields.
    pub fn new(
        tag: u32,
        data_transfer_length: u32,
        flags: u8,
        lun: u8,
        command_length: u8,
        command: [u8; 16],
    ) -> (cbw: Self)
        ensures
            cbw == (Cbw {
                packet_len: CBW_LEN,
                signature_valid: true,
                tag,
                data_transfer_length,
                flags,
                lun,
                command_length,
                command,
            }),
    {
        Cbw {
            packet_len: CBW_LEN,
            signature_valid: true,
            tag,
            data_transfer_length,
            flags,
            lun,
            command_length,
            command,
        }
    }

    pub fn parse(packet: &[u8]) -> (cbw: Self)
        ensures
            cbw.packet_len == packet@.len(),
            cbw.signature_valid == (bytes::le32_at(cbw_bytes(packet@), 0) == CBW_SIGNATURE),
            cbw.tag == bytes::le32_at(cbw_bytes(packet@), 4),
            cbw.data_transfer_length == bytes::le32_at(cbw_bytes(packet@), 8),
            cbw.flags == cbw_bytes(packet@)[12],
            cbw.lun == cbw_bytes(packet@)[13],
            cbw.command_length == cbw_bytes(packet@)[14],
            cbw.command@ == cbw_bytes(packet@).subrange(15, 31),
    {
        let mut raw = [0u8; CBW_LEN];
        let copy_len = if packet.len() < CBW_LEN {
            packet.len()
        } else {
            CBW_LEN
        };
        bytes::put(&mut raw, 0, vstd::slice::slice_subrange(packet, 0, copy_len));
        assert(raw@ =~= cbw_bytes(packet@));

        let mut command = [0u8; 16];
        bytes::put(&mut command, 0, vstd::slice::slice_subrange(raw.as_slice(), 15, 31));
        assert(command@ =~= raw@.subrange(15, 31));

        Cbw {
            packet_len: packet.len(),
            signature_valid: bytes::get_le32(&raw, 0) == CBW_SIGNATURE,
            tag: bytes::get_le32(&raw, 4),
            data_transfer_length: bytes::get_le32(&raw, 8),
            flags: raw[12],
            lun: raw[13],
            command_length: raw[14],
            command,
        }
    }

    /// Whether the wrapper is valid: it is whole, carries the signature, has no reserved bit set,
    /// names a unit of this device, and its command block has a length.
    pub open spec fn valid(&self) -> bool {
        &&& self.packet_len >= CBW_LEN
        &&& self.signature_valid
        &&& self.flags & 0x7F == 0
        &&& self.lun < LUN_COUNT
        &&& 1 <= self.command_length <= 16
    }

    /// The wrapper in a packet of the bulk-OUT endpoint. An empty packet holds none.
    pub fn received(packet: &[u8]) -> (cbw: Option<Self>)
        ensures
            match cbw {
                Some(cbw) => packet@.len() > 0 && parsed_from(cbw, packet@),
                None => packet@.len() == 0,
            },
    {
        if packet.len() == 0 {
            None
        } else {
            Some(Cbw::parse(packet))
        }
    }

    pub fn is_valid(&self) -> (b: bool)
        ensures
            b == self.valid(),
    {
        self.packet_len >= CBW_LEN && self.signature_valid && (self.flags & 0x7F) == 0 && self.lun
            < LUN_COUNT && self.command_length >= 1 && self.command_length <= 16
    }

    pub open spec fn op(&self) -> u8 {
        self.command[0]
    }

    pub fn opcode(&self) -> (opcode: u8)
        ensures
            opcode == self.op(),
    {
        self.command[0]
    }

    /// Whether the host expects data, and does not send any.
    pub open spec fn inward(&self) -> bool {
        self.flags & 0x80 != 0
    }

    pub fn expects_in(&self) -> (b: bool)
        ensures
            b == self.inward(),
    {
        self.flags & 0x80 != 0
    }

    /// The data phase that the host announces.
    pub open spec fn direction(&self) -> DataDirection {
        if self.data_transfer_length == 0 {
            DataDirection::NoData
        } else if self.inward() {
            DataDirection::In
        } else {
            DataDirection::Out
        }
    }

    pub fn data_direction(&self) -> (direction: DataDirection)
        ensures
            direction == self.direction(),
    {
        if self.data_transfer_length == 0 {
            DataDirection::NoData
        } else if self.expects_in() {
            DataDirection::In
        } else {
            DataDirection::Out
        }
    }
}

/// A command status wrapper.
#[derive(Copy, Clone, Debug, PartialEq, Eq, Structural)]
pub struct Csw {
    pub tag: u32,
    pub residue: u32,
    pub status: u8,
}

impl Csw {
    /// The wrapper on the wire.
    pub open spec fn wire(&self) -> Seq<u8> {
        bytes::le32_bytes(CSW_SIGNATURE) + bytes::le32_bytes(self.tag) + bytes::le32_bytes(
            self.residue,
        ) + seq![self.status]
    }

    pub fn to_bytes(self) -> (response: [u8; CSW_LEN])
        ensures
            response@ == self.wire(),
    {
        let mut response = [0u8; CSW_LEN];
        bytes::put(&mut response, 0, &bytes::le32(CSW_SIGNATURE));
        bytes::put(&mut response, 4, &bytes::le32(self.tag));
        bytes::put(&mut response, 8, &bytes::le32(self.residue));
        response[12] = self.status;
        assert(response@ =~= self.wire());
        response
    }
}

/// Waits for a command block wrapper. An empty packet, like none, is no wrapper.
pub fn read_cbw<OUT: DataEndpoint>(out_ep: &mut OUT) -> (r: Result<Option<Cbw>, EndpointError>)
    ensures
        final(out_ep).sent() == old(out_ep).sent(),
        final(out_ep).waits() == old(out_ep).waits().push(CBW_READ_TIMEOUT_MS),
        error::error_logged(old(out_ep).errors(), final(out_ep).errors(), r),
        old(out_ep).healthy() ==> final(out_ep).healthy(),
        match r {
            Ok(Some(cbw)) => {
                let packet = old(out_ep).incoming()[0];
                &&& old(out_ep).incoming().len() > 0
                &&& 0 < packet.len() <= USB_PACKET_SIZE
                &&& parsed_from(cbw, packet)
                &&& final(out_ep).incoming() == old(out_ep).incoming().drop_first()
                &&& final(out_ep).received() == old(out_ep).received().push(packet)
            },
            Ok(None) => {
                ||| {
                    &&& final(out_ep).incoming() == old(out_ep).incoming()
                    &&& final(out_ep).received() == old(out_ep).received()
                    &&& old(out_ep).healthy() ==> old(out_ep).incoming().len() == 0
                }
                ||| {
                    &&& old(out_ep).incoming().len() > 0
                    &&& old(out_ep).incoming()[0].len() == 0
                    &&& final(out_ep).incoming() == old(out_ep).incoming().drop_first()
                    &&& final(out_ep).received() == old(out_ep).received().push(
                        old(out_ep).incoming()[0],
                    )
                }
            },
            Err(_) => {
                &&& final(out_ep).received() == old(out_ep).received()
                &&& old(out_ep).healthy() ==> old(out_ep).incoming().len() > 0 && old(out_ep).incoming()[0].len() > USB_PACKET_SIZE
            },
        },
{
    let mut packet = [0u8; USB_PACKET_SIZE];
    match out_ep.endpoint_read(&mut packet, CBW_READ_TIMEOUT_MS) {
        Ok(Some(packet_len)) => {
            let taken = vstd::slice::slice_subrange(packet.as_slice(), 0, packet_len);
            assert(packet@.subrange(0, packet_len as int) =~= packet@.take(packet_len as int));
            Ok(Cbw::received(taken))
        },
        Ok(None) => Ok(None),
        Err(error) => Err(error),
    }
}

/// Whether a wrapper is what a packet says.
pub open spec fn parsed_from(cbw: Cbw, packet: Seq<u8>) -> bool {
    let raw = cbw_bytes(packet);
    &&& cbw.packet_len == packet.len()
    &&& cbw.signature_valid == (bytes::le32_at(raw, 0) == CBW_SIGNATURE)
    &&& cbw.tag == bytes::le32_at(raw, 4)
    &&& cbw.data_transfer_length == bytes::le32_at(raw, 8)
    &&& cbw.flags == raw[12]
    &&& cbw.lun == raw[13]
    &&& cbw.command_length == raw[14]
    &&& cbw.command@ == raw.subrange(15, 31)
}

/// Sends a command status wrapper, which is one packet.
pub fn send_csw<IN: DataEndpoint>(in_ep: &mut IN, csw: Csw) -> (r: Result<(), EndpointError>)
    ensures
        final(in_ep).incoming() == old(in_ep).incoming(),
        final(in_ep).received() == old(in_ep).received(),
        final(in_ep).waits() == old(in_ep).waits(),
        error::error_logged(old(in_ep).errors(), final(in_ep).errors(), r),
        old(in_ep).healthy() ==> r is Ok && final(in_ep).healthy(),
        final(in_ep).sent() == if r is Ok {
            old(in_ep).sent().push(csw.wire())
        } else {
            old(in_ep).sent()
        },
{
    let response = csw.to_bytes();
    in_ep.endpoint_write(&response)
}

/// Sends `data`, as far as the host expects it, and an empty packet where only that tells the host
/// that no more comes. Gives the bytes sent.
pub fn send_in_data<IN: DataEndpoint>(
    in_ep: &mut IN,
    data: &[u8],
    expected_length: u32,
    expects_in: bool,
) -> (r: Result<u32, EndpointError>)
    ensures
        final(in_ep).incoming() == old(in_ep).incoming(),
        final(in_ep).received() == old(in_ep).received(),
        final(in_ep).waits() == old(in_ep).waits(),
        error::error_logged(old(in_ep).errors(), final(in_ep).errors(), r),
        old(in_ep).healthy() ==> r is Ok && final(in_ep).healthy(),
        match r {
            Ok(sent) => {
                &&& sent == packets::clipped(data@, expected_length as int).len()
                &&& final(in_ep).sent() == old(in_ep).sent() + packets::in_packets(
                    data@,
                    expected_length as int,
                    expects_in,
                )
            },
            Err(_) => sent_part(
                old(in_ep).sent(),
                packets::in_packets(data@, expected_length as int, expects_in),
                final(in_ep).sent(),
            ),
        },
{
    let mut cursor = PacketCursor::new(data.len(), expected_length, expects_in);
    let ghost sent = packets::clipped(data@, expected_length as int);
    let ghost all = packets::in_packets(data@, expected_length as int, expects_in);
    let ghost mut k: int = 0;
    proof {
        assert(cursor.remaining(sent) == all);
        assert(all.take(0) =~= Seq::empty());
        assert(all.skip(0) =~= all);
        assert(in_ep.sent() + all.take(0) =~= in_ep.sent());
    }
    loop
        invariant
            cursor.wf(),
            cursor.total() == sent.len(),
            sent == packets::clipped(data@, expected_length as int),
            all == packets::in_packets(data@, expected_length as int, expects_in),
            0 <= k <= all.len(),
            cursor.remaining(sent) == all.skip(k),
            in_ep.sent() == old(in_ep).sent() + all.take(k),
            in_ep.incoming() == old(in_ep).incoming(),
            in_ep.received() == old(in_ep).received(),
            in_ep.waits() == old(in_ep).waits(),
            in_ep.errors() == old(in_ep).errors(),
            old(in_ep).healthy() ==> in_ep.healthy(),
        decreases all.len() - k,
    {
        let ghost before = cursor;
        match cursor.next_packet() {
            Some((start, end)) => {
                assert(before.remaining(sent) == seq![sent.subrange(start as int, end as int)]
                    + cursor.remaining(sent));
                let packet = vstd::slice::slice_subrange(data, start, end);
                assert(packet@ =~= sent.subrange(start as int, end as int));
                proof {
                    assert(all.skip(k)[0] == packet@);
                    assert((seq![packet@] + cursor.remaining(sent)).drop_first()
                        =~= cursor.remaining(sent));
                    assert(all.skip(k + 1) =~= all.skip(k).drop_first());
                    assert(all.take(k + 1) =~= all.take(k).push(packet@));
                    assert(old(in_ep).sent() + all.take(k + 1) =~= (old(in_ep).sent() + all.take(
                        k,
                    )).push(packet@));
                }
                if let Err(error) = in_ep.endpoint_write(packet) {
                    return Err(error);
                }
                proof {
                    k = k + 1;
                }
            },
            None => {
                proof {
                    assert(before.remaining(sent).len() == 0);
                    assert(all.take(k) =~= all);
                }
                return Ok(cursor.len() as u32);
            },
        }
    }
}

} // verus!
