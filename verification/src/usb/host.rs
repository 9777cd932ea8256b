//! What a host sees of the commands: the bytes of a command block, the bytes that come back, and
//! the bytes on the disk.

use vstd::prelude::*;
use crate::bytes;
use crate::storage::block::BlockStorage;
use crate::storage::error::StorageError;
use crate::usb::block_reader::{self, TransferError};
use crate::usb::block_writer::{self, WriteTransfer};
use crate::usb::bot::{Cbw, DataEndpoint, EndpointError};
use crate::usb::commands::{self, CommandOutcome, StallAfterCsw};
use crate::usb::laws;
use crate::usb::packets;
use crate::usb::scsi;
use crate::usb::sense::SenseData;

verus! {

/// The bytes in the packets by which `after` is longer than `before`.
pub open spec fn data_between(before: Seq<Seq<u8>>, after: Seq<Seq<u8>>) -> Seq<u8> {
    packets::joined(after.skip(before.len() as int))
}

/// What a bulk-IN data phase sends is the data, as far as the host expects it.
proof fn lemma_data_sent(before: Seq<Seq<u8>>, data: Seq<u8>, expected: int, expects_in: bool)
    requires
        expected >= 0,
    ensures
        data_between(before, before + packets::in_packets(data, expected, expects_in))
            == packets::clipped(data, expected),
{
    let all = packets::in_packets(data, expected, expects_in);
    let sent = packets::clipped(data, expected);
    assert((before + all).skip(before.len() as int) =~= all);
    packets::in_packets_carry_the_data(data, expected);
    packets::packets_carry_the_data(sent);
    assert(packets::packets_of(sent) + Seq::<Seq<u8>>::empty() =~= packets::packets_of(sent));
}

/// READ (10) and WRITE (10) give the address in bytes 2 to 5 of the command block, and the number of
/// blocks in bytes 7 and 8, both big-endian.
pub proof fn address_and_count_are_big_endian(command: [u8; 16], request: (u32, u16))
    requires
        call_ensures(commands::parse_read_write_10, (&command,), request),
    ensures
        request.0 == 0x100_0000 * command[2] + 0x1_0000 * command[3] + 0x100 * command[4]
            + command[5],
        request.1 == 0x100 * command[7] + command[8],
{
}

/// Blocks lie on a disk where the last of them does, however large the address is. No block lies on
/// any disk.
pub proof fn blocks_end_on_the_disk(total: u32, lba: u32, count: u16, inside: bool)
    requires
        call_ensures(commands::block_range_valid, (total, lba, count), inside),
    ensures
        inside <==> count == 0 || lba + count <= total,
{
}

/// READ (10) sends the blocks that start at the big-endian address in bytes 2 to 5 of the command
/// block, as many as bytes 7 and 8 say and as far as the host expects them. It passes, says how much
/// of what the host expects is missing, and changes nothing.
pub proof fn read_10_sends_the_blocks_at_the_address<OUT: DataEndpoint, IN: DataEndpoint, S: BlockStorage>(
    cbw: Cbw,
    storage: (&S, &S),
    out_ep: (&OUT, &OUT),
    in_ep: (&IN, &IN),
    sense: (SenseData, SenseData),
    prevented: (bool, bool),
    r: Result<CommandOutcome, EndpointError>,
)
    requires
        commands::executed(cbw, storage, out_ep, in_ep, sense, prevented, r),
        cbw.command[0] == 0x28,
        cbw.flags & 0x80 != 0 || cbw.data_transfer_length == 0,
        storage.0.ready(),
        storage.0.healthy(),
        in_ep.0.healthy(),
        storage.0.contents().len() <= u32::MAX,
        ({
            let lba = 0x100_0000 * cbw.command[2] + 0x1_0000 * cbw.command[3] + 0x100 * cbw.command[4]
                + cbw.command[5];
            let count = 0x100 * cbw.command[7] + cbw.command[8];
            count == 0 || lba + count <= storage.0.contents().len()
        }),
    ensures
        ({
            let lba = 0x100_0000 * cbw.command[2] + 0x1_0000 * cbw.command[3] + 0x100 * cbw.command[4]
                + cbw.command[5];
            let count = 0x100 * cbw.command[7] + cbw.command[8];
            let expected = cbw.data_transfer_length as int;
            let n = if 512 * count < expected {
                512 * count
            } else {
                expected
            };
            let data = data_between(in_ep.0.sent(), in_ep.1.sent());
            &&& r matches Ok(outcome) && {
                &&& outcome.csw.tag == cbw.tag
                &&& outcome.csw.status == 0
                &&& outcome.csw.residue == expected - n
                &&& outcome.stall_before_csw == StallAfterCsw::NoStall
                &&& outcome.stall_after_csw == StallAfterCsw::NoStall
            }
            &&& data.len() == n
            &&& forall|i: int|
                0 <= i < n ==> #[trigger] data[i] == storage.0.contents()[lba + i / 512][i % 512]
        }),
        storage.1.contents() == storage.0.contents(),
        out_ep.1.incoming() == out_ep.0.incoming(),
        sense.1 == sense.0,
        prevented.1 == prevented.0,
{
    let lba = commands::lba_of(cbw.command@) as int;
    let count = commands::block_count_of(cbw.command@) as int;
    let payload = block_reader::blocks_payload(storage.0.contents(), lba, count);
    lemma_data_sent(
        in_ep.0.sent(),
        payload,
        cbw.data_transfer_length as int,
        cbw.inward(),
    );
}

/// WRITE (10) that passes has filled the blocks that start at the big-endian address in bytes 2 to 5
/// of the command block, as many as bytes 7 and 8 say, with the bytes that the host sent, one behind
/// the other. The host sent exactly the bytes that it announced. No other block changed.
pub proof fn write_10_fills_the_blocks_at_the_address<OUT: DataEndpoint, IN: DataEndpoint, S: BlockStorage>(
    cbw: Cbw,
    storage: (&S, &S),
    out_ep: (&OUT, &OUT),
    in_ep: (&IN, &IN),
    sense: (SenseData, SenseData),
    prevented: (bool, bool),
    r: Result<CommandOutcome, EndpointError>,
)
    requires
        commands::executed(cbw, storage, out_ep, in_ep, sense, prevented, r),
        cbw.command[0] == 0x2A,
        storage.0.unfinished() is None,
        r matches Ok(outcome) && outcome.csw.status == 0,
        storage.0.contents().len() <= u32::MAX,
    ensures
        ({
            let lba = 0x100_0000 * cbw.command[2] + 0x1_0000 * cbw.command[3] + 0x100 * cbw.command[4]
                + cbw.command[5];
            let count = 0x100 * cbw.command[7] + cbw.command[8];
            let data = data_between(out_ep.0.received(), out_ep.1.received());
            &&& data.len() == 512 * count
            &&& cbw.data_transfer_length == 512 * count
            &&& count == 0 || lba + count <= storage.0.contents().len()
            &&& forall|i: int|
                0 <= i < 512 * count ==> #[trigger] data[i] == storage.1.contents()[lba + i
                    / 512][i % 512]
            &&& forall|b: int|
                lba <= b < lba + count ==> (#[trigger] storage.1.contents()[b]).len() == 512
            &&& forall|b: int|
                0 <= b < storage.0.contents().len() && !(lba <= b < lba + count)
                    ==> #[trigger] storage.1.contents()[b] == storage.0.contents()[b]
        }),
        storage.1.contents().len() == storage.0.contents().len(),
        r matches Ok(outcome) && {
            &&& outcome.csw.tag == cbw.tag
            &&& outcome.csw.residue == 0
            &&& outcome.stall_before_csw == StallAfterCsw::NoStall
            &&& outcome.stall_after_csw == StallAfterCsw::NoStall
        },
        in_ep.1.sent() == in_ep.0.sent(),
        sense.1 == sense.0,
        prevented.1 == prevented.0,
{
    let lba = commands::lba_of(cbw.command@) as int;
    let count = commands::block_count_of(cbw.command@) as int;
    let expected = cbw.data_transfer_length as int;
    let incoming = out_ep.0.incoming();
    let written = lemma_write_ended(cbw, storage, out_ep, in_ep, sense, prevented, r);
    assert(written is Ok);
    let n = out_ep.1.received().len() - out_ep.0.received().len();
    let data = packets::joined(incoming.take(n));
    assert(out_ep.1.received().skip(out_ep.0.received().len() as int) =~= incoming.take(n));
    laws::write_passes_where_the_lengths_agree(cbw, sense.0, count as u16, data.len() as int);
    assert(packets::clipped(data, expected) == data);
    assert(block_writer::transfer_of(data.len() as int, expected, count).written_bytes == expected) by {
        assert(expected / 512 == count);
    }
    let after = block_writer::write_stream(storage.0.contents(), lba, count, data);
    assert(storage.1.contents() == after);
    assert(block_writer::whole_blocks(data.len() as int, count) == count) by {
        assert(data.len() as int / 512 == count);
    }
    assert forall|i: int| 0 <= i < 512 * count implies #[trigger] data[i] == after[lba + i / 512][i % 512] by {
        let b = i / 512;
        assert(0 <= b < count);
        assert(after[lba + b] == data.subrange(b * 512, b * 512 + 512));
        assert(i == b * 512 + i % 512);
    }
}

/// How the data phase of a WRITE (10) ended that was not refused.
proof fn lemma_write_ended<OUT: DataEndpoint, IN: DataEndpoint, S: BlockStorage>(
    cbw: Cbw,
    storage: (&S, &S),
    out_ep: (&OUT, &OUT),
    in_ep: (&IN, &IN),
    sense: (SenseData, SenseData),
    prevented: (bool, bool),
    r: Result<CommandOutcome, EndpointError>,
) -> (written: Result<WriteTransfer, TransferError>)
    requires
        commands::executed(cbw, storage, out_ep, in_ep, sense, prevented, r),
        cbw.command[0] == 0x2A,
        storage.0.contents().len() <= u32::MAX,
        commands::start_of(cbw, commands::status_of(storage.0), sense.0) is WriteBlocks,
    ensures
        block_writer::written_by(
            storage.0,
            out_ep.0,
            commands::lba_of(cbw.command@) as int,
            commands::block_count_of(cbw.command@) as int,
            cbw.data_transfer_length as int,
            storage.1,
            out_ep.1,
            written,
        ),
        (r, sense.1) == commands::write_end(
            cbw,
            sense.0,
            commands::block_count_of(cbw.command@),
            written,
        ),
        storage.0.healthy() ==> !(written matches Err(TransferError::Storage(_))),
{
    choose|written: Result<WriteTransfer, TransferError>|
        {
            &&& #[trigger] block_writer::written_by(
                storage.0,
                out_ep.0,
                commands::lba_of(cbw.command@) as int,
                commands::block_count_of(cbw.command@) as int,
                cbw.data_transfer_length as int,
                storage.1,
                out_ep.1,
                written,
            )
            &&& (r, sense.1) == commands::write_end(
                cbw,
                sense.0,
                commands::block_count_of(cbw.command@),
                written,
            )
            &&& storage.0.healthy() ==> !(written matches Err(TransferError::Storage(_)))
        }
}

/// Full packets, one behind the other, carry their bytes in order.
proof fn lemma_full_packets(packets: Seq<Seq<u8>>)
    requires
        forall|j: int| 0 <= j < packets.len() ==> (#[trigger] packets[j]).len() == 64,
    ensures
        packets::joined(packets).len() == 64 * packets.len(),
        forall|i: int|
            0 <= i < 64 * packets.len() ==> #[trigger] packets::joined(packets)[i] == packets[i
                / 64][i % 64],
        packets::packets_of(packets::joined(packets)) == packets,
    decreases packets.len(),
{
    let data = packets::joined(packets);
    if packets.len() > 0 {
        let init = packets.drop_last();
        lemma_full_packets(init);
        let before = packets::joined(init);
        assert forall|i: int| 0 <= i < 64 * packets.len() implies #[trigger] data[i] == packets[i
            / 64][i % 64] by {
            if i < 64 * init.len() {
                assert(before[i] == init[i / 64][i % 64]);
            } else {
                assert(i / 64 == packets.len() - 1);
            }
        }
    }
    assert(packets::packet_count(data.len() as int) == packets.len());
    assert forall|j: int| 0 <= j < packets.len() implies #[trigger] packets::packets_of(data)[j]
        == packets[j] by {
        let packet = packets::packets_of(data)[j];
        assert(packet =~= packets[j]) by {
            assert(packet.len() == 64);
            assert forall|o: int| 0 <= o < 64 implies packet[o] == packets[j][o] by {
                let i = 64 * j + o;
                assert(i / 64 == j && i % 64 == o);
                assert(data[i] == packets[i / 64][i % 64]);
            }
        }
    }
    assert(packets::packets_of(data) =~= packets);
}

/// A host that announces the bytes of the blocks that it asks for, and sends them in full packets, has
/// its WRITE (10) passed. Every byte of a packet lands in the block and at the place in it that its
/// number in the data says, and the packets that follow are left for the next command.
pub proof fn write_10_takes_the_packets_of_its_blocks<OUT: DataEndpoint, IN: DataEndpoint, S: BlockStorage>(
    cbw: Cbw,
    storage: (&S, &S),
    out_ep: (&OUT, &OUT),
    in_ep: (&IN, &IN),
    sense: (SenseData, SenseData),
    prevented: (bool, bool),
    r: Result<CommandOutcome, EndpointError>,
)
    requires
        commands::executed(cbw, storage, out_ep, in_ep, sense, prevented, r),
        cbw.command[0] == 0x2A,
        cbw.flags & 0x80 == 0,
        storage.0.ready(),
        !storage.0.write_protected(),
        storage.0.healthy(),
        storage.0.unfinished() is None,
        out_ep.0.healthy(),
        storage.0.contents().len() <= u32::MAX,
        ({
            let lba = 0x100_0000 * cbw.command[2] + 0x1_0000 * cbw.command[3] + 0x100 * cbw.command[4]
                + cbw.command[5];
            let count = 0x100 * cbw.command[7] + cbw.command[8];
            count == 0 || lba + count <= storage.0.contents().len()
        }),
        ({
            let count = 0x100 * cbw.command[7] + cbw.command[8];
            &&& cbw.data_transfer_length == 512 * count
            &&& out_ep.0.incoming().len() >= 8 * count
            &&& forall|j: int| 0 <= j < 8 * count ==> (#[trigger] out_ep.0.incoming()[j]).len() == 64
        }),
    ensures
        r matches Ok(outcome) && outcome.csw.status == 0 && outcome.csw.residue == 0,
        ({
            let lba = 0x100_0000 * cbw.command[2] + 0x1_0000 * cbw.command[3] + 0x100 * cbw.command[4]
                + cbw.command[5];
            let count = 0x100 * cbw.command[7] + cbw.command[8];
            &&& forall|b: int, o: int|
                0 <= b < count && 0 <= o < 512 ==> #[trigger] storage.1.contents()[lba + b][o]
                    == out_ep.0.incoming()[8 * b + o / 64][o % 64]
            &&& forall|b: int|
                0 <= b < storage.0.contents().len() && !(lba <= b < lba + count)
                    ==> #[trigger] storage.1.contents()[b] == storage.0.contents()[b]
            &&& out_ep.1.incoming() == out_ep.0.incoming().skip(8 * count)
        }),
{
    let lba = commands::lba_of(cbw.command@) as int;
    let count = commands::block_count_of(cbw.command@) as int;
    let expected = cbw.data_transfer_length as int;
    let incoming = out_ep.0.incoming();
    let sent = incoming.take(8 * count);
    let rest = incoming.skip(8 * count);
    assert forall|j: int| 0 <= j < sent.len() implies (#[trigger] sent[j]).len() == 64 by {
        assert(sent[j] == incoming[j]);
    }
    lemma_full_packets(sent);
    let data = packets::joined(sent);
    assert(incoming =~= sent + rest);
    laws::data_phase_takes_the_data(data, rest);
    let written = lemma_write_ended(cbw, storage, out_ep, in_ep, sense, prevented, r);
    assert forall|j: int| 0 <= j < 8 * count implies #[trigger] incoming[j].len() <= 64 by {}
    assert(written is Ok);
    laws::write_passes_where_the_lengths_agree(cbw, sense.0, count as u16, data.len() as int);
    write_10_fills_the_blocks_at_the_address(cbw, storage, out_ep, in_ep, sense, prevented, r);
    assert(out_ep.1.received().skip(out_ep.0.received().len() as int) =~= sent);
    assert forall|b: int, o: int| 0 <= b < count && 0 <= o < 512 implies #[trigger] storage.1.contents()[lba
        + b][o] == incoming[8 * b + o / 64][o % 64] by {
        let i = 512 * b + o;
        assert(i / 512 == b && i % 512 == o);
        assert(i / 64 == 8 * b + o / 64 && i % 64 == o % 64);
        assert(data[i] == storage.1.contents()[lba + i / 512][i % 512]);
        assert(data[i] == sent[i / 64][i % 64]);
        assert(sent[i / 64] == incoming[i / 64]);
    }
}

/// However a WRITE (10) goes, no block changes but those that it names: the ones from the big-endian
/// address in bytes 2 to 5 of the command block on, as many as bytes 7 and 8 say.
pub proof fn write_10_changes_no_other_block<OUT: DataEndpoint, IN: DataEndpoint, S: BlockStorage>(
    cbw: Cbw,
    storage: (&S, &S),
    out_ep: (&OUT, &OUT),
    in_ep: (&IN, &IN),
    sense: (SenseData, SenseData),
    prevented: (bool, bool),
    r: Result<CommandOutcome, EndpointError>,
)
    requires
        commands::executed(cbw, storage, out_ep, in_ep, sense, prevented, r),
        cbw.command[0] == 0x2A,
        storage.0.unfinished() is None,
        storage.0.contents().len() <= u32::MAX,
    ensures
        ({
            let lba = 0x100_0000 * cbw.command[2] + 0x1_0000 * cbw.command[3] + 0x100 * cbw.command[4]
                + cbw.command[5];
            let count = 0x100 * cbw.command[7] + cbw.command[8];
            forall|b: int|
                0 <= b < storage.0.contents().len() && !(lba <= b < lba + count)
                    ==> #[trigger] storage.1.contents()[b] == storage.0.contents()[b]
        }),
{
    if commands::start_of(cbw, commands::status_of(storage.0), sense.0) is WriteBlocks {
        let written = lemma_write_ended(cbw, storage, out_ep, in_ep, sense, prevented, r);
    }
}

/// A WRITE (10) whose data is not as long as the blocks that it asks for, or not as long as the host
/// announced, fails: the host is told that the transfer length in byte 7 of the command block is wrong,
/// and how many bytes were not written. The whole blocks that came are written.
pub proof fn write_10_of_other_lengths_fails<OUT: DataEndpoint, IN: DataEndpoint, S: BlockStorage>(
    cbw: Cbw,
    storage: (&S, &S),
    out_ep: (&OUT, &OUT),
    in_ep: (&IN, &IN),
    sense: (SenseData, SenseData),
    prevented: (bool, bool),
    r: Result<CommandOutcome, EndpointError>,
)
    requires
        commands::executed(cbw, storage, out_ep, in_ep, sense, prevented, r),
        cbw.command[0] == 0x2A,
        cbw.flags & 0x80 == 0 || cbw.data_transfer_length == 0,
        storage.0.ready(),
        !storage.0.write_protected(),
        storage.0.unfinished() is None,
        storage.0.contents().len() <= u32::MAX,
        ({
            let lba = 0x100_0000 * cbw.command[2] + 0x1_0000 * cbw.command[3] + 0x100 * cbw.command[4]
                + cbw.command[5];
            let count = 0x100 * cbw.command[7] + cbw.command[8];
            count == 0 || lba + count <= storage.0.contents().len()
        }),
        storage.1.errors() == storage.0.errors(),
        r is Ok,
        ({
            let count = 0x100 * cbw.command[7] + cbw.command[8];
            let data = data_between(out_ep.0.received(), out_ep.1.received());
            data.len() != cbw.data_transfer_length || cbw.data_transfer_length != 512 * count
        }),
    ensures
        ({
            let lba = 0x100_0000 * cbw.command[2] + 0x1_0000 * cbw.command[3] + 0x100 * cbw.command[4]
                + cbw.command[5];
            let count = 0x100 * cbw.command[7] + cbw.command[8];
            let expected = cbw.data_transfer_length as int;
            let data = data_between(out_ep.0.received(), out_ep.1.received());
            let taken = if data.len() < expected {
                data.len() as int
            } else {
                expected
            };
            let blocks = if taken / 512 < count {
                taken / 512
            } else {
                count
            };
            &&& r matches Ok(outcome) && {
                &&& outcome.csw.tag == cbw.tag
                &&& outcome.csw.status == 1
                &&& outcome.csw.residue == expected - 512 * blocks
                &&& outcome.stall_after_csw == if expected == 0 {
                    StallAfterCsw::NoStall
                } else {
                    StallAfterCsw::Out
                }
                &&& sense.1.information == Some(outcome.csw.residue)
            }
            &&& sense.1.key == 5 && sense.1.asc == 0x24 && sense.1.ascq == 0
            &&& sense.1.ili
            &&& sense.1.field_pointer == Some(7u16)
            &&& forall|b: int|
                0 <= b < storage.0.contents().len() && !(lba <= b < lba + blocks)
                    ==> #[trigger] storage.1.contents()[b] == storage.0.contents()[b]
            &&& forall|b: int, o: int|
                0 <= b < blocks && 0 <= o < 512 ==> #[trigger] storage.1.contents()[lba + b][o]
                    == data[512 * b + o]
        }),
{
    let lba = commands::lba_of(cbw.command@) as int;
    let count = commands::block_count_of(cbw.command@) as int;
    let expected = cbw.data_transfer_length as int;
    let written = lemma_write_ended(cbw, storage, out_ep, in_ep, sense, prevented, r);
    assert(written is Ok) by {
        if let Err(TransferError::Storage(e)) = written {
            assert(storage.1.errors().len() == storage.0.errors().len() + 1);
        }
    }
    let n = out_ep.1.received().len() - out_ep.0.received().len();
    let data = packets::joined(out_ep.0.incoming().take(n));
    assert(out_ep.1.received().skip(out_ep.0.received().len() as int) =~= out_ep.0.incoming().take(n));
    laws::write_passes_where_the_lengths_agree(cbw, sense.0, count as u16, data.len() as int);
    let taken = packets::clipped(data, expected);
    let blocks = block_writer::whole_blocks(taken.len() as int, count);
    assert(0 <= blocks && blocks * 512 <= taken.len());
    assert forall|b: int, o: int| 0 <= b < blocks && 0 <= o < 512 implies #[trigger] storage.1.contents()[lba
        + b][o] == data[512 * b + o] by {
        assert(storage.1.contents()[lba + b] == taken.subrange(b * 512, b * 512 + 512));
    }
}

/// READ (10) of blocks that do not all lie on the disk fails, moves nothing, and tells the host the address
/// that it gave.
pub proof fn read_10_behind_the_last_block_is_refused<OUT: DataEndpoint, IN: DataEndpoint, S: BlockStorage>(
    cbw: Cbw,
    storage: (&S, &S),
    out_ep: (&OUT, &OUT),
    in_ep: (&IN, &IN),
    sense: (SenseData, SenseData),
    prevented: (bool, bool),
    r: Result<CommandOutcome, EndpointError>,
)
    requires
        commands::executed(cbw, storage, out_ep, in_ep, sense, prevented, r),
        cbw.command[0] == 0x28,
        cbw.flags & 0x80 != 0 || cbw.data_transfer_length == 0,
        storage.0.ready(),
        storage.0.contents().len() <= u32::MAX,
        ({
            let lba = 0x100_0000 * cbw.command[2] + 0x1_0000 * cbw.command[3] + 0x100 * cbw.command[4]
                + cbw.command[5];
            let count = 0x100 * cbw.command[7] + cbw.command[8];
            count > 0 && lba + count > storage.0.contents().len()
        }),
    ensures
        r matches Ok(outcome) && sense.1.information == Some(({
            (0x100_0000 * cbw.command[2] + 0x1_0000 * cbw.command[3] + 0x100 * cbw.command[4]
                + cbw.command[5]) as u32
        })),
        r matches Ok(outcome) && {
            &&& outcome.csw.tag == cbw.tag
            &&& outcome.csw.status == 1
            &&& outcome.csw.residue == cbw.data_transfer_length
            &&& outcome.stall_before_csw == StallAfterCsw::NoStall
            &&& outcome.stall_after_csw == if cbw.data_transfer_length == 0 {
                StallAfterCsw::NoStall
            } else if cbw.flags & 0x80 != 0 {
                StallAfterCsw::In
            } else {
                StallAfterCsw::Out
            }
        },
        sense.1.key == 5 && sense.1.asc == 0x21 && sense.1.ascq == 0,
        sense.1.information == Some(({
            (0x100_0000 * cbw.command[2] + 0x1_0000 * cbw.command[3] + 0x100 * cbw.command[4]
                + cbw.command[5]) as u32
        })),
        sense.1.ili == false,
        sense.1.field_pointer == None::<u16>,
        storage.1.contents() == storage.0.contents(),
        storage.1.errors() == storage.0.errors(),
        in_ep.1.sent() == in_ep.0.sent(),
        out_ep.1.incoming() == out_ep.0.incoming(),
        prevented.1 == prevented.0,
{
}

/// WRITE (10) of blocks that do not all lie on the disk fails, moves nothing, and tells the host the address
/// that it gave.
pub proof fn write_10_behind_the_last_block_is_refused<OUT: DataEndpoint, IN: DataEndpoint, S: BlockStorage>(
    cbw: Cbw,
    storage: (&S, &S),
    out_ep: (&OUT, &OUT),
    in_ep: (&IN, &IN),
    sense: (SenseData, SenseData),
    prevented: (bool, bool),
    r: Result<CommandOutcome, EndpointError>,
)
    requires
        commands::executed(cbw, storage, out_ep, in_ep, sense, prevented, r),
        cbw.command[0] == 0x2A,
        cbw.flags & 0x80 == 0 || cbw.data_transfer_length == 0,
        storage.0.ready(),
        !storage.0.write_protected(),
        storage.0.contents().len() <= u32::MAX,
        ({
            let lba = 0x100_0000 * cbw.command[2] + 0x1_0000 * cbw.command[3] + 0x100 * cbw.command[4]
                + cbw.command[5];
            let count = 0x100 * cbw.command[7] + cbw.command[8];
            count > 0 && lba + count > storage.0.contents().len()
        }),
    ensures
        r matches Ok(outcome) && sense.1.information == Some(({
            (0x100_0000 * cbw.command[2] + 0x1_0000 * cbw.command[3] + 0x100 * cbw.command[4]
                + cbw.command[5]) as u32
        })),
        r matches Ok(outcome) && {
            &&& outcome.csw.tag == cbw.tag
            &&& outcome.csw.status == 1
            &&& outcome.csw.residue == cbw.data_transfer_length
            &&& outcome.stall_before_csw == StallAfterCsw::NoStall
            &&& outcome.stall_after_csw == if cbw.data_transfer_length == 0 {
                StallAfterCsw::NoStall
            } else if cbw.flags & 0x80 != 0 {
                StallAfterCsw::In
            } else {
                StallAfterCsw::Out
            }
        },
        sense.1.key == 5 && sense.1.asc == 0x21 && sense.1.ascq == 0,
        sense.1.information == Some(({
            (0x100_0000 * cbw.command[2] + 0x1_0000 * cbw.command[3] + 0x100 * cbw.command[4]
                + cbw.command[5]) as u32
        })),
        sense.1.ili == false,
        sense.1.field_pointer == None::<u16>,
        storage.1.contents() == storage.0.contents(),
        storage.1.errors() == storage.0.errors(),
        in_ep.1.sent() == in_ep.0.sent(),
        out_ep.1.incoming() == out_ep.0.incoming(),
        prevented.1 == prevented.0,
{
}

/// On a unit that is not ready, TEST UNIT READY, READ (10) and WRITE (10) fail and move nothing. The host
/// is told to initialize the unit first.
pub proof fn media_commands_need_a_ready_unit<OUT: DataEndpoint, IN: DataEndpoint, S: BlockStorage>(
    cbw: Cbw,
    storage: (&S, &S),
    out_ep: (&OUT, &OUT),
    in_ep: (&IN, &IN),
    sense: (SenseData, SenseData),
    prevented: (bool, bool),
    r: Result<CommandOutcome, EndpointError>,
)
    requires
        commands::executed(cbw, storage, out_ep, in_ep, sense, prevented, r),
        ({
            ||| cbw.command[0] == 0x00 && cbw.data_transfer_length == 0
            ||| cbw.command[0] == 0x28 && (cbw.flags & 0x80 != 0 || cbw.data_transfer_length == 0)
            ||| cbw.command[0] == 0x2A && (cbw.flags & 0x80 == 0 || cbw.data_transfer_length == 0)
        }),
        !storage.0.ready(),
    ensures
        r matches Ok(outcome) && {
            &&& outcome.csw.tag == cbw.tag
            &&& outcome.csw.status == 1
            &&& outcome.csw.residue == cbw.data_transfer_length
            &&& outcome.stall_before_csw == StallAfterCsw::NoStall
            &&& outcome.stall_after_csw == if cbw.data_transfer_length == 0 {
                StallAfterCsw::NoStall
            } else if cbw.flags & 0x80 != 0 {
                StallAfterCsw::In
            } else {
                StallAfterCsw::Out
            }
        },
        sense.1.key == 2 && sense.1.asc == 4 && sense.1.ascq == 2,
        sense.1.information == None::<u32>,
        sense.1.ili == false,
        sense.1.field_pointer == None::<u16>,
        storage.1.contents() == storage.0.contents(),
        storage.1.errors() == storage.0.errors(),
        in_ep.1.sent() == in_ep.0.sent(),
        out_ep.1.incoming() == out_ep.0.incoming(),
        prevented.1 == prevented.0,
{
}

/// On a unit that is write protected, WRITE (10) fails and moves nothing. The host is told that the unit
/// is write protected.
pub proof fn write_10_on_a_protected_unit_is_refused<OUT: DataEndpoint, IN: DataEndpoint, S: BlockStorage>(
    cbw: Cbw,
    storage: (&S, &S),
    out_ep: (&OUT, &OUT),
    in_ep: (&IN, &IN),
    sense: (SenseData, SenseData),
    prevented: (bool, bool),
    r: Result<CommandOutcome, EndpointError>,
)
    requires
        commands::executed(cbw, storage, out_ep, in_ep, sense, prevented, r),
        cbw.command[0] == 0x2A,
        cbw.flags & 0x80 == 0 || cbw.data_transfer_length == 0,
        storage.0.ready(),
        storage.0.write_protected(),
    ensures
        r matches Ok(outcome) && {
            &&& outcome.csw.tag == cbw.tag
            &&& outcome.csw.status == 1
            &&& outcome.csw.residue == cbw.data_transfer_length
            &&& outcome.stall_before_csw == StallAfterCsw::NoStall
            &&& outcome.stall_after_csw == if cbw.data_transfer_length == 0 {
                StallAfterCsw::NoStall
            } else if cbw.flags & 0x80 != 0 {
                StallAfterCsw::In
            } else {
                StallAfterCsw::Out
            }
        },
        sense.1.key == 7 && sense.1.asc == 0x27 && sense.1.ascq == 0,
        sense.1.information == None::<u32>,
        sense.1.ili == false,
        sense.1.field_pointer == None::<u16>,
        storage.1.contents() == storage.0.contents(),
        storage.1.errors() == storage.0.errors(),
        in_ep.1.sent() == in_ep.0.sent(),
        out_ep.1.incoming() == out_ep.0.incoming(),
        prevented.1 == prevented.0,
{
}

/// A command that is none of the thirteen that there are fails, moves nothing, and the host is told that
/// its operation code is not valid.
pub proof fn other_commands_are_refused<OUT: DataEndpoint, IN: DataEndpoint, S: BlockStorage>(
    cbw: Cbw,
    storage: (&S, &S),
    out_ep: (&OUT, &OUT),
    in_ep: (&IN, &IN),
    sense: (SenseData, SenseData),
    prevented: (bool, bool),
    r: Result<CommandOutcome, EndpointError>,
)
    requires
        commands::executed(cbw, storage, out_ep, in_ep, sense, prevented, r),
        !(cbw.command[0] == 0x00 || cbw.command[0] == 0x03 || cbw.command[0] == 0x12
            || cbw.command[0] == 0x1A || cbw.command[0] == 0x1B || cbw.command[0] == 0x1E
            || cbw.command[0] == 0x23 || cbw.command[0] == 0x25 || cbw.command[0] == 0x28
            || cbw.command[0] == 0x2A || cbw.command[0] == 0x2F || cbw.command[0] == 0x35
            || cbw.command[0] == 0x5A),
    ensures
        r matches Ok(outcome) && {
            &&& outcome.csw.tag == cbw.tag
            &&& outcome.csw.status == 1
            &&& outcome.csw.residue == cbw.data_transfer_length
            &&& outcome.stall_before_csw == StallAfterCsw::NoStall
            &&& outcome.stall_after_csw == if cbw.data_transfer_length == 0 {
                StallAfterCsw::NoStall
            } else if cbw.flags & 0x80 != 0 {
                StallAfterCsw::In
            } else {
                StallAfterCsw::Out
            }
        },
        sense.1.key == 5 && sense.1.asc == 0x20 && sense.1.ascq == 0,
        sense.1.information == None::<u32>,
        sense.1.ili == false,
        sense.1.field_pointer == None::<u16>,
        storage.1.contents() == storage.0.contents(),
        storage.1.errors() == storage.0.errors(),
        in_ep.1.sent() == in_ep.0.sent(),
        out_ep.1.incoming() == out_ep.0.incoming(),
        prevented.1 == prevented.0,
{
}

/// A host that announces data for a command that has none, or that goes the other way, is answered with
/// a phase error: everything that it expects is missing, both endpoints are stalled, and nothing
/// changes, the sense data neither.
pub proof fn data_the_wrong_way_is_a_phase_error<OUT: DataEndpoint, IN: DataEndpoint, S: BlockStorage>(
    cbw: Cbw,
    storage: (&S, &S),
    out_ep: (&OUT, &OUT),
    in_ep: (&IN, &IN),
    sense: (SenseData, SenseData),
    prevented: (bool, bool),
    r: Result<CommandOutcome, EndpointError>,
)
    requires
        commands::executed(cbw, storage, out_ep, in_ep, sense, prevented, r),
        cbw.data_transfer_length > 0,
        ({
            ||| cbw.command[0] == 0x00 || cbw.command[0] == 0x1B || cbw.command[0] == 0x1E
                || cbw.command[0] == 0x2F || cbw.command[0] == 0x35
            ||| cbw.flags & 0x80 == 0 && (cbw.command[0] == 0x03 || cbw.command[0] == 0x12
                || cbw.command[0] == 0x1A || cbw.command[0] == 0x23 || cbw.command[0] == 0x25
                || cbw.command[0] == 0x28 || cbw.command[0] == 0x5A)
            ||| cbw.flags & 0x80 != 0 && cbw.command[0] == 0x2A
        }),
    ensures
        r matches Ok(outcome) && {
            &&& outcome.csw.tag == cbw.tag
            &&& outcome.csw.status == 2
            &&& outcome.csw.residue == cbw.data_transfer_length
            &&& outcome.stall_before_csw == StallAfterCsw::NoStall
            &&& outcome.stall_after_csw == StallAfterCsw::Both
        },
        sense.1 == sense.0,
        storage.1.contents() == storage.0.contents(),
        storage.1.errors() == storage.0.errors(),
        in_ep.1.sent() == in_ep.0.sent(),
        out_ep.1.incoming() == out_ep.0.incoming(),
        prevented.1 == prevented.0,
{
}

/// TEST UNIT READY on a unit that is ready, START STOP UNIT, PREVENT ALLOW MEDIUM REMOVAL, VERIFY (10) and
/// SYNCHRONIZE CACHE (10) pass and move nothing. Removal is prevented from then on exactly where bit 0
/// of byte 4 of PREVENT ALLOW MEDIUM REMOVAL says so; no other command changes that.
pub proof fn commands_without_data_pass<OUT: DataEndpoint, IN: DataEndpoint, S: BlockStorage>(
    cbw: Cbw,
    storage: (&S, &S),
    out_ep: (&OUT, &OUT),
    in_ep: (&IN, &IN),
    sense: (SenseData, SenseData),
    prevented: (bool, bool),
    r: Result<CommandOutcome, EndpointError>,
)
    requires
        commands::executed(cbw, storage, out_ep, in_ep, sense, prevented, r),
        cbw.data_transfer_length == 0,
        ({
            ||| cbw.command[0] == 0x00 && storage.0.ready()
            ||| cbw.command[0] == 0x1B || cbw.command[0] == 0x1E || cbw.command[0] == 0x2F
                || cbw.command[0] == 0x35
        }),
    ensures
        r matches Ok(outcome) && {
            &&& outcome.csw.tag == cbw.tag
            &&& outcome.csw.status == 0
            &&& outcome.csw.residue == 0
            &&& outcome.stall_before_csw == StallAfterCsw::NoStall
            &&& outcome.stall_after_csw == StallAfterCsw::NoStall
        },
        sense.1 == sense.0,
        prevented.1 == if cbw.command[0] == 0x1E {
            cbw.command[4] % 2 == 1
        } else {
            prevented.0
        },
        storage.1.contents() == storage.0.contents(),
        storage.1.errors() == storage.0.errors(),
        in_ep.1.sent() == in_ep.0.sent(),
        out_ep.1.incoming() == out_ep.0.incoming(),
{
    bytes::lemma_bit_fields(cbw.command[4]);
}

/// Whether removal is prevented changes with PREVENT ALLOW MEDIUM REMOVAL alone.
pub proof fn removal_is_switched_by_one_command_alone<OUT: DataEndpoint, IN: DataEndpoint, S: BlockStorage>(
    cbw: Cbw,
    storage: (&S, &S),
    out_ep: (&OUT, &OUT),
    in_ep: (&IN, &IN),
    sense: (SenseData, SenseData),
    prevented: (bool, bool),
    r: Result<CommandOutcome, EndpointError>,
)
    requires
        commands::executed(cbw, storage, out_ep, in_ep, sense, prevented, r),
        cbw.command[0] != 0x1E,
    ensures
        prevented.1 == prevented.0,
{
}

/// The numbers in the answer of READ CAPACITY (10).
proof fn lemma_capacity(block_count: u32)
    ensures
        ({
            let full = scsi::read_capacity_10_response(block_count);
            &&& full.len() == 8
            &&& 0x100_0000 * full[0] + 0x1_0000 * full[1] + 0x100 * full[2] + full[3] == if block_count
                == 0 {
                0
            } else {
                block_count - 1
            }
            &&& full[4] == 0 && full[5] == 0 && full[6] == 2 && full[7] == 0
        }),
{
    let full = scsi::read_capacity_10_response(block_count);
    let last: u32 = if block_count > 0 {
        (block_count - 1) as u32
    } else {
        0
    };
    let digits = bytes::be32_bytes(last);
    bytes::lemma_be32_round_trip(last);
    assert(full[0] == digits[0] && full[1] == digits[1] && full[2] == digits[2] && full[3]
        == digits[3]);
}

/// The numbers in the answer of READ FORMAT CAPACITIES.
proof fn lemma_format_capacities(block_count: u32)
    ensures
        ({
            let full = scsi::read_format_capacities_response(block_count);
            &&& full.len() == 12
            &&& full[0] == 0 && full[1] == 0 && full[2] == 0 && full[3] == 8
            &&& 0x100_0000 * full[4] + 0x1_0000 * full[5] + 0x100 * full[6] + full[7]
                == block_count
            &&& full[8] == 2
            &&& full[9] == 0 && full[10] == 2 && full[11] == 0
        }),
{
    let full = scsi::read_format_capacities_response(block_count);
    let digits = bytes::be32_bytes(block_count);
    bytes::lemma_be32_round_trip(block_count);
    assert(full[4] == digits[0] && full[5] == digits[1] && full[6] == digits[2] && full[7]
        == digits[3]);
}

/// INQUIRY answers the 36 bytes that say what the device is, a direct-access device with a removable
/// medium, and who made it: "FeRam", "FeRamDisk", "1.00". As many of them come as byte 4 of the command
/// block asks for and the host expects.
pub proof fn inquiry_says_who_the_device_is<OUT: DataEndpoint, IN: DataEndpoint, S: BlockStorage>(
    cbw: Cbw,
    storage: (&S, &S),
    out_ep: (&OUT, &OUT),
    in_ep: (&IN, &IN),
    sense: (SenseData, SenseData),
    prevented: (bool, bool),
    r: Result<CommandOutcome, EndpointError>,
)
    requires
        commands::executed(cbw, storage, out_ep, in_ep, sense, prevented, r),
        cbw.command[0] == 0x12,
        cbw.flags & 0x80 != 0 || cbw.data_transfer_length == 0,
        in_ep.0.healthy(),
        storage.0.contents().len() <= u32::MAX,
        cbw.command[1] % 2 == 0 || cbw.command[2] == 0,
    ensures
        ({
            let expected = cbw.data_transfer_length as int;
            let asked = cbw.command[4] as int;
            let n = if asked < expected {
                if asked < 36 {
                    asked
                } else {
                    36
                }
            } else if expected < 36 {
                expected
            } else {
                36
            };
            let data = data_between(in_ep.0.sent(), in_ep.1.sent());
            &&& r matches Ok(outcome) && {
                &&& outcome.csw.tag == cbw.tag
                &&& outcome.csw.status == 0
                &&& outcome.csw.residue == expected - n
                &&& outcome.stall_before_csw == StallAfterCsw::NoStall
                &&& outcome.stall_after_csw == StallAfterCsw::NoStall
            }
            &&& data.len() == n
            &&& exists|full: Seq<u8>|
                {
                    &&& #[trigger] data.is_prefix_of(full)
                    &&& full.len() == 36
                    &&& full == seq![
                            0x00u8,
                            0x80u8,
                            0x06u8,
                            0x02u8,
                            0x1Fu8,
                            0x00u8,
                            0x00u8,
                            0x00u8,
                            0x46u8,
                            0x65u8,
                            0x52u8,
                            0x61u8,
                            0x6Du8,
                            0x20u8,
                            0x20u8,
                            0x20u8,
                            0x46u8,
                            0x65u8,
                            0x52u8,
                            0x61u8,
                            0x6Du8,
                            0x44u8,
                            0x69u8,
                            0x73u8,
                            0x6Bu8,
                            0x20u8,
                            0x20u8,
                            0x20u8,
                            0x20u8,
                            0x20u8,
                            0x20u8,
                            0x20u8,
                            0x31u8,
                            0x2Eu8,
                            0x30u8,
                            0x30u8,
                        ]
                }
        }),
        storage.1.contents() == storage.0.contents(),
        storage.1.errors() == storage.0.errors(),
        out_ep.1.incoming() == out_ep.0.incoming(),
        prevented.1 == prevented.0,
        sense.1 == sense.0,
{
    let expected = cbw.data_transfer_length as int;
    let asked = cbw.command[4] as int;
    let limit = if asked < expected {
        asked
    } else {
        expected
    };
    let full = scsi::inquiry_response();
    bytes::lemma_bit_fields(cbw.command[1]);
    assert(full =~= seq![
            0x00u8,
            0x80u8,
            0x06u8,
            0x02u8,
            0x1Fu8,
            0x00u8,
            0x00u8,
            0x00u8,
            0x46u8,
            0x65u8,
            0x52u8,
            0x61u8,
            0x6Du8,
            0x20u8,
            0x20u8,
            0x20u8,
            0x46u8,
            0x65u8,
            0x52u8,
            0x61u8,
            0x6Du8,
            0x44u8,
            0x69u8,
            0x73u8,
            0x6Bu8,
            0x20u8,
            0x20u8,
            0x20u8,
            0x20u8,
            0x20u8,
            0x20u8,
            0x20u8,
            0x31u8,
            0x2Eu8,
            0x30u8,
            0x30u8,
        ]);
    assert(full.len() == 36);
    lemma_data_sent(in_ep.0.sent(), full, limit, cbw.inward());
    let data = data_between(in_ep.0.sent(), in_ep.1.sent());
    assert(commands::start_of(cbw, commands::status_of(storage.0), sense.0) == commands::Start::Respond {
        bytes: full,
        limit,
    });
    assert(data == packets::clipped(full, limit));
    assert(data.is_prefix_of(full));
}

/// INQUIRY for a page of vital product data, other than the list of them, fails: byte 2 of the command
/// block is wrong.
pub proof fn inquiry_has_no_further_pages<OUT: DataEndpoint, IN: DataEndpoint, S: BlockStorage>(
    cbw: Cbw,
    storage: (&S, &S),
    out_ep: (&OUT, &OUT),
    in_ep: (&IN, &IN),
    sense: (SenseData, SenseData),
    prevented: (bool, bool),
    r: Result<CommandOutcome, EndpointError>,
)
    requires
        commands::executed(cbw, storage, out_ep, in_ep, sense, prevented, r),
        cbw.command[0] == 0x12,
        cbw.flags & 0x80 != 0 || cbw.data_transfer_length == 0,
        cbw.command[1] % 2 == 1,
        cbw.command[2] != 0,
    ensures
        r matches Ok(outcome) && {
            &&& outcome.csw.tag == cbw.tag
            &&& outcome.csw.status == 1
            &&& outcome.csw.residue == cbw.data_transfer_length
            &&& outcome.stall_before_csw == StallAfterCsw::NoStall
            &&& outcome.stall_after_csw == if cbw.data_transfer_length == 0 {
                StallAfterCsw::NoStall
            } else if cbw.flags & 0x80 != 0 {
                StallAfterCsw::In
            } else {
                StallAfterCsw::Out
            }
        },
        sense.1.key == 5 && sense.1.asc == 0x24 && sense.1.ascq == 0,
        sense.1.information == None::<u32>,
        sense.1.ili == false,
        sense.1.field_pointer == Some(2u16),
        storage.1.contents() == storage.0.contents(),
        storage.1.errors() == storage.0.errors(),
        in_ep.1.sent() == in_ep.0.sent(),
        out_ep.1.incoming() == out_ep.0.incoming(),
        prevented.1 == prevented.0,
{
    bytes::lemma_bit_fields(cbw.command[1]);
}

/// Whether 18 bytes are sense data in the fixed format: the key, both codes, the information field and
/// the field pointer where there are any, each big-endian and marked as valid, and whether a length was
/// wrong.
pub open spec fn is_sense_data(full: Seq<u8>, sense: SenseData) -> bool {
    &&& full.len() == 18
    &&& full[0] == if sense.information is Some {
        0xF0u8
    } else {
        0x70u8
    }
    &&& full[1] == 0
    &&& full[2] % 16 == sense.key % 16
    &&& full[2] / 16 == if sense.ili {
        2u8
    } else {
        0u8
    }
    &&& 0x100_0000 * full[3] + 0x1_0000 * full[4] + 0x100 * full[5] + full[6]
        == match sense.information {
        Some(information) => information as int,
        None => 0,
    }
    &&& full[7] == 10
    &&& full[8] == 0 && full[9] == 0 && full[10] == 0 && full[11] == 0
    &&& full[12] == sense.asc
    &&& full[13] == sense.ascq
    &&& full[14] == 0
    &&& full[15] == if sense.field_pointer is Some {
        0xC0u8
    } else {
        0u8
    }
    &&& 0x100 * full[16] + full[17] == match sense.field_pointer {
        Some(field_pointer) => field_pointer as int,
        None => 0,
    }
}

proof fn lemma_sense_data(sense: SenseData)
    ensures
        is_sense_data(crate::usb::sense::sense_response(sense), sense),
{
    let full = crate::usb::sense::sense_response(sense);
    let key = sense.key & 0x0F;
    bytes::lemma_bit_fields(sense.key);
    bytes::lemma_bit_fields(key);
    assert(full.len() == 18);
    assert(key | 0 == key) by (bit_vector);
    if let Some(information) = sense.information {
        bytes::lemma_be32_round_trip(information);
    }
}

/// REQUEST SENSE answers the sense data as it stands, in the 18 bytes of the fixed format: the key, both
/// codes, the information field and the field pointer where there are any, each big-endian and marked
/// as valid, and whether a length was wrong. Then there is nothing to report any longer.
#[verifier::rlimit(40)]
pub proof fn request_sense_tells_what_went_wrong<OUT: DataEndpoint, IN: DataEndpoint, S: BlockStorage>(
    cbw: Cbw,
    storage: (&S, &S),
    out_ep: (&OUT, &OUT),
    in_ep: (&IN, &IN),
    sense: (SenseData, SenseData),
    prevented: (bool, bool),
    r: Result<CommandOutcome, EndpointError>,
)
    requires
        commands::executed(cbw, storage, out_ep, in_ep, sense, prevented, r),
        cbw.command[0] == 0x03,
        cbw.flags & 0x80 != 0 || cbw.data_transfer_length == 0,
        in_ep.0.healthy(),
        storage.0.contents().len() <= u32::MAX,
        cbw.command[1] % 2 == 0,
    ensures
        ({
            let expected = cbw.data_transfer_length as int;
            let asked = cbw.command[4] as int;
            let n = if asked < expected {
                if asked < 18 {
                    asked
                } else {
                    18
                }
            } else if expected < 18 {
                expected
            } else {
                18
            };
            let data = data_between(in_ep.0.sent(), in_ep.1.sent());
            &&& r matches Ok(outcome) && {
                &&& outcome.csw.tag == cbw.tag
                &&& outcome.csw.status == 0
                &&& outcome.csw.residue == expected - n
                &&& outcome.stall_before_csw == StallAfterCsw::NoStall
                &&& outcome.stall_after_csw == StallAfterCsw::NoStall
            }
            &&& data.len() == n
            &&& exists|full: Seq<u8>|
                {
                    &&& #[trigger] data.is_prefix_of(full)
                    &&& is_sense_data(full, sense.0)
                }
        }),
        storage.1.contents() == storage.0.contents(),
        storage.1.errors() == storage.0.errors(),
        out_ep.1.incoming() == out_ep.0.incoming(),
        prevented.1 == prevented.0,
        sense.1.key == 0 && sense.1.asc == 0 && sense.1.ascq == 0,
        sense.1.information is None && !sense.1.ili && sense.1.field_pointer is None,
{
    let expected = cbw.data_transfer_length as int;
    let asked = cbw.command[4] as int;
    let limit = if asked < expected {
        asked
    } else {
        expected
    };
    let full = crate::usb::sense::sense_response(sense.0);
    bytes::lemma_bit_fields(cbw.command[1]);
    assert(full.len() == 18);
    lemma_data_sent(in_ep.0.sent(), full, limit, cbw.inward());
    let data = data_between(in_ep.0.sent(), in_ep.1.sent());
    assert(commands::start_of(cbw, commands::status_of(storage.0), sense.0) == commands::Start::Respond {
        bytes: full,
        limit,
    });
    assert(data == packets::clipped(full, limit));
    assert(data.is_prefix_of(full));
    lemma_sense_data(sense.0);
}

/// REQUEST SENSE for the descriptor format fails: byte 1 of the command block is wrong. What there was to
/// report is replaced by that.
pub proof fn request_sense_knows_one_format<OUT: DataEndpoint, IN: DataEndpoint, S: BlockStorage>(
    cbw: Cbw,
    storage: (&S, &S),
    out_ep: (&OUT, &OUT),
    in_ep: (&IN, &IN),
    sense: (SenseData, SenseData),
    prevented: (bool, bool),
    r: Result<CommandOutcome, EndpointError>,
)
    requires
        commands::executed(cbw, storage, out_ep, in_ep, sense, prevented, r),
        cbw.command[0] == 0x03,
        cbw.flags & 0x80 != 0 || cbw.data_transfer_length == 0,
        cbw.command[1] % 2 == 1,
    ensures
        r matches Ok(outcome) && {
            &&& outcome.csw.tag == cbw.tag
            &&& outcome.csw.status == 1
            &&& outcome.csw.residue == cbw.data_transfer_length
            &&& outcome.stall_before_csw == StallAfterCsw::NoStall
            &&& outcome.stall_after_csw == if cbw.data_transfer_length == 0 {
                StallAfterCsw::NoStall
            } else if cbw.flags & 0x80 != 0 {
                StallAfterCsw::In
            } else {
                StallAfterCsw::Out
            }
        },
        sense.1.key == 5 && sense.1.asc == 0x24 && sense.1.ascq == 0,
        sense.1.information == None::<u32>,
        sense.1.ili == false,
        sense.1.field_pointer == Some(1u16),
        storage.1.contents() == storage.0.contents(),
        storage.1.errors() == storage.0.errors(),
        in_ep.1.sent() == in_ep.0.sent(),
        out_ep.1.incoming() == out_ep.0.incoming(),
        prevented.1 == prevented.0,
{
    bytes::lemma_bit_fields(cbw.command[1]);
}

/// READ CAPACITY (10) answers the address of the last block and the length of a block, 512, both
/// big-endian. A disk without blocks answers address 0.
pub proof fn read_capacity_names_the_last_block<OUT: DataEndpoint, IN: DataEndpoint, S: BlockStorage>(
    cbw: Cbw,
    storage: (&S, &S),
    out_ep: (&OUT, &OUT),
    in_ep: (&IN, &IN),
    sense: (SenseData, SenseData),
    prevented: (bool, bool),
    r: Result<CommandOutcome, EndpointError>,
)
    requires
        commands::executed(cbw, storage, out_ep, in_ep, sense, prevented, r),
        cbw.command[0] == 0x25,
        cbw.flags & 0x80 != 0 || cbw.data_transfer_length == 0,
        in_ep.0.healthy(),
        storage.0.contents().len() <= u32::MAX,
    ensures
        ({
            let expected = cbw.data_transfer_length as int;
            let asked = cbw.data_transfer_length as int;
            let n = if asked < expected {
                if asked < 8 {
                    asked
                } else {
                    8
                }
            } else if expected < 8 {
                expected
            } else {
                8
            };
            let data = data_between(in_ep.0.sent(), in_ep.1.sent());
            &&& r matches Ok(outcome) && {
                &&& outcome.csw.tag == cbw.tag
                &&& outcome.csw.status == 0
                &&& outcome.csw.residue == expected - n
                &&& outcome.stall_before_csw == StallAfterCsw::NoStall
                &&& outcome.stall_after_csw == StallAfterCsw::NoStall
            }
            &&& data.len() == n
            &&& exists|full: Seq<u8>|
                {
                    &&& #[trigger] data.is_prefix_of(full)
                    &&& full.len() == 8
                    &&& 0x100_0000 * full[0] + 0x1_0000 * full[1] + 0x100 * full[2] + full[3] == if
                        storage.0.contents().len() == 0 {
                        0
                    } else {
                        storage.0.contents().len() - 1
                    }
                    &&& full[4] == 0 && full[5] == 0 && full[6] == 2 && full[7] == 0
                }
        }),
        storage.1.contents() == storage.0.contents(),
        storage.1.errors() == storage.0.errors(),
        out_ep.1.incoming() == out_ep.0.incoming(),
        prevented.1 == prevented.0,
        sense.1 == sense.0,
{
    let expected = cbw.data_transfer_length as int;
    let asked = cbw.data_transfer_length as int;
    let limit = if asked < expected {
        asked
    } else {
        expected
    };
    let full = scsi::read_capacity_10_response(storage.0.contents().len() as u32);
    lemma_capacity(storage.0.contents().len() as u32);
    assert(full.len() == 8);
    lemma_data_sent(in_ep.0.sent(), full, limit, cbw.inward());
    let data = data_between(in_ep.0.sent(), in_ep.1.sent());
    assert(commands::start_of(cbw, commands::status_of(storage.0), sense.0) == commands::Start::Respond {
        bytes: full,
        limit,
    });
    assert(data == packets::clipped(full, limit));
    assert(data.is_prefix_of(full));
}

/// READ FORMAT CAPACITIES answers one descriptor: the number of blocks, big-endian, of a medium that is
/// formatted, and the length of a block, 512. As much of it comes as bytes 7 and 8 of the command block
/// ask for and the host expects.
pub proof fn read_format_capacities_counts_the_blocks<OUT: DataEndpoint, IN: DataEndpoint, S: BlockStorage>(
    cbw: Cbw,
    storage: (&S, &S),
    out_ep: (&OUT, &OUT),
    in_ep: (&IN, &IN),
    sense: (SenseData, SenseData),
    prevented: (bool, bool),
    r: Result<CommandOutcome, EndpointError>,
)
    requires
        commands::executed(cbw, storage, out_ep, in_ep, sense, prevented, r),
        cbw.command[0] == 0x23,
        cbw.flags & 0x80 != 0 || cbw.data_transfer_length == 0,
        in_ep.0.healthy(),
        storage.0.contents().len() <= u32::MAX,
    ensures
        ({
            let expected = cbw.data_transfer_length as int;
            let asked = 0x100 * cbw.command[7] + cbw.command[8];
            let n = if asked < expected {
                if asked < 12 {
                    asked
                } else {
                    12
                }
            } else if expected < 12 {
                expected
            } else {
                12
            };
            let data = data_between(in_ep.0.sent(), in_ep.1.sent());
            &&& r matches Ok(outcome) && {
                &&& outcome.csw.tag == cbw.tag
                &&& outcome.csw.status == 0
                &&& outcome.csw.residue == expected - n
                &&& outcome.stall_before_csw == StallAfterCsw::NoStall
                &&& outcome.stall_after_csw == StallAfterCsw::NoStall
            }
            &&& data.len() == n
            &&& exists|full: Seq<u8>|
                {
                    &&& #[trigger] data.is_prefix_of(full)
                    &&& full.len() == 12
                    &&& full[0] == 0 && full[1] == 0 && full[2] == 0 && full[3] == 8
                    &&& 0x100_0000 * full[4] + 0x1_0000 * full[5] + 0x100 * full[6] + full[7]
                        == storage.0.contents().len()
                    &&& full[8] == 2
                    &&& full[9] == 0 && full[10] == 2 && full[11] == 0
                }
        }),
        storage.1.contents() == storage.0.contents(),
        storage.1.errors() == storage.0.errors(),
        out_ep.1.incoming() == out_ep.0.incoming(),
        prevented.1 == prevented.0,
        sense.1 == sense.0,
{
    let expected = cbw.data_transfer_length as int;
    let asked = 0x100 * cbw.command[7] + cbw.command[8];
    let limit = if asked < expected {
        asked
    } else {
        expected
    };
    let full = scsi::read_format_capacities_response(storage.0.contents().len() as u32);
    lemma_format_capacities(storage.0.contents().len() as u32);
    assert(full.len() == 12);
    lemma_data_sent(in_ep.0.sent(), full, limit, cbw.inward());
    let data = data_between(in_ep.0.sent(), in_ep.1.sent());
    assert(commands::start_of(cbw, commands::status_of(storage.0), sense.0) == commands::Start::Respond {
        bytes: full,
        limit,
    });
    assert(data == packets::clipped(full, limit));
    assert(data.is_prefix_of(full));
}

/// MODE SENSE (6) sets the write-protect bit, 0x80 of byte 2, exactly where the unit is write protected.
/// Behind the header comes the caching page: no write cache, and the read cache disabled.
pub proof fn mode_sense_6_tells_whether_the_unit_is_protected<OUT: DataEndpoint, IN: DataEndpoint, S: BlockStorage>(
    cbw: Cbw,
    storage: (&S, &S),
    out_ep: (&OUT, &OUT),
    in_ep: (&IN, &IN),
    sense: (SenseData, SenseData),
    prevented: (bool, bool),
    r: Result<CommandOutcome, EndpointError>,
)
    requires
        commands::executed(cbw, storage, out_ep, in_ep, sense, prevented, r),
        cbw.command[0] == 0x1A,
        cbw.flags & 0x80 != 0 || cbw.data_transfer_length == 0,
        in_ep.0.healthy(),
        storage.0.contents().len() <= u32::MAX,
        ({
            &&& cbw.command[2] / 64 == 0
            &&& cbw.command[2] % 64 == 8 || cbw.command[2] % 64 == 0x3F
            &&& cbw.command[3] == 0 || cbw.command[3] == 0xFF
        }),
    ensures
        ({
            let expected = cbw.data_transfer_length as int;
            let asked = cbw.command[4] as int;
            let n = if asked < expected {
                if asked < 24 {
                    asked
                } else {
                    24
                }
            } else if expected < 24 {
                expected
            } else {
                24
            };
            let data = data_between(in_ep.0.sent(), in_ep.1.sent());
            &&& r matches Ok(outcome) && {
                &&& outcome.csw.tag == cbw.tag
                &&& outcome.csw.status == 0
                &&& outcome.csw.residue == expected - n
                &&& outcome.stall_before_csw == StallAfterCsw::NoStall
                &&& outcome.stall_after_csw == StallAfterCsw::NoStall
            }
            &&& data.len() == n
            &&& exists|full: Seq<u8>|
                {
                    &&& #[trigger] data.is_prefix_of(full)
                    &&& full.len() == 24
                    &&& full[0] == 23
                    &&& full[1] == 0
                    &&& full[3] == 0
                    &&& full[2] == if storage.0.write_protected() {
                        0x80u8
                    } else {
                        0u8
                    }
                    &&& full[4] == 8 && full[5] == 0x12 && full[6] == 1
                    &&& forall|i: int| 7 <= i < 24 ==> full[i] == 0
                }
        }),
        storage.1.contents() == storage.0.contents(),
        storage.1.errors() == storage.0.errors(),
        out_ep.1.incoming() == out_ep.0.incoming(),
        prevented.1 == prevented.0,
        sense.1 == sense.0,
{
    let expected = cbw.data_transfer_length as int;
    let asked = cbw.command[4] as int;
    let limit = if asked < expected {
        asked
    } else {
        expected
    };
    let full = scsi::mode_sense_6_response(storage.0.write_protected());
    bytes::lemma_bit_fields(cbw.command[2]);
    assert(full.len() == 24);
    lemma_data_sent(in_ep.0.sent(), full, limit, cbw.inward());
    let data = data_between(in_ep.0.sent(), in_ep.1.sent());
    assert(commands::start_of(cbw, commands::status_of(storage.0), sense.0) == commands::Start::Respond {
        bytes: full,
        limit,
    });
    assert(data == packets::clipped(full, limit));
    assert(data.is_prefix_of(full));
    assert(full[0] == 23);
    assert(full[1] == 0);
    assert(full[3] == 0);
    assert(full[2] == if storage.0.write_protected() {
        0x80u8
    } else {
        0u8
    });
    assert(full[4] == 8 && full[5] == 0x12 && full[6] == 1);
    assert(forall|i: int| 7 <= i < 24 ==> full[i] == 0);
}

/// MODE SENSE (10) sets the write-protect bit, 0x80 of byte 3, exactly where the unit is write protected.
/// Behind the header comes the caching page: no write cache, and the read cache disabled.
pub proof fn mode_sense_10_tells_whether_the_unit_is_protected<OUT: DataEndpoint, IN: DataEndpoint, S: BlockStorage>(
    cbw: Cbw,
    storage: (&S, &S),
    out_ep: (&OUT, &OUT),
    in_ep: (&IN, &IN),
    sense: (SenseData, SenseData),
    prevented: (bool, bool),
    r: Result<CommandOutcome, EndpointError>,
)
    requires
        commands::executed(cbw, storage, out_ep, in_ep, sense, prevented, r),
        cbw.command[0] == 0x5A,
        cbw.flags & 0x80 != 0 || cbw.data_transfer_length == 0,
        in_ep.0.healthy(),
        storage.0.contents().len() <= u32::MAX,
        ({
            &&& cbw.command[2] / 64 == 0
            &&& cbw.command[2] % 64 == 8 || cbw.command[2] % 64 == 0x3F
            &&& cbw.command[3] == 0 || cbw.command[3] == 0xFF
        }),
    ensures
        ({
            let expected = cbw.data_transfer_length as int;
            let asked = 0x100 * cbw.command[7] + cbw.command[8];
            let n = if asked < expected {
                if asked < 28 {
                    asked
                } else {
                    28
                }
            } else if expected < 28 {
                expected
            } else {
                28
            };
            let data = data_between(in_ep.0.sent(), in_ep.1.sent());
            &&& r matches Ok(outcome) && {
                &&& outcome.csw.tag == cbw.tag
                &&& outcome.csw.status == 0
                &&& outcome.csw.residue == expected - n
                &&& outcome.stall_before_csw == StallAfterCsw::NoStall
                &&& outcome.stall_after_csw == StallAfterCsw::NoStall
            }
            &&& data.len() == n
            &&& exists|full: Seq<u8>|
                {
                    &&& #[trigger] data.is_prefix_of(full)
                    &&& full.len() == 28
                    &&& full[0] == 0 && full[1] == 26
                    &&& full[2] == 0
                    &&& full[4] == 0 && full[5] == 0 && full[6] == 0 && full[7] == 0
                    &&& full[3] == if storage.0.write_protected() {
                        0x80u8
                    } else {
                        0u8
                    }
                    &&& full[8] == 8 && full[9] == 0x12 && full[10] == 1
                    &&& forall|i: int| 11 <= i < 28 ==> full[i] == 0
                }
        }),
        storage.1.contents() == storage.0.contents(),
        storage.1.errors() == storage.0.errors(),
        out_ep.1.incoming() == out_ep.0.incoming(),
        prevented.1 == prevented.0,
        sense.1 == sense.0,
{
    let expected = cbw.data_transfer_length as int;
    let asked = 0x100 * cbw.command[7] + cbw.command[8];
    let limit = if asked < expected {
        asked
    } else {
        expected
    };
    let full = scsi::mode_sense_10_response(storage.0.write_protected());
    bytes::lemma_bit_fields(cbw.command[2]);
    assert(full.len() == 28);
    lemma_data_sent(in_ep.0.sent(), full, limit, cbw.inward());
    let data = data_between(in_ep.0.sent(), in_ep.1.sent());
    assert(commands::start_of(cbw, commands::status_of(storage.0), sense.0) == commands::Start::Respond {
        bytes: full,
        limit,
    });
    assert(data == packets::clipped(full, limit));
    assert(data.is_prefix_of(full));
    assert(full[0] == 0 && full[1] == 26);
    assert(full[2] == 0);
    assert(full[4] == 0 && full[5] == 0 && full[6] == 0 && full[7] == 0);
    assert(full[3] == if storage.0.write_protected() {
        0x80u8
    } else {
        0u8
    });
    assert(full[8] == 8 && full[9] == 0x12 && full[10] == 1);
    assert(forall|i: int| 11 <= i < 28 ==> full[i] == 0);
}

/// MODE SENSE for anything but the current values of the caching page, or of all pages, fails: byte 2 of
/// the command block is wrong.
pub proof fn mode_sense_knows_one_page<OUT: DataEndpoint, IN: DataEndpoint, S: BlockStorage>(
    cbw: Cbw,
    storage: (&S, &S),
    out_ep: (&OUT, &OUT),
    in_ep: (&IN, &IN),
    sense: (SenseData, SenseData),
    prevented: (bool, bool),
    r: Result<CommandOutcome, EndpointError>,
)
    requires
        commands::executed(cbw, storage, out_ep, in_ep, sense, prevented, r),
        cbw.command[0] == 0x1A || cbw.command[0] == 0x5A,
        cbw.flags & 0x80 != 0 || cbw.data_transfer_length == 0,
        !({
            &&& cbw.command[2] / 64 == 0
            &&& cbw.command[2] % 64 == 8 || cbw.command[2] % 64 == 0x3F
            &&& cbw.command[3] == 0 || cbw.command[3] == 0xFF
        }),
    ensures
        r matches Ok(outcome) && {
            &&& outcome.csw.tag == cbw.tag
            &&& outcome.csw.status == 1
            &&& outcome.csw.residue == cbw.data_transfer_length
            &&& outcome.stall_before_csw == StallAfterCsw::NoStall
            &&& outcome.stall_after_csw == if cbw.data_transfer_length == 0 {
                StallAfterCsw::NoStall
            } else if cbw.flags & 0x80 != 0 {
                StallAfterCsw::In
            } else {
                StallAfterCsw::Out
            }
        },
        sense.1.key == 5 && sense.1.asc == 0x24 && sense.1.ascq == 0,
        sense.1.information == None::<u32>,
        sense.1.ili == false,
        sense.1.field_pointer == Some(2u16),
        storage.1.contents() == storage.0.contents(),
        storage.1.errors() == storage.0.errors(),
        in_ep.1.sent() == in_ep.0.sent(),
        out_ep.1.incoming() == out_ep.0.incoming(),
        prevented.1 == prevented.0,
{
    bytes::lemma_bit_fields(cbw.command[2]);
}

/// A READ (10) that meets a block which cannot be read fails, and the sense data tells which error the
/// disk gave. Whatever was sent before is the first part of the blocks, whole ones.
#[verifier::rlimit(40)]
pub proof fn read_10_tells_why_a_block_could_not_be_read<OUT: DataEndpoint, IN: DataEndpoint, S: BlockStorage>(
    cbw: Cbw,
    storage: (&S, &S),
    out_ep: (&OUT, &OUT),
    in_ep: (&IN, &IN),
    sense: (SenseData, SenseData),
    prevented: (bool, bool),
    r: Result<CommandOutcome, EndpointError>,
    error: StorageError,
)
    requires
        commands::executed(cbw, storage, out_ep, in_ep, sense, prevented, r),
        cbw.command[0] == 0x28,
        storage.1.errors() == storage.0.errors().push(error),
        storage.0.contents().len() <= u32::MAX,
    ensures
        r matches Ok(outcome) && {
            &&& outcome.csw.tag == cbw.tag
            &&& outcome.csw.status == 1
            &&& outcome.csw.residue == cbw.data_transfer_length
            &&& outcome.stall_before_csw == StallAfterCsw::NoStall
            &&& outcome.stall_after_csw == if cbw.data_transfer_length == 0 {
                StallAfterCsw::NoStall
            } else if cbw.flags & 0x80 != 0 {
                StallAfterCsw::In
            } else {
                StallAfterCsw::Out
            }
        },
        ({
            let told = (sense.1.key, sense.1.asc, sense.1.ascq);
            match error {
                StorageError::NotReady => told == (2u8, 4u8, 2u8),
                StorageError::MediumError => told == (3u8, 0x11u8, 0u8),
                StorageError::WriteProtect => told == (7u8, 0x27u8, 0u8),
                StorageError::HardwareError => told == (4u8, 0x44u8, 0u8),
            }
        }),
        sense.1.information is None && !sense.1.ili && sense.1.field_pointer is None,
        storage.1.contents() == storage.0.contents(),
        ({
            let lba = 0x100_0000 * cbw.command[2] + 0x1_0000 * cbw.command[3] + 0x100 * cbw.command[4]
                + cbw.command[5];
            let data = data_between(in_ep.0.sent(), in_ep.1.sent());
            &&& data.len() % 512 == 0
            &&& forall|i: int|
                0 <= i < data.len() ==> #[trigger] data[i] == storage.0.contents()[lba + i / 512][i
                    % 512]
        }),
{
    let lba = commands::lba_of(cbw.command@) as int;
    let count = commands::block_count_of(cbw.command@) as int;
    let expected = cbw.data_transfer_length as int;
    assert(storage.1.errors() != storage.0.errors());
    let read = choose|read: Result<u32, TransferError>|
        {
            &&& #[trigger] block_reader::read_by(
                storage.0,
                in_ep.0,
                lba,
                count,
                expected,
                cbw.inward(),
                storage.1,
                in_ep.1,
                read,
            )
            &&& (r, sense.1) == commands::read_end(cbw, sense.0, read)
        };
    assert(read matches Err(TransferError::Storage(e)) && e == error) by {
        if let Err(TransferError::Storage(e)) = read {
            assert(storage.1.errors().last() == e);
        }
    }
    let payload = block_reader::blocks_payload(storage.0.contents(), lba, count);
    let sent = packets::clipped(payload, expected);
    let all = packets::in_packets(payload, expected, cbw.inward());
    let b = choose|b: int|
        {
            &&& 0 <= b < count
            &&& b * 512 < expected
            &&& #[trigger] block_reader::sent_before_block(in_ep.0.sent(), all, b, in_ep.1.sent())
        };
    let first = all.take(b * 8);
    assert(in_ep.1.sent().skip(in_ep.0.sent().len() as int) =~= first);
    assert forall|j: int| 0 <= j < first.len() implies (#[trigger] first[j]).len() == 64 by {
        assert(first[j] == packets::packets_of(sent)[j]);
    }
    lemma_full_packets(first);
    let data = packets::joined(first);
    assert forall|i: int| 0 <= i < data.len() implies #[trigger] data[i] == storage.0.contents()[lba + i
        / 512][i % 512] by {
        assert(data[i] == first[i / 64][i % 64]);
        assert(first[i / 64] == packets::packets_of(sent)[i / 64]);
        assert(i == 64 * (i / 64) + i % 64);
        assert(sent[i] == payload[i]);
    }
}

/// A WRITE (10) that meets a block which cannot be written fails, and the sense data tells which error
/// the disk gave. Everything that the host expects counts as missing.
#[verifier::rlimit(40)]
pub proof fn write_10_tells_why_a_block_could_not_be_written<OUT: DataEndpoint, IN: DataEndpoint, S: BlockStorage>(
    cbw: Cbw,
    storage: (&S, &S),
    out_ep: (&OUT, &OUT),
    in_ep: (&IN, &IN),
    sense: (SenseData, SenseData),
    prevented: (bool, bool),
    r: Result<CommandOutcome, EndpointError>,
    error: StorageError,
)
    requires
        commands::executed(cbw, storage, out_ep, in_ep, sense, prevented, r),
        cbw.command[0] == 0x2A,
        storage.1.errors() == storage.0.errors().push(error),
        storage.0.contents().len() <= u32::MAX,
    ensures
        r matches Ok(outcome) && {
            &&& outcome.csw.tag == cbw.tag
            &&& outcome.csw.status == 1
            &&& outcome.csw.residue == cbw.data_transfer_length
            &&& outcome.stall_before_csw == StallAfterCsw::NoStall
            &&& outcome.stall_after_csw == if cbw.data_transfer_length == 0 {
                StallAfterCsw::NoStall
            } else if cbw.flags & 0x80 != 0 {
                StallAfterCsw::In
            } else {
                StallAfterCsw::Out
            }
        },
        ({
            let told = (sense.1.key, sense.1.asc, sense.1.ascq);
            match error {
                StorageError::NotReady => told == (2u8, 4u8, 2u8),
                StorageError::MediumError => told == (3u8, 0x0Cu8, 0u8),
                StorageError::WriteProtect => told == (7u8, 0x27u8, 0u8),
                StorageError::HardwareError => told == (4u8, 0x44u8, 0u8),
            }
        }),
        sense.1.information is None && !sense.1.ili && sense.1.field_pointer is None,
        in_ep.1.sent() == in_ep.0.sent(),
{
    assert(storage.1.errors() != storage.0.errors());
    let written = lemma_write_ended(cbw, storage, out_ep, in_ep, sense, prevented, r);
    assert(written matches Err(TransferError::Storage(e)) && e == error) by {
        if let Err(TransferError::Storage(e)) = written {
            assert(storage.1.errors().last() == e);
        }
    }
}

/// A command ends without a status exactly where an endpoint failed, and with its error. The sense data
/// stays as it was.
pub proof fn endpoint_errors_end_a_command<OUT: DataEndpoint, IN: DataEndpoint, S: BlockStorage>(
    cbw: Cbw,
    storage: (&S, &S),
    out_ep: (&OUT, &OUT),
    in_ep: (&IN, &IN),
    sense: (SenseData, SenseData),
    prevented: (bool, bool),
    r: Result<CommandOutcome, EndpointError>,
)
    requires
        commands::executed(cbw, storage, out_ep, in_ep, sense, prevented, r),
        r is Err,
    ensures
        sense.1 == sense.0,
        r matches Err(error) && (in_ep.1.errors() == in_ep.0.errors().push(error)
            || out_ep.1.errors() == out_ep.0.errors().push(error)),
{
}

/// A command that ends with a status has met no error of an endpoint.
pub proof fn no_endpoint_error_is_lost<OUT: DataEndpoint, IN: DataEndpoint, S: BlockStorage>(
    cbw: Cbw,
    storage: (&S, &S),
    out_ep: (&OUT, &OUT),
    in_ep: (&IN, &IN),
    sense: (SenseData, SenseData),
    prevented: (bool, bool),
    r: Result<CommandOutcome, EndpointError>,
)
    requires
        commands::executed(cbw, storage, out_ep, in_ep, sense, prevented, r),
        r is Ok,
    ensures
        in_ep.1.errors() == in_ep.0.errors(),
        out_ep.1.errors() == out_ep.0.errors(),
{
}

/// What the execution of a command does is what the laws speak of.
pub proof fn execution_is_what_the_laws_speak_of<OUT: DataEndpoint, IN: DataEndpoint, S: BlockStorage>(
    storage: &mut S,
    out_ep: &mut OUT,
    in_ep: &mut IN,
    sense: &mut SenseData,
    prevented: &mut bool,
    cbw: Cbw,
    r: Result<CommandOutcome, EndpointError>,
)
    requires
        call_ensures(
            commands::execute_command::<OUT, IN, S>,
            (storage, out_ep, in_ep, sense, prevented, cbw),
            r,
        ),
    ensures
        commands::executed(
            cbw,
            (old(storage), final(storage)),
            (old(out_ep), final(out_ep)),
            (old(in_ep), final(in_ep)),
            (*old(sense), *final(sense)),
            (*old(prevented), *final(prevented)),
            r,
        ),
{
}

} // verus!
