//! What the commands promise of each other.

use vstd::prelude::*;
use crate::bytes;
use crate::storage::block::BlockStorage;
use crate::usb::block_reader::{self, TransferError};
use crate::usb::block_writer::{self, WriteTransfer};
use crate::usb::bot::{Cbw, DataDirection, DataEndpoint, EndpointError};
use crate::usb::commands::{self, CommandOutcome, StallAfterCsw, Start, UnitStatus};
use crate::usb::constants::{
    BLOCK_SIZE, CSW_STATUS_FAILED, CSW_STATUS_PASSED, SCSI_READ_10, SCSI_REQUEST_SENSE,
    SCSI_WRITE_10, USB_PACKET_SIZE,
};
use crate::usb::packets;
use crate::usb::scsi;
use crate::usb::sense::{self, SenseData};

verus! {

/// Blocks read back are the blocks that were written, byte for byte.
pub proof fn blocks_read_back_as_written(
    contents: Seq<Seq<u8>>,
    lba: int,
    count: int,
    data: Seq<u8>,
)
    requires
        0 <= lba,
        0 <= count,
        lba + count <= contents.len(),
        data.len() == count * BLOCK_SIZE,
    ensures
        block_reader::blocks_payload(
            block_writer::write_stream(contents, lba, count, data),
            lba,
            count,
        ) == data,
{
    let written = block_writer::write_stream(contents, lba, count, data);
    let payload = block_reader::blocks_payload(written, lba, count);
    assert forall|i: int| 0 <= i < data.len() implies #[trigger] payload[i] == data[i] by {
        let block = i / BLOCK_SIZE as int;
        assert(0 <= block < count);
        assert(written[lba + block] == data.subrange(
            block * BLOCK_SIZE,
            block * BLOCK_SIZE + BLOCK_SIZE,
        ));
        assert(i == block * BLOCK_SIZE + i % BLOCK_SIZE as int);
    }
    assert(payload =~= data);
}

/// Writing blocks leaves every other block as it was, and the device its size.
pub proof fn writing_leaves_other_blocks(
    contents: Seq<Seq<u8>>,
    lba: int,
    count: int,
    data: Seq<u8>,
)
    ensures
        block_writer::write_stream(contents, lba, count, data).len() == contents.len(),
        forall|i: int|
            0 <= i < contents.len() && !(lba <= i < lba + count)
                ==> #[trigger] block_writer::write_stream(contents, lba, count, data)[i]
                == contents[i],
{
}

/// A data phase that expects as many bytes as a host sends takes exactly the packets that carry
/// them.
pub proof fn data_phase_takes_the_data(data: Seq<u8>, rest: Seq<Seq<u8>>)
    ensures
        ({
            let incoming = packets::packets_of(data) + rest;
            let n = block_writer::taken_packets(incoming, data.len() as int);
            &&& n == packets::packets_of(data).len()
            &&& packets::joined(incoming.take(n)) == data
        }),
{
    let sent = packets::packets_of(data);
    let incoming = sent + rest;
    lemma_data_packets(data, rest);
    packets::packets_carry_the_data(data);
    assert(incoming.take(sent.len() as int) =~= sent);
}

proof fn lemma_data_packets(data: Seq<u8>, rest: Seq<Seq<u8>>)
    ensures
        block_writer::data_packets(packets::packets_of(data) + rest, data.len() as int)
            == packets::packets_of(data).len(),
    decreases data.len(),
{
    let sent = packets::packets_of(data);
    if data.len() > 0 {
        let n = if data.len() < USB_PACKET_SIZE {
            data.len() as int
        } else {
            USB_PACKET_SIZE as int
        };
        packets::lemma_first_packet(data, n);
        let incoming = sent + rest;
        assert(incoming[0] == data.take(n));
        assert(incoming.drop_first() =~= packets::packets_of(data.skip(n)) + rest);
        if n < data.len() {
            lemma_data_packets(data.skip(n), rest);
        }
    }
}

/// A WRITE (10) passes where the host sent exactly the bytes of the blocks that the command block
/// asks for, having announced as many, and nowhere else.
pub proof fn write_passes_where_the_lengths_agree(
    cbw: Cbw,
    current: SenseData,
    block_count: u16,
    len: int,
)
    requires
        0 <= len,
    ensures
        ({
            let expected = cbw.data_transfer_length as int;
            let transfer = block_writer::transfer_of(len, expected, block_count as int);
            let (r, after) = commands::write_end(cbw, current, block_count, Ok(transfer));
            let agree = len == expected && expected == block_count * BLOCK_SIZE;
            &&& r matches Ok(outcome) && outcome.csw.status == if agree {
                CSW_STATUS_PASSED
            } else {
                CSW_STATUS_FAILED
            }
            &&& agree ==> after == current && r->Ok_0.csw.residue == 0
            &&& !agree ==> after == sense::length_mismatch_sense(r->Ok_0.csw.residue, 7)
        }),
{
    let expected = cbw.data_transfer_length as int;
    let count = block_count as int;
    if len == expected && expected == count * BLOCK_SIZE {
        assert(expected / BLOCK_SIZE as int == count);
    }
    let consumed = if len < expected {
        len
    } else {
        expected
    };
    assert(0 <= block_writer::whole_blocks(consumed, count) <= count);
}

/// A host reads back what it wrote: after a WRITE (10) of as many bytes as its blocks hold, a
/// READ (10) of the same blocks sends the same bytes. Both commands pass with nothing missing, and
/// what else the host has sent is left for the next command.
pub proof fn host_reads_back_what_it_wrote<OUT: DataEndpoint, IN: DataEndpoint, S: BlockStorage>(
    write: Cbw,
    read: Cbw,
    storage: (&S, &S, &S),
    out_ep: (&OUT, &OUT, &OUT),
    in_ep: (&IN, &IN, &IN),
    sense: (SenseData, SenseData, SenseData),
    prevented: (bool, bool, bool),
    written: Result<CommandOutcome, EndpointError>,
    got: Result<CommandOutcome, EndpointError>,
    data: Seq<u8>,
    rest: Seq<Seq<u8>>,
)
    requires
        write.op() == SCSI_WRITE_10,
        read.op() == SCSI_READ_10,
        !commands::mismatched(write),
        !commands::mismatched(read),
        commands::lba_of(read.command@) == commands::lba_of(write.command@),
        commands::block_count_of(read.command@) == commands::block_count_of(write.command@),
        data.len() == commands::block_count_of(write.command@) * BLOCK_SIZE,
        write.data_transfer_length == data.len(),
        read.data_transfer_length == data.len(),
        storage.0.ready(),
        !storage.0.write_protected(),
        storage.0.unfinished() is None,
        storage.0.healthy(),
        storage.0.contents().len() <= u32::MAX,
        block_reader::blocks_inside(
            commands::lba_of(write.command@) as int,
            commands::block_count_of(write.command@) as int,
            storage.0.contents().len() as int,
        ),
        out_ep.0.healthy(),
        out_ep.0.incoming() == packets::packets_of(data) + rest,
        commands::executed(
            write,
            (storage.0, storage.1),
            (out_ep.0, out_ep.1),
            (in_ep.0, in_ep.1),
            (sense.0, sense.1),
            (prevented.0, prevented.1),
            written,
        ),
        storage.1.ready(),
        storage.1.healthy(),
        storage.1.contents().len() == storage.0.contents().len(),
        in_ep.1.healthy(),
        commands::executed(
            read,
            (storage.1, storage.2),
            (out_ep.1, out_ep.2),
            (in_ep.1, in_ep.2),
            (sense.1, sense.2),
            (prevented.1, prevented.2),
            got,
        ),
    ensures
        written == Ok::<CommandOutcome, EndpointError>(
            commands::conclusion(write, CSW_STATUS_PASSED, data.len() as int),
        ),
        got == Ok::<CommandOutcome, EndpointError>(
            commands::conclusion(read, CSW_STATUS_PASSED, data.len() as int),
        ),
        in_ep.2.sent() == in_ep.0.sent() + packets::packets_of(data),
        out_ep.2.incoming() == rest,
        sense.2 == sense.0,
{
    let lba = commands::lba_of(write.command@) as int;
    let count = commands::block_count_of(write.command@) as int;
    let expected = data.len() as int;
    let incoming = out_ep.0.incoming();
    let sent = packets::packets_of(data);
    data_phase_takes_the_data(data, rest);
    assert forall|n: int| 0 <= n < sent.len() implies #[trigger] incoming[n].len()
        <= USB_PACKET_SIZE by {
        assert(incoming[n] == sent[n]);
    }
    let taken = choose|taken: Result<WriteTransfer, TransferError>|
        {
            &&& #[trigger] block_writer::written_by(
                storage.0,
                out_ep.0,
                lba,
                count,
                expected,
                storage.1,
                out_ep.1,
                taken,
            )
            &&& (written, sense.1) == commands::write_end(
                write,
                commands::sense_at_start(write, commands::status_of(storage.0), sense.0),
                count as u16,
                taken,
            )
            &&& !(taken matches Err(TransferError::Storage(_)))
        };
    assert(taken is Ok);
    assert(incoming.skip(sent.len() as int) =~= rest);
    assert(packets::clipped(data, expected) == data);
    write_passes_where_the_lengths_agree(write, sense.0, count as u16, expected);
    assert(block_writer::transfer_of(expected, expected, count).written_bytes == expected) by {
        assert(expected / BLOCK_SIZE as int == count);
    }
    let contents = storage.0.contents();
    if count == 0 {
        assert(block_writer::write_stream(contents, lba, count, data) =~= contents);
        assert(block_reader::blocks_payload(contents, lba, count) =~= data);
    } else {
        blocks_read_back_as_written(contents, lba, count, data);
    }
    let all = packets::in_packets(data, expected, read.inward());
    assert(all =~= sent);
}

/// REQUEST SENSE answers the sense data as it stands, as far as the host asks for it, and clears
/// it. It passes, and touches nothing else.
pub proof fn request_sense_reports_and_clears<OUT: DataEndpoint, IN: DataEndpoint, S: BlockStorage>(
    cbw: Cbw,
    storage: (&S, &S),
    out_ep: (&OUT, &OUT),
    in_ep: (&IN, &IN),
    sense: (SenseData, SenseData),
    prevented: (bool, bool),
    r: Result<CommandOutcome, EndpointError>,
)
    requires
        cbw.op() == SCSI_REQUEST_SENSE,
        !commands::mismatched(cbw),
        cbw.command@[1] & 0x01 == 0,
        in_ep.0.healthy(),
        commands::executed(cbw, storage, out_ep, in_ep, sense, prevented, r),
    ensures
        ({
            let asked = if cbw.command@[4] < cbw.data_transfer_length {
                cbw.command@[4] as int
            } else {
                cbw.data_transfer_length as int
            };
            let answer = packets::clipped(sense::sense_response(sense.0), asked);
            &&& r == Ok::<CommandOutcome, EndpointError>(
                commands::conclusion(cbw, CSW_STATUS_PASSED, answer.len() as int),
            )
            &&& in_ep.1.sent() == in_ep.0.sent() + packets::in_packets(
                sense::sense_response(sense.0),
                asked,
                cbw.inward(),
            )
        }),
        sense.1 == sense::good_sense(),
        storage.1.contents() == storage.0.contents(),
        prevented.1 == prevented.0,
{
}

/// What a command sent and what its status wrapper says is missing make up what the host expects.
pub proof fn residue_accounts_for_every_byte<OUT: DataEndpoint, IN: DataEndpoint, S: BlockStorage>(
    cbw: Cbw,
    storage: (&S, &S),
    out_ep: (&OUT, &OUT),
    in_ep: (&IN, &IN),
    sense: (SenseData, SenseData),
    prevented: (bool, bool),
    outcome: CommandOutcome,
)
    requires
        cbw.direction() == DataDirection::In,
        commands::executed(cbw, storage, out_ep, in_ep, sense, prevented, Ok(outcome)),
        outcome.csw.status == CSW_STATUS_PASSED,
    ensures
        in_ep.0.sent().is_prefix_of(in_ep.1.sent()),
        packets::joined(in_ep.1.sent().skip(in_ep.0.sent().len() as int)).len()
            + outcome.csw.residue == cbw.data_transfer_length,
{
    let expected = cbw.data_transfer_length as int;
    let sent = in_ep.1.sent().skip(in_ep.0.sent().len() as int);
    match commands::start_of(cbw, commands::status_of(storage.0), sense.0) {
        Start::Respond { bytes, limit } => {
            packets::in_packets_carry_the_data(bytes, limit);
            assert(sent =~= packets::in_packets(bytes, limit, true));
        },
        Start::ReadBlocks { lba, block_count } => {
            let data = block_reader::blocks_payload(
                storage.0.contents(),
                lba as int,
                block_count as int,
            );
            packets::in_packets_carry_the_data(data, expected);
            assert(sent =~= packets::in_packets(data, expected, true));
        },
        _ => {},
    }
}

/// A command that failed stalls the endpoint that the host waits on, and no other; one that passed
/// stalls none.
pub proof fn failures_stall_the_waiting_endpoint(cbw: Cbw, transferred: int)
    ensures
        commands::conclusion(cbw, CSW_STATUS_PASSED, transferred).stall_after_csw
            == StallAfterCsw::NoStall,
        ({
            let stall = commands::conclusion(cbw, CSW_STATUS_FAILED, transferred).stall_after_csw;
            &&& stall == StallAfterCsw::In <==> cbw.direction() == DataDirection::In
            &&& stall == StallAfterCsw::Out <==> cbw.direction() == DataDirection::Out
            &&& stall != StallAfterCsw::Both
        }),
{
}

/// Where the host announces another data phase than the command has, the command ends in a phase
/// error that stalls both endpoints, and neither the sense data nor the removal switch changes.
pub proof fn phase_errors_change_nothing(
    cbw: Cbw,
    unit: UnitStatus,
    current: SenseData,
    prevented: bool,
)
    requires
        commands::mismatched(cbw),
    ensures
        commands::start_of(cbw, unit, current) == Start::Finished(commands::phase_error_of(cbw)),
        commands::phase_error_of(cbw).stall_after_csw == StallAfterCsw::Both,
        commands::phase_error_of(cbw).csw.residue == cbw.data_transfer_length,
        commands::sense_at_start(cbw, unit, current) == current,
        commands::prevented_at_start(cbw, prevented) == prevented,
{
}

/// Every response that carries a length says its own: INQUIRY, both MODE SENSE, READ FORMAT
/// CAPACITIES, and the sense data.
pub proof fn responses_say_their_length(
    write_protected: bool,
    block_count: u32,
    current: SenseData,
)
    ensures
        scsi::inquiry_response()[4] + 5 == scsi::inquiry_response().len(),
        scsi::mode_sense_6_response(write_protected)[0] + 1 == scsi::mode_sense_6_response(
            write_protected,
        ).len(),
        bytes::be16_at(scsi::mode_sense_10_response(write_protected), 0) + 2
            == scsi::mode_sense_10_response(write_protected).len(),
        scsi::read_format_capacities_response(block_count)[3] + 4
            == scsi::read_format_capacities_response(block_count).len(),
        sense::sense_response(current)[7] + 8 == sense::sense_response(current).len(),
{
}

/// The two commands that answer the capacity agree: where there are blocks, the last one is one
/// less than their number, and both give the same block size.
pub proof fn capacities_agree(block_count: u32)
    requires
        block_count > 0,
    ensures
        ({
            let capacity = scsi::read_capacity_10_response(block_count);
            let formats = scsi::read_format_capacities_response(block_count);
            &&& bytes::be32_at(capacity, 0) + 1 == block_count
            &&& bytes::be32_at(formats, 4) == block_count
            &&& bytes::be32_at(capacity, 4) == BLOCK_SIZE
            &&& formats.skip(9) == capacity.skip(5)
        }),
{
    let capacity = scsi::read_capacity_10_response(block_count);
    let formats = scsi::read_format_capacities_response(block_count);
    let last = bytes::be32_bytes((block_count - 1) as u32);
    let count = bytes::be32_bytes(block_count);
    let size = bytes::be32_bytes(BLOCK_SIZE as u32);
    assert(size[0] == 0 && size[1] == 0 && size[2] == 2 && size[3] == 0);
    assert(capacity.len() == 8 && formats.len() == 12);
    assert(capacity[0] == last[0]);
    assert(capacity[1] == last[1]);
    assert(capacity[2] == last[2]);
    assert(capacity[3] == last[3]);
    assert(capacity[4] == size[0]);
    assert(capacity[5] == size[1]);
    assert(capacity[6] == size[2]);
    assert(capacity[7] == size[3]);
    assert(formats[4] == count[0]);
    assert(formats[5] == count[1]);
    assert(formats[6] == count[2]);
    assert(formats[7] == count[3]);
    assert(formats[9] == 0);
    assert(formats[10] == 2);
    assert(formats[11] == 0);
    bytes::lemma_be32_round_trip((block_count - 1) as u32);
    bytes::lemma_be32_round_trip(block_count);
    assert(formats.skip(9) =~= capacity.skip(5));
}

} // verus!
