//! What each step of a command does by itself, for whatever it is given.

use vstd::prelude::*;
use crate::bytes;
use crate::storage::block::BlockStorage;
use crate::storage::error::StorageError;
use crate::usb::block_reader::TransferError;
use crate::usb::block_writer::{self, BlockWriter, WritePhase, WriteTransfer};
use crate::usb::bot::{Cbw, DataDirection, EndpointError};
use crate::usb::commands::{self, CommandOutcome, StallAfterCsw, UnitStatus};
use crate::usb::packets::PacketCursor;
use crate::usb::scsi;
use crate::usb::sense::SenseData;

verus! {

/// INQUIRY answers 36 bytes: a direct-access device with a removable medium, 31 bytes behind the length
/// byte, the vendor "FeRam", the product "FeRamDisk" and the revision "1.00".
pub proof fn inquiry_data_names_the_device(data: [u8; 36])
    requires
        call_ensures(scsi::build_inquiry_response, (), data),
    ensures
        data@[0] == 0 && data@[1] == 0x80 && data@[2] == 6 && data@[3] == 2 && data@[4] == 31,
        data@[5] == 0 && data@[6] == 0 && data@[7] == 0,
        data@.subrange(8, 16) =~= seq![0x46u8, 0x65, 0x52, 0x61, 0x6D, 0x20, 0x20, 0x20],
        data@.subrange(16, 32) =~= seq![
            0x46u8, 0x65, 0x52, 0x61, 0x6D, 0x44, 0x69, 0x73, 0x6B, 0x20, 0x20, 0x20, 0x20, 0x20,
            0x20, 0x20,
        ],
        data@.subrange(32, 36) =~= seq![0x31u8, 0x2E, 0x30, 0x30],
{
}

/// The capacities are told big-endian: the last block of a disk, or 0 of an empty one, and the number
/// of its blocks, both with the block size of 512 bytes.
pub proof fn capacities_are_told_big_endian(count: u32, last: [u8; 8], formatted: [u8; 12])
    requires
        call_ensures(scsi::build_read_capacity_10_response, (count,), last),
        call_ensures(scsi::build_read_format_capacities_response, (count,), formatted),
    ensures
        0x100_0000 * last@[0] + 0x1_0000 * last@[1] + 0x100 * last@[2] + last@[3] == if count > 0 {
            count - 1
        } else {
            0
        },
        last@[4] == 0 && last@[5] == 0 && last@[6] == 2 && last@[7] == 0,
        formatted@[0] == 0 && formatted@[1] == 0 && formatted@[2] == 0 && formatted@[3] == 8,
        0x100_0000 * formatted@[4] + 0x1_0000 * formatted@[5] + 0x100 * formatted@[6]
            + formatted@[7] == count,
        formatted@[8] == 2 && formatted@[9] == 0 && formatted@[10] == 2 && formatted@[11] == 0,
{
    let n = if count > 0 {
        (count - 1) as u32
    } else {
        0
    };
    bytes::lemma_be32_round_trip(n);
    bytes::lemma_be32_round_trip(count);
}

/// The mode data is one caching page, behind a header whose length counts what follows it. A write
/// protected unit is told from one that is not by bit 7 of the device-specific parameter alone.
pub proof fn mode_data_tells_whether_the_unit_is_protected(
    protected: bool,
    page: [u8; 20],
    short: [u8; 24],
    long: [u8; 28],
)
    requires
        call_ensures(scsi::build_caching_page, (), page),
        call_ensures(scsi::build_mode_sense_6_response, (protected,), short),
        call_ensures(scsi::build_mode_sense_10_response, (protected,), long),
    ensures
        page@[0] == 8 && page@[1] == 18 && page@[2] == 1,
        forall|i: int| 3 <= i < 20 ==> #[trigger] page@[i] == 0,
        short@[0] == 23 && short@[1] == 0 && short@[3] == 0,
        protected ==> short@[2] == 0x80 && long@[3] == 0x80,
        !protected ==> short@[2] == 0 && long@[3] == 0,
        forall|i: int| 0 <= i < 20 ==> short@[4 + i] == #[trigger] page@[i],
        long@[0] == 0 && long@[1] == 26 && long@[2] == 0,
        long@[4] == 0 && long@[5] == 0 && long@[6] == 0 && long@[7] == 0,
        forall|i: int| 0 <= i < 20 ==> long@[8 + i] == #[trigger] page@[i],
{
}

/// The caching page can be asked for by its code or with all pages, and without subpages or with all.
pub proof fn one_mode_page_can_be_asked_for(page_code: u8, subpage: u8, supported: bool)
    requires
        call_ensures(scsi::mode_page_supported, (page_code, subpage), supported),
    ensures
        supported <==> (page_code == 8 || page_code == 63) && (subpage == 0 || subpage == 255),
{
}

/// Whether sense data says no more than a key and a code.
pub open spec fn says_only(sense: SenseData, key: int, asc: int, ascq: int) -> bool {
    &&& sense.key == key && sense.asc == asc && sense.ascq == ascq
    &&& sense.information is None && sense.field_pointer is None && !sense.ili
}

/// A refusal names its reason: the code it was given, the byte of the command block, the address, or
/// what is missing of the data.
pub proof fn refusals_name_their_reason(
    good: SenseData,
    unset: SenseData,
    asc: u8,
    illegal: SenseData,
    byte: u16,
    field: SenseData,
    lba: u32,
    outside: SenseData,
    residue: u32,
    mismatch: SenseData,
    not_ready: SenseData,
)
    requires
        call_ensures(SenseData::good, (), good),
        call_ensures(SenseData::default, (), unset),
        call_ensures(SenseData::illegal_request, (asc,), illegal),
        call_ensures(SenseData::illegal_field_in_cdb, (byte,), field),
        call_ensures(SenseData::lba_out_of_range, (lba,), outside),
        call_ensures(SenseData::transfer_length_mismatch, (residue, byte), mismatch),
        call_ensures(SenseData::not_ready_initializing, (), not_ready),
    ensures
        says_only(good, 0, 0, 0),
        says_only(unset, 0, 0, 0),
        says_only(illegal, 5, asc as int, 0),
        field.key == 5 && field.asc == 0x24 && field.ascq == 0,
        field.field_pointer == Some(byte) && field.information is None && !field.ili,
        outside.key == 5 && outside.asc == 0x21 && outside.ascq == 0,
        outside.information == Some(lba) && outside.field_pointer is None && !outside.ili,
        mismatch.key == 5 && mismatch.asc == 0x24 && mismatch.ascq == 0,
        mismatch.information == Some(residue) && mismatch.field_pointer == Some(byte)
            && mismatch.ili,
        says_only(not_ready, 2, 4, 2),
{
}

/// Each storage error has sense data of its own; one of the medium tells reading from writing.
pub proof fn storage_errors_are_told_apart(error: StorageError, is_write: bool, sense: SenseData)
    requires
        call_ensures(SenseData::from_storage_error, (error, is_write), sense),
    ensures
        error == StorageError::NotReady ==> says_only(sense, 2, 4, 2),
        error == StorageError::MediumError && is_write ==> says_only(sense, 3, 0x0C, 0),
        error == StorageError::MediumError && !is_write ==> says_only(sense, 3, 0x11, 0),
        error == StorageError::WriteProtect ==> says_only(sense, 7, 0x27, 0),
        error == StorageError::HardwareError ==> says_only(sense, 4, 0x44, 0),
{
}

/// Sense data is sent as 18 bytes, of which 10 follow the length byte. The information and the byte of
/// the command block are big-endian, and each has a bit that says whether it is valid.
pub proof fn sense_data_is_eighteen_bytes(sense: SenseData, wire: [u8; 18])
    requires
        call_ensures(SenseData::to_response, (sense,), wire),
    ensures
        wire@[0] == if sense.information is Some {
            0xF0int
        } else {
            0x70
        },
        wire@[1] == 0,
        wire@[2] == sense.key % 16 + if sense.ili {
            32int
        } else {
            0
        },
        0x100_0000 * wire@[3] + 0x1_0000 * wire@[4] + 0x100 * wire@[5] + wire@[6] == match sense
            .information {
            Some(information) => information as int,
            None => 0,
        },
        wire@[7] == 10,
        wire@[8] == 0 && wire@[9] == 0 && wire@[10] == 0 && wire@[11] == 0,
        wire@[12] == sense.asc && wire@[13] == sense.ascq && wire@[14] == 0,
        wire@[15] == if sense.field_pointer is Some {
            0xC0int
        } else {
            0
        },
        0x100 * wire@[16] + wire@[17] == match sense.field_pointer {
            Some(byte) => byte as int,
            None => 0,
        },
{
    bytes::lemma_bit_fields(sense.key);
    let key = sense.key & 0x0F;
    bytes::lemma_bit_fields(key);
    assert(key | 0 == key) by (bit_vector);
    if let Some(information) = sense.information {
        bytes::lemma_be32_round_trip(information);
    }
}

/// A phase error gives the whole length back as missing, and stalls both endpoints.
pub proof fn phase_errors_stall_both_endpoints(cbw: Cbw, outcome: CommandOutcome)
    requires
        call_ensures(commands::phase_error, (cbw,), outcome),
    ensures
        outcome.csw.tag == cbw.tag,
        outcome.csw.residue == cbw.data_transfer_length,
        outcome.csw.status == 2,
        outcome.stall_before_csw == StallAfterCsw::NoStall,
        outcome.stall_after_csw == StallAfterCsw::Both,
{
}

/// A host that announces no data has no phase mismatch. One that does has to announce it the way in
/// which the command has data.
pub proof fn announced_data_has_to_go_the_commands_way(
    cbw: Cbw,
    direction: DataDirection,
    mismatch: bool,
)
    requires
        call_ensures(commands::has_phase_mismatch, (cbw, direction), mismatch),
    ensures
        cbw.data_transfer_length == 0 ==> !mismatch,
        cbw.data_transfer_length > 0 ==> (mismatch <==> direction == DataDirection::NoData
            || direction == DataDirection::In && cbw.flags < 0x80 || direction == DataDirection::Out
            && cbw.flags >= 0x80),
{
    bytes::lemma_bit_fields(cbw.flags);
}

/// A command that ends answers under its tag, with its status and with what is missing of the
/// announced data. Where it failed, the endpoint is stalled on which the host waits for data.
pub proof fn commands_end_with_what_is_missing(
    cbw: Cbw,
    status: u8,
    transferred: u32,
    outcome: CommandOutcome,
)
    requires
        call_ensures(commands::conclude, (cbw, status, transferred), outcome),
    ensures
        outcome.csw.tag == cbw.tag,
        outcome.csw.status == status,
        transferred <= cbw.data_transfer_length ==> outcome.csw.residue + transferred
            == cbw.data_transfer_length,
        transferred > cbw.data_transfer_length ==> outcome.csw.residue == 0,
        outcome.stall_before_csw == StallAfterCsw::NoStall,
        status != 1 || cbw.data_transfer_length == 0 ==> outcome.stall_after_csw
            == StallAfterCsw::NoStall,
        status == 1 && cbw.data_transfer_length > 0 ==> outcome.stall_after_csw == if cbw.flags
            >= 0x80 {
            StallAfterCsw::In
        } else {
            StallAfterCsw::Out
        },
{
    bytes::lemma_bit_fields(cbw.flags);
}

/// A response that was sent ends its command well. REQUEST SENSE leaves nothing to report, and any
/// other command leaves the report.
pub proof fn sent_responses_end_well(
    cbw: Cbw,
    sense: &mut SenseData,
    transferred: u32,
    outcome: CommandOutcome,
    ended: CommandOutcome,
)
    requires
        call_ensures(commands::finish_response, (cbw, sense, transferred), outcome),
        call_ensures(commands::conclude, (cbw, 0, transferred), ended),
    ensures
        outcome == ended,
        cbw.command@[0] == 3 ==> says_only(*final(sense), 0, 0, 0),
        cbw.command@[0] != 3 ==> *final(sense) == *old(sense),
{
}

/// A READ (10) ends well with the bytes it sent. A block that could not be read ends it with nothing
/// sent and the error reported; an error of the endpoint is handed on, and nothing is reported.
pub proof fn reads_end_as_their_data_phase_did(
    cbw: Cbw,
    sense: &mut SenseData,
    read: Result<u32, TransferError>,
    r: Result<CommandOutcome, EndpointError>,
    status: u8,
    transferred: u32,
    ended: CommandOutcome,
    error: StorageError,
    reported: SenseData,
)
    requires
        call_ensures(commands::finish_read, (cbw, sense, read), r),
        call_ensures(commands::conclude, (cbw, status, transferred), ended),
        call_ensures(SenseData::from_storage_error, (error, false), reported),
    ensures
        read is Ok && status == 0 && transferred == read->Ok_0 ==> r == Ok::<
            CommandOutcome,
            EndpointError,
        >(ended) && *final(sense) == *old(sense),
        read == Err::<u32, TransferError>(TransferError::Storage(error)) && status == 1 && transferred
            == 0 ==> r == Ok::<CommandOutcome, EndpointError>(ended) && *final(sense) == reported,
        read matches Err(TransferError::Endpoint(e)) ==> r == Err::<CommandOutcome, EndpointError>(e)
            && *final(sense) == *old(sense),
{
}

/// A WRITE (10) ends well where as many bytes were announced, came and were written as its blocks take,
/// and neither too few nor too many came. Else it fails, and what is missing of the announced data is
/// reported against byte 7 of the command block.
pub proof fn writes_end_as_their_data_phase_did(
    cbw: Cbw,
    sense: &mut SenseData,
    count: u16,
    written: Result<WriteTransfer, TransferError>,
    r: Result<CommandOutcome, EndpointError>,
    status: u8,
    transferred: u32,
    ended: CommandOutcome,
    error: StorageError,
    reported: SenseData,
    mismatch: SenseData,
)
    requires
        call_ensures(commands::finish_write, (cbw, sense, count, written), r),
        call_ensures(commands::conclude, (cbw, status, transferred), ended),
        call_ensures(SenseData::from_storage_error, (error, true), reported),
        call_ensures(SenseData::transfer_length_mismatch, (ended.csw.residue, 7), mismatch),
    ensures
        written matches Ok(transfer) ==> transferred == transfer.written_bytes ==> {
            let matched = !transfer.short_packet && !transfer.packet_overflow
                && transfer.written_bytes >= 512 * count && transfer.consumed_bytes
                >= cbw.data_transfer_length && cbw.data_transfer_length == 512 * count;
            &&& matched && status == 0 ==> r == Ok::<CommandOutcome, EndpointError>(ended)
                && *final(sense) == *old(sense)
            &&& !matched && status == 1 ==> r == Ok::<CommandOutcome, EndpointError>(ended)
                && *final(sense) == mismatch
        },
        written == Err::<WriteTransfer, TransferError>(TransferError::Storage(error)) && status == 1
            && transferred == 0 ==> r == Ok::<CommandOutcome, EndpointError>(ended) && *final(sense)
            == reported,
        written matches Err(TransferError::Endpoint(e)) ==> r == Err::<
            CommandOutcome,
            EndpointError,
        >(e) && *final(sense) == *old(sense),
{
}

/// A unit says of itself what its disk is: whether it is ready and protected, and its blocks.
pub proof fn unit_says_what_its_disk_is<S: BlockStorage>(storage: S, unit: UnitStatus)
    requires
        storage.wf(),
        call_ensures(commands::unit_status::<S>, (&storage,), unit),
    ensures
        unit.ready == storage.ready(),
        unit.write_protected == storage.write_protected(),
        unit.block_count == storage.contents().len(),
{
}

/// A data phase is as long as its data, and no longer than the host expects. Its packets follow each
/// other, each of 64 bytes but the last.
pub proof fn data_phase_is_cut_every_64_bytes(
    len: usize,
    expected: u32,
    expects_in: bool,
    new: PacketCursor,
    total: usize,
    cursor: &mut PacketCursor,
    r: Option<(usize, usize)>,
)
    requires
        call_ensures(PacketCursor::new, (len, expected, expects_in), new),
        call_ensures(PacketCursor::len, (&new,), total),
        cursor.wf(),
        call_ensures(PacketCursor::next_packet, (cursor,), r),
    ensures
        new.wf() && new.offset() == 0 && new.total() == total,
        total <= len && total <= expected && (total == len || total == expected),
        final(cursor).wf(),
        final(cursor).total() == old(cursor).total(),
        r matches Some((start, end)) ==> {
            &&& start == old(cursor).offset() && end == final(cursor).offset()
            &&& start + 64 <= old(cursor).total() ==> end == start + 64
            &&& start + 64 > old(cursor).total() ==> end == old(cursor).total()
        },
        r is None ==> final(cursor).offset() == old(cursor).offset() == old(cursor).total(),
{
}

/// A packet goes into the blocks as far as bytes are still expected. One that brings more makes the
/// writer throw away what follows; one that brings the last byte, or is short, ends the data phase.
/// While packets are thrown away, a short one ends it, and the 128th. Empty packets do nothing.
pub proof fn packets_fill_what_is_expected<S: BlockStorage>(
    writer: &mut BlockWriter,
    storage: &mut S,
    packet: &[u8],
    r: Result<(), StorageError>,
)
    requires
        writer.wf(),
        storage.wf(),
        writer.in_step(storage),
        writer.count() == 0 || writer.lba() + writer.count() <= storage.contents().len(),
        call_ensures(BlockWriter::accept_packet::<S>, (writer, storage, packet), r),
    ensures
        old(storage).ready() && !old(storage).write_protected() && old(storage).healthy() ==> r is Ok,
        r is Ok ==> {
            let left = old(writer).expected() - old(writer).stream().len();
            let n = packet@.len();
            let before = old(writer).stream();
            let stream = final(writer).stream();
            let taken = if old(writer).at() != WritePhase::Receiving {
                0
            } else if n < left {
                n as int
            } else {
                left
            };
            &&& stream.len() == before.len() + taken
            &&& forall|i: int| 0 <= i < before.len() ==> #[trigger] stream[i] == before[i]
            &&& forall|i: int| 0 <= i < taken ==> stream[before.len() + i] == #[trigger] packet@[i]
            &&& n == 0 ==> final(writer).at() == old(writer).at()
            &&& old(writer).at() == WritePhase::Receiving && n > 0 ==> {
                &&& n > left ==> final(writer).at() == (WritePhase::Draining { drained: 0 })
                &&& n == left || n < left && n < 64 ==> final(writer).at() == WritePhase::Finished
                &&& 64 <= n < left ==> final(writer).at() == WritePhase::Receiving
            }
            &&& old(writer).at() matches WritePhase::Draining { drained } ==> {
                &&& 0 < n < 64 || n > 0 && drained >= 127 ==> final(writer).at()
                    == WritePhase::Finished
                &&& n >= 64 && drained < 127 ==> final(writer).at() == (WritePhase::Draining {
                    drained: (drained + 1) as usize,
                })
            }
            &&& old(writer).at() == WritePhase::Finished ==> final(writer).at()
                == WritePhase::Finished
            &&& final(writer).overflowed() <==> old(writer).overflowed() || old(writer).at()
                == WritePhase::Receiving && n > left
        },
{
    block_writer::writer_takes_no_more_than_announced(*writer);
}

/// A writer starts with nothing taken, waits for what it expects, and is over where nothing is. A packet
/// that does not come ends the data phase. What it tells in the end is what it took: of each whole
/// block, and of no more blocks than there are to write, the bytes.
pub proof fn writer_tells_what_it_took<S: BlockStorage>(
    storage: S,
    lba: u32,
    count: u16,
    expected: u32,
    new: BlockWriter,
    late: &mut BlockWriter,
    done: BlockWriter,
    transfer: WriteTransfer,
    asked: BlockWriter,
    timeout: Option<u64>,
)
    requires
        call_ensures(BlockWriter::new::<S>, (&storage, lba, count, expected), new),
        late.wf(),
        call_ensures(BlockWriter::timed_out, (late,), ()),
        done.wf(),
        done.at() == WritePhase::Finished,
        call_ensures(BlockWriter::summary, (&done,), transfer),
        call_ensures(BlockWriter::timeout_ms, (&asked,), timeout),
    ensures
        new.lba() == lba && new.count() == count && new.expected() == expected,
        new.stream().len() == 0 && !new.overflowed(),
        expected == 0 ==> new.at() == WritePhase::Finished,
        expected > 0 ==> new.at() == WritePhase::Receiving,
        final(late).at() == WritePhase::Finished,
        final(late).stream() == old(late).stream(),
        final(late).overflowed() == old(late).overflowed(),
        transfer.consumed_bytes == done.stream().len(),
        transfer.written_bytes % 512 == 0,
        transfer.written_bytes <= 512 * done.count(),
        transfer.written_bytes <= done.stream().len(),
        transfer.written_bytes < 512 * done.count() ==> done.stream().len()
            < transfer.written_bytes + 512,
        transfer.short_packet <==> done.stream().len() < done.expected(),
        transfer.packet_overflow <==> done.overflowed(),
        asked.at() == WritePhase::Receiving ==> timeout == Some(1500u64),
        asked.at() is Draining ==> timeout == Some(20u64),
        asked.at() == WritePhase::Finished ==> timeout is None,
{
    block_writer::writer_takes_no_more_than_announced(done);
}

} // verus!
