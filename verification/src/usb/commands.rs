//! The SCSI commands: what each of them answers, and how it ends.

use vstd::prelude::*;
use crate::bytes;
use crate::storage::block::BlockStorage;
use crate::storage::error::StorageError;
use crate::usb::block_reader::{self, TransferError};
use crate::usb::block_writer::{self, WriteTransfer};
use crate::usb::bot::{self, Cbw, Csw, DataDirection, DataEndpoint, EndpointError};
use crate::usb::constants::{
    ASC_INVALID_COMMAND_OPCODE, BLOCK_SIZE, CSW_STATUS_FAILED, CSW_STATUS_PASSED,
    CSW_STATUS_PHASE_ERROR, SCSI_INQUIRY, SCSI_MODE_SENSE_10, SCSI_MODE_SENSE_6,
    SCSI_PREVENT_ALLOW_MEDIUM_REMOVAL, SCSI_READ_10, SCSI_READ_CAPACITY_10,
    SCSI_READ_FORMAT_CAPACITIES, SCSI_REQUEST_SENSE, SCSI_START_STOP_UNIT,
    SCSI_SYNCHRONIZE_CACHE_10, SCSI_TEST_UNIT_READY, SCSI_VERIFY_10, SCSI_WRITE_10,
};
use crate::usb::packets;
use crate::usb::scsi;
use crate::usb::sense::{self, SenseData};

verus! {

/// The bulk endpoints to stall once a status wrapper is on its way.
#[derive(Copy, Clone, Debug, PartialEq, Eq, Structural)]
pub enum StallAfterCsw {
    NoStall,
    In,
    Out,
    Both,
}

/// How a command ended: its status wrapper, and what to stall before and after it.
#[derive(Copy, Clone, Debug, PartialEq, Eq, Structural)]
pub struct CommandOutcome {
    pub csw: Csw,
    pub stall_before_csw: StallAfterCsw,
    pub stall_after_csw: StallAfterCsw,
}

/// What the logical unit says of itself.
#[derive(Copy, Clone, Debug, PartialEq, Eq, Structural)]
pub struct UnitStatus {
    pub ready: bool,
    pub write_protected: bool,
    pub block_count: u32,
}

/// The longest response that a command answers from tables.
pub const RESPONSE_MAX: usize = 36;

/// The data that a command answers, and how much of it is asked for.
#[derive(Copy, Clone, Debug)]
pub struct Response {
    data: [u8; RESPONSE_MAX],
    len: usize,
    limit: u32,
}

impl Response {
    pub closed spec fn wf(&self) -> bool {
        self.len <= RESPONSE_MAX
    }

    /// The data.
    pub closed spec fn bytes(&self) -> Seq<u8> {
        self.data@.take(self.len as int)
    }

    /// How many bytes of it are asked for.
    pub closed spec fn asked(&self) -> int {
        self.limit as int
    }

    fn new(source: &[u8], limit: u32) -> (response: Self)
        requires
            source@.len() <= RESPONSE_MAX,
        ensures
            response.wf(),
            response.bytes() == source@,
            response.asked() == limit,
    {
        let mut data = [0u8; RESPONSE_MAX];
        bytes::put(&mut data, 0, source);
        assert(data@.take(source@.len() as int) =~= source@);
        Response { data, len: source.len(), limit }
    }

    /// The data.
    pub fn data(&self) -> (data: &[u8])
        requires
            self.wf(),
        ensures
            data@ == self.bytes(),
    {
        assert(self.data@.subrange(0, self.len as int) =~= self.data@.take(self.len as int));
        vstd::slice::slice_subrange(self.data.as_slice(), 0, self.len)
    }

    /// How many bytes of it are asked for.
    pub fn limit(&self) -> (limit: u32)
        ensures
            limit == self.asked(),
    {
        self.limit
    }
}

/// How a command goes on once its command block has been looked at.
#[derive(Copy, Clone, Debug)]
pub enum CommandStart {
    /// It is over.
    Finished(CommandOutcome),
    /// It sends a response.
    Respond(Response),
    /// It sends blocks.
    ReadBlocks { lba: u32, block_count: u16 },
    /// It takes blocks.
    WriteBlocks { lba: u32, block_count: u16 },
}

/// What a `CommandStart` says.
#[verifier::ext_equal]
pub enum Start {
    Finished(CommandOutcome),
    Respond { bytes: Seq<u8>, limit: int },
    ReadBlocks { lba: u32, block_count: u16 },
    WriteBlocks { lba: u32, block_count: u16 },
}

impl View for CommandStart {
    type V = Start;

    open spec fn view(&self) -> Start {
        match *self {
            CommandStart::Finished(outcome) => Start::Finished(outcome),
            CommandStart::Respond(response) => Start::Respond {
                bytes: response.bytes(),
                limit: response.asked(),
            },
            CommandStart::ReadBlocks { lba, block_count } => Start::ReadBlocks { lba, block_count },
            CommandStart::WriteBlocks { lba, block_count } => Start::WriteBlocks {
                lba,
                block_count,
            },
        }
    }
}

/// The block address of a READ (10) or WRITE (10).
pub open spec fn lba_of(command: Seq<u8>) -> u32 {
    bytes::be32_at(command, 2) as u32
}

/// The block count of a READ (10) or WRITE (10).
pub open spec fn block_count_of(command: Seq<u8>) -> u16 {
    bytes::be16_at(command, 7) as u16
}

/// The data phase that a command has, and `None` of a command that is not known.
pub open spec fn data_phase_of(opcode: u8) -> Option<DataDirection> {
    if opcode == SCSI_TEST_UNIT_READY || opcode == SCSI_PREVENT_ALLOW_MEDIUM_REMOVAL || opcode
        == SCSI_SYNCHRONIZE_CACHE_10 || opcode == SCSI_VERIFY_10 || opcode
        == SCSI_START_STOP_UNIT {
        Some(DataDirection::NoData)
    } else if opcode == SCSI_INQUIRY || opcode == SCSI_REQUEST_SENSE || opcode
        == SCSI_READ_CAPACITY_10 || opcode == SCSI_READ_FORMAT_CAPACITIES || opcode
        == SCSI_MODE_SENSE_6 || opcode == SCSI_MODE_SENSE_10 || opcode == SCSI_READ_10 {
        Some(DataDirection::In)
    } else if opcode == SCSI_WRITE_10 {
        Some(DataDirection::Out)
    } else {
        None
    }
}

/// Whether the host announces data that goes another way than the command's.
pub open spec fn phase_mismatch(cbw: Cbw, command_direction: DataDirection) -> bool {
    cbw.direction() != DataDirection::NoData && cbw.direction() != command_direction
}

/// Whether the host announces another data phase than a known command has.
pub open spec fn mismatched(cbw: Cbw) -> bool {
    data_phase_of(cbw.op()) is Some && phase_mismatch(cbw, data_phase_of(cbw.op())->0)
}

/// The outcome of a command whose data phase is not the one that the host announced.
pub open spec fn phase_error_of(cbw: Cbw) -> CommandOutcome {
    CommandOutcome {
        csw: Csw {
            tag: cbw.tag,
            residue: cbw.data_transfer_length,
            status: CSW_STATUS_PHASE_ERROR,
        },
        stall_before_csw: StallAfterCsw::NoStall,
        stall_after_csw: StallAfterCsw::Both,
    }
}

/// The outcome of a command that moved `transferred` bytes. One that failed stalls the endpoint
/// that the host waits on.
pub open spec fn conclusion(cbw: Cbw, status: u8, transferred: int) -> CommandOutcome {
    let expected = cbw.data_transfer_length;
    CommandOutcome {
        csw: Csw {
            tag: cbw.tag,
            residue: if transferred < expected {
                (expected - transferred) as u32
            } else {
                0
            },
            status,
        },
        stall_before_csw: StallAfterCsw::NoStall,
        stall_after_csw: if status != CSW_STATUS_FAILED {
            StallAfterCsw::NoStall
        } else {
            match cbw.direction() {
                DataDirection::NoData => StallAfterCsw::NoStall,
                DataDirection::In => StallAfterCsw::In,
                DataDirection::Out => StallAfterCsw::Out,
            }
        },
    }
}

/// Whether a MODE SENSE asks for the current values of a page that there is.
pub open spec fn asks_for_mode_page(command: Seq<u8>) -> bool {
    (command[2] >> 6) & 0x03 == 0 && scsi::is_mode_page(command[2] & 0x3F, command[3])
}

/// The sense data of a command that is refused for what its command block says, or for what the
/// unit is in.
pub open spec fn refusal(cbw: Cbw, unit: UnitStatus) -> Option<SenseData> {
    let command = cbw.command@;
    let opcode = cbw.op();
    if data_phase_of(opcode) is None {
        Some(sense::illegal_request_sense(ASC_INVALID_COMMAND_OPCODE))
    } else if opcode == SCSI_INQUIRY && command[1] & 0x01 != 0 && command[2] != 0 {
        Some(sense::illegal_field_sense(2))
    } else if opcode == SCSI_REQUEST_SENSE && command[1] & 0x01 != 0 {
        Some(sense::illegal_field_sense(1))
    } else if (opcode == SCSI_MODE_SENSE_6 || opcode == SCSI_MODE_SENSE_10) && !asks_for_mode_page(
        command,
    ) {
        Some(sense::illegal_field_sense(2))
    } else if (opcode == SCSI_TEST_UNIT_READY || opcode == SCSI_READ_10 || opcode == SCSI_WRITE_10)
        && !unit.ready {
        Some(sense::not_ready_sense())
    } else if opcode == SCSI_WRITE_10 && unit.write_protected {
        Some(sense::storage_sense(StorageError::WriteProtect, true))
    } else if (opcode == SCSI_READ_10 || opcode == SCSI_WRITE_10) && !block_reader::blocks_inside(
        lba_of(command) as int,
        block_count_of(command) as int,
        unit.block_count as int,
    ) {
        Some(sense::out_of_range_sense(lba_of(command)))
    } else {
        None
    }
}

/// The response of a command that answers from tables, and how much of it the command block asks
/// for.
pub open spec fn response_of(cbw: Cbw, unit: UnitStatus, current: SenseData) -> Option<
    (Seq<u8>, int),
> {
    let command = cbw.command@;
    let opcode = cbw.op();
    let expected = cbw.data_transfer_length as int;
    if opcode == SCSI_INQUIRY {
        Some((scsi::inquiry_response(), command[4] as int))
    } else if opcode == SCSI_REQUEST_SENSE {
        Some((sense::sense_response(current), command[4] as int))
    } else if opcode == SCSI_READ_CAPACITY_10 {
        Some((scsi::read_capacity_10_response(unit.block_count), expected))
    } else if opcode == SCSI_READ_FORMAT_CAPACITIES {
        Some(
            (
                scsi::read_format_capacities_response(unit.block_count),
                bytes::be16_at(command, 7),
            ),
        )
    } else if opcode == SCSI_MODE_SENSE_6 {
        Some((scsi::mode_sense_6_response(unit.write_protected), command[4] as int))
    } else if opcode == SCSI_MODE_SENSE_10 {
        Some((scsi::mode_sense_10_response(unit.write_protected), bytes::be16_at(command, 7)))
    } else {
        None
    }
}

/// How a command starts.
pub open spec fn start_of(cbw: Cbw, unit: UnitStatus, current: SenseData) -> Start {
    let opcode = cbw.op();
    let expected = cbw.data_transfer_length as int;
    if mismatched(cbw) {
        Start::Finished(phase_error_of(cbw))
    } else if refusal(cbw, unit) is Some {
        Start::Finished(conclusion(cbw, CSW_STATUS_FAILED, 0))
    } else if response_of(cbw, unit, current) is Some {
        let (bytes, asked) = response_of(cbw, unit, current)->0;
        Start::Respond {
            bytes,
            limit: if asked < expected {
                asked
            } else {
                expected
            },
        }
    } else if opcode == SCSI_READ_10 {
        Start::ReadBlocks {
            lba: lba_of(cbw.command@),
            block_count: block_count_of(cbw.command@),
        }
    } else if opcode == SCSI_WRITE_10 {
        Start::WriteBlocks {
            lba: lba_of(cbw.command@),
            block_count: block_count_of(cbw.command@),
        }
    } else {
        Start::Finished(conclusion(cbw, CSW_STATUS_PASSED, 0))
    }
}

/// The sense data once a command has started: new where it was refused.
pub open spec fn sense_at_start(cbw: Cbw, unit: UnitStatus, current: SenseData) -> SenseData {
    if !mismatched(cbw) && refusal(cbw, unit) is Some {
        refusal(cbw, unit)->0
    } else {
        current
    }
}

/// Whether removal is prevented once a command has started.
pub open spec fn prevented_at_start(cbw: Cbw, prevented: bool) -> bool {
    if cbw.op() == SCSI_PREVENT_ALLOW_MEDIUM_REMOVAL && !mismatched(cbw) {
        cbw.command@[4] & 0x01 != 0
    } else {
        prevented
    }
}

pub fn phase_error(cbw: Cbw) -> (outcome: CommandOutcome)
    ensures
        outcome == phase_error_of(cbw),
{
    CommandOutcome {
        csw: Csw {
            tag: cbw.tag,
            residue: cbw.data_transfer_length,
            status: CSW_STATUS_PHASE_ERROR,
        },
        stall_before_csw: StallAfterCsw::NoStall,
        stall_after_csw: StallAfterCsw::Both,
    }
}

pub fn has_phase_mismatch(cbw: Cbw, command_direction: DataDirection) -> (b: bool)
    ensures
        b == phase_mismatch(cbw, command_direction),
{
    if cbw.data_transfer_length == 0 {
        return false;
    }
    match command_direction {
        DataDirection::NoData => true,
        DataDirection::In => !cbw.expects_in(),
        DataDirection::Out => cbw.expects_in(),
    }
}

pub fn block_range_valid(total_blocks: u32, lba: u32, block_count: u16) -> (b: bool)
    ensures
        b == block_reader::blocks_inside(lba as int, block_count as int, total_blocks as int),
{
    if block_count == 0 {
        return true;
    }
    match lba.checked_add(block_count as u32) {
        Some(end) => end <= total_blocks,
        None => false,
    }
}

pub fn parse_read_write_10(command: &[u8; 16]) -> (request: (u32, u16))
    ensures
        request.0 == lba_of(command@),
        request.1 == block_count_of(command@),
{
    (bytes::get_be32(command, 2), bytes::get_be16(command, 7))
}

/// The outcome of a command that moved `transferred` bytes.
pub fn conclude(cbw: Cbw, status: u8, transferred: u32) -> (outcome: CommandOutcome)
    ensures
        outcome == conclusion(cbw, status, transferred as int),
{
    let stall_after_csw = if status != CSW_STATUS_FAILED {
        StallAfterCsw::NoStall
    } else {
        match cbw.data_direction() {
            DataDirection::NoData => StallAfterCsw::NoStall,
            DataDirection::In => StallAfterCsw::In,
            DataDirection::Out => StallAfterCsw::Out,
        }
    };
    CommandOutcome {
        csw: Csw {
            tag: cbw.tag,
            residue: cbw.data_transfer_length.saturating_sub(transferred),
            status,
        },
        stall_before_csw: StallAfterCsw::NoStall,
        stall_after_csw,
    }
}

fn data_phase(opcode: u8) -> (direction: Option<DataDirection>)
    ensures
        direction == data_phase_of(opcode),
{
    if opcode == SCSI_TEST_UNIT_READY || opcode == SCSI_PREVENT_ALLOW_MEDIUM_REMOVAL || opcode
        == SCSI_SYNCHRONIZE_CACHE_10 || opcode == SCSI_VERIFY_10 || opcode
        == SCSI_START_STOP_UNIT {
        Some(DataDirection::NoData)
    } else if opcode == SCSI_INQUIRY || opcode == SCSI_REQUEST_SENSE || opcode
        == SCSI_READ_CAPACITY_10 || opcode == SCSI_READ_FORMAT_CAPACITIES || opcode
        == SCSI_MODE_SENSE_6 || opcode == SCSI_MODE_SENSE_10 || opcode == SCSI_READ_10 {
        Some(DataDirection::In)
    } else if opcode == SCSI_WRITE_10 {
        Some(DataDirection::Out)
    } else {
        None
    }
}

fn min(a: u32, b: u32) -> (m: u32)
    ensures
        m == if a < b {
            a
        } else {
            b
        },
{
    if a < b {
        a
    } else {
        b
    }
}

fn mode_page_asked_for(command: &[u8; 16]) -> (b: bool)
    ensures
        b == asks_for_mode_page(command@),
{
    let page_control = (command[2] >> 6) & 0x03;
    let page_code = command[2] & 0x3F;
    page_control == 0 && scsi::mode_page_supported(page_code, command[3])
}

fn refuse(cbw: Cbw, unit: UnitStatus) -> (reason: Option<SenseData>)
    ensures
        reason == refusal(cbw, unit),
{
    let opcode = cbw.opcode();
    if data_phase(opcode).is_none() {
        return Some(SenseData::illegal_request(ASC_INVALID_COMMAND_OPCODE));
    }
    if opcode == SCSI_INQUIRY {
        let evpd = cbw.command[1] & 0x01 != 0;
        let page_code = cbw.command[2];
        if evpd && page_code != 0x00 {
            return Some(SenseData::illegal_field_in_cdb(2));
        }
    } else if opcode == SCSI_REQUEST_SENSE {
        if cbw.command[1] & 0x01 != 0 {
            return Some(SenseData::illegal_field_in_cdb(1));
        }
    } else if opcode == SCSI_MODE_SENSE_6 || opcode == SCSI_MODE_SENSE_10 {
        if !mode_page_asked_for(&cbw.command) {
            return Some(SenseData::illegal_field_in_cdb(2));
        }
    } else if opcode == SCSI_TEST_UNIT_READY {
        if !unit.ready {
            return Some(SenseData::not_ready_initializing());
        }
    } else if opcode == SCSI_READ_10 || opcode == SCSI_WRITE_10 {
        if !unit.ready {
            return Some(SenseData::not_ready_initializing());
        }
        if opcode == SCSI_WRITE_10 && unit.write_protected {
            return Some(SenseData::from_storage_error(StorageError::WriteProtect, true));
        }
        let (lba, block_count) = parse_read_write_10(&cbw.command);
        if !block_range_valid(unit.block_count, lba, block_count) {
            return Some(SenseData::lba_out_of_range(lba));
        }
    }
    None
}

/// Looks at a command block, and says how the command goes on.
pub fn begin_command(
    unit: UnitStatus,
    sense: &mut SenseData,
    prevent_medium_removal: &mut bool,
    cbw: Cbw,
) -> (start: CommandStart)
    ensures
        start@ == start_of(cbw, unit, *old(sense)),
        start matches CommandStart::Respond(response) ==> response.wf(),
        *final(sense) == sense_at_start(cbw, unit, *old(sense)),
        *final(prevent_medium_removal) == prevented_at_start(cbw, *old(prevent_medium_removal)),
{
    let opcode = cbw.opcode();
    let expected_length = cbw.data_transfer_length;
    if let Some(direction) = data_phase(opcode) {
        if has_phase_mismatch(cbw, direction) {
            return CommandStart::Finished(phase_error(cbw));
        }
    }
    if let Some(reason) = refuse(cbw, unit) {
        *sense = reason;
        return CommandStart::Finished(conclude(cbw, CSW_STATUS_FAILED, 0));
    }
    if opcode == SCSI_INQUIRY {
        let limit = min(expected_length, cbw.command[4] as u32);
        CommandStart::Respond(Response::new(&scsi::build_inquiry_response(), limit))
    } else if opcode == SCSI_REQUEST_SENSE {
        let limit = min(expected_length, cbw.command[4] as u32);
        CommandStart::Respond(Response::new(&sense.to_response(), limit))
    } else if opcode == SCSI_READ_CAPACITY_10 {
        let response = scsi::build_read_capacity_10_response(unit.block_count);
        CommandStart::Respond(Response::new(&response, expected_length))
    } else if opcode == SCSI_READ_FORMAT_CAPACITIES {
        let response = scsi::build_read_format_capacities_response(unit.block_count);
        let allocation_length = bytes::get_be16(&cbw.command, 7) as u32;
        CommandStart::Respond(Response::new(&response, min(expected_length, allocation_length)))
    } else if opcode == SCSI_MODE_SENSE_6 {
        let response = scsi::build_mode_sense_6_response(unit.write_protected);
        let allocation_length = cbw.command[4] as u32;
        CommandStart::Respond(Response::new(&response, min(expected_length, allocation_length)))
    } else if opcode == SCSI_MODE_SENSE_10 {
        let response = scsi::build_mode_sense_10_response(unit.write_protected);
        let allocation_length = bytes::get_be16(&cbw.command, 7) as u32;
        CommandStart::Respond(Response::new(&response, min(expected_length, allocation_length)))
    } else if opcode == SCSI_READ_10 {
        let (lba, block_count) = parse_read_write_10(&cbw.command);
        CommandStart::ReadBlocks { lba, block_count }
    } else if opcode == SCSI_WRITE_10 {
        let (lba, block_count) = parse_read_write_10(&cbw.command);
        CommandStart::WriteBlocks { lba, block_count }
    } else {
        if opcode == SCSI_PREVENT_ALLOW_MEDIUM_REMOVAL {
            *prevent_medium_removal = cbw.command[4] & 0x01 != 0;
        }
        CommandStart::Finished(conclude(cbw, CSW_STATUS_PASSED, 0))
    }
}

/// The sense data once the response of a command was sent: REQUEST SENSE clears it.
pub open spec fn sense_after_response(cbw: Cbw, current: SenseData) -> SenseData {
    if cbw.op() == SCSI_REQUEST_SENSE {
        sense::good_sense()
    } else {
        current
    }
}

/// Ends a command whose response was sent.
pub fn finish_response(cbw: Cbw, sense: &mut SenseData, transferred: u32) -> (outcome:
    CommandOutcome)
    ensures
        outcome == conclusion(cbw, CSW_STATUS_PASSED, transferred as int),
        *final(sense) == sense_after_response(cbw, *old(sense)),
{
    if cbw.opcode() == SCSI_REQUEST_SENSE {
        *sense = SenseData::good();
    }
    conclude(cbw, CSW_STATUS_PASSED, transferred)
}

/// How a READ (10) ends whose data phase went as `read` says, and the sense data then.
pub open spec fn read_end(cbw: Cbw, current: SenseData, read: Result<u32, TransferError>) -> (
    Result<CommandOutcome, EndpointError>,
    SenseData,
) {
    match read {
        Ok(bytes) => (Ok(conclusion(cbw, CSW_STATUS_PASSED, bytes as int)), current),
        Err(TransferError::Endpoint(error)) => (Err(error), current),
        Err(TransferError::Storage(error)) => (
            Ok(conclusion(cbw, CSW_STATUS_FAILED, 0)),
            sense::storage_sense(error, false),
        ),
    }
}

/// Ends a READ (10).
pub fn finish_read(cbw: Cbw, sense: &mut SenseData, read: Result<u32, TransferError>) -> (r: Result<
    CommandOutcome,
    EndpointError,
>)
    ensures
        (r, *final(sense)) == read_end(cbw, *old(sense), read),
{
    match read {
        Ok(bytes) => Ok(conclude(cbw, CSW_STATUS_PASSED, bytes)),
        Err(TransferError::Endpoint(error)) => Err(error),
        Err(TransferError::Storage(error)) => {
            *sense = SenseData::from_storage_error(error, false);
            Ok(conclude(cbw, CSW_STATUS_FAILED, 0))
        },
    }
}

/// Whether a data phase brought what the command block asked for, and what the host announced.
pub open spec fn transfer_matches(cbw: Cbw, block_count: u16, transfer: WriteTransfer) -> bool {
    &&& !transfer.short_packet
    &&& !transfer.packet_overflow
    &&& transfer.written_bytes >= block_count * BLOCK_SIZE
    &&& transfer.consumed_bytes >= cbw.data_transfer_length
    &&& cbw.data_transfer_length == block_count * BLOCK_SIZE
}

/// How a WRITE (10) of `block_count` blocks ends whose data phase went as `written` says, and the
/// sense data then.
pub open spec fn write_end(
    cbw: Cbw,
    current: SenseData,
    block_count: u16,
    written: Result<WriteTransfer, TransferError>,
) -> (Result<CommandOutcome, EndpointError>, SenseData) {
    match written {
        Ok(transfer) => if transfer_matches(cbw, block_count, transfer) {
            (Ok(conclusion(cbw, CSW_STATUS_PASSED, transfer.written_bytes as int)), current)
        } else {
            let outcome = conclusion(cbw, CSW_STATUS_FAILED, transfer.written_bytes as int);
            (Ok(outcome), sense::length_mismatch_sense(outcome.csw.residue, 7))
        },
        Err(TransferError::Endpoint(error)) => (Err(error), current),
        Err(TransferError::Storage(error)) => (
            Ok(conclusion(cbw, CSW_STATUS_FAILED, 0)),
            sense::storage_sense(error, true),
        ),
    }
}

/// Ends a WRITE (10) of `block_count` blocks.
pub fn finish_write(
    cbw: Cbw,
    sense: &mut SenseData,
    block_count: u16,
    written: Result<WriteTransfer, TransferError>,
) -> (r: Result<CommandOutcome, EndpointError>)
    ensures
        (r, *final(sense)) == write_end(cbw, *old(sense), block_count, written),
{
    match written {
        Ok(transfer) => {
            let expected_length = cbw.data_transfer_length;
            let requested_bytes = block_count as u32 * BLOCK_SIZE as u32;
            let mismatch = transfer.short_packet || transfer.packet_overflow
                || transfer.written_bytes < requested_bytes || transfer.consumed_bytes
                < expected_length || expected_length != requested_bytes;
            if mismatch {
                *sense =
                SenseData::transfer_length_mismatch(
                    expected_length.saturating_sub(transfer.written_bytes),
                    7,
                );
                Ok(conclude(cbw, CSW_STATUS_FAILED, transfer.written_bytes))
            } else {
                Ok(conclude(cbw, CSW_STATUS_PASSED, transfer.written_bytes))
            }
        },
        Err(TransferError::Endpoint(error)) => Err(error),
        Err(TransferError::Storage(error)) => {
            *sense = SenseData::from_storage_error(error, true);
            Ok(conclude(cbw, CSW_STATUS_FAILED, 0))
        },
    }
}

/// What a device says of itself.
pub open spec fn status_of<S: BlockStorage>(storage: &S) -> UnitStatus {
    UnitStatus {
        ready: storage.ready(),
        write_protected: storage.write_protected(),
        block_count: storage.contents().len() as u32,
    }
}

/// Asks a device what it says of itself.
pub fn unit_status<S: BlockStorage>(storage: &S) -> (unit: UnitStatus)
    requires
        storage.wf(),
    ensures
        unit == status_of(storage),
        unit.block_count == storage.contents().len(),
{
    UnitStatus {
        ready: storage.is_ready(),
        write_protected: storage.is_write_protected(),
        block_count: storage.block_count(),
    }
}

/// An endpoint that was not used.
pub open spec fn unused<E: DataEndpoint>(before: &E, after: &E) -> bool {
    &&& after.incoming() == before.incoming()
    &&& after.received() == before.received()
    &&& after.sent() == before.sent()
    &&& after.errors() == before.errors()
    &&& after.waits() == before.waits()
    &&& after.healthy() == before.healthy()
}

/// A device whose blocks were not touched.
pub open spec fn untouched<S: BlockStorage>(before: &S, after: &S) -> bool {
    &&& after.contents() == before.contents()
    &&& after.unfinished() == before.unfinished()
    &&& after.errors() == before.errors()
}

/// How a command that sends the response `bytes`, of which `limit` are asked for, ends.
pub open spec fn responded<IN: DataEndpoint>(
    cbw: Cbw,
    bytes: Seq<u8>,
    limit: int,
    current: SenseData,
    in_ep: &IN,
    in_ep_after: &IN,
    sense_after: SenseData,
    r: Result<CommandOutcome, EndpointError>,
) -> bool {
    let all = packets::in_packets(bytes, limit, cbw.inward());
    &&& in_ep_after.incoming() == in_ep.incoming()
    &&& in_ep_after.received() == in_ep.received()
    &&& in_ep_after.waits() == in_ep.waits()
    &&& in_ep.healthy() ==> r is Ok
    &&& match r {
        Ok(outcome) => {
            &&& outcome == conclusion(
                cbw,
                CSW_STATUS_PASSED,
                packets::clipped(bytes, limit).len() as int,
            )
            &&& in_ep_after.sent() == in_ep.sent() + all
            &&& in_ep_after.errors() == in_ep.errors()
            &&& sense_after == sense_after_response(cbw, current)
        },
        Err(error) => {
            &&& bot::sent_part(in_ep.sent(), all, in_ep_after.sent())
            &&& in_ep_after.errors() == in_ep.errors().push(error)
            &&& sense_after == current
        },
    }
}

/// How a command that sends blocks ends.
pub open spec fn blocks_sent<IN: DataEndpoint, S: BlockStorage>(
    cbw: Cbw,
    lba: u32,
    block_count: u16,
    current: SenseData,
    storage: &S,
    in_ep: &IN,
    storage_after: &S,
    in_ep_after: &IN,
    sense_after: SenseData,
    r: Result<CommandOutcome, EndpointError>,
) -> bool {
    &&& in_ep_after.incoming() == in_ep.incoming()
    &&& in_ep_after.received() == in_ep.received()
    &&& in_ep_after.waits() == in_ep.waits()
    &&& storage_after.contents() == storage.contents()
    &&& storage_after.unfinished() == storage.unfinished()
    &&& exists|read: Result<u32, TransferError>|
        {
            &&& #[trigger] block_reader::read_by(
                storage,
                in_ep,
                lba as int,
                block_count as int,
                cbw.data_transfer_length as int,
                cbw.inward(),
                storage_after,
                in_ep_after,
                read,
            )
            &&& (r, sense_after) == read_end(cbw, current, read)
            &&& storage.healthy() && in_ep.healthy() ==> read is Ok
        }
}

/// How a command that takes blocks ends.
pub open spec fn blocks_taken<OUT: DataEndpoint, S: BlockStorage>(
    cbw: Cbw,
    lba: u32,
    block_count: u16,
    current: SenseData,
    storage: &S,
    out_ep: &OUT,
    storage_after: &S,
    out_ep_after: &OUT,
    sense_after: SenseData,
    r: Result<CommandOutcome, EndpointError>,
) -> bool {
    &&& out_ep_after.sent() == out_ep.sent()
    &&& exists|written: Result<WriteTransfer, TransferError>|
        {
            &&& #[trigger] block_writer::written_by(
                storage,
                out_ep,
                lba as int,
                block_count as int,
                cbw.data_transfer_length as int,
                storage_after,
                out_ep_after,
                written,
            )
            &&& (r, sense_after) == write_end(cbw, current, block_count, written)
            &&& storage.healthy() ==> !(written matches Err(TransferError::Storage(_)))
        }
}

/// What the execution of one command did. Of everything it works on, the pairs hold what it was
/// before and what it is after.
pub open spec fn executed<OUT: DataEndpoint, IN: DataEndpoint, S: BlockStorage>(
    cbw: Cbw,
    storage: (&S, &S),
    out_ep: (&OUT, &OUT),
    in_ep: (&IN, &IN),
    sense: (SenseData, SenseData),
    prevented: (bool, bool),
    r: Result<CommandOutcome, EndpointError>,
) -> bool {
    let unit = status_of(storage.0);
    let current = sense_at_start(cbw, unit, sense.0);
    &&& prevented.1 == prevented_at_start(cbw, prevented.0)
    &&& match start_of(cbw, unit, sense.0) {
        Start::Finished(outcome) => {
            &&& r == Ok::<CommandOutcome, EndpointError>(outcome)
            &&& sense.1 == current
            &&& untouched(storage.0, storage.1)
            &&& unused(in_ep.0, in_ep.1)
            &&& unused(out_ep.0, out_ep.1)
        },
        Start::Respond { bytes, limit } => {
            &&& responded(cbw, bytes, limit, current, in_ep.0, in_ep.1, sense.1, r)
            &&& untouched(storage.0, storage.1)
            &&& unused(out_ep.0, out_ep.1)
        },
        Start::ReadBlocks { lba, block_count } => {
            &&& blocks_sent(
                cbw,
                lba,
                block_count,
                current,
                storage.0,
                in_ep.0,
                storage.1,
                in_ep.1,
                sense.1,
                r,
            )
            &&& unused(out_ep.0, out_ep.1)
        },
        Start::WriteBlocks { lba, block_count } => {
            &&& blocks_taken(
                cbw,
                lba,
                block_count,
                current,
                storage.0,
                out_ep.0,
                storage.1,
                out_ep.1,
                sense.1,
                r,
            )
            &&& unused(in_ep.0, in_ep.1)
        },
    }
}

/// Executes one command: looks at its command block, has its data phase, and says how it ended.
pub fn execute_command<OUT: DataEndpoint, IN: DataEndpoint, S: BlockStorage>(
    storage: &mut S,
    out_ep: &mut OUT,
    in_ep: &mut IN,
    sense: &mut SenseData,
    prevent_medium_removal: &mut bool,
    cbw: Cbw,
) -> (r: Result<CommandOutcome, EndpointError>)
    requires
        old(storage).wf(),
    ensures
        final(storage).wf(),
        final(storage).contents().len() == old(storage).contents().len(),
        final(storage).ready() == old(storage).ready(),
        final(storage).write_protected() == old(storage).write_protected(),
        old(storage).healthy() ==> final(storage).healthy(),
        old(in_ep).healthy() ==> final(in_ep).healthy(),
        old(out_ep).healthy() ==> final(out_ep).healthy(),
        executed(
            cbw,
            (old(storage), final(storage)),
            (old(out_ep), final(out_ep)),
            (old(in_ep), final(in_ep)),
            (*old(sense), *final(sense)),
            (*old(prevent_medium_removal), *final(prevent_medium_removal)),
            r,
        ),
{
    let unit = unit_status(storage);
    match begin_command(unit, sense, prevent_medium_removal, cbw) {
        CommandStart::Finished(outcome) => Ok(outcome),
        CommandStart::Respond(response) => {
            let transferred = match bot::send_in_data(
                in_ep,
                response.data(),
                response.limit(),
                cbw.expects_in(),
            ) {
                Ok(transferred) => transferred,
                Err(error) => {
                    return Err(error);
                },
            };
            Ok(finish_response(cbw, sense, transferred))
        },
        CommandStart::ReadBlocks { lba, block_count } => {
            let read = block_reader::read_blocks(
                storage,
                in_ep,
                lba,
                block_count,
                cbw.data_transfer_length,
                cbw.expects_in(),
            );
            finish_read(cbw, sense, read)
        },
        CommandStart::WriteBlocks { lba, block_count } => {
            let written = block_writer::write_blocks(
                storage,
                out_ep,
                lba,
                block_count,
                cbw.data_transfer_length,
            );
            finish_write(cbw, sense, block_count, written)
        },
    }
}

} // verus!
