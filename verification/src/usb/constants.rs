//! Numbers of the Bulk-Only Transport and of the SCSI commands.

use vstd::prelude::*;

pub use crate::storage::medium::BLOCK_SIZE;

verus! {

pub const CBW_SIGNATURE: u32 = 0x4342_5355;

pub const CSW_SIGNATURE: u32 = 0x5342_5355;

/// Bytes in a command block wrapper.
pub const CBW_LEN: usize = 31;

/// Bytes in a command status wrapper.
pub const CSW_LEN: usize = 13;

pub const CSW_STATUS_PASSED: u8 = 0;

pub const CSW_STATUS_FAILED: u8 = 1;

pub const CSW_STATUS_PHASE_ERROR: u8 = 2;

pub const SCSI_TEST_UNIT_READY: u8 = 0x00;

pub const SCSI_REQUEST_SENSE: u8 = 0x03;

pub const SCSI_INQUIRY: u8 = 0x12;

pub const SCSI_MODE_SENSE_6: u8 = 0x1A;

pub const SCSI_START_STOP_UNIT: u8 = 0x1B;

pub const SCSI_PREVENT_ALLOW_MEDIUM_REMOVAL: u8 = 0x1E;

pub const SCSI_READ_FORMAT_CAPACITIES: u8 = 0x23;

pub const SCSI_READ_CAPACITY_10: u8 = 0x25;

pub const SCSI_READ_10: u8 = 0x28;

pub const SCSI_WRITE_10: u8 = 0x2A;

pub const SCSI_VERIFY_10: u8 = 0x2F;

pub const SCSI_SYNCHRONIZE_CACHE_10: u8 = 0x35;

pub const SCSI_MODE_SENSE_10: u8 = 0x5A;

pub const SENSE_NOT_READY: u8 = 0x02;

pub const SENSE_MEDIUM_ERROR: u8 = 0x03;

pub const SENSE_HARDWARE_ERROR: u8 = 0x04;

pub const SENSE_ILLEGAL_REQUEST: u8 = 0x05;

pub const SENSE_DATA_PROTECT: u8 = 0x07;

pub const SENSE_FIXED_RESPONSE_LEN: usize = 18;

pub const SENSE_ADDITIONAL_LENGTH: u8 = 10;

pub const ASC_LOGICAL_UNIT_NOT_READY: u8 = 0x04;

pub const ASC_WRITE_ERROR: u8 = 0x0C;

pub const ASC_UNRECOVERED_READ_ERROR: u8 = 0x11;

pub const ASC_INVALID_COMMAND_OPCODE: u8 = 0x20;

pub const ASC_LOGICAL_BLOCK_ADDRESS_OUT_OF_RANGE: u8 = 0x21;

pub const ASC_INVALID_FIELD_IN_CDB: u8 = 0x24;

pub const ASC_WRITE_PROTECTED: u8 = 0x27;

pub const ASC_INTERNAL_TARGET_FAILURE: u8 = 0x44;

pub const ASCQ_INITIALIZING_COMMAND_REQUIRED: u8 = 0x02;

pub const MODE_PAGE_CACHING: u8 = 0x08;

/// The mode page code that asks for every page.
pub const MODE_PAGE_ALL: u8 = 0x3F;

pub const CBW_READ_TIMEOUT_MS: u64 = 1500;

pub const DATA_OUT_TIMEOUT_MS: u64 = 1500;

pub const OVERFLOW_DRAIN_TIMEOUT_MS: u64 = 20;

pub const OVERFLOW_DRAIN_MAX_PACKETS: usize = 128;

/// How long the data path waits for the control path to apply a stall.
pub const BOT_STALL_ACK_TIMEOUT_MS: u64 = 20;

pub const LUN_COUNT: u8 = 1;

pub const USB_PACKET_SIZE: usize = 64;

pub const BOT_ACTION_STALL_IN: u8 = 0x01;

pub const BOT_ACTION_STALL_OUT: u8 = 0x02;

pub const BOT_EVENT_BULK_RESET: u8 = 0x01;

} // verus!
