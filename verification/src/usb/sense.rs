//! Sense data: what a host is told of a command that failed.

use vstd::prelude::*;
use crate::bytes;
use crate::storage::error::StorageError;
use crate::usb::constants::{
    ASCQ_INITIALIZING_COMMAND_REQUIRED, ASC_INTERNAL_TARGET_FAILURE, ASC_INVALID_FIELD_IN_CDB,
    ASC_LOGICAL_BLOCK_ADDRESS_OUT_OF_RANGE, ASC_LOGICAL_UNIT_NOT_READY, ASC_UNRECOVERED_READ_ERROR,
    ASC_WRITE_ERROR, ASC_WRITE_PROTECTED, SENSE_ADDITIONAL_LENGTH, SENSE_DATA_PROTECT,
    SENSE_FIXED_RESPONSE_LEN, SENSE_HARDWARE_ERROR, SENSE_ILLEGAL_REQUEST, SENSE_MEDIUM_ERROR,
    SENSE_NOT_READY,
};

verus! {

/// Fixed-format request-sense working state for the current command stream.
#[derive(Copy, Clone, Debug, PartialEq, Eq, Structural)]
pub struct SenseData {
    pub key: u8,
    pub asc: u8,
    pub ascq: u8,
    /// The information field, where it is valid.
    pub information: Option<u32>,
    /// Whether the length that was asked for is not the length that there was.
    pub ili: bool,
    /// The byte of the command block that is in error, where one is.
    pub field_pointer: Option<u16>,
}

/// Sense data with a key and a code, and nothing else to say.
pub open spec fn plain_sense(key: u8, asc: u8, ascq: u8) -> SenseData {
    SenseData { key, asc, ascq, information: None, ili: false, field_pointer: None }
}

/// Nothing to report.
pub open spec fn good_sense() -> SenseData {
    plain_sense(0, 0, 0)
}

/// The request is illegal, for the reason `asc`.
pub open spec fn illegal_request_sense(asc: u8) -> SenseData {
    plain_sense(SENSE_ILLEGAL_REQUEST, asc, 0)
}

/// The byte `field_pointer` of the command block is illegal.
pub open spec fn illegal_field_sense(field_pointer: u16) -> SenseData {
    SenseData {
        field_pointer: Some(field_pointer),
        ..illegal_request_sense(ASC_INVALID_FIELD_IN_CDB)
    }
}

/// The block address `lba` is out of range.
pub open spec fn out_of_range_sense(lba: u32) -> SenseData {
    SenseData {
        information: Some(lba),
        ..illegal_request_sense(ASC_LOGICAL_BLOCK_ADDRESS_OUT_OF_RANGE)
    }
}

/// The unit has to be initialized first.
pub open spec fn not_ready_sense() -> SenseData {
    plain_sense(SENSE_NOT_READY, ASC_LOGICAL_UNIT_NOT_READY, ASCQ_INITIALIZING_COMMAND_REQUIRED)
}

/// What is reported of a storage error.
pub open spec fn storage_sense(error: StorageError, is_write: bool) -> SenseData {
    match error {
        StorageError::NotReady => not_ready_sense(),
        StorageError::MediumError => plain_sense(
            SENSE_MEDIUM_ERROR,
            if is_write {
                ASC_WRITE_ERROR
            } else {
                ASC_UNRECOVERED_READ_ERROR
            },
            0,
        ),
        StorageError::WriteProtect => plain_sense(SENSE_DATA_PROTECT, ASC_WRITE_PROTECTED, 0),
        StorageError::HardwareError => plain_sense(
            SENSE_HARDWARE_ERROR,
            ASC_INTERNAL_TARGET_FAILURE,
            0,
        ),
    }
}

/// The data that came is not as long as the command block says: `residue` bytes are missing.
pub open spec fn length_mismatch_sense(residue: u32, field_pointer: u16) -> SenseData {
    SenseData {
        information: Some(residue),
        ili: true,
        ..illegal_field_sense(field_pointer)
    }
}

/// The fixed-format response, on the wire.
pub open spec fn sense_response(sense: SenseData) -> Seq<u8> {
    let response_code = if sense.information is Some {
        0xF0u8
    } else {
        0x70u8
    };
    let key = (sense.key & 0x0F) | if sense.ili {
        0x20u8
    } else {
        0u8
    };
    let information = match sense.information {
        Some(information) => bytes::be32_bytes(information),
        None => seq![0u8, 0, 0, 0],
    };
    let key_specific = match sense.field_pointer {
        Some(field_pointer) => seq![0xC0u8] + bytes::be16_bytes(field_pointer),
        None => seq![0u8, 0, 0],
    };
    seq![response_code, 0u8, key] + information + seq![SENSE_ADDITIONAL_LENGTH, 0u8, 0, 0, 0]
        + seq![sense.asc, sense.ascq, 0u8] + key_specific
}

impl Default for SenseData {
    fn default() -> (sense: Self)
        ensures
            sense == good_sense(),
    {
        SenseData { key: 0, asc: 0, ascq: 0, information: None, ili: false, field_pointer: None }
    }
}

impl SenseData {
    pub fn good() -> (sense: Self)
        ensures
            sense == good_sense(),
    {
        Self::plain(0, 0, 0)
    }

    fn plain(key: u8, asc: u8, ascq: u8) -> (sense: Self)
        ensures
            sense == plain_sense(key, asc, ascq),
    {
        SenseData { key, asc, ascq, information: None, ili: false, field_pointer: None }
    }

    pub fn illegal_request(asc: u8) -> (sense: Self)
        ensures
            sense == illegal_request_sense(asc),
    {
        Self::plain(SENSE_ILLEGAL_REQUEST, asc, 0)
    }

    pub fn illegal_field_in_cdb(field_pointer: u16) -> (sense: Self)
        ensures
            sense == illegal_field_sense(field_pointer),
    {
        let mut sense = Self::illegal_request(ASC_INVALID_FIELD_IN_CDB);
        sense.field_pointer = Some(field_pointer);
        sense
    }

    pub fn lba_out_of_range(lba: u32) -> (sense: Self)
        ensures
            sense == out_of_range_sense(lba),
    {
        let mut sense = Self::illegal_request(ASC_LOGICAL_BLOCK_ADDRESS_OUT_OF_RANGE);
        sense.information = Some(lba);
        sense
    }

    pub fn not_ready_initializing() -> (sense: Self)
        ensures
            sense == not_ready_sense(),
    {
        Self::plain(
            SENSE_NOT_READY,
            ASC_LOGICAL_UNIT_NOT_READY,
            ASCQ_INITIALIZING_COMMAND_REQUIRED,
        )
    }

    pub fn from_storage_error(error: StorageError, is_write: bool) -> (sense: Self)
        ensures
            sense == storage_sense(error, is_write),
    {
        match error {
            StorageError::NotReady => Self::not_ready_initializing(),
            StorageError::MediumError => {
                let asc = if is_write {
                    ASC_WRITE_ERROR
                } else {
                    ASC_UNRECOVERED_READ_ERROR
                };
                Self::plain(SENSE_MEDIUM_ERROR, asc, 0)
            },
            StorageError::WriteProtect => Self::plain(SENSE_DATA_PROTECT, ASC_WRITE_PROTECTED, 0),
            StorageError::HardwareError => Self::plain(
                SENSE_HARDWARE_ERROR,
                ASC_INTERNAL_TARGET_FAILURE,
                0,
            ),
        }
    }

    pub fn transfer_length_mismatch(residue: u32, cdb_field_pointer: u16) -> (sense: Self)
        ensures
            sense == length_mismatch_sense(residue, cdb_field_pointer),
    {
        let mut sense = Self::illegal_field_in_cdb(cdb_field_pointer);
        sense.information = Some(residue);
        sense.ili = true;
        sense
    }

    pub fn to_response(self) -> (response: [u8; SENSE_FIXED_RESPONSE_LEN])
        ensures
            response@ == sense_response(self),
    {
        let mut response = [0u8; SENSE_FIXED_RESPONSE_LEN];
        response[0] = 0x70;
        response[2] = (self.key & 0x0F) | if self.ili {
            0x20
        } else {
            0x00
        };
        if let Some(information) = self.information {
            response[0] = 0x70 | 0x80;
            assert(0x70u8 | 0x80u8 == 0xF0u8) by (bit_vector);
            bytes::put(&mut response, 3, &bytes::be32(information));
        }
        response[7] = SENSE_ADDITIONAL_LENGTH;
        response[12] = self.asc;
        response[13] = self.ascq;
        if let Some(field_pointer) = self.field_pointer {
            response[15] = 0x40 | 0x80;
            assert(0x40u8 | 0x80u8 == 0xC0u8) by (bit_vector);
            bytes::put(&mut response, 16, &bytes::be16(field_pointer));
        }
        assert(response@ =~= sense_response(self));
        response
    }
}

} // verus!
