//! The simulated disk: everything that is needed to run commands without hardware.

use vstd::prelude::*;
use crate::storage::block::BlockStorage;

pub use crate::backend::mock_endpoint::MockEndpoint;
pub use crate::backend::ram_backend::{BackendOp, RamBackend};
pub use crate::backend::ram_storage::RamStorage;
pub use crate::storage::backend::JournalBackend;
pub use crate::storage::error::StorageError;
pub use crate::usb::bot::{Cbw, Csw, DataDirection, DataEndpoint};
pub use crate::usb::commands::{execute_command, CommandOutcome, StallAfterCsw};
pub use crate::usb::constants::{
    BLOCK_SIZE, BOT_EVENT_BULK_RESET, CSW_STATUS_FAILED, CSW_STATUS_PASSED, CSW_STATUS_PHASE_ERROR,
    SCSI_INQUIRY, SCSI_MODE_SENSE_10, SCSI_MODE_SENSE_6, SCSI_PREVENT_ALLOW_MEDIUM_REMOVAL,
    SCSI_READ_10, SCSI_READ_CAPACITY_10, SCSI_READ_FORMAT_CAPACITIES, SCSI_REQUEST_SENSE,
    SCSI_START_STOP_UNIT, SCSI_SYNCHRONIZE_CACHE_10, SCSI_TEST_UNIT_READY, SCSI_VERIFY_10,
    SCSI_WRITE_10, USB_PACKET_SIZE,
};
pub use crate::usb::sense::SenseData;

verus! {

pub type Storage = RamStorage;

/// The disk that the simulation starts with: 256 zeroed blocks.
pub fn init_storage() -> (storage: RamStorage)
    ensures
        storage.wf(),
        storage.healthy(),
        storage@.ready,
        !storage@.write_protected,
        storage@.blocks == Seq::new(
            256,
            |i: int| Seq::new(BLOCK_SIZE as nat, |j: int| 0u8),
        ),
        storage.errors().len() == 0,
{
    RamStorage::new(256)
}

} // verus!
