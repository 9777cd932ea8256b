//! Block storage: the traits it is made of, its errors, the metadata journal, and the volume.

pub mod backend;
pub mod block;
pub mod bring_up;
pub mod device;
pub mod error;
pub mod format;
pub mod journal;
pub mod medium;
pub mod volume;

pub use crate::storage::block::BlockStorage;
pub use crate::storage::error::StorageError;
pub use crate::storage::journal::layout::{
    visible_block_count_from_physical, JOURNAL_RESERVED_BLOCKS,
};
pub use crate::storage::journal::metadata::MetadataJournalStorage;
pub use crate::storage::medium::BLOCK_SIZE;
