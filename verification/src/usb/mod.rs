//! USB mass storage: the Bulk-Only Transport, its SCSI commands, and the control requests.

pub mod block_reader;
pub mod block_writer;
pub mod bot;
pub mod commands;
pub mod constants;
pub mod data_phase;
pub mod descriptors;
pub mod device;
pub mod enumeration;
pub mod host;
pub mod laws;
pub mod packets;
pub mod scsi;
pub mod sense;
pub mod session;
pub mod steps;
pub mod transport;
