//! The metadata journal: its on-medium layout, the storage built on it, and what a crash leaves.

pub mod crash;
pub mod crc;
pub mod effects;
pub mod layout;
pub mod metadata;
pub mod record;
pub mod script;
