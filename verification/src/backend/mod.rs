//! What the disk runs on: the hardware, or a simulation of it.

pub mod behaviour;
pub mod faults;
pub mod hardware;
pub mod mock_endpoint;
pub mod ram_backend;
pub mod ram_storage;
pub mod simulated;
