//! The ferroelectric RAM chips: how the disk is spread over them, and what they are told.

pub mod feram;
pub mod spi;
