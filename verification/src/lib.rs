//! Firmware core of a USB mass-storage disk on ferroelectric RAM.

pub mod backend;
pub mod bytes;
pub mod drivers;
pub mod storage;
pub mod usb;
pub mod usb_msc;
