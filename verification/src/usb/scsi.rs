//! The responses of the SCSI commands that answer from fixed tables.

use vstd::prelude::*;
use crate::bytes;
use crate::usb::constants::{BLOCK_SIZE, MODE_PAGE_ALL, MODE_PAGE_CACHING};

verus! {

/// The vendor identification "FeRam", padded with blanks.
pub const INQUIRY_VENDOR: [u8; 8] = [0x46, 0x65, 0x52, 0x61, 0x6D, 0x20, 0x20, 0x20];

/// The product identification "FeRamDisk", padded with blanks.
pub const INQUIRY_PRODUCT: [u8; 16] = [
    0x46,
    0x65,
    0x52,
    0x61,
    0x6D,
    0x44,
    0x69,
    0x73,
    0x6B,
    0x20,
    0x20,
    0x20,
    0x20,
    0x20,
    0x20,
    0x20,
];

/// The product revision "1.00".
pub const INQUIRY_REVISION: [u8; 4] = [0x31, 0x2E, 0x30, 0x30];

/// Standard INQUIRY data: a direct-access device with a removable medium, then who made it.
pub open spec fn inquiry_response() -> Seq<u8> {
    seq![0x00u8, 0x80, 0x06, 0x02, 31, 0, 0, 0] + INQUIRY_VENDOR@ + INQUIRY_PRODUCT@
        + INQUIRY_REVISION@
}

/// READ CAPACITY (10) data: the last block and the block size.
pub open spec fn read_capacity_10_response(block_count: u32) -> Seq<u8> {
    let last_block = if block_count > 0 {
        (block_count - 1) as u32
    } else {
        0
    };
    bytes::be32_bytes(last_block) + bytes::be32_bytes(BLOCK_SIZE as u32)
}

/// READ FORMAT CAPACITIES data: one descriptor, of formatted media.
pub open spec fn read_format_capacities_response(block_count: u32) -> Seq<u8> {
    seq![0u8, 0, 0, 8] + bytes::be32_bytes(block_count) + seq![0x02u8, 0x00, 0x02, 0x00]
}

/// Whether a mode page can be asked for: the caching page, or all pages, which are the same.
pub open spec fn is_mode_page(page_code: u8, subpage: u8) -> bool {
    (page_code == MODE_PAGE_CACHING || page_code == MODE_PAGE_ALL) && (subpage == 0x00 || subpage
        == 0xFF)
}

/// The caching page: no write cache, and the read cache disabled.
pub open spec fn caching_page() -> Seq<u8> {
    seq![MODE_PAGE_CACHING, 0x12u8, 0x01u8] + Seq::new(17, |i: int| 0u8)
}

/// The device-specific parameter of a mode parameter header.
pub open spec fn mode_device_parameter(write_protected: bool) -> u8 {
    if write_protected {
        0x80
    } else {
        0x00
    }
}

/// MODE SENSE (6) data: a header without block descriptors, and the caching page.
pub open spec fn mode_sense_6_response(write_protected: bool) -> Seq<u8> {
    seq![23u8, 0u8, mode_device_parameter(write_protected), 0u8] + caching_page()
}

/// MODE SENSE (10) data: a header without block descriptors, and the caching page.
pub open spec fn mode_sense_10_response(write_protected: bool) -> Seq<u8> {
    seq![0u8, 26u8, 0u8, mode_device_parameter(write_protected), 0u8, 0u8, 0u8, 0u8]
        + caching_page()
}

pub fn build_inquiry_response() -> (response: [u8; 36])
    ensures
        response@ == inquiry_response(),
{
    let mut response = [0u8; 36];
    response[1] = 0x80;
    response[2] = 0x06;
    response[3] = 0x02;
    response[4] = 31;
    bytes::put(&mut response, 8, &INQUIRY_VENDOR);
    bytes::put(&mut response, 16, &INQUIRY_PRODUCT);
    bytes::put(&mut response, 32, &INQUIRY_REVISION);
    assert(response@ =~= inquiry_response());
    response
}

pub fn build_read_capacity_10_response(block_count: u32) -> (response: [u8; 8])
    ensures
        response@ == read_capacity_10_response(block_count),
{
    let mut response = [0u8; 8];
    let last_block = block_count.saturating_sub(1);
    bytes::put(&mut response, 0, &bytes::be32(last_block));
    bytes::put(&mut response, 4, &bytes::be32(BLOCK_SIZE as u32));
    assert(response@ =~= read_capacity_10_response(block_count));
    response
}

pub fn build_read_format_capacities_response(block_count: u32) -> (response: [u8; 12])
    ensures
        response@ == read_format_capacities_response(block_count),
{
    let mut response = [0u8; 12];
    response[3] = 8;
    bytes::put(&mut response, 4, &bytes::be32(block_count));
    response[8] = 0x02;
    let block_size = bytes::be32(BLOCK_SIZE as u32);
    response[9] = block_size[1];
    response[10] = block_size[2];
    response[11] = block_size[3];
    assert(response@ =~= read_format_capacities_response(block_count));
    response
}

pub fn mode_page_supported(page_code: u8, subpage: u8) -> (supported: bool)
    ensures
        supported == is_mode_page(page_code, subpage),
{
    // MODE SENSE page code 0x3F means "return all supported pages".
    // This device currently supports only Caching Page (08h), so 0x3F returns
    // the same single page payload as an explicit 08h request.
    (page_code == MODE_PAGE_CACHING || page_code == MODE_PAGE_ALL) && (subpage == 0x00 || subpage
        == 0xFF)
}

pub fn build_caching_page() -> (page: [u8; 20])
    ensures
        page@ == caching_page(),
{
    let mut page = [0u8; 20];
    page[0] = MODE_PAGE_CACHING;
    page[1] = 0x12;
    // Write cache disabled (WCE clear), read cache disabled (RCD set).
    page[2] = 0x01;
    assert(page@ =~= caching_page());
    page
}

pub fn build_mode_sense_6_response(write_protected: bool) -> (response: [u8; 24])
    ensures
        response@ == mode_sense_6_response(write_protected),
{
    let mut response = [0u8; 24];
    response[0] = 23;
    response[2] = if write_protected {
        0x80
    } else {
        0x00
    };
    bytes::put(&mut response, 4, &build_caching_page());
    assert(response@ =~= mode_sense_6_response(write_protected));
    response
}

pub fn build_mode_sense_10_response(write_protected: bool) -> (response: [u8; 28])
    ensures
        response@ == mode_sense_10_response(write_protected),
{
    let mut response = [0u8; 28];
    response[1] = 26;
    response[3] = if write_protected {
        0x80
    } else {
        0x00
    };
    bytes::put(&mut response, 8, &build_caching_page());
    assert(response@ =~= mode_sense_10_response(write_protected));
    response
}

} // verus!
