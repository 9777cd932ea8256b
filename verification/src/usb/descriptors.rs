//! The descriptors that a host reads to learn what the device is.

use vstd::prelude::*;
use crate::bytes;
use vstd::string::*;

verus! {

pub const USB_VID: u16 = 0x1209;

pub const USB_PID: u16 = 0x0001;

pub const CONTROL_MAX_PACKET_SIZE: u16 = 64;

pub const BULK_MAX_PACKET_SIZE: u16 = 64;

pub const CONFIGURATION_VALUE: u8 = 1;

pub const INTERFACE_NUMBER: u8 = 0;

pub const MANUFACTURER: &'static str = "FeRam";

pub const PRODUCT: &'static str = "FeRamDisk";

pub const SERIAL: &'static str = "0001";

/// The room that a descriptor is built in.
pub const DESCRIPTOR_MAX: usize = 64;

/// The UTF-16 code units of a character.
pub open spec fn utf16_units(c: char) -> Seq<u16> {
    let code = c as u32;
    if code < 0x1_0000 {
        seq![code as u16]
    } else {
        seq![
            (0xD800 + (code - 0x1_0000) / 0x400) as u16,
            (0xDC00 + (code - 0x1_0000) % 0x400) as u16,
        ]
    }
}

/// The UTF-16 code units of a text.
pub open spec fn utf16(text: Seq<char>) -> Seq<u16>
    decreases text.len(),
{
    if text.len() == 0 {
        Seq::empty()
    } else {
        utf16(text.drop_last()) + utf16_units(text.last())
    }
}

fn encode_utf16(text: &str) -> (units: Vec<u16>)
    ensures
        units@ == utf16(text@),
{
    let mut units: Vec<u16> = Vec::new();
    let len = text.unicode_len();
    let mut i: usize = 0;
    while i < len
        invariant
            i <= len,
            len == text@.len(),
            units@ == utf16(text@.take(i as int)),
        decreases len - i,
    {
        let c = text.get_char(i);
        let code = c as u32;
        let ghost before = units@;
        if code < 0x1_0000 {
            units.push(code as u16);
        } else {
            let offset = code - 0x1_0000;
            units.push((0xD800 + offset / 0x400) as u16);
            units.push((0xDC00 + offset % 0x400) as u16);
        }
        assert(units@ =~= before + utf16_units(c));
        assert(text@.take(i + 1).drop_last() =~= text@.take(i as int));
        i = i + 1;
    }
    assert(text@.take(i as int) =~= text@);
    units
}

/// The little-endian bytes of code units.
pub open spec fn unit_bytes(units: Seq<u16>) -> Seq<u8> {
    Seq::new(units.len() * 2, |i: int| bytes::le16_bytes(units[i / 2])[i % 2])
}

/// How many code units a string descriptor has room for.
pub const STRING_UNITS_MAX: usize = 31;

/// The string descriptor of a text, as far as there is room for it.
pub open spec fn string_descriptor_of(text: Seq<char>) -> Seq<u8> {
    let units = utf16(text);
    let kept = if units.len() <= STRING_UNITS_MAX {
        units
    } else {
        units.take(STRING_UNITS_MAX as int)
    };
    seq![(2 + 2 * kept.len()) as u8, 0x03u8] + unit_bytes(kept)
}

/// The string descriptor that lists the languages: English, and no other.
pub open spec fn language_descriptor() -> Seq<u8> {
    seq![0x04u8, 0x03, 0x09, 0x04]
}

/// Data for the host, at most `DESCRIPTOR_MAX` bytes.
#[derive(Copy, Clone, Debug)]
pub struct ControlData {
    data: [u8; DESCRIPTOR_MAX],
    len: usize,
}

impl ControlData {
    pub closed spec fn wf(&self) -> bool {
        self.len <= DESCRIPTOR_MAX
    }

    /// The data.
    pub closed spec fn bytes(&self) -> Seq<u8> {
        self.data@.take(self.len as int)
    }

    pub fn new(source: &[u8]) -> (data: Self)
        requires
            source@.len() <= DESCRIPTOR_MAX,
        ensures
            data.wf(),
            data.bytes() == source@,
    {
        let mut data = [0u8; DESCRIPTOR_MAX];
        bytes::put(&mut data, 0, source);
        assert(data@.take(source@.len() as int) =~= source@);
        ControlData { data, len: source.len() }
    }

    /// The data.
    pub fn as_slice(&self) -> (data: &[u8])
        requires
            self.wf(),
        ensures
            data@ == self.bytes(),
    {
        assert(self.data@.subrange(0, self.len as int) =~= self.bytes());
        vstd::slice::slice_subrange(self.data.as_slice(), 0, self.len)
    }

    pub fn len(&self) -> (len: usize)
        requires
            self.wf(),
        ensures
            len == self.bytes().len(),
    {
        self.len
    }

    /// The first `len` bytes.
    pub fn truncated(&self, len: usize) -> (data: Self)
        requires
            self.wf(),
            len <= self.bytes().len(),
        ensures
            data.wf(),
            data.bytes() == self.bytes().take(len as int),
    {
        let data = ControlData { data: self.data, len };
        assert(data.bytes() =~= self.bytes().take(len as int));
        data
    }
}

pub fn build_string_descriptor(text: &str) -> (descriptor: ControlData)
    ensures
        descriptor.wf(),
        descriptor.bytes() == string_descriptor_of(text@),
{
    let units = encode_utf16(text);
    let kept: usize = if units.len() <= STRING_UNITS_MAX {
        units.len()
    } else {
        STRING_UNITS_MAX
    };
    let ghost kept_units = if units@.len() <= STRING_UNITS_MAX {
        units@
    } else {
        units@.take(STRING_UNITS_MAX as int)
    };
    let mut data = [0u8; DESCRIPTOR_MAX];
    data[0] = (2 + 2 * kept) as u8;
    data[1] = 0x03;
    let mut i: usize = 0;
    while i < kept
        invariant
            i <= kept <= STRING_UNITS_MAX,
            kept <= units@.len(),
            kept == kept_units.len(),
            forall|j: int| 0 <= j < kept ==> kept_units[j] == units@[j],
            data[0] == 2 + 2 * kept,
            data[1] == 0x03,
            forall|j: int| 0 <= j < 2 * i ==> #[trigger] data@[2 + j] == unit_bytes(kept_units)[j],
        decreases kept - i,
    {
        let unit = bytes::le16(units[i]);
        data[2 + 2 * i] = unit[0];
        data[2 + 2 * i + 1] = unit[1];
        assert(unit_bytes(kept_units)[2 * i] == unit[0]);
        assert(unit_bytes(kept_units)[2 * i + 1] == unit[1]);
        i = i + 1;
    }
    let descriptor = ControlData { data, len: 2 + 2 * kept };
    proof {
        let expected = string_descriptor_of(text@);
        assert(expected.len() == 2 + 2 * kept);
        assert forall|j: int| 0 <= j < expected.len() implies descriptor.bytes()[j]
            == expected[j] by {
            if j >= 2 {
                assert(data@[2 + (j - 2)] == unit_bytes(kept_units)[j - 2]);
            }
        }
        assert(descriptor.bytes() =~= expected);
    }
    descriptor
}

/// The descriptors of the device, whose bulk endpoints have the given addresses.
#[derive(Copy, Clone, Debug, PartialEq, Eq, Structural)]
pub struct UsbDescriptors {
    pub bulk_out: u8,
    pub bulk_in: u8,
}

/// The device descriptor: USB 2.0, its class given by the interface, one configuration.
pub open spec fn device_descriptor_of() -> Seq<u8> {
    seq![18u8, 0x01, 0x00, 0x02, 0x00, 0x00, 0x00, 0x40] + bytes::le16_bytes(USB_VID)
        + bytes::le16_bytes(USB_PID) + seq![0x00u8, 0x01, 0x01, 0x02, 0x03, 0x01]
}

/// The descriptor of one bulk endpoint.
pub open spec fn endpoint_descriptor(address: u8) -> Seq<u8> {
    seq![7u8, 0x05u8, address, 0x02u8] + bytes::le16_bytes(BULK_MAX_PACKET_SIZE) + seq![0x00u8]
}

/// The interface descriptor: mass storage, transparent SCSI commands, Bulk-Only Transport.
pub open spec fn interface_descriptor() -> Seq<u8> {
    seq![9u8, 0x04u8, INTERFACE_NUMBER, 0x00u8, 0x02u8, 0x08u8, 0x06u8, 0x50u8, 0x00u8]
}

/// The configuration descriptor proper: bus-powered, at most 100 mA.
pub open spec fn configuration_header(total_length: u16) -> Seq<u8> {
    seq![9u8, 0x02u8] + bytes::le16_bytes(total_length) + seq![
        0x01u8,
        CONFIGURATION_VALUE,
        0x00u8,
        0x80u8,
        0x32u8,
    ]
}

impl UsbDescriptors {
    pub fn new(bulk_out: u8, bulk_in: u8) -> (descriptors: Self)
        ensures
            descriptors == (UsbDescriptors { bulk_out, bulk_in }),
    {
        UsbDescriptors { bulk_out, bulk_in }
    }

    pub fn device_descriptor(&self) -> (descriptor: [u8; 18])
        ensures
            descriptor@ == device_descriptor_of(),
    {
        let vid = bytes::le16(USB_VID);
        let pid = bytes::le16(USB_PID);
        let descriptor = [
            18,
            0x01,
            0x00,
            0x02,
            0x00,
            0x00,
            0x00,
            0x40,
            vid[0],
            vid[1],
            pid[0],
            pid[1],
            0x00,
            0x01,
            0x01,
            0x02,
            0x03,
            0x01,
        ];
        assert(descriptor@ =~= device_descriptor_of());
        descriptor
    }

    /// The configuration descriptor with the interface and its endpoints.
    pub open spec fn configuration(&self) -> Seq<u8> {
        configuration_header(32) + interface_descriptor() + endpoint_descriptor(self.bulk_out)
            + endpoint_descriptor(self.bulk_in)
    }

    pub fn configuration_descriptor(&self) -> (descriptor: [u8; 32])
        ensures
            descriptor@ == self.configuration(),
    {
        let total_length = bytes::le16(32);
        let packet_size = bytes::le16(BULK_MAX_PACKET_SIZE);
        let descriptor = [
            9,
            0x02,
            total_length[0],
            total_length[1],
            0x01,
            CONFIGURATION_VALUE,
            0x00,
            0x80,
            0x32,
            9,
            0x04,
            INTERFACE_NUMBER,
            0x00,
            0x02,
            0x08,
            0x06,
            0x50,
            0x00,
            7,
            0x05,
            self.bulk_out,
            0x02,
            packet_size[0],
            packet_size[1],
            0x00,
            7,
            0x05,
            self.bulk_in,
            0x02,
            packet_size[0],
            packet_size[1],
            0x00,
        ];
        assert(descriptor@ =~= self.configuration());
        descriptor
    }

    /// The string descriptor with the given index.
    pub open spec fn string(&self, index: u8) -> Option<Seq<u8>> {
        if index == 0 {
            Some(language_descriptor())
        } else if index == 1 {
            Some(string_descriptor_of(MANUFACTURER@))
        } else if index == 2 {
            Some(string_descriptor_of(PRODUCT@))
        } else if index == 3 {
            Some(string_descriptor_of(SERIAL@))
        } else {
            None
        }
    }

    pub fn string_descriptor(&self, index: u8) -> (descriptor: Option<ControlData>)
        ensures
            match descriptor {
                Some(data) => data.wf() && self.string(index) == Some(data.bytes()),
                None => self.string(index) is None,
            },
    {
        if index == 0 {
            let language = [0x04, 0x03, 0x09, 0x04];
            assert(language@ =~= language_descriptor());
            Some(ControlData::new(&language))
        } else if index == 1 {
            Some(build_string_descriptor(MANUFACTURER))
        } else if index == 2 {
            Some(build_string_descriptor(PRODUCT))
        } else if index == 3 {
            Some(build_string_descriptor(SERIAL))
        } else {
            None
        }
    }
}

/// Every descriptor says its own length: the device descriptor, each part of the configuration
/// descriptor and the whole of it, and every string descriptor.
pub proof fn descriptors_say_their_length(descriptors: UsbDescriptors, index: u8)
    ensures
        device_descriptor_of()[0] == device_descriptor_of().len(),
        configuration_header(32)[0] == configuration_header(32).len(),
        interface_descriptor()[0] == interface_descriptor().len(),
        endpoint_descriptor(descriptors.bulk_out)[0] == endpoint_descriptor(
            descriptors.bulk_out,
        ).len(),
        endpoint_descriptor(descriptors.bulk_in)[0] == endpoint_descriptor(
            descriptors.bulk_in,
        ).len(),
        bytes::le16_at(descriptors.configuration(), 2) == descriptors.configuration().len(),
        descriptors.string(index) matches Some(descriptor) ==> descriptor[0] == descriptor.len(),
{
}

} // verus!
