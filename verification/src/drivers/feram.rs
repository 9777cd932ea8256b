//! Four chips as one memory: which chip holds which bytes, and the commands that reach them.

use vstd::prelude::*;
use crate::bytes;
use crate::drivers::spi::FramSpiError;
use crate::storage::error::StorageError;

pub use crate::storage::medium::BLOCK_SIZE;

verus! {

pub const CHIP_COUNT: usize = 4;

pub const CHIP_SIZE_BYTES: usize = 256 * 1024;

pub const TOTAL_SIZE_BYTES: usize = 4 * 256 * 1024;

pub const TOTAL_BLOCKS: u32 = 2048;

pub const CMD_WREN: u8 = 0x06;

pub const CMD_WRDI: u8 = 0x04;

pub const CMD_RDSR: u8 = 0x05;

pub const CMD_WRSR: u8 = 0x01;

pub const CMD_READ: u8 = 0x03;

pub const CMD_FAST_READ: u8 = 0x0B;

pub const CMD_WRITE: u8 = 0x02;

pub const CMD_RDID: u8 = 0x9F;

pub const CMD_SLEEP: u8 = 0xB9;

/// Why an access to the memory failed.
#[derive(Copy, Clone, Debug, PartialEq, Eq)]
pub enum FeRamError<SpiError, CsError> {
    OutOfRange,
    Bus(FramSpiError<SpiError, CsError>),
}

/// What an access that failed is reported as.
pub open spec fn storage_error_of<SpiError, CsError>(
    error: FeRamError<SpiError, CsError>,
) -> StorageError {
    match error {
        FeRamError::OutOfRange => StorageError::MediumError,
        FeRamError::Bus(_) => StorageError::HardwareError,
    }
}

pub fn map_feram_error<SpiError, CsError>(error: FeRamError<SpiError, CsError>) -> (mapped:
    StorageError)
    ensures
        mapped == storage_error_of(error),
{
    match error {
        FeRamError::OutOfRange => StorageError::MediumError,
        FeRamError::Bus(_) => StorageError::HardwareError,
    }
}

/// The memory behind a bus.
pub struct FeRam<BUS> {
    pub bus: BUS,
}

impl<BUS> FeRam<BUS> {
    pub fn new(bus: BUS) -> (fram: Self)
        ensures
            fram.bus == bus,
    {
        FeRam { bus }
    }

    pub fn capacity_bytes(&self) -> (n: usize)
        ensures
            n == CHIP_COUNT * CHIP_SIZE_BYTES,
    {
        TOTAL_SIZE_BYTES
    }

    pub fn block_count(&self) -> (n: u32)
        ensures
            n * BLOCK_SIZE == CHIP_COUNT * CHIP_SIZE_BYTES,
    {
        TOTAL_BLOCKS
    }
}

/// Tells whether `len` bytes from `address` on lie inside the memory. No byte lies inside anywhere.
pub fn check_range<SpiError, CsError>(address: usize, len: usize) -> (r: Result<
    (),
    FeRamError<SpiError, CsError>,
>)
    ensures
        r == if len == 0 || address + len <= TOTAL_SIZE_BYTES {
            Ok::<(), FeRamError<SpiError, CsError>>(())
        } else {
            Err(FeRamError::OutOfRange)
        },
{
    if len == 0 {
        return Ok(());
    }
    match address.checked_add(len) {
        Some(end) => if end <= TOTAL_SIZE_BYTES {
            Ok(())
        } else {
            Err(FeRamError::OutOfRange)
        },
        None => Err(FeRamError::OutOfRange),
    }
}

/// The result of a transaction from that of its transfer and that of deselecting the chip: the
/// transfer's error comes first.
pub fn finish<R, SpiError, CsError>(
    spi_result: Result<R, FeRamError<SpiError, CsError>>,
    cs_result: Result<(), FramSpiError<SpiError, CsError>>,
) -> (r: Result<R, FeRamError<SpiError, CsError>>)
    ensures
        r == match (spi_result, cs_result) {
            (Err(error), _) => Err(error),
            (Ok(_), Err(error)) => Err(FeRamError::Bus(error)),
            (Ok(value), Ok(_)) => Ok(value),
        },
{
    match spi_result {
        Err(error) => Err(error),
        Ok(value) => match cs_result {
            Err(error) => Err(FeRamError::Bus(error)),
            Ok(_) => Ok(value),
        },
    }
}

/// A part of a range of bytes that one chip holds.
#[derive(Copy, Clone, Debug, PartialEq, Eq, Structural)]
pub struct ChipChunk {
    pub chip: usize,
    /// Where the part starts on the chip.
    pub address: u32,
    /// Where the part starts in the range.
    pub start: usize,
    pub len: usize,
}

/// A range of bytes, chip by chip.
#[derive(Copy, Clone, Debug)]
pub struct ChipCursor {
    address: usize,
    len: usize,
    done: usize,
}

impl ChipCursor {
    pub closed spec fn wf(&self) -> bool {
        self.done <= self.len && (self.len > 0 ==> self.address + self.len <= TOTAL_SIZE_BYTES)
    }

    /// The first byte of the range.
    pub closed spec fn address(&self) -> int {
        self.address as int
    }

    /// The bytes of the range.
    pub closed spec fn len(&self) -> int {
        self.len as int
    }

    /// The bytes in the parts that were handed out.
    pub closed spec fn done(&self) -> int {
        self.done as int
    }

    /// The start of a range that lies inside the memory.
    pub fn new(address: usize, len: usize) -> (cursor: Self)
        requires
            len == 0 || address + len <= TOTAL_SIZE_BYTES,
        ensures
            cursor.wf(),
            cursor.address() == address,
            cursor.len() == len,
            cursor.done() == 0,
    {
        ChipCursor { address, len, done: 0 }
    }

    /// The next part of the range: as far as the chip reaches that holds its first byte. `None`
    /// behind the last part.
    pub fn next_chunk(&mut self) -> (r: Option<ChipChunk>)
        requires
            old(self).wf(),
        ensures
            final(self).wf(),
            final(self).address() == old(self).address(),
            final(self).len() == old(self).len(),
            match r {
                Some(chunk) => {
                    let at = old(self).address() + old(self).done();
                    &&& chunk.chip == at / CHIP_SIZE_BYTES as int
                    &&& chunk.chip < CHIP_COUNT
                    &&& chunk.address == at % CHIP_SIZE_BYTES as int
                    &&& chunk.start == old(self).done()
                    &&& chunk.len > 0
                    &&& chunk.address + chunk.len <= CHIP_SIZE_BYTES
                    &&& chunk.address + chunk.len == CHIP_SIZE_BYTES || final(self).done()
                        == final(self).len()
                    &&& final(self).done() == old(self).done() + chunk.len
                    &&& final(self).done() <= final(self).len()
                },
                None => {
                    &&& old(self).done() == old(self).len()
                    &&& final(self).done() == old(self).done()
                },
            },
    {
        if self.done == self.len {
            return None;
        }
        let at = self.address + self.done;
        let chip = at / CHIP_SIZE_BYTES;
        let on_chip = at % CHIP_SIZE_BYTES;
        let room = CHIP_SIZE_BYTES - on_chip;
        let left = self.len - self.done;
        let len = if room < left {
            room
        } else {
            left
        };
        let start = self.done;
        self.done = self.done + len;
        Some(ChipChunk { chip, address: on_chip as u32, start, len })
    }
}

/// The chip and the place on it that hold a byte hold no other: the memory is neither folded nor
/// has it gaps.
pub proof fn every_byte_has_its_own_place(a: int, b: int)
    requires
        0 <= a < TOTAL_SIZE_BYTES,
        0 <= b < TOTAL_SIZE_BYTES,
    ensures
        0 <= a / (CHIP_SIZE_BYTES as int) < CHIP_COUNT,
        a / CHIP_SIZE_BYTES as int * CHIP_SIZE_BYTES + a % CHIP_SIZE_BYTES as int == a,
        a / CHIP_SIZE_BYTES as int == b / CHIP_SIZE_BYTES as int && a % CHIP_SIZE_BYTES as int == b
            % CHIP_SIZE_BYTES as int ==> a == b,
{
}

/// The three bytes of an address on a chip. The chip has eighteen address lines.
pub open spec fn address_bytes(address: u32) -> Seq<u8> {
    bytes::be32_bytes(address % 0x4_0000).skip(1)
}

/// A chip is told the address itself: its three bytes say which byte is meant.
pub proof fn address_bytes_say_the_address(address: u32)
    requires
        address < CHIP_SIZE_BYTES,
    ensures
        address_bytes(address).len() == 3,
        0x1_0000 * address_bytes(address)[0] + 0x100 * address_bytes(address)[1] + address_bytes(
            address,
        )[2] == address,
{
}

/// What a chip is told at the start of a transaction.
#[derive(Copy, Clone, Debug)]
pub struct ChipCommand {
    data: [u8; 5],
    len: usize,
}

impl ChipCommand {
    pub closed spec fn wf(&self) -> bool {
        self.len <= 5
    }

    /// The bytes on the wire.
    pub closed spec fn wire(&self) -> Seq<u8> {
        self.data@.take(self.len as int)
    }

    /// The bytes on the wire.
    pub fn as_bytes(&self) -> (wire: &[u8])
        requires
            self.wf(),
        ensures
            wire@ == self.wire(),
    {
        assert(self.data@.subrange(0, self.len as int) =~= self.wire());
        vstd::slice::slice_subrange(self.data.as_slice(), 0, self.len)
    }

    /// A command without parameters.
    pub fn plain(opcode: u8) -> (command: Self)
        ensures
            command.wf(),
            command.wire() == seq![opcode],
    {
        let command = ChipCommand { data: [opcode, 0, 0, 0, 0], len: 1 };
        assert(command.wire() =~= seq![opcode]);
        command
    }

    /// Asks for the bytes from `address` on.
    pub fn read(address: u32) -> (command: Self)
        ensures
            command.wf(),
            command.wire() == seq![CMD_READ] + address_bytes(address),
    {
        let encoded = bytes::be32(address % 0x4_0000);
        let command = ChipCommand {
            data: [CMD_READ, encoded[1], encoded[2], encoded[3], 0],
            len: 4,
        };
        assert(command.wire() =~= seq![CMD_READ] + address_bytes(address));
        command
    }

    /// Asks for the bytes from `address` on, at full speed. A dummy byte gives the chip time.
    pub fn fast_read(address: u32) -> (command: Self)
        ensures
            command.wf(),
            command.wire() == seq![CMD_FAST_READ] + address_bytes(address) + seq![0x00u8],
    {
        let encoded = bytes::be32(address % 0x4_0000);
        let command = ChipCommand {
            data: [CMD_FAST_READ, encoded[1], encoded[2], encoded[3], 0],
            len: 5,
        };
        assert(command.wire() =~= seq![CMD_FAST_READ] + address_bytes(address) + seq![0x00u8]);
        command
    }

    /// The transactions of a write to the bytes from `address` on: the chip is write-enabled, and
    /// the data follows the second command.
    pub fn write(address: u32) -> (commands: [Self; 2])
        ensures
            commands[0].wf(),
            commands[0].wire() == seq![CMD_WREN],
            commands[1].wf(),
            commands[1].wire() == seq![CMD_WRITE] + address_bytes(address),
    {
        let encoded = bytes::be32(address % 0x4_0000);
        let command = ChipCommand {
            data: [CMD_WRITE, encoded[1], encoded[2], encoded[3], 0],
            len: 4,
        };
        assert(command.wire() =~= seq![CMD_WRITE] + address_bytes(address));
        [Self::plain(CMD_WREN), command]
    }

    /// The transactions of a write to the status register: the chip is write-enabled first.
    pub fn write_status(status: u8) -> (commands: [Self; 2])
        ensures
            commands[0].wf(),
            commands[0].wire() == seq![CMD_WREN],
            commands[1].wf(),
            commands[1].wire() == seq![CMD_WRSR, status],
    {
        let command = ChipCommand { data: [CMD_WRSR, status, 0, 0, 0], len: 2 };
        assert(command.wire() =~= seq![CMD_WRSR, status]);
        [Self::plain(CMD_WREN), command]
    }
}

/// The memory has 1048576 bytes, which are 2048 blocks of 512 bytes. A new one is reached over the bus
/// that it was given.
pub proof fn memory_is_a_mebibyte<BUS>(bus: BUS, fram: FeRam<BUS>, bytes: usize, blocks: u32)
    requires
        call_ensures(FeRam::<BUS>::new, (bus,), fram),
        call_ensures(FeRam::<BUS>::capacity_bytes, (&fram,), bytes),
        call_ensures(FeRam::<BUS>::block_count, (&fram,), blocks),
    ensures
        fram.bus == bus,
        bytes == 0x10_0000,
        blocks == 2048,
{
}

/// Bytes can be reached as far as they end in the memory, and none can be reached anywhere. What does
/// not fit is out of range, and that is a fault of the medium; a fault of the bus is one of the
/// hardware.
pub proof fn accesses_end_in_the_memory<SpiError, CsError>(
    address: usize,
    len: usize,
    r: Result<(), FeRamError<SpiError, CsError>>,
    fault: FramSpiError<SpiError, CsError>,
    out_of_range: StorageError,
    on_the_bus: StorageError,
)
    requires
        call_ensures(check_range::<SpiError, CsError>, (address, len), r),
        call_ensures(map_feram_error::<SpiError, CsError>, (FeRamError::OutOfRange,), out_of_range),
        call_ensures(map_feram_error::<SpiError, CsError>, (FeRamError::Bus(fault),), on_the_bus),
    ensures
        r is Ok <==> len == 0 || address + len <= 0x10_0000,
        r is Err ==> r->Err_0 is OutOfRange,
        out_of_range == StorageError::MediumError,
        on_the_bus == StorageError::HardwareError,
{
}

/// A transaction succeeds where its transfer did and the chip was released, with what the transfer
/// gave. Of two errors the transfer's counts.
pub proof fn transfer_errors_come_first<R, SpiError, CsError>(
    transfer: Result<R, FeRamError<SpiError, CsError>>,
    release: Result<(), FramSpiError<SpiError, CsError>>,
    r: Result<R, FeRamError<SpiError, CsError>>,
)
    requires
        call_ensures(finish::<R, SpiError, CsError>, (transfer, release), r),
    ensures
        r is Ok <==> transfer is Ok && release is Ok,
        r is Ok || transfer is Err ==> r == transfer,
        transfer is Ok ==> (release matches Err(fault) ==> r == Err::<
            R,
            FeRamError<SpiError, CsError>,
        >(FeRamError::Bus(fault))),
{
}

/// A range is handed out from its first byte on, each part where the one before it ended. A chip holds
/// 262144 bytes: byte `i` of a part is byte `address + i` of the chip, and `262144 * chip + address + i`
/// of the memory. A part ends with its chip or with the range.
pub proof fn parts_follow_each_other_over_the_chips(
    address: usize,
    len: usize,
    first: ChipCursor,
    cursor: &mut ChipCursor,
    r: Option<ChipChunk>,
)
    requires
        len == 0 || address + len <= 0x10_0000,
        call_ensures(ChipCursor::new, (address, len), first),
        cursor.wf(),
        call_ensures(ChipCursor::next_chunk, (cursor,), r),
    ensures
        first.wf() && first.address() == address && first.len() == len && first.done() == 0,
        final(cursor).wf(),
        final(cursor).address() == old(cursor).address(),
        final(cursor).len() == old(cursor).len(),
        r is None <==> old(cursor).done() == old(cursor).len(),
        r is None ==> final(cursor).done() == old(cursor).done(),
        r matches Some(part) ==> {
            &&& part.start == old(cursor).done()
            &&& 0 < part.len && part.start + part.len == final(cursor).done() <= old(cursor).len()
            &&& part.chip < 4
            &&& part.address + part.len <= 262144
            &&& 262144 * part.chip + part.address == old(cursor).address() + part.start
            &&& part.address + part.len == 262144 || final(cursor).done() == old(cursor).len()
        },
{
}

/// A chip is read by 0x03 and three bytes that name the address, the high byte first; at full speed by
/// 0x0B, the same three bytes and a byte that says nothing.
pub proof fn chips_are_read_by_address(
    address: u32,
    read: ChipCommand,
    read_wire: &[u8],
    fast: ChipCommand,
    fast_wire: &[u8],
)
    requires
        address < 262144,
        call_ensures(ChipCommand::read, (address,), read),
        call_ensures(ChipCommand::as_bytes, (&read,), read_wire),
        call_ensures(ChipCommand::fast_read, (address,), fast),
        call_ensures(ChipCommand::as_bytes, (&fast,), fast_wire),
    ensures
        read_wire@.len() == 4 && read_wire@[0] == 0x03,
        0x1_0000 * read_wire@[1] + 0x100 * read_wire@[2] + read_wire@[3] == address,
        fast_wire@.len() == 5 && fast_wire@[0] == 0x0B,
        0x1_0000 * fast_wire@[1] + 0x100 * fast_wire@[2] + fast_wire@[3] == address,
        fast_wire@[4] == 0,
{
    address_bytes_say_the_address(address);
}

/// A chip is written after it was told 0x06, which enables writing: by 0x02 and the address, or by
/// 0x01 and the value of its status register. A plain command is its one byte.
pub proof fn chips_are_enabled_before_they_are_written(
    address: u32,
    write: [ChipCommand; 2],
    enable_wire: &[u8],
    write_wire: &[u8],
    status: u8,
    write_status: [ChipCommand; 2],
    status_enable_wire: &[u8],
    status_wire: &[u8],
    opcode: u8,
    plain: ChipCommand,
    plain_wire: &[u8],
)
    requires
        address < 262144,
        call_ensures(ChipCommand::write, (address,), write),
        call_ensures(ChipCommand::as_bytes, (&write@[0],), enable_wire),
        call_ensures(ChipCommand::as_bytes, (&write@[1],), write_wire),
        call_ensures(ChipCommand::write_status, (status,), write_status),
        call_ensures(ChipCommand::as_bytes, (&write_status@[0],), status_enable_wire),
        call_ensures(ChipCommand::as_bytes, (&write_status@[1],), status_wire),
        call_ensures(ChipCommand::plain, (opcode,), plain),
        call_ensures(ChipCommand::as_bytes, (&plain,), plain_wire),
    ensures
        enable_wire@ == seq![0x06u8],
        write_wire@.len() == 4 && write_wire@[0] == 0x02,
        0x1_0000 * write_wire@[1] + 0x100 * write_wire@[2] + write_wire@[3] == address,
        status_enable_wire@ == seq![0x06u8],
        status_wire@ == seq![0x01u8, status],
        plain_wire@ == seq![opcode],
{
    address_bytes_say_the_address(address);
}

/// Writing is disabled by 0x04, the status register is read by 0x05, the chip names itself at 0x9F, and
/// sleeps at 0xB9.
pub proof fn plain_commands_have_their_codes(
    disable: ChipCommand,
    status: ChipCommand,
    identify: ChipCommand,
    sleep: ChipCommand,
)
    requires
        call_ensures(ChipCommand::plain, (CMD_WRDI,), disable),
        call_ensures(ChipCommand::plain, (CMD_RDSR,), status),
        call_ensures(ChipCommand::plain, (CMD_RDID,), identify),
        call_ensures(ChipCommand::plain, (CMD_SLEEP,), sleep),
    ensures
        disable.wire() == seq![0x04u8],
        status.wire() == seq![0x05u8],
        identify.wire() == seq![0x9Fu8],
        sleep.wire() == seq![0xB9u8],
{
}

/// A chip has 18 address lines: what is above them is not told.
pub proof fn addresses_have_eighteen_bits(address: u32, same: u32, a: ChipCommand, b: ChipCommand)
    requires
        call_ensures(ChipCommand::read, (address,), a),
        call_ensures(ChipCommand::read, (same,), b),
        same == address % 262144,
    ensures
        a.wire() == b.wire(),
{
}

} // verus!
