//! The data phase of WRITE (10): packets to blocks.

use vstd::prelude::*;
use crate::bytes;
use crate::storage::block::{self, BlockStorage};
use crate::storage::error::{self, StorageError};
use crate::usb::bot::DataEndpoint;
use crate::usb::constants::{
    BLOCK_SIZE, DATA_OUT_TIMEOUT_MS, OVERFLOW_DRAIN_MAX_PACKETS, OVERFLOW_DRAIN_TIMEOUT_MS,
    USB_PACKET_SIZE,
};
use crate::usb::packets;
use crate::usb::block_reader::{self, TransferError};

verus! {

/// How a bulk-OUT data phase went.
#[derive(Copy, Clone, Debug, PartialEq, Eq, Structural)]
pub struct WriteTransfer {
    /// The bytes of the blocks that were written.
    pub written_bytes: u32,
    /// The bytes that were taken of those expected.
    pub consumed_bytes: u32,
    /// Whether fewer bytes came than were expected.
    pub short_packet: bool,
    /// Whether more bytes came than were expected.
    pub packet_overflow: bool,
}

/// How many whole blocks, and at most `count`, `len` bytes fill.
pub open spec fn whole_blocks(len: int, count: int) -> int {
    if len / (BLOCK_SIZE as int) < count {
        len / BLOCK_SIZE as int
    } else {
        count
    }
}

/// `contents` with the whole blocks of `stream`, and at most `count` of them, written from block
/// `lba` on.
pub open spec fn write_stream(
    contents: Seq<Seq<u8>>,
    lba: int,
    count: int,
    stream: Seq<u8>,
) -> Seq<Seq<u8>> {
    Seq::new(
        contents.len(),
        |i: int|
            if lba <= i < lba + whole_blocks(stream.len() as int, count) {
                stream.subrange((i - lba) * BLOCK_SIZE, (i - lba) * BLOCK_SIZE + BLOCK_SIZE)
            } else {
                contents[i]
            },
    )
}

/// What a data phase leaves of a device that brought `stream`: its whole blocks are written, and a
/// write that was under way before is so still, on another block, or was made first.
pub open spec fn left_by(
    contents: Seq<Seq<u8>>,
    unfinished: Option<(int, Seq<u8>)>,
    lba: int,
    count: int,
    stream: Seq<u8>,
    contents_after: Seq<Seq<u8>>,
    unfinished_after: Option<(int, Seq<u8>)>,
) -> bool {
    ||| {
        &&& contents_after == write_stream(contents, lba, count, stream)
        &&& unfinished_after == unfinished
        &&& unfinished matches Some((target, _)) ==> !(lba <= target < lba + whole_blocks(
            stream.len() as int,
            count,
        ))
    }
    ||| {
        &&& contents_after == write_stream(
            block::finished(contents, unfinished),
            lba,
            count,
            stream,
        )
        &&& unfinished_after is None
    }
}

/// What a data phase leaves of a device that stopped at a block which could not be written: the
/// blocks before it are written, and the ones behind it are not. The block is one that the bytes of
/// `stream` behind its first `known` have filled.
pub open spec fn stopped_inside(
    contents: Seq<Seq<u8>>,
    unfinished: Option<(int, Seq<u8>)>,
    lba: int,
    count: int,
    known: int,
    stream: Seq<u8>,
    after: Seq<Seq<u8>>,
    unfinished_after: Option<(int, Seq<u8>)>,
) -> bool {
    exists|w: int|
        {
            &&& #[trigger] stopped_at_block(
                contents,
                unfinished,
                lba,
                count,
                stream,
                after,
                unfinished_after,
                w,
            )
            &&& known < (w + 1) * BLOCK_SIZE
        }
}

/// What a data phase leaves of a device that stopped at its block `w`. Of a block that is not
/// written and to which a write was under way before, nothing is said. What is under way then is
/// what was before, or the write of block `w`.
pub open spec fn stopped_at_block(
    contents: Seq<Seq<u8>>,
    unfinished: Option<(int, Seq<u8>)>,
    lba: int,
    count: int,
    stream: Seq<u8>,
    after: Seq<Seq<u8>>,
    unfinished_after: Option<(int, Seq<u8>)>,
    w: int,
) -> bool {
    &&& 0 <= w < count
    &&& (w + 1) * BLOCK_SIZE <= stream.len()
    &&& after.len() == contents.len()
    &&& forall|j: int|
        0 <= j < contents.len() && j != lba + w && (block::under_way(unfinished, j) ==> lba <= j
            < lba + w) ==> #[trigger] after[j] == write_stream(contents, lba, w, stream)[j]
    &&& unfinished_after is None || unfinished_after == unfinished || unfinished_after == Some(
        (lba + w, stream.subrange(w * BLOCK_SIZE, w * BLOCK_SIZE + BLOCK_SIZE)),
    )
}

/// More bytes write the block that they fill, where there is one to write.
proof fn lemma_write_stream_grows(
    base: Seq<Seq<u8>>,
    lba: int,
    count: int,
    stream: Seq<u8>,
    chunk: Seq<u8>,
)
    requires
        count >= 0,
        stream.len() % BLOCK_SIZE as nat + chunk.len() <= BLOCK_SIZE,
    ensures
        ({
            let grown = stream + chunk;
            let k = whole_blocks(stream.len() as int, count);
            let full = stream.len() % BLOCK_SIZE as nat + chunk.len() == BLOCK_SIZE;
            &&& full ==> grown.len() % BLOCK_SIZE as nat == 0
            &&& !full ==> grown.len() % BLOCK_SIZE as nat == stream.len() % BLOCK_SIZE as nat
                + chunk.len()
            &&& full && k < count ==> {
                &&& whole_blocks(grown.len() as int, count) == k + 1
                &&& k == stream.len() as int / BLOCK_SIZE as int
                &&& grown.len() == (k + 1) * BLOCK_SIZE
                &&& 0 <= lba && lba + count <= base.len() ==> write_stream(base, lba, count, grown)
                    == write_stream(base, lba, count, stream).update(
                    lba + k,
                    grown.skip(grown.len() - BLOCK_SIZE),
                )
            }
            &&& !(full && k < count) ==> {
                &&& whole_blocks(grown.len() as int, count) == k
                &&& write_stream(base, lba, count, grown) == write_stream(base, lba, count, stream)
            }
        }),
{
    let grown = stream + chunk;
    let k = whole_blocks(stream.len() as int, count);
    assert forall|i: int| 0 <= i < k implies #[trigger] grown.subrange(
        i * BLOCK_SIZE,
        i * BLOCK_SIZE + BLOCK_SIZE,
    ) == stream.subrange(i * BLOCK_SIZE, i * BLOCK_SIZE + BLOCK_SIZE) by {
        assert(grown.subrange(i * BLOCK_SIZE, i * BLOCK_SIZE + BLOCK_SIZE) =~= stream.subrange(
            i * BLOCK_SIZE,
            i * BLOCK_SIZE + BLOCK_SIZE,
        ));
    }
    let old_image = write_stream(base, lba, count, stream);
    let new_image = write_stream(base, lba, count, grown);
    if stream.len() % BLOCK_SIZE as nat + chunk.len() == BLOCK_SIZE && k < count {
        if 0 <= lba && lba + count <= base.len() {
            assert(grown.subrange(k * BLOCK_SIZE, k * BLOCK_SIZE + BLOCK_SIZE) =~= grown.skip(
                grown.len() - BLOCK_SIZE,
            ));
            assert(new_image =~= old_image.update(lba + k, grown.skip(grown.len() - BLOCK_SIZE)));
        }
    } else {
        assert(new_image =~= old_image);
    }
}

/// The last block of bytes that fill whole blocks is that block of all bytes that follow.
proof fn lemma_filled_block(filled: Seq<u8>, stream: Seq<u8>, k: int)
    requires
        filled.is_prefix_of(stream),
        0 <= k,
        filled.len() == (k + 1) * BLOCK_SIZE,
    ensures
        stream.subrange(k * BLOCK_SIZE, k * BLOCK_SIZE + BLOCK_SIZE) == filled.skip(
            filled.len() - BLOCK_SIZE,
        ),
{
    assert(stream.subrange(k * BLOCK_SIZE, k * BLOCK_SIZE + BLOCK_SIZE) =~= filled.skip(
        filled.len() - BLOCK_SIZE,
    ));
}

/// Bytes that fill a block leave the device with that block written, where there was one to write.
proof fn lemma_left_by_grows(
    contents: Seq<Seq<u8>>,
    unfinished: Option<(int, Seq<u8>)>,
    lba: int,
    count: int,
    stream: Seq<u8>,
    chunk: Seq<u8>,
    before: Seq<Seq<u8>>,
    unfinished_before: Option<(int, Seq<u8>)>,
    after: Seq<Seq<u8>>,
    unfinished_after: Option<(int, Seq<u8>)>,
)
    requires
        0 <= lba,
        count >= 0,
        count == 0 || lba + count <= contents.len(),
        stream.len() % BLOCK_SIZE as nat + chunk.len() <= BLOCK_SIZE,
        left_by(contents, unfinished, lba, count, stream, before, unfinished_before),
        ({
            let grown = stream + chunk;
            let k = whole_blocks(stream.len() as int, count);
            if stream.len() % BLOCK_SIZE as nat + chunk.len() == BLOCK_SIZE && k < count {
                block::written(
                    before,
                    unfinished_before,
                    lba + k,
                    grown.skip(grown.len() - BLOCK_SIZE),
                    after,
                    unfinished_after,
                )
            } else {
                after == before && unfinished_after == unfinished_before
            }
        }),
    ensures
        left_by(contents, unfinished, lba, count, stream + chunk, after, unfinished_after),
{
    let grown = stream + chunk;
    let k = whole_blocks(stream.len() as int, count);
    let made = block::finished(contents, unfinished);
    lemma_write_stream_grows(contents, lba, count, stream, chunk);
    lemma_write_stream_grows(made, lba, count, stream, chunk);
    if stream.len() % BLOCK_SIZE as nat + chunk.len() == BLOCK_SIZE && k < count {
        let data = grown.skip(grown.len() - BLOCK_SIZE);
        assert(block::finished(before, None) == before);
        if unfinished_before is Some {
            assert(block::finished(before, unfinished).update(lba + k, data) =~= write_stream(
                made,
                lba,
                count,
                grown,
            ));
        }
    }
}

/// A data phase that could not write the next block leaves the ones before it.
proof fn lemma_stopped_inside(
    contents: Seq<Seq<u8>>,
    unfinished: Option<(int, Seq<u8>)>,
    lba: int,
    count: int,
    known: int,
    so_far: Seq<u8>,
    stream: Seq<u8>,
    before: Seq<Seq<u8>>,
    unfinished_before: Option<(int, Seq<u8>)>,
    after: Seq<Seq<u8>>,
    unfinished_after: Option<(int, Seq<u8>)>,
)
    requires
        known <= so_far.len(),
        left_by(contents, unfinished, lba, count, so_far, before, unfinished_before),
        ({
            let w = whole_blocks(so_far.len() as int, count);
            &&& 0 <= w < count
            &&& (w + 1) * BLOCK_SIZE <= stream.len()
            &&& after.len() == before.len()
            &&& forall|j: int|
                0 <= j < before.len() && j != lba + w && !block::under_way(unfinished_before, j)
                    ==> #[trigger] after[j] == before[j]
            &&& unfinished_after is None || unfinished_after == unfinished_before
                || unfinished_after == Some(
                (lba + w, stream.subrange(w * BLOCK_SIZE, w * BLOCK_SIZE + BLOCK_SIZE)),
            )
        }),
        so_far.is_prefix_of(stream),
    ensures
        stopped_inside(contents, unfinished, lba, count, known, stream, after, unfinished_after),
{
    let w = whole_blocks(so_far.len() as int, count);
    assert forall|j: int|
        0 <= j < contents.len() && j != lba + w && (block::under_way(unfinished, j) ==> lba <= j
            < lba + w) implies #[trigger] after[j] == write_stream(contents, lba, w, stream)[j] by {
        assert(after[j] == before[j]);
        if lba <= j < lba + w {
            let at = (j - lba) * BLOCK_SIZE;
            assert(stream.subrange(at, at + BLOCK_SIZE) =~= so_far.subrange(at, at + BLOCK_SIZE));
        }
    }
    assert(stopped_at_block(
        contents,
        unfinished,
        lba,
        count,
        stream,
        after,
        unfinished_after,
        w,
    ));
}

/// The transfer of `len` bytes where `expected` were expected and `count` blocks to write.
pub open spec fn transfer_of(len: int, expected: int, count: int) -> WriteTransfer {
    let consumed = if len < expected {
        len
    } else {
        expected
    };
    WriteTransfer {
        written_bytes: (whole_blocks(consumed, count) * BLOCK_SIZE) as u32,
        consumed_bytes: consumed as u32,
        short_packet: len < expected,
        packet_overflow: len > expected,
    }
}

/// How many of the packets `incoming` a data phase takes that expects `expected` bytes: up to the
/// one that brings them, or that is short. Empty packets are passed over.
pub open spec fn data_packets(incoming: Seq<Seq<u8>>, expected: int) -> int
    decreases incoming.len(),
{
    if expected <= 0 || incoming.len() == 0 {
        0
    } else {
        let len = incoming[0].len() as int;
        if 0 < len && (len >= expected || len < USB_PACKET_SIZE) {
            1
        } else {
            1 + data_packets(incoming.drop_first(), expected - len)
        }
    }
}

/// How many of the packets `incoming` are thrown away: up to a short one, and at most `limit`,
/// where empty packets do not count.
pub open spec fn drained_packets(incoming: Seq<Seq<u8>>, limit: int) -> int
    decreases incoming.len(),
{
    if limit <= 0 || incoming.len() == 0 {
        0
    } else {
        let len = incoming[0].len() as int;
        if 0 < len < USB_PACKET_SIZE {
            1
        } else {
            1 + drained_packets(
                incoming.drop_first(),
                if len == 0 {
                    limit
                } else {
                    limit - 1
                },
            )
        }
    }
}

/// How many of the packets `incoming` a data phase takes in all: where more came than expected, it
/// throws away what follows.
pub open spec fn taken_packets(incoming: Seq<Seq<u8>>, expected: int) -> int {
    let n = data_packets(incoming, expected);
    if packets::joined(incoming.take(n)).len() > expected {
        n + drained_packets(incoming.skip(n), OVERFLOW_DRAIN_MAX_PACKETS as int)
    } else {
        n
    }
}

/// Where a bulk-OUT data phase stands.
#[derive(Copy, Clone, Debug, PartialEq, Eq, Structural)]
pub enum WritePhase {
    /// Data is expected.
    Receiving,
    /// More data came than was expected, and what follows is thrown away.
    Draining { drained: usize },
    /// No further packet is to be read.
    Finished,
}

/// The phase after a packet of `len` bytes, where `left` bytes are still expected.
pub open spec fn phase_after(phase: WritePhase, left: int, len: int) -> WritePhase {
    match phase {
        WritePhase::Receiving => if len == 0 {
            phase
        } else if len > left {
            WritePhase::Draining { drained: 0 }
        } else if len == left || len < USB_PACKET_SIZE {
            WritePhase::Finished
        } else {
            phase
        },
        WritePhase::Draining { drained } => if len == 0 {
            phase
        } else if len < USB_PACKET_SIZE || drained + 1 >= OVERFLOW_DRAIN_MAX_PACKETS {
            WritePhase::Finished
        } else {
            WritePhase::Draining { drained: (drained + 1) as usize }
        },
        WritePhase::Finished => phase,
    }
}

/// How long to wait for the next packet, and `None` where none is to be read.
pub open spec fn timeout_of(phase: WritePhase) -> Option<u64> {
    match phase {
        WritePhase::Receiving => Some(DATA_OUT_TIMEOUT_MS),
        WritePhase::Draining { .. } => Some(OVERFLOW_DRAIN_TIMEOUT_MS),
        WritePhase::Finished => None,
    }
}

/// Where a data phase stands that expects `expected` bytes and has read `packets`.
pub open spec fn phase_of(packets: Seq<Seq<u8>>, expected: int) -> WritePhase
    decreases packets.len(),
{
    if packets.len() == 0 {
        if expected == 0 {
            WritePhase::Finished
        } else {
            WritePhase::Receiving
        }
    } else {
        let before = packets.drop_last();
        phase_after(
            phase_of(before, expected),
            expected - packets::joined(before).len(),
            packets.last().len() as int,
        )
    }
}

/// How long the first `n` reads of a data phase wait that expects `expected` bytes and is sent
/// `incoming`.
pub open spec fn waits_of(incoming: Seq<Seq<u8>>, expected: int, n: int) -> Seq<u64> {
    Seq::new(n as nat, |i: int| timeout_of(phase_of(incoming.take(i), expected))->0)
}

/// The data phase of WRITE (10), packet by packet.
pub struct BlockWriter {
    lba: u32,
    block_count: u16,
    expected_length: u32,
    phase: WritePhase,
    consumed_bytes: u32,
    current_block: u16,
    block_buffer: [u8; BLOCK_SIZE],
    block_fill: usize,
    short_packet: bool,
    packet_overflow: bool,
    stream: Ghost<Seq<u8>>,
    base: Ghost<Seq<Seq<u8>>>,
    unfinished: Ghost<Option<(int, Seq<u8>)>>,
}

impl BlockWriter {
    /// The block that the writing starts at.
    pub closed spec fn lba(&self) -> int {
        self.lba as int
    }

    /// How many blocks there are to write.
    pub closed spec fn count(&self) -> int {
        self.block_count as int
    }

    /// How many bytes the host announced.
    pub closed spec fn expected(&self) -> int {
        self.expected_length as int
    }

    /// Where the data phase stands.
    pub closed spec fn at(&self) -> WritePhase {
        self.phase
    }

    /// The bytes that were taken so far.
    pub closed spec fn stream(&self) -> Seq<u8> {
        self.stream@
    }

    /// The blocks of the device before the data phase.
    pub closed spec fn base(&self) -> Seq<Seq<u8>> {
        self.base@
    }

    /// The write that was under way on the device before the data phase.
    pub closed spec fn unfinished(&self) -> Option<(int, Seq<u8>)> {
        self.unfinished@
    }

    /// Whether more bytes came than were expected.
    pub closed spec fn overflowed(&self) -> bool {
        self.packet_overflow
    }

    /// Whether the device is as the bytes taken so far leave it.
    pub open spec fn in_step<S: BlockStorage>(&self, storage: &S) -> bool {
        left_by(
            self.base(),
            self.unfinished(),
            self.lba(),
            self.count(),
            self.stream(),
            storage.contents(),
            storage.unfinished(),
        )
    }

    /// The buffer holds the bytes behind the last whole block.
    spec fn buffered(&self, stream: Seq<u8>) -> bool {
        &&& self.block_fill == stream.len() % BLOCK_SIZE as nat
        &&& self.block_buffer@.take(self.block_fill as int) == stream.skip(
            stream.len() - self.block_fill,
        )
        &&& self.current_block == whole_blocks(stream.len() as int, self.block_count as int)
    }

    /// What has to hold between packets.
    pub closed spec fn wf(&self) -> bool {
        &&& block_reader::blocks_inside(self.lba as int, self.block_count as int, u32::MAX as int)
        &&& self.stream@.len() == self.consumed_bytes
        &&& self.consumed_bytes <= self.expected_length
        &&& self.buffered(self.stream@)
        &&& self.packet_overflow ==> self.consumed_bytes == self.expected_length
        &&& match self.phase {
            WritePhase::Receiving => {
                &&& self.consumed_bytes < self.expected_length
                &&& !self.short_packet
            },
            WritePhase::Draining { drained } => {
                &&& self.packet_overflow
                &&& !self.short_packet
                &&& drained < OVERFLOW_DRAIN_MAX_PACKETS
            },
            WritePhase::Finished => self.short_packet == (self.consumed_bytes
                < self.expected_length),
        }
    }

    /// The start of a data phase that writes `block_count` blocks from `lba` on, for a host that
    /// announces `expected_length` bytes.
    pub fn new<S: BlockStorage>(storage: &S, lba: u32, block_count: u16, expected_length: u32) -> (
    writer: Self)
        requires
            block_reader::blocks_inside(lba as int, block_count as int, u32::MAX as int),
        ensures
            writer.wf(),
            writer.lba() == lba,
            writer.count() == block_count,
            writer.expected() == expected_length,
            writer.stream().len() == 0,
            writer.base() == storage.contents(),
            writer.unfinished() == storage.unfinished(),
            writer.in_step(storage),
            !writer.overflowed(),
            writer.at() == if expected_length == 0 {
                WritePhase::Finished
            } else {
                WritePhase::Receiving
            },
    {
        let phase = if expected_length == 0 {
            WritePhase::Finished
        } else {
            WritePhase::Receiving
        };
        let writer = BlockWriter {
            lba,
            block_count,
            expected_length,
            phase,
            consumed_bytes: 0,
            current_block: 0,
            block_buffer: [0u8; BLOCK_SIZE],
            block_fill: 0,
            short_packet: false,
            packet_overflow: false,
            stream: Ghost(Seq::empty()),
            base: Ghost(storage.contents()),
            unfinished: Ghost(storage.unfinished()),
        };
        proof {
            assert(writer.block_buffer@.take(0) =~= Seq::<u8>::empty().skip(0));
            assert(write_stream(
                storage.contents(),
                lba as int,
                block_count as int,
                Seq::empty(),
            ) =~= storage.contents());
        }
        writer
    }

    /// How long to wait for the next packet, and `None` where none is to be read.
    pub fn timeout_ms(&self) -> (timeout: Option<u64>)
        ensures
            timeout == timeout_of(self.at()),
    {
        match self.phase {
            WritePhase::Receiving => Some(DATA_OUT_TIMEOUT_MS),
            WritePhase::Draining { .. } => Some(OVERFLOW_DRAIN_TIMEOUT_MS),
            WritePhase::Finished => None,
        }
    }

    /// Takes note that no packet came in time.
    pub fn timed_out(&mut self)
        requires
            old(self).wf(),
        ensures
            final(self).wf(),
            final(self).at() == WritePhase::Finished,
            final(self).same_target(old(self)),
            final(self).stream() == old(self).stream(),
            final(self).overflowed() == old(self).overflowed(),
    {
        if let WritePhase::Receiving = self.phase {
            self.short_packet = true;
        }
        self.phase = WritePhase::Finished;
    }

    /// Whether two writers serve the same request.
    pub open spec fn same_target(&self, other: &Self) -> bool {
        &&& self.lba() == other.lba()
        &&& self.count() == other.count()
        &&& self.expected() == other.expected()
        &&& self.base() == other.base()
        &&& self.unfinished() == other.unfinished()
    }

    /// Takes `data` into the blocks: each block that it fills is written, as long as there are
    /// blocks to write.
    #[verifier::rlimit(30)]
    fn take_data<S: BlockStorage>(&mut self, storage: &mut S, data: &[u8]) -> (r: Result<
        (),
        StorageError,
    >)
        requires
            old(self).wf(),
            old(self).consumed_bytes + data@.len() <= old(self).expected_length,
            old(storage).wf(),
            old(self).in_step(old(storage)),
            block_reader::blocks_inside(
                old(self).lba(),
                old(self).count(),
                old(storage).contents().len() as int,
            ),
        ensures
            final(storage).wf(),
            final(storage).contents().len() == old(storage).contents().len(),
            final(storage).ready() == old(storage).ready(),
            final(storage).write_protected() == old(storage).write_protected(),
            old(storage).healthy() ==> final(storage).healthy(),
            error::error_logged(old(storage).errors(), final(storage).errors(), r),
            old(storage).ready() && !old(storage).write_protected() && old(storage).healthy()
                ==> r is Ok,
            final(self).same_target(old(self)),
            final(self).phase == old(self).phase,
            final(self).short_packet == old(self).short_packet,
            final(self).packet_overflow == old(self).packet_overflow,
            final(self).expected_length == old(self).expected_length,
            final(self).block_count == old(self).block_count,
            final(self).lba == old(self).lba,
            r is Ok ==> {
                &&& final(self).stream() == old(self).stream() + data@
                &&& final(self).consumed_bytes == old(self).consumed_bytes + data@.len()
                &&& final(self).buffered(final(self).stream@)
                &&& final(self).in_step(final(storage))
            },
            r is Err ==> stopped_inside(
                old(self).base(),
                old(self).unfinished(),
                old(self).lba(),
                old(self).count(),
                old(self).stream().len() as int,
                old(self).stream() + data@,
                final(storage).contents(),
                final(storage).unfinished(),
            ),
    {
        let ghost before = self.stream@;
        let mut offset: usize = 0;
        assert(before + data@.take(0) =~= before);
        while offset < data.len()
            invariant
                offset <= data@.len(),
                before == old(self).stream@,
                self.stream@ == before + data@.take(offset as int),
                self.consumed_bytes == old(self).consumed_bytes,
                before.len() == old(self).consumed_bytes,
                self.buffered(self.stream@),
                self.in_step(storage),
                self.same_target(old(self)),
                self.phase == old(self).phase,
                self.short_packet == old(self).short_packet,
                self.packet_overflow == old(self).packet_overflow,
                self.expected_length == old(self).expected_length,
                self.block_count == old(self).block_count,
                self.lba == old(self).lba,
                block_reader::blocks_inside(self.lba as int, self.block_count as int, u32::MAX as int),
                block_reader::blocks_inside(
                    self.lba as int,
                    self.block_count as int,
                    storage.contents().len() as int,
                ),
                storage.wf(),
                storage.contents().len() == old(storage).contents().len(),
                storage.ready() == old(storage).ready(),
                storage.write_protected() == old(storage).write_protected(),
                old(storage).healthy() ==> storage.healthy(),
                storage.errors() == old(storage).errors(),
                self.base().len() == storage.contents().len(),
            decreases data@.len() - offset,
        {
            let room = BLOCK_SIZE - self.block_fill;
            let copy_len = if room < data.len() - offset {
                room
            } else {
                data.len() - offset
            };
            let ghost so_far = self.stream@;
            let chunk = vstd::slice::slice_subrange(data, offset, offset + copy_len);
            let ghost grown = so_far + chunk@;
            let ghost blocks = storage.contents();
            let ghost pending = storage.unfinished();
            proof {
                assert(before + data@.take(offset + copy_len) =~= grown);
                lemma_write_stream_grows(self.base(), self.lba(), self.count(), so_far, chunk@);
            }
            let ghost kept = self.block_buffer@.take(self.block_fill as int);
            bytes::put(&mut self.block_buffer, self.block_fill, chunk);
            assert(self.block_buffer@.take(self.block_fill as int) =~= kept);
            assert(self.block_buffer@.take(self.block_fill + copy_len) =~= kept + chunk@);
            assert(grown.skip(grown.len() - (self.block_fill + copy_len)) =~= kept + chunk@);
            self.block_fill = self.block_fill + copy_len;
            self.stream = Ghost(grown);
            offset = offset + copy_len;
            if self.block_fill == BLOCK_SIZE {
                assert(self.block_buffer@ =~= self.block_buffer@.take(BLOCK_SIZE as int));
                if self.current_block < self.block_count {
                    if let Err(error) = storage.write_block(
                        self.lba + self.current_block as u32,
                        &self.block_buffer,
                    ) {
                        proof {
                            assert(grown.is_prefix_of(before + data@));
                            lemma_filled_block(grown, before + data@, self.current_block as int);
                            lemma_stopped_inside(
                                self.base(),
                                self.unfinished(),
                                self.lba(),
                                self.count(),
                                before.len() as int,
                                so_far,
                                before + data@,
                                blocks,
                                pending,
                                storage.contents(),
                                storage.unfinished(),
                            );
                        }
                        return Err(error);
                    }
                    self.current_block = self.current_block + 1;
                }
                self.block_fill = 0;
                assert(self.block_buffer@.take(0) =~= grown.skip(grown.len() as int));
            }
            proof {
                lemma_left_by_grows(
                    self.base(),
                    self.unfinished(),
                    self.lba(),
                    self.count(),
                    so_far,
                    chunk@,
                    blocks,
                    pending,
                    storage.contents(),
                    storage.unfinished(),
                );
            }
        }
        assert(data@.take(offset as int) =~= data@);
        self.consumed_bytes = self.consumed_bytes + data.len() as u32;
        Ok(())
    }

    /// Takes one packet. Where a block cannot be written, the data phase is over.
    pub fn accept_packet<S: BlockStorage>(&mut self, storage: &mut S, packet: &[u8]) -> (r: Result<
        (),
        StorageError,
    >)
        requires
            old(self).wf(),
            old(storage).wf(),
            old(self).in_step(old(storage)),
            block_reader::blocks_inside(
                old(self).lba(),
                old(self).count(),
                old(storage).contents().len() as int,
            ),
        ensures
            final(storage).wf(),
            final(storage).contents().len() == old(storage).contents().len(),
            final(storage).ready() == old(storage).ready(),
            final(storage).write_protected() == old(storage).write_protected(),
            old(storage).healthy() ==> final(storage).healthy(),
            error::error_logged(old(storage).errors(), final(storage).errors(), r),
            old(storage).ready() && !old(storage).write_protected() && old(storage).healthy()
                ==> r is Ok,
            final(self).same_target(old(self)),
            r is Ok ==> {
                let left = old(self).expected() - old(self).stream().len();
                &&& final(self).wf()
                &&& final(self).in_step(final(storage))
                &&& final(self).at() == phase_after(old(self).at(), left, packet@.len() as int)
                &&& final(self).stream() == if old(self).at() == WritePhase::Receiving {
                    old(self).stream() + packets::clipped(packet@, left)
                } else {
                    old(self).stream()
                }
                &&& final(self).overflowed() == (old(self).overflowed() || (old(self).at()
                    == WritePhase::Receiving && packet@.len() > left))
            },
            r is Err ==> old(self).at() == WritePhase::Receiving,
            r is Err ==> stopped_inside(
                old(self).base(),
                old(self).unfinished(),
                old(self).lba(),
                old(self).count(),
                old(self).stream().len() as int,
                old(self).stream() + packets::clipped(
                    packet@,
                    old(self).expected() - old(self).stream().len(),
                ),
                final(storage).contents(),
                final(storage).unfinished(),
            ),
    {
        match self.phase {
            WritePhase::Receiving => {
                if packet.len() == 0 {
                    assert(self.stream() + packet@ =~= self.stream());
                    return Ok(());
                }
                let left = (self.expected_length - self.consumed_bytes) as usize;
                let usable = if packet.len() < left {
                    packet.len()
                } else {
                    left
                };
                let data = vstd::slice::slice_subrange(packet, 0, usable);
                assert(data@ =~= packets::clipped(packet@, left as int));
                if let Err(error) = self.take_data(storage, data) {
                    return Err(error);
                }
                if packet.len() > left {
                    self.packet_overflow = true;
                    self.phase = WritePhase::Draining { drained: 0 };
                } else if packet.len() == left {
                    self.phase = WritePhase::Finished;
                } else if packet.len() < USB_PACKET_SIZE {
                    self.short_packet = true;
                    self.phase = WritePhase::Finished;
                }
                Ok(())
            },
            WritePhase::Draining { drained } => {
                if packet.len() > 0 {
                    if packet.len() < USB_PACKET_SIZE || drained + 1 >= OVERFLOW_DRAIN_MAX_PACKETS {
                        self.phase = WritePhase::Finished;
                    } else {
                        self.phase = WritePhase::Draining { drained: drained + 1 };
                    }
                }
                Ok(())
            },
            WritePhase::Finished => Ok(()),
        }
    }

    /// How the data phase went.
    pub fn summary(&self) -> (transfer: WriteTransfer)
        requires
            self.wf(),
            self.at() == WritePhase::Finished,
        ensures
            transfer == (WriteTransfer {
                written_bytes: (whole_blocks(self.stream().len() as int, self.count())
                    * BLOCK_SIZE) as u32,
                consumed_bytes: self.stream().len() as u32,
                short_packet: self.stream().len() < self.expected(),
                packet_overflow: self.overflowed(),
            }),
    {
        WriteTransfer {
            written_bytes: self.current_block as u32 * BLOCK_SIZE as u32,
            consumed_bytes: self.consumed_bytes,
            short_packet: self.short_packet,
            packet_overflow: self.packet_overflow,
        }
    }
}

/// A writer has never taken more than the host announced, and waits for data only where some is missing.
pub proof fn writer_takes_no_more_than_announced(writer: BlockWriter)
    requires
        writer.wf(),
    ensures
        writer.stream().len() <= writer.expected() <= u32::MAX,
        writer.at() == WritePhase::Receiving ==> writer.stream().len() < writer.expected(),
        writer.overflowed() ==> writer.stream().len() == writer.expected(),
        0 <= writer.count() <= u16::MAX,
{
}

/// Where a data phase stands that has read the first `j` packets of `incoming`.
spec fn at_packet(
    writer: &BlockWriter,
    incoming: Seq<Seq<u8>>,
    j: int,
    healthy: bool,
) -> bool {
    let stream = packets::joined(incoming.take(j));
    let expected = writer.expected();
    &&& writer.stream() == packets::clipped(stream, expected)
    &&& writer.overflowed() == (stream.len() > expected)
    &&& match writer.at() {
        WritePhase::Receiving => {
            &&& stream.len() < expected
            &&& data_packets(incoming, expected) == j + data_packets(
                incoming.skip(j),
                expected - stream.len(),
            )
        },
        WritePhase::Draining { drained } => {
            let d = data_packets(incoming, expected);
            &&& stream.len() > expected
            &&& 0 <= d <= j
            &&& packets::joined(incoming.take(d)).len() > expected
            &&& drained_packets(incoming.skip(d), OVERFLOW_DRAIN_MAX_PACKETS as int) == j - d
                + drained_packets(incoming.skip(j), OVERFLOW_DRAIN_MAX_PACKETS - drained)
        },
        WritePhase::Finished => {
            &&& j <= taken_packets(incoming, expected)
            &&& healthy ==> j == taken_packets(incoming, expected)
        },
    }
}

/// A data phase does not take a negative number of packets.
proof fn lemma_counts(incoming: Seq<Seq<u8>>, expected: int, limit: int)
    ensures
        data_packets(incoming, expected) >= 0,
        drained_packets(incoming, limit) >= 0,
    decreases incoming.len(),
{
    if incoming.len() > 0 {
        let len = incoming[0].len() as int;
        lemma_counts(
            incoming.drop_first(),
            expected - len,
            if len == 0 {
                limit
            } else {
                limit - 1
            },
        );
    }
}

/// A data phase that is not over has read no more packets than it takes, and takes the next one.
proof fn lemma_inside(writer: &BlockWriter, incoming: Seq<Seq<u8>>, j: int, healthy: bool)
    requires
        writer.wf(),
        0 <= j <= incoming.len(),
        writer.at() != WritePhase::Finished,
        at_packet(writer, incoming, j, healthy),
    ensures
        j <= taken_packets(incoming, writer.expected()),
        j < incoming.len() ==> j < taken_packets(incoming, writer.expected()),
        j == incoming.len() ==> j == taken_packets(incoming, writer.expected()),
{
    let expected = writer.expected();
    let d = data_packets(incoming, expected);
    let left = expected - packets::joined(incoming.take(j)).len();
    let next = incoming.skip(j);
    lemma_counts(next, left, 0);
    lemma_counts(incoming.skip(d), 0, OVERFLOW_DRAIN_MAX_PACKETS as int);
    if j < incoming.len() {
        lemma_counts(next.drop_first(), left - next[0].len(), 0);
    }
    if let WritePhase::Draining { drained } = writer.at() {
        let limit = OVERFLOW_DRAIN_MAX_PACKETS - drained;
        lemma_counts(next, 0, limit);
        if j < incoming.len() {
            lemma_counts(next.drop_first(), 0, limit);
            lemma_counts(next.drop_first(), 0, limit - 1);
        }
    }
}

/// One more packet brings the data phase to the next packet.
proof fn lemma_at_next_packet(
    before: &BlockWriter,
    after: &BlockWriter,
    incoming: Seq<Seq<u8>>,
    j: int,
    healthy: bool,
)
    requires
        before.wf(),
        0 <= j < incoming.len(),
        before.at() != WritePhase::Finished,
        at_packet(before, incoming, j, healthy),
        after.expected() == before.expected(),
        ({
            let left = before.expected() - before.stream().len();
            &&& after.at() == phase_after(before.at(), left, incoming[j].len() as int)
            &&& after.stream() == if before.at() == WritePhase::Receiving {
                before.stream() + packets::clipped(incoming[j], left)
            } else {
                before.stream()
            }
            &&& after.overflowed() == (before.overflowed() || (before.at() == WritePhase::Receiving
                && incoming[j].len() > left))
        }),
    ensures
        at_packet(after, incoming, j + 1, healthy),
        before.at() == phase_of(incoming.take(j), before.expected()) ==> after.at() == phase_of(
            incoming.take(j + 1),
            before.expected(),
        ),
{
    let expected = before.expected();
    let packet = incoming[j];
    let stream = packets::joined(incoming.take(j));
    let grown = packets::joined(incoming.take(j + 1));
    assert(incoming.take(j + 1) =~= incoming.take(j).push(packet));
    assert(incoming.take(j + 1).drop_last() =~= incoming.take(j));
    packets::lemma_joined_push(incoming.take(j), packet);
    assert(incoming.skip(j)[0] == packet);
    assert(incoming.skip(j).drop_first() =~= incoming.skip(j + 1));
    assert(after.stream() =~= packets::clipped(grown, expected));
    match before.at() {
        WritePhase::Receiving => {
            let left = expected - stream.len();
            assert(before.stream() == stream);
            if packet.len() == 0 {
                assert(data_packets(incoming.skip(j), left) == 1 + data_packets(
                    incoming.skip(j + 1),
                    left,
                ));
            } else if packet.len() >= left || packet.len() < USB_PACKET_SIZE {
                assert(data_packets(incoming.skip(j), left) == 1);
                assert(data_packets(incoming, expected) == j + 1);
            }
        },
        WritePhase::Draining { drained } => {
            let limit = OVERFLOW_DRAIN_MAX_PACKETS - drained;
            assert(limit > 0);
            assert(drained_packets(incoming.skip(j + 1), 0) == 0);
            if packet.len() == 0 {
                assert(drained_packets(incoming.skip(j), limit) == 1 + drained_packets(
                    incoming.skip(j + 1),
                    limit,
                ));
            } else if packet.len() < USB_PACKET_SIZE {
                assert(drained_packets(incoming.skip(j), limit) == 1);
            } else {
                assert(drained_packets(incoming.skip(j), limit) == 1 + drained_packets(
                    incoming.skip(j + 1),
                    limit - 1,
                ));
            }
        },
        WritePhase::Finished => {},
    }
}

/// Takes the packets of a bulk-OUT data phase, and writes the blocks that they fill from `lba` on,
/// `block_count` of them at most.
pub fn write_blocks<OUT: DataEndpoint, S: BlockStorage>(
    storage: &mut S,
    out_ep: &mut OUT,
    lba: u32,
    block_count: u16,
    expected_length: u32,
) -> (r: Result<WriteTransfer, TransferError>)
    requires
        old(storage).wf(),
        block_reader::blocks_inside(
            lba as int,
            block_count as int,
            old(storage).contents().len() as int,
        ),
        block_reader::blocks_inside(lba as int, block_count as int, u32::MAX as int),
    ensures
        final(storage).wf(),
        final(storage).contents().len() == old(storage).contents().len(),
        final(storage).ready() == old(storage).ready(),
        final(storage).write_protected() == old(storage).write_protected(),
        old(storage).healthy() ==> final(storage).healthy(),
        final(out_ep).sent() == old(out_ep).sent(),
        old(out_ep).healthy() ==> final(out_ep).healthy(),
        old(storage).ready() && !old(storage).write_protected() && old(storage).healthy() ==> !(
        r matches Err(TransferError::Storage(_))),
        written_by(
            old(storage),
            old(out_ep),
            lba as int,
            block_count as int,
            expected_length as int,
            final(storage),
            final(out_ep),
            r,
        ),
{
    let mut writer = BlockWriter::new(storage, lba, block_count, expected_length);
    let mut packet = [0u8; USB_PACKET_SIZE];
    let ghost incoming = out_ep.incoming();
    let ghost mut j: int = 0;
    let ghost mut asked: int = 0;
    proof {
        assert(out_ep.waits() + waits_of(incoming, expected_length as int, 0) =~= out_ep.waits());
        assert(incoming.take(0) =~= Seq::empty());
        assert(incoming.skip(0) =~= incoming);
        assert(out_ep.received() + incoming.take(0) =~= out_ep.received());
        assert(writer.stream() =~= Seq::empty());
        assert(packets::clipped(Seq::<u8>::empty(), expected_length as int) =~= Seq::empty());
    }
    loop
        invariant
            writer.wf(),
            writer.lba() == lba,
            writer.count() == block_count,
            writer.expected() == expected_length,
            writer.base() == old(storage).contents(),
            writer.unfinished() == old(storage).unfinished(),
            writer.in_step(storage),
            packet@.len() == USB_PACKET_SIZE,
            storage.wf(),
            storage.contents().len() == old(storage).contents().len(),
            storage.ready() == old(storage).ready(),
            storage.write_protected() == old(storage).write_protected(),
            old(storage).healthy() ==> storage.healthy(),
            storage.errors() == old(storage).errors(),
            block_reader::blocks_inside(
                lba as int,
                block_count as int,
                storage.contents().len() as int,
            ),
            incoming == old(out_ep).incoming(),
            0 <= j <= incoming.len(),
            out_ep.incoming() == incoming.skip(j),
            out_ep.received() == old(out_ep).received() + incoming.take(j),
            out_ep.sent() == old(out_ep).sent(),
            out_ep.errors() == old(out_ep).errors(),
            old(out_ep).healthy() ==> out_ep.healthy(),
            at_packet(&writer, incoming, j, old(out_ep).healthy()),
            out_ep.waits() == old(out_ep).waits() + waits_of(
                incoming,
                expected_length as int,
                asked,
            ),
            asked == j || asked == j + 1,
            forall|i: int|
                0 <= i < asked ==> #[trigger] phase_of(incoming.take(i), expected_length as int)
                    != WritePhase::Finished,
            asked == j + 1 && old(out_ep).healthy() ==> j == incoming.len(),
            asked == j ==> writer.at() == phase_of(incoming.take(j), expected_length as int),
            asked == j + 1 ==> writer.at() == WritePhase::Finished && phase_of(
                incoming.take(j),
                expected_length as int,
            ) != WritePhase::Finished,
        decreases
            incoming.len() - j,
            if writer.at() == WritePhase::Finished {
                0int
            } else {
                1int
            },
    {
        let timeout_ms = match writer.timeout_ms() {
            Some(timeout_ms) => timeout_ms,
            None => {
                return Ok(writer.summary());
            },
        };
        proof {
            let waits = waits_of(incoming, expected_length as int, asked);
            assert(waits_of(incoming, expected_length as int, asked + 1) =~= waits.push(timeout_ms));
            assert(old(out_ep).waits() + waits.push(timeout_ms) =~= (old(out_ep).waits()
                + waits).push(timeout_ms));
            asked = asked + 1;
        }
        match out_ep.endpoint_read(&mut packet, timeout_ms) {
            Ok(Some(packet_len)) => {
                let taken = vstd::slice::slice_subrange(packet.as_slice(), 0, packet_len);
                let ghost before = writer;
                proof {
                    assert(taken@ =~= packet@.take(packet_len as int));
                    assert(incoming.skip(j)[0] == incoming[j]);
                    assert(incoming.skip(j).drop_first() =~= incoming.skip(j + 1));
                    assert(incoming.take(j + 1) =~= incoming.take(j).push(incoming[j]));
                    assert(old(out_ep).received() + incoming.take(j + 1) =~= (old(out_ep).received() + incoming.take(j)).push(incoming[j]));
                    packets::lemma_joined_push(incoming.take(j), incoming[j]);
                    lemma_inside(&writer, incoming, j, old(out_ep).healthy());
                }
                if let Err(error) = writer.accept_packet(storage, taken) {
                    proof {
                        let so_far = packets::joined(incoming.take(j));
                        let left = expected_length - so_far.len();
                        assert(so_far + packets::clipped(incoming[j], left) =~= packets::clipped(
                            packets::joined(incoming.take(j + 1)),
                            expected_length as int,
                        ));
                    }
                    return Err(TransferError::Storage(error));
                }
                proof {
                    lemma_at_next_packet(&before, &writer, incoming, j, old(out_ep).healthy());
                    j = j + 1;
                }
            },
            Ok(None) => {
                proof {
                    lemma_inside(&writer, incoming, j, old(out_ep).healthy());
                }
                writer.timed_out();
            },
            Err(error) => {
                proof {
                    lemma_inside(&writer, incoming, j, old(out_ep).healthy());
                }
                return Err(TransferError::Endpoint(error));
            },
        }
    }
}

/// What `write_blocks` did: which packets it read, what they brought, and what became of it.
pub open spec fn written_by<OUT: DataEndpoint, S: BlockStorage>(
    storage: &S,
    out_ep: &OUT,
    lba: int,
    count: int,
    expected: int,
    storage_after: &S,
    out_ep_after: &OUT,
    r: Result<WriteTransfer, TransferError>,
) -> bool {
    let incoming = out_ep.incoming();
    let n = out_ep_after.received().len() - out_ep.received().len();
    let stream = packets::joined(incoming.take(n));
    let asked = out_ep_after.waits().len() - out_ep.waits().len();
    let phase = phase_of(incoming.take(n), expected);
    &&& 0 <= n <= incoming.len()
    &&& out_ep_after.waits() == out_ep.waits() + waits_of(incoming, expected, asked)
    &&& n <= taken_packets(incoming, expected)
    &&& forall|i: int|
        0 <= i < asked ==> #[trigger] phase_of(incoming.take(i), expected) != WritePhase::Finished
    &&& out_ep_after.received() == out_ep.received() + incoming.take(n)
    &&& match r {
        Ok(transfer) => {
            &&& transfer == transfer_of(stream.len() as int, expected, count)
            &&& asked == if phase == WritePhase::Finished {
                n
            } else {
                n + 1
            }
            &&& out_ep_after.incoming() == incoming.skip(n)
            &&& storage_after.errors() == storage.errors()
            &&& out_ep_after.errors() == out_ep.errors()
            &&& out_ep.healthy() ==> n == taken_packets(incoming, expected)
            &&& out_ep.healthy() && phase != WritePhase::Finished ==> n == incoming.len()
            &&& left_by(
                storage.contents(),
                storage.unfinished(),
                lba,
                count,
                packets::clipped(stream, expected),
                storage_after.contents(),
                storage_after.unfinished(),
            )
        },
        Err(TransferError::Storage(e)) => {
            &&& out_ep_after.incoming() == incoming.skip(n)
            &&& storage_after.errors() == storage.errors().push(e)
            &&& out_ep_after.errors() == out_ep.errors()
            &&& n > 0
            &&& asked == n
            &&& stopped_inside(
                storage.contents(),
                storage.unfinished(),
                lba,
                count,
                packets::joined(incoming.take(n - 1)).len() as int,
                packets::clipped(stream, expected),
                storage_after.contents(),
                storage_after.unfinished(),
            )
        },
        Err(TransferError::Endpoint(e)) => {
            &&& phase != WritePhase::Finished
            &&& asked == n + 1
            &&& storage_after.errors() == storage.errors()
            &&& out_ep_after.errors() == out_ep.errors().push(e)
            &&& out_ep.healthy() ==> n < taken_packets(incoming, expected) && incoming[n].len()
                > USB_PACKET_SIZE
            &&& left_by(
                storage.contents(),
                storage.unfinished(),
                lba,
                count,
                packets::clipped(stream, expected),
                storage_after.contents(),
                storage_after.unfinished(),
            )
        },
    }
}

} // verus!
