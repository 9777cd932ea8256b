//! The data phase of READ (10): blocks to packets.

use vstd::prelude::*;
use crate::storage::block::BlockStorage;
use crate::storage::error::{self, StorageError};
use crate::usb::bot::{self, DataEndpoint, EndpointError};
use crate::usb::constants::{BLOCK_SIZE, USB_PACKET_SIZE};
use crate::usb::packets::{self, PacketCursor};

verus! {

/// Why a data phase ended early.
#[derive(Copy, Clone, Debug, PartialEq, Eq, Structural)]
pub enum TransferError {
    Endpoint(EndpointError),
    Storage(StorageError),
}

/// The bytes of `count` blocks from block `lba` on.
pub open spec fn blocks_payload(contents: Seq<Seq<u8>>, lba: int, count: int) -> Seq<u8> {
    Seq::new(
        (count * BLOCK_SIZE) as nat,
        |i: int| contents[lba + i / BLOCK_SIZE as int][i % BLOCK_SIZE as int],
    )
}

/// Whether `count` blocks from `lba` on lie inside a device of `total` blocks. No block lies inside
/// any.
pub open spec fn blocks_inside(lba: int, count: int, total: int) -> bool {
    count == 0 || lba + count <= total
}

/// The packets that one block takes.
pub const PACKETS_PER_BLOCK: usize = 8;

/// `after` is `before` with those of `packets` behind it that come before block `b`.
pub open spec fn sent_before_block(
    before: Seq<Seq<u8>>,
    packets: Seq<Seq<u8>>,
    b: int,
    after: Seq<Seq<u8>>,
) -> bool {
    &&& b * PACKETS_PER_BLOCK <= packets.len()
    &&& after == before + packets.take(b * PACKETS_PER_BLOCK)
}

/// The data phase of READ (10), packet by packet.
pub struct BlockReader {
    lba: u32,
    block_count: u16,
    expected_length: u32,
    cursor: PacketCursor,
    buffer: [u8; BLOCK_SIZE],
}

impl BlockReader {
    /// The block that the reading starts at.
    pub closed spec fn lba(&self) -> int {
        self.lba as int
    }

    /// How many blocks there are to read.
    pub closed spec fn count(&self) -> int {
        self.block_count as int
    }

    /// The bytes that are to be sent.
    pub closed spec fn total(&self) -> int {
        self.cursor.total()
    }

    /// The bytes in the packets that were handed out.
    pub closed spec fn offset(&self) -> int {
        self.cursor.offset()
    }

    /// Everything that is to be sent of `contents`.
    pub closed spec fn payload(&self, contents: Seq<Seq<u8>>) -> Seq<u8> {
        packets::clipped(
            blocks_payload(contents, self.lba as int, self.block_count as int),
            self.expected_length as int,
        )
    }

    /// The packets that are still to be sent of `contents`.
    pub closed spec fn remaining(&self, contents: Seq<Seq<u8>>) -> Seq<Seq<u8>> {
        self.cursor.remaining(self.payload(contents))
    }

    /// Whether the position fits the length.
    pub closed spec fn wf(&self) -> bool {
        &&& blocks_inside(self.lba as int, self.block_count as int, u32::MAX as int)
        &&& self.cursor.wf()
        &&& self.cursor.total() == if self.block_count * BLOCK_SIZE <= self.expected_length {
            self.block_count * BLOCK_SIZE
        } else {
            self.expected_length as int
        }
        &&& 0 <= self.cursor.offset() <= self.cursor.total()
        &&& self.cursor.offset() % USB_PACKET_SIZE as int == 0 || self.cursor.offset()
            == self.cursor.total()
    }

    /// Whether the block that is being sent is the one in `contents`.
    pub closed spec fn holds(&self, contents: Seq<Seq<u8>>) -> bool {
        self.cursor.offset() % BLOCK_SIZE as int != 0 && self.cursor.offset() < self.cursor.total()
            ==> self.buffer@ == contents[self.lba + self.cursor.offset() / BLOCK_SIZE as int]
    }

    /// The packet with the bounds that `next_packet` gave.
    pub closed spec fn slice(&self, start: int, end: int) -> Seq<u8> {
        self.buffer@.subrange(start, end)
    }

    /// The start of a data phase that sends `block_count` blocks from `lba` on to a host that
    /// expects `expected_length` bytes.
    pub fn new(lba: u32, block_count: u16, expected_length: u32, expects_in: bool) -> (reader: Self)
        requires
            blocks_inside(lba as int, block_count as int, u32::MAX as int),
        ensures
            reader.wf(),
            reader.lba() == lba,
            reader.count() == block_count,
            reader.offset() == 0,
            reader.total() == if block_count * BLOCK_SIZE <= expected_length {
                block_count * BLOCK_SIZE
            } else {
                expected_length as int
            },
            forall|contents: Seq<Seq<u8>>| #[trigger] reader.holds(contents),
            forall|contents: Seq<Seq<u8>>| #[trigger]
                reader.remaining(contents) == packets::in_packets(
                    blocks_payload(contents, lba as int, block_count as int),
                    expected_length as int,
                    expects_in,
                ),
    {
        let cursor = PacketCursor::new(
            block_count as usize * BLOCK_SIZE,
            expected_length,
            expects_in,
        );
        let reader = BlockReader {
            lba,
            block_count,
            expected_length,
            cursor,
            buffer: [0u8; BLOCK_SIZE],
        };
        proof {
            assert forall|contents: Seq<Seq<u8>>| #[trigger]
                reader.remaining(contents) == packets::in_packets(
                    blocks_payload(contents, lba as int, block_count as int),
                    expected_length as int,
                    expects_in,
                ) by {
                let data = blocks_payload(contents, lba as int, block_count as int);
                assert(cursor.remaining(packets::clipped(data, expected_length as int))
                    == packets::in_packets(data, expected_length as int, expects_in));
            }
        }
        reader
    }

    /// The bytes that are to be sent.
    pub fn len(&self) -> (len: u32)
        requires
            self.wf(),
        ensures
            len == self.total(),
    {
        self.cursor.len() as u32
    }

    /// Gives the bounds of the next packet, reading a block where one starts, and `None` behind the
    /// last packet.
    pub fn next_packet<S: BlockStorage>(&mut self, storage: &mut S) -> (r: Result<
        Option<(usize, usize)>,
        StorageError,
    >)
        requires
            old(self).wf(),
            old(storage).wf(),
            blocks_inside(old(self).lba(), old(self).count(), old(storage).contents().len() as int),
            old(self).holds(old(storage).contents()),
        ensures
            final(self).wf(),
            final(self).lba() == old(self).lba(),
            final(self).count() == old(self).count(),
            final(self).total() == old(self).total(),
            final(storage).wf(),
            final(storage).contents() == old(storage).contents(),
            final(storage).ready() == old(storage).ready(),
            final(storage).write_protected() == old(storage).write_protected(),
            final(storage).unfinished() == old(storage).unfinished(),
            old(storage).healthy() ==> final(storage).healthy(),
            error::error_logged(old(storage).errors(), final(storage).errors(), r),
            old(storage).ready() && old(storage).healthy() ==> r is Ok,
            match r {
                Ok(Some((start, end))) => {
                    &&& start <= end <= BLOCK_SIZE
                    &&& final(self).offset() == if old(self).offset() + USB_PACKET_SIZE
                        < old(self).total() {
                        old(self).offset() + USB_PACKET_SIZE
                    } else {
                        old(self).total()
                    }
                    &&& final(self).holds(old(storage).contents())
                    &&& old(self).remaining(old(storage).contents()) == seq![
                        final(self).slice(start as int, end as int),
                    ] + final(self).remaining(old(storage).contents())
                },
                Ok(None) => old(self).remaining(old(storage).contents()).len() == 0,
                Err(_) => {
                    &&& old(self).offset() < old(self).total()
                    &&& old(self).offset() % BLOCK_SIZE as int == 0
                },
            },
    {
        let ghost contents = storage.contents();
        let ghost data = self.payload(contents);
        match self.cursor.next_packet() {
            Some((start, end)) => {
                assert(old(self).cursor.remaining(data) == seq![
                    data.subrange(start as int, end as int),
                ] + self.cursor.remaining(data));
                let in_block = start % BLOCK_SIZE;
                if start == end {
                    assert(data.subrange(start as int, end as int) =~= self.slice(0, 0));
                    return Ok(Some((0, 0)));
                }
                if in_block == 0 {
                    let block = self.lba + (start / BLOCK_SIZE) as u32;
                    if let Err(error) = storage.read_block(block, &mut self.buffer) {
                        return Err(error);
                    }
                }
                proof {
                    assert(self.buffer@ == contents[self.lba + start as int / BLOCK_SIZE as int]);
                    assert forall|i: int| start <= i < end implies i / BLOCK_SIZE as int
                        == start as int / BLOCK_SIZE as int && #[trigger] (i % BLOCK_SIZE as int)
                        == in_block + (i - start) by {}
                    assert(data.subrange(start as int, end as int) =~= self.slice(
                        in_block as int,
                        in_block + (end - start),
                    ));
                }
                Ok(Some((in_block, in_block + (end - start))))
            },
            None => Ok(None),
        }
    }

    /// The packet with the bounds that `next_packet` gave.
    pub fn packet(&self, start: usize, end: usize) -> (packet: &[u8])
        requires
            start <= end <= BLOCK_SIZE,
        ensures
            packet@ == self.slice(start as int, end as int),
    {
        vstd::slice::slice_subrange(self.buffer.as_slice(), start, end)
    }
}

/// Sends `block_count` blocks from `lba` on, as far as the host expects them. Gives the bytes sent.
pub fn read_blocks<IN: DataEndpoint, S: BlockStorage>(
    storage: &mut S,
    in_ep: &mut IN,
    lba: u32,
    block_count: u16,
    expected_length: u32,
    expects_in: bool,
) -> (r: Result<u32, TransferError>)
    requires
        old(storage).wf(),
        blocks_inside(lba as int, block_count as int, old(storage).contents().len() as int),
        blocks_inside(lba as int, block_count as int, u32::MAX as int),
    ensures
        final(storage).wf(),
        final(storage).contents() == old(storage).contents(),
        final(storage).ready() == old(storage).ready(),
        final(storage).write_protected() == old(storage).write_protected(),
        final(storage).unfinished() == old(storage).unfinished(),
        old(storage).healthy() ==> final(storage).healthy(),
        final(in_ep).incoming() == old(in_ep).incoming(),
        final(in_ep).received() == old(in_ep).received(),
        final(in_ep).waits() == old(in_ep).waits(),
        old(in_ep).healthy() ==> final(in_ep).healthy(),
        old(storage).ready() && old(storage).healthy() && old(in_ep).healthy() ==> r is Ok,
        read_by(
            old(storage),
            old(in_ep),
            lba as int,
            block_count as int,
            expected_length as int,
            expects_in,
            final(storage),
            final(in_ep),
            r,
        ),
{
    let mut reader = BlockReader::new(lba, block_count, expected_length, expects_in);
    let total = reader.len();
    let ghost contents = storage.contents();
    let ghost all = packets::in_packets(
        blocks_payload(contents, lba as int, block_count as int),
        expected_length as int,
        expects_in,
    );
    let ghost mut k: int = 0;
    proof {
        assert(reader.remaining(contents) == all);
        assert(reader.holds(contents));
        assert(all.take(0) =~= Seq::empty());
        assert(all.skip(0) =~= all);
        assert(in_ep.sent() + all.take(0) =~= in_ep.sent());
    }
    loop
        invariant
            reader.wf(),
            reader.lba() == lba,
            reader.count() == block_count,
            reader.total() == total,
            reader.offset() == if USB_PACKET_SIZE * k < total {
                USB_PACKET_SIZE * k
            } else {
                total as int
            },
            storage.wf(),
            storage.contents() == contents,
            contents == old(storage).contents(),
            storage.ready() == old(storage).ready(),
            storage.write_protected() == old(storage).write_protected(),
            storage.unfinished() == old(storage).unfinished(),
            old(storage).healthy() ==> storage.healthy(),
            storage.errors() == old(storage).errors(),
            blocks_inside(lba as int, block_count as int, contents.len() as int),
            all == packets::in_packets(
                blocks_payload(contents, lba as int, block_count as int),
                expected_length as int,
                expects_in,
            ),
            total == if block_count * BLOCK_SIZE <= expected_length {
                block_count * BLOCK_SIZE
            } else {
                expected_length as int
            },
            0 <= k <= all.len(),
            reader.holds(contents),
            reader.remaining(contents) == all.skip(k),
            in_ep.sent() == old(in_ep).sent() + all.take(k),
            in_ep.incoming() == old(in_ep).incoming(),
            in_ep.received() == old(in_ep).received(),
            in_ep.waits() == old(in_ep).waits(),
            in_ep.errors() == old(in_ep).errors(),
            old(in_ep).healthy() ==> in_ep.healthy(),
        decreases all.len() - k,
    {
        let (start, end) = match reader.next_packet(storage) {
            Ok(Some(bounds)) => bounds,
            Ok(None) => {
                assert(all.take(k) =~= all);
                return Ok(total);
            },
            Err(error) => {
                assert(k == (k / PACKETS_PER_BLOCK as int) * PACKETS_PER_BLOCK);
                assert(sent_before_block(
                    old(in_ep).sent(),
                    all,
                    k / PACKETS_PER_BLOCK as int,
                    in_ep.sent(),
                ));
                return Err(TransferError::Storage(error));
            },
        };
        let packet = reader.packet(start, end);
        proof {
            assert((seq![packet@] + reader.remaining(contents)).drop_first() =~= reader.remaining(
                contents,
            ));
            assert(all.skip(k)[0] == packet@);
            assert(all.skip(k + 1) =~= all.skip(k).drop_first());
            assert(all.take(k + 1) =~= all.take(k).push(packet@));
            assert(old(in_ep).sent() + all.take(k + 1) =~= (old(in_ep).sent() + all.take(k)).push(
                packet@,
            ));
        }
        if let Err(error) = in_ep.endpoint_write(packet) {
            return Err(TransferError::Endpoint(error));
        }
        proof {
            k = k + 1;
        }
    }
}

/// What `read_blocks` did: which packets it sent, and how it ended.
pub open spec fn read_by<IN: DataEndpoint, S: BlockStorage>(
    storage: &S,
    in_ep: &IN,
    lba: int,
    count: int,
    expected: int,
    expects_in: bool,
    storage_after: &S,
    in_ep_after: &IN,
    r: Result<u32, TransferError>,
) -> bool {
    let all = packets::in_packets(
        blocks_payload(storage.contents(), lba, count),
        expected,
        expects_in,
    );
    match r {
        Ok(sent) => {
            &&& sent == if count * BLOCK_SIZE <= expected {
                count * BLOCK_SIZE
            } else {
                expected
            }
            &&& in_ep_after.sent() == in_ep.sent() + all
            &&& storage_after.errors() == storage.errors()
            &&& in_ep_after.errors() == in_ep.errors()
        },
        Err(TransferError::Storage(e)) => {
            &&& exists|b: int|
                {
                    &&& 0 <= b < count
                    &&& b * BLOCK_SIZE < expected
                    &&& #[trigger] sent_before_block(in_ep.sent(), all, b, in_ep_after.sent())
                }
            &&& storage_after.errors() == storage.errors().push(e)
            &&& in_ep_after.errors() == in_ep.errors()
            &&& storage.healthy() ==> !storage.ready()
        },
        Err(TransferError::Endpoint(e)) => {
            &&& bot::sent_part(in_ep.sent(), all, in_ep_after.sent())
            &&& storage_after.errors() == storage.errors()
            &&& in_ep_after.errors() == in_ep.errors().push(e)
            &&& !in_ep.healthy()
        },
    }
}

} // verus!
