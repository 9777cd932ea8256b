//! What a host sees of the data phase of WRITE (10): which packets it takes, how long it waits for
//! each, and where it ends.

use vstd::prelude::*;
use crate::storage::block::BlockStorage;
use crate::usb::block_reader::TransferError;
use crate::usb::block_writer::{self, WritePhase, WriteTransfer};
use crate::usb::bot::DataEndpoint;
use crate::usb::packets;

verus! {

/// How many of `packets` hold something and came once more than `expected` bytes had come.
pub open spec fn thrown_away(packets: Seq<Seq<u8>>, expected: int) -> int
    decreases packets.len(),
{
    if packets.len() == 0 {
        0
    } else {
        thrown_away(packets.drop_last(), expected) + if packets.last().len() > 0 && packets::joined(
            packets.drop_last(),
        ).len() > expected {
            1int
        } else {
            0
        }
    }
}

/// Whether a data phase that expects `expected` bytes is over behind `packets`: the bytes have come,
/// or a short packet said that no more would, or enough was thrown away of what came beyond them.
pub open spec fn is_over(packets: Seq<Seq<u8>>, expected: int) -> bool {
    let before = packets::joined(packets.drop_last()).len();
    let len = packets.last().len();
    ||| packets::joined(packets).len() == expected
    ||| packets.len() > 0 && 0 < len < 64 && before + len <= expected
    ||| packets.len() > 0 && 0 < len < 64 && before > expected
    ||| thrown_away(packets, expected) >= 128
}

proof fn lemma_phase(packets: Seq<Seq<u8>>, expected: int)
    requires
        expected >= 0,
        forall|i: int|
            0 <= i < packets.len() ==> #[trigger] block_writer::phase_of(packets.take(i), expected)
                != WritePhase::Finished,
    ensures
        block_writer::phase_of(packets, expected) == WritePhase::Finished <==> is_over(
            packets,
            expected,
        ),
        block_writer::phase_of(packets, expected) == WritePhase::Receiving
            ==> packets::joined(packets).len() < expected && thrown_away(packets, expected) == 0,
        block_writer::phase_of(packets, expected) matches WritePhase::Draining { drained }
            ==> packets::joined(packets).len() > expected && thrown_away(packets, expected)
            == drained && drained < 128,
    decreases packets.len(),
{
    if packets.len() > 0 {
        let init = packets.drop_last();
        assert(init =~= packets.take(packets.len() - 1));
        assert forall|i: int| 0 <= i < init.len() implies #[trigger] block_writer::phase_of(
            init.take(i),
            expected,
        ) != WritePhase::Finished by {
            assert(init.take(i) =~= packets.take(i));
        }
        lemma_phase(init, expected);
    }
}

/// A data phase waits 1500 milliseconds for each packet while data is missing, and 20 for each that
/// it throws away. It asks for no packet once it is over.
pub proof fn packets_are_awaited<OUT: DataEndpoint, S: BlockStorage>(
    storage: (&S, &S),
    out_ep: (&OUT, &OUT),
    lba: int,
    count: int,
    expected: int,
    r: Result<WriteTransfer, TransferError>,
    i: int,
)
    requires
        expected >= 0,
        block_writer::written_by(
            storage.0,
            out_ep.0,
            lba,
            count,
            expected,
            storage.1,
            out_ep.1,
            r,
        ),
        0 <= i < out_ep.1.waits().len() - out_ep.0.waits().len(),
    ensures
        ({
            let taken = out_ep.0.incoming().take(i);
            let wait = out_ep.1.waits()[out_ep.0.waits().len() + i];
            &&& !is_over(taken, expected)
            &&& wait == if packets::joined(taken).len() < expected {
                1500u64
            } else {
                20u64
            }
        }),
        out_ep.0.waits().is_prefix_of(out_ep.1.waits()),
{
    let incoming = out_ep.0.incoming();
    let taken = incoming.take(i);
    let asked = out_ep.1.waits().len() - out_ep.0.waits().len();
    assert(block_writer::phase_of(incoming.take(i), expected) != WritePhase::Finished);
    assert(i <= incoming.len());
    assert forall|j: int| 0 <= j < taken.len() implies #[trigger] block_writer::phase_of(
        taken.take(j),
        expected,
    ) != WritePhase::Finished by {
        assert(taken.take(j) =~= incoming.take(j));
    }
    lemma_phase(taken, expected);
    assert(out_ep.1.waits()[out_ep.0.waits().len() + i] == block_writer::waits_of(
        incoming,
        expected,
        asked,
    )[i]);
}

/// A data phase with a host that is there ends behind the first packet that ends it, or behind the
/// last packet that comes, and its summary counts the bytes that came: those taken of the expected
/// ones, the whole blocks of them that were written, and whether there were too few or too many.
pub proof fn data_phase_ends_where_it_is_over<OUT: DataEndpoint, S: BlockStorage>(
    storage: (&S, &S),
    out_ep: (&OUT, &OUT),
    lba: int,
    count: int,
    expected: int,
    transfer: WriteTransfer,
)
    requires
        0 <= expected <= u32::MAX,
        0 <= count <= u16::MAX,
        out_ep.0.healthy(),
        block_writer::written_by(
            storage.0,
            out_ep.0,
            lba,
            count,
            expected,
            storage.1,
            out_ep.1,
            Ok(transfer),
        ),
    ensures
        ({
            let n = out_ep.1.received().len() - out_ep.0.received().len();
            let taken = out_ep.0.incoming().take(n);
            let len = packets::joined(taken).len();
            let kept = if len < expected {
                len as int
            } else {
                expected
            };
            &&& 0 <= n <= out_ep.0.incoming().len()
            &&& is_over(taken, expected) || n == out_ep.0.incoming().len()
            &&& forall|j: int|
                0 <= j < n ==> !is_over(#[trigger] out_ep.0.incoming().take(j), expected)
            &&& out_ep.1.incoming() == out_ep.0.incoming().skip(n)
            &&& transfer.consumed_bytes == kept
            &&& transfer.short_packet <==> len < expected
            &&& transfer.packet_overflow <==> len > expected
            &&& transfer.written_bytes == 512 * if kept / 512 < count {
                kept / 512
            } else {
                count
            }
        }),
{
    let incoming = out_ep.0.incoming();
    let n = out_ep.1.received().len() - out_ep.0.received().len();
    let taken = incoming.take(n);
    assert forall|j: int| 0 <= j < n implies !is_over(#[trigger] incoming.take(j), expected) by {
        let part = incoming.take(j);
        assert(block_writer::phase_of(incoming.take(j), expected) != WritePhase::Finished);
        assert forall|k: int| 0 <= k < part.len() implies #[trigger] block_writer::phase_of(
            part.take(k),
            expected,
        ) != WritePhase::Finished by {
            assert(part.take(k) =~= incoming.take(k));
        }
        lemma_phase(part, expected);
    }
    assert forall|k: int| 0 <= k < taken.len() implies #[trigger] block_writer::phase_of(
        taken.take(k),
        expected,
    ) != WritePhase::Finished by {
        assert(taken.take(k) =~= incoming.take(k));
    }
    lemma_phase(taken, expected);
}

} // verus!
