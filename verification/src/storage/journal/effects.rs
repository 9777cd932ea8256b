//! What the journal's writes do to the medium: to its header, its shadow block and its logical
//! blocks.

use vstd::prelude::*;
use crate::bytes;
use crate::storage::journal::crc;
use crate::storage::journal::layout::{
    self, LbaRange, JOURNAL_RESERVED_BLOCKS, JOURNAL_STATE_CLEAN, JOURNAL_STATE_COMMITTED,
};
use crate::storage::journal::script;
use crate::storage::medium::{self, MediumWrite, BLOCK_SIZE};

verus! {

/// The medium after the first `k` of the writes `ws`.
pub open spec fn after(m: Seq<u8>, ws: Seq<MediumWrite>, k: int) -> Seq<u8> {
    medium::apply_writes(m, ws.take(k))
}

/// A medium that has room for a journal and `count` logical blocks.
pub open spec fn roomy(m: Seq<u8>, count: int) -> bool {
    0 < count && m.len() == (JOURNAL_RESERVED_BLOCKS + count) * BLOCK_SIZE
}

/// Whether a write stays in front of the data area.
pub open spec fn in_front(w: MediumWrite) -> bool {
    0 <= w.address && w.address + w.data.len() <= JOURNAL_RESERVED_BLOCKS * BLOCK_SIZE
}

/// One more write of a sequence acts on what the ones before it left.
pub proof fn lemma_after_step(m: Seq<u8>, ws: Seq<MediumWrite>, k: int)
    requires
        0 <= k < ws.len(),
    ensures
        after(m, ws, k + 1) == ws[k].apply(after(m, ws, k)),
        after(m, ws, k).len() == m.len(),
        after(m, ws, k + 1).len() == m.len(),
{
    assert(ws.take(k + 1) =~= ws.take(k).push(ws[k]));
    medium::lemma_apply_writes_push(m, ws.take(k), ws[k]);
    medium::lemma_apply_writes_len(m, ws.take(k));
}

/// No write of a sequence has been made at its start, and all of them at its end.
pub proof fn lemma_after_ends(m: Seq<u8>, ws: Seq<MediumWrite>)
    ensures
        after(m, ws, 0) == m,
        after(m, ws, ws.len() as int) == medium::apply_writes(m, ws),
{
    assert(ws.take(0) =~= Seq::empty());
    assert(ws.take(ws.len() as int) =~= ws);
}

/// An address to which every write brings the byte it already holds, or brings nothing, keeps its
/// byte, wherever the sequence stops.
pub proof fn lemma_kept(m: Seq<u8>, ws: Seq<MediumWrite>, i: int)
    requires
        0 <= i < m.len(),
        forall|k: int|
            0 <= k < ws.len() ==> !(#[trigger] ws[k]).covers(i) || ws[k].data[i - ws[k].address]
                == m[i],
    ensures
        medium::apply_writes(m, ws)[i] == m[i],
        forall|m2: Seq<u8>| #[trigger]
            medium::interrupted(m, ws, m2) ==> m2.len() == m.len() && m2[i] == m[i],
    decreases ws.len(),
{
    medium::lemma_apply_writes_len(m, ws);
    if ws.len() > 0 {
        let init = ws.drop_last();
        assert forall|k: int| 0 <= k < init.len() implies !(#[trigger] init[k]).covers(i)
            || init[k].data[i - init[k].address] == m[i] by {
            assert(init[k] == ws[k]);
        }
        lemma_kept(m, init, i);
        medium::lemma_apply_writes_len(m, init);
        let last = ws[ws.len() - 1];
        assert(!last.covers(i) || last.data[i - last.address] == m[i]);
    }
    assert forall|m2: Seq<u8>| #[trigger] medium::interrupted(m, ws, m2) implies m2.len() == m.len()
        && m2[i] == m[i] by {
        if m2 != medium::apply_writes(m, ws) {
            let k = choose|k: int| #[trigger] medium::stopped_at(m, ws, k, m2);
            let part = ws.take(k);
            medium::lemma_apply_writes_len(m, part);
            assert(!ws[k].covers(i) || ws[k].data[i - ws[k].address] == m[i]);
            assert forall|j: int| 0 <= j < part.len() implies !(#[trigger] part[j]).covers(i)
                || part[j].data[i - part[j].address] == m[i] by {
                assert(part[j] == ws[j]);
            }
            lemma_kept(m, part, i);
        }
    }
}

/// A write in front of the data area, torn or not, leaves the logical blocks.
pub proof fn lemma_in_front_keeps_blocks(m: Seq<u8>, w: MediumWrite, count: int)
    requires
        roomy(m, count),
        in_front(w),
    ensures
        layout::logical_blocks(w.apply(m), count) == layout::logical_blocks(m, count),
        forall|m2: Seq<u8>| #[trigger]
            medium::torn(m, w, m2) ==> layout::logical_blocks(m2, count)
                == layout::logical_blocks(m, count),
{
    assert forall|m2: Seq<u8>| #[trigger] medium::torn(m, w, m2) implies layout::logical_blocks(
        m2,
        count,
    ) == layout::logical_blocks(m, count) by {
        assert forall|lba: int| 0 <= lba < count implies layout::logical_block(m2, lba)
            == layout::logical_block(m, lba) by {
            assert(layout::logical_block(m2, lba) =~= layout::logical_block(m, lba));
        }
        assert(layout::logical_blocks(m2, count) =~= layout::logical_blocks(m, count));
    }
    assert(medium::torn(m, w, w.apply(m)));
}

/// The write of a logical block changes that block and no other; torn, it changes no other.
pub proof fn lemma_logical_write(m: Seq<u8>, lba: int, data: Seq<u8>, count: int)
    requires
        roomy(m, count),
        0 <= lba < count,
        data.len() == BLOCK_SIZE,
    ensures
        layout::logical_blocks(script::logical_write(lba, data).apply(m), count)
            == layout::logical_blocks(m, count).update(lba, data),
        forall|m2: Seq<u8>| #[trigger]
            medium::torn(m, script::logical_write(lba, data), m2) ==> {
                &&& forall|j: int|
                    0 <= j < count && j != lba ==> #[trigger] layout::logical_block(m2, j)
                        == layout::logical_block(m, j)
                &&& m2.take(JOURNAL_RESERVED_BLOCKS * BLOCK_SIZE) == m.take(
                    JOURNAL_RESERVED_BLOCKS * BLOCK_SIZE,
                )
            },
{
    let w = script::logical_write(lba, data);
    let m1 = w.apply(m);
    assert forall|m2: Seq<u8>| #[trigger] medium::torn(m, w, m2) implies {
        &&& forall|j: int|
            0 <= j < count && j != lba ==> #[trigger] layout::logical_block(m2, j)
                == layout::logical_block(m, j)
        &&& m2.take(JOURNAL_RESERVED_BLOCKS * BLOCK_SIZE) == m.take(
            JOURNAL_RESERVED_BLOCKS * BLOCK_SIZE,
        )
    } by {
        assert forall|j: int| 0 <= j < count && j != lba implies #[trigger] layout::logical_block(
            m2,
            j,
        ) == layout::logical_block(m, j) by {
            assert(layout::logical_block(m2, j) =~= layout::logical_block(m, j));
        }
        assert(m2.take(JOURNAL_RESERVED_BLOCKS * BLOCK_SIZE) =~= m.take(
            JOURNAL_RESERVED_BLOCKS * BLOCK_SIZE,
        ));
    }
    assert(medium::torn(m, w, m1));
    assert(layout::logical_block(m1, lba) =~= data);
    assert(layout::logical_blocks(m1, count) =~= layout::logical_blocks(m, count).update(lba, data));
}

/// A header made of its fields can be trusted.
pub proof fn lemma_header_bytes_valid(state: u8, lba: u32, shadow_crc: u32)
    requires
        state == JOURNAL_STATE_CLEAN || state == JOURNAL_STATE_COMMITTED,
    ensures
        layout::header_bytes(state, lba, shadow_crc).len() == 16,
        layout::header_valid(layout::header_bytes(state, lba, shadow_crc)),
        bytes::le32_at(layout::header_bytes(state, lba, shadow_crc), 4) == lba,
        bytes::le32_at(layout::header_bytes(state, lba, shadow_crc), 8) == shadow_crc,
        layout::header_bytes(state, lba, shadow_crc)[0] == state,
{
    let h = layout::header_bytes(state, lba, shadow_crc);
    assert(h.take(12) =~= layout::header_body(state, lba, shadow_crc));
    bytes::lemma_le32_round_trip(lba);
    bytes::lemma_le32_round_trip(shadow_crc);
    let crc = crc::crc32_of(layout::header_body(state, lba, shadow_crc));
    bytes::lemma_le32_round_trip(crc);
    assert(bytes::le32_at(h, 12) == bytes::le32_at(bytes::le32_bytes(crc), 0));
    assert(bytes::le32_at(h, 4) == bytes::le32_at(bytes::le32_bytes(lba), 0));
    assert(bytes::le32_at(h, 8) == bytes::le32_at(bytes::le32_bytes(shadow_crc), 0));
}

/// The writes of a reset leave a clean header and keep the logical blocks.
pub proof fn lemma_reset(m: Seq<u8>, count: int)
    requires
        roomy(m, count),
    ensures
        ({
            let m1 = medium::apply_writes(m, script::reset_writes());
            &&& layout::header_of(m1) == layout::header_bytes(JOURNAL_STATE_CLEAN, 0, 0)
            &&& layout::header_valid(layout::header_of(m1))
            &&& !script::pending(m1)
            &&& layout::logical_blocks(m1, count) == layout::logical_blocks(m, count)
            &&& roomy(m1, count)
        }),
{
    let ws = script::reset_writes();
    lemma_after_ends(m, ws);
    lemma_after_step(m, ws, 0);
    lemma_after_step(m, ws, 1);
    lemma_after_step(m, ws, 2);
    lemma_after_step(m, ws, 3);
    lemma_after_step(m, ws, 4);
    lemma_in_front_keeps_blocks(after(m, ws, 0), ws[0], count);
    lemma_in_front_keeps_blocks(after(m, ws, 1), ws[1], count);
    lemma_in_front_keeps_blocks(after(m, ws, 2), ws[2], count);
    lemma_in_front_keeps_blocks(after(m, ws, 3), ws[3], count);
    lemma_in_front_keeps_blocks(after(m, ws, 4), ws[4], count);
    let m1 = medium::apply_writes(m, ws);
    lemma_header_bytes_valid(JOURNAL_STATE_CLEAN, 0, 0);
    assert(layout::header_of(m1) =~= layout::header_bytes(JOURNAL_STATE_CLEAN, 0, 0));
    assert(m1[0] == layout::header_of(m1)[0]);
}

/// The writes that mark the journal clean leave a header that can be trusted, and keep the
/// logical blocks.
pub proof fn lemma_clean(m: Seq<u8>, count: int, lba: u32, shadow_crc: u32)
    requires
        roomy(m, count),
        layout::has_magic(layout::header_of(m)),
        lba == script::target_of(m),
        shadow_crc == script::shadow_crc_of(m),
    ensures
        ({
            let m1 = medium::apply_writes(m, script::clean_writes(lba, shadow_crc));
            &&& layout::header_of(m1) == layout::header_bytes(JOURNAL_STATE_CLEAN, lba, shadow_crc)
            &&& layout::header_valid(layout::header_of(m1))
            &&& !script::pending(m1)
            &&& layout::logical_blocks(m1, count) == layout::logical_blocks(m, count)
            &&& roomy(m1, count)
        }),
{
    let ws = script::clean_writes(lba, shadow_crc);
    lemma_after_ends(m, ws);
    lemma_after_step(m, ws, 0);
    lemma_after_step(m, ws, 1);
    lemma_in_front_keeps_blocks(after(m, ws, 0), ws[0], count);
    lemma_in_front_keeps_blocks(after(m, ws, 1), ws[1], count);
    let m1 = medium::apply_writes(m, ws);
    lemma_header_bytes_valid(JOURNAL_STATE_CLEAN, lba, shadow_crc);
    bytes::lemma_le32_written_back(m, 4);
    bytes::lemma_le32_written_back(m, 8);
    assert(forall|i: int| 0 <= i < 4 ==> m[4 + i] == #[trigger] m.subrange(4, 8)[i]);
    assert(forall|i: int| 0 <= i < 4 ==> m[8 + i] == #[trigger] m.subrange(8, 12)[i]);
    assert(layout::header_of(m)[1] == m[1] && layout::header_of(m)[2] == m[2] && layout::header_of(
        m,
    )[3] == m[3]);
    assert(layout::header_of(m1) =~= layout::header_bytes(JOURNAL_STATE_CLEAN, lba, shadow_crc));
    assert(m1[0] == layout::header_of(m1)[0]);
}

/// What the journal header says depends on the header alone.
pub proof fn lemma_header_fields(m: Seq<u8>)
    requires
        m.len() >= 16,
    ensures
        script::pending(m) == (layout::header_of(m)[0] == JOURNAL_STATE_COMMITTED),
        script::target_of(m) == bytes::le32_at(layout::header_of(m), 4),
        script::shadow_crc_of(m) == bytes::le32_at(layout::header_of(m), 8),
{
    let h = layout::header_of(m);
    assert(forall|i: int| 0 <= i < 16 ==> #[trigger] h[i] == m[i]);
    bytes::lemma_le32_written_back(m, 4);
    bytes::lemma_le32_written_back(m, 8);
}

/// Replaying a write and marking the journal clean leaves a clean journal and the block replayed.
proof fn lemma_replay(m: Seq<u8>, count: int)
    requires
        roomy(m, count),
        layout::has_magic(layout::header_of(m)),
        script::target_of(m) < count,
    ensures
        ({
            let target = script::target_of(m);
            let shadow_crc = script::shadow_crc_of(m);
            let shadow = layout::shadow_of(m);
            let m1 = medium::apply_writes(
                m,
                seq![script::logical_write(target as int, shadow)] + script::clean_writes(
                    target,
                    shadow_crc,
                ),
            );
            &&& roomy(m1, count)
            &&& !script::pending(m1)
            &&& layout::header_of(m1) == layout::header_bytes(
                JOURNAL_STATE_CLEAN,
                target,
                shadow_crc,
            )
            &&& layout::header_valid(layout::header_of(m1))
            &&& layout::logical_blocks(m1, count) == layout::logical_blocks(m, count).update(
                target as int,
                shadow,
            )
        }),
{
    let target = script::target_of(m);
    let shadow_crc = script::shadow_crc_of(m);
    let shadow = layout::shadow_of(m);
    let w = script::logical_write(target as int, shadow);
    let m1 = w.apply(m);
    assert(roomy(m1, count));
    assert(layout::header_of(m1) =~= layout::header_of(m));
    lemma_header_fields(m);
    lemma_header_fields(m1);
    lemma_logical_write(m, target as int, shadow, count);
    lemma_clean(m1, count, target, shadow_crc);
    medium::lemma_apply_writes_concat(m, seq![w], script::clean_writes(target, shadow_crc));
    lemma_after_ends(m, seq![w]);
    lemma_after_step(m, seq![w], 0);
}

/// Finishing or dropping a pending write leaves a clean journal and the blocks it stood for.
pub proof fn lemma_recovery(m: Seq<u8>, count: int, range: LbaRange)
    requires
        roomy(m, count),
        layout::has_magic(layout::header_of(m)),
    ensures
        ({
            let m1 = medium::apply_writes(m, script::recovery_writes(m, count, range));
            &&& roomy(m1, count)
            &&& layout::has_magic(layout::header_of(m1))
            &&& !script::pending(m1)
            &&& !script::pending(m) ==> m1 == m
            &&& script::pending(m) ==> layout::header_of(m1) == layout::header_bytes(
                JOURNAL_STATE_CLEAN,
                script::target_of(m),
                script::shadow_crc_of(m),
            ) && layout::header_valid(layout::header_of(m1))
            &&& layout::logical_blocks(m1, count) == if script::replays(m, count, range) {
                layout::logical_blocks(m, count).update(
                    script::target_of(m) as int,
                    layout::shadow_of(m),
                )
            } else {
                layout::logical_blocks(m, count)
            }
        }),
{
    if script::replays(m, count, range) {
        lemma_replay(m, count);
    } else if script::pending(m) {
        lemma_clean(m, count, script::target_of(m), script::shadow_crc_of(m));
    }
}

/// What a journaled write on a clean journal has done after each of its writes.
pub proof fn lemma_commit(m: Seq<u8>, count: int, lba: u32, data: Seq<u8>)
    requires
        roomy(m, count),
        layout::has_magic(layout::header_of(m)),
        lba < count,
        data.len() == BLOCK_SIZE,
    ensures
        ({
            let ws = script::commit_writes(lba, data);
            let old_blocks = layout::logical_blocks(m, count);
            let new_blocks = old_blocks.update(lba as int, data);
            let shadow_crc = crc::crc32_of(data);
            &&& forall|k: int| 0 <= k <= 10 ==> roomy(#[trigger] after(m, ws, k), count)
            &&& forall|k: int|
                1 <= k <= 6 ==> (#[trigger] after(m, ws, k))[0] == JOURNAL_STATE_CLEAN
            &&& forall|k: int|
                0 <= k <= 7 ==> layout::logical_blocks(#[trigger] after(m, ws, k), count)
                    == old_blocks
            &&& layout::header_of(after(m, ws, 7)) == layout::header_bytes(
                JOURNAL_STATE_COMMITTED,
                lba,
                shadow_crc,
            )
            &&& layout::shadow_of(after(m, ws, 7)) == data
            &&& after(m, ws, 8).take(JOURNAL_RESERVED_BLOCKS * BLOCK_SIZE) == after(m, ws, 7).take(
                JOURNAL_RESERVED_BLOCKS * BLOCK_SIZE,
            )
            &&& forall|k: int|
                8 <= k <= 10 ==> layout::logical_blocks(#[trigger] after(m, ws, k), count)
                    == new_blocks
            &&& after(m, ws, 9)[0] == JOURNAL_STATE_CLEAN
            &&& after(m, ws, 10)[0] == JOURNAL_STATE_CLEAN
            &&& layout::header_of(after(m, ws, 10)) == layout::header_bytes(
                JOURNAL_STATE_CLEAN,
                lba,
                shadow_crc,
            )
        }),
{
    let ws = script::commit_writes(lba, data);
    let shadow_crc = crc::crc32_of(data);
    let c = layout::header_bytes(JOURNAL_STATE_COMMITTED, lba, shadow_crc);
    let e = layout::header_bytes(JOURNAL_STATE_CLEAN, lba, shadow_crc);
    lemma_after_ends(m, ws);
    lemma_after_step(m, ws, 0);
    lemma_after_step(m, ws, 1);
    lemma_after_step(m, ws, 2);
    lemma_after_step(m, ws, 3);
    lemma_after_step(m, ws, 4);
    lemma_after_step(m, ws, 5);
    lemma_after_step(m, ws, 6);
    lemma_after_step(m, ws, 7);
    lemma_after_step(m, ws, 8);
    lemma_after_step(m, ws, 9);
    lemma_in_front_keeps_blocks(after(m, ws, 0), ws[0], count);
    lemma_in_front_keeps_blocks(after(m, ws, 1), ws[1], count);
    lemma_in_front_keeps_blocks(after(m, ws, 2), ws[2], count);
    lemma_in_front_keeps_blocks(after(m, ws, 3), ws[3], count);
    lemma_in_front_keeps_blocks(after(m, ws, 4), ws[4], count);
    lemma_in_front_keeps_blocks(after(m, ws, 5), ws[5], count);
    lemma_in_front_keeps_blocks(after(m, ws, 6), ws[6], count);
    lemma_logical_write(after(m, ws, 7), lba as int, data, count);
    assert(medium::torn(after(m, ws, 7), ws[7], after(m, ws, 8)));
    lemma_in_front_keeps_blocks(after(m, ws, 8), ws[8], count);
    lemma_in_front_keeps_blocks(after(m, ws, 9), ws[9], count);
    assert(layout::header_of(m)[1] == m[1] && layout::header_of(m)[2] == m[2] && layout::header_of(
        m,
    )[3] == m[3]);
    assert(layout::header_of(after(m, ws, 7)) =~= c);
    assert(layout::shadow_of(after(m, ws, 7)) =~= data);
    assert(layout::header_of(after(m, ws, 10)) =~= e);
}

/// A header that carries the magic carries it wherever initialization stops.
pub proof fn lemma_initialize_keeps_magic(m: Seq<u8>, ws: Seq<MediumWrite>, m2: Seq<u8>)
    requires
        m.len() >= 16,
        ws == script::reset_writes() || ws.len() == 0,
        layout::has_magic(layout::header_of(m)),
        medium::interrupted(m, ws, m2),
    ensures
        layout::has_magic(layout::header_of(m2)),
{
    lemma_kept(m, ws, 1);
    lemma_kept(m, ws, 2);
    lemma_kept(m, ws, 3);
    assert(forall|i: int| 1 <= i < 4 ==> #[trigger] layout::header_of(m)[i] == m[i]);
    assert(forall|i: int| 1 <= i < 4 ==> #[trigger] layout::header_of(m2)[i] == m2[i]);
}

/// A recovery leaves the magic wherever it stops.
pub proof fn lemma_recovery_keeps_magic(
    m: Seq<u8>,
    count: int,
    range: LbaRange,
    m2: Seq<u8>,
)
    requires
        roomy(m, count),
        layout::has_magic(layout::header_of(m)),
        medium::interrupted(m, script::recovery_writes(m, count, range), m2),
    ensures
        layout::has_magic(layout::header_of(m2)),
{
    let ws = script::recovery_writes(m, count, range);
    lemma_kept(m, ws, 1);
    lemma_kept(m, ws, 2);
    lemma_kept(m, ws, 3);
    assert(forall|i: int| 1 <= i < 4 ==> #[trigger] layout::header_of(m)[i] == m[i]);
    assert(forall|i: int| 1 <= i < 4 ==> #[trigger] layout::header_of(m2)[i] == m2[i]);
}

/// A recovery leaves every block but the one that it replays, wherever it stops.
pub proof fn lemma_recovery_keeps_blocks(m: Seq<u8>, count: int, range: LbaRange, m2: Seq<u8>)
    requires
        roomy(m, count),
        medium::interrupted(m, script::recovery_writes(m, count, range), m2),
    ensures
        m2.len() == m.len(),
        forall|j: int|
            0 <= j < count && !(script::replays(m, count, range) && j == script::target_of(m))
                ==> #[trigger] layout::logical_block(m2, j) == layout::logical_block(m, j),
{
    let ws = script::recovery_writes(m, count, range);
    lemma_kept_len(m, ws, m2);
    assert forall|j: int|
        0 <= j < count && !(script::replays(m, count, range) && j == script::target_of(
            m,
        )) implies #[trigger] layout::logical_block(m2, j) == layout::logical_block(m, j) by {
        let at = (JOURNAL_RESERVED_BLOCKS + j) * BLOCK_SIZE;
        assert forall|i: int| at <= i < at + BLOCK_SIZE implies m2[i] == #[trigger] m[i] by {
            lemma_kept(m, ws, i);
        }
        assert(layout::logical_block(m2, j) =~= layout::logical_block(m, j));
    }
}

/// A journaled write on a clean journal leaves the magic, and every other block, wherever it
/// stops.
pub proof fn lemma_commit_keeps(m: Seq<u8>, count: int, lba: u32, data: Seq<u8>, m2: Seq<u8>)
    requires
        roomy(m, count),
        lba < count,
        data.len() == BLOCK_SIZE,
        medium::interrupted(m, script::commit_writes(lba, data), m2),
    ensures
        m2.len() == m.len(),
        layout::has_magic(layout::header_of(m)) ==> layout::has_magic(layout::header_of(m2)),
        forall|j: int|
            0 <= j < count && j != lba ==> #[trigger] layout::logical_block(m2, j)
                == layout::logical_block(m, j),
{
    let ws = script::commit_writes(lba, data);
    lemma_kept(m, ws, 1);
    lemma_kept(m, ws, 2);
    lemma_kept(m, ws, 3);
    assert(forall|i: int| 1 <= i < 4 ==> #[trigger] layout::header_of(m)[i] == m[i]);
    assert(forall|i: int| 1 <= i < 4 ==> #[trigger] layout::header_of(m2)[i] == m2[i]);
    assert forall|j: int| 0 <= j < count && j != lba implies #[trigger] layout::logical_block(m2, j)
        == layout::logical_block(m, j) by {
        let at = (JOURNAL_RESERVED_BLOCKS + j) * BLOCK_SIZE;
        assert forall|i: int| at <= i < at + BLOCK_SIZE implies m2[i] == #[trigger] m[i] by {
            lemma_kept(m, ws, i);
        }
        assert(layout::logical_block(m2, j) =~= layout::logical_block(m, j));
    }
}

/// Which blocks are protected depends on the logical blocks alone.
pub proof fn lemma_protected_by_blocks(m: Seq<u8>, m2: Seq<u8>, count: int)
    requires
        0 < count,
        layout::logical_blocks(m, count) == layout::logical_blocks(m2, count),
    ensures
        layout::protected_range(m, count) == layout::protected_range(m2, count),
{
    let blocks = layout::logical_blocks(m, count);
    let blocks2 = layout::logical_blocks(m2, count);
    assert(blocks[0] == blocks2[0]);
    let volume = layout::partition_start(layout::logical_block(m, 0));
    if 0 <= volume < count {
        assert(blocks[volume] == blocks2[volume]);
    }
}

/// The first part of initialization leaves a header that can be trusted and keeps the logical
/// blocks, the protected ones among them.
pub proof fn lemma_with_header(m: Seq<u8>, count: int)
    requires
        roomy(m, count),
    ensures
        ({
            let m1 = medium::apply_writes(m, script::header_writes(m));
            &&& roomy(m1, count)
            &&& layout::header_valid(layout::header_of(m1))
            &&& layout::has_magic(layout::header_of(m1))
            &&& layout::logical_blocks(m1, count) == layout::logical_blocks(m, count)
            &&& layout::protected_range(m1, count) == layout::protected_range(m, count)
            &&& layout::protected_range(m, count).end_exclusive <= count
            &&& forall|range: LbaRange|
                #[trigger] script::replays(m1, count, range) == script::replays(m, count, range)
            &&& script::replays(m, count, layout::protected_range(m, count)) ==> m1 == m
        }),
{
    if !layout::header_valid(layout::header_of(m)) {
        lemma_reset(m, count);
    }
    let m1 = medium::apply_writes(m, script::header_writes(m));
    lemma_protected_by_blocks(m1, m, count);
}

/// What a journaled write leaves, wherever it stops, and what it leaves when it is complete.
pub proof fn lemma_journaled(
    m: Seq<u8>,
    count: int,
    range: LbaRange,
    lba: u32,
    data: Seq<u8>,
    m2: Seq<u8>,
)
    requires
        roomy(m, count),
        layout::has_magic(layout::header_of(m)),
        lba < count,
        data.len() == BLOCK_SIZE,
        medium::interrupted(m, script::journaled_writes(m, count, range, lba, data), m2),
    ensures
        m2.len() == m.len(),
        layout::has_magic(layout::header_of(m2)),
        forall|j: int|
            0 <= j < count && j != lba && !(script::replays(m, count, range) && j
                == script::target_of(m)) ==> #[trigger] layout::logical_blocks(m2, count)[j]
                == layout::logical_blocks(m, count)[j],
        m2 == medium::apply_writes(m, script::journaled_writes(m, count, range, lba, data)) ==> {
            &&& !script::pending(m2)
            &&& layout::header_valid(layout::header_of(m2))
            &&& layout::logical_blocks(m2, count) == (if script::replays(m, count, range) {
                layout::logical_blocks(m, count).update(
                    script::target_of(m) as int,
                    layout::shadow_of(m),
                )
            } else {
                layout::logical_blocks(m, count)
            }).update(lba as int, data)
        },
{
    let first = script::recovery_writes(m, count, range);
    let second = script::commit_writes(lba, data);
    let m1 = medium::apply_writes(m, first);
    medium::lemma_apply_writes_len(m, first);
    lemma_recovery(m, count, range);
    medium::lemma_interrupted_split(m, first, second, m2);
    if medium::interrupted(m, first, m2) {
        lemma_recovery_keeps_magic(m, count, range, m2);
        lemma_recovery_keeps_blocks(m, count, range, m2);
    }
    assert(medium::interrupted(m, first, m1));
    lemma_recovery_keeps_blocks(m, count, range, m1);
    if medium::interrupted(m1, second, m2) {
        lemma_commit_keeps(m1, count, lba, data, m2);
    }
    assert forall|j: int|
        0 <= j < count && j != lba && !(script::replays(m, count, range) && j == script::target_of(
            m,
        )) implies #[trigger] layout::logical_blocks(m2, count)[j] == layout::logical_blocks(
        m,
        count,
    )[j] by {
        assert(layout::logical_block(m1, j) == layout::logical_block(m, j));
        assert(layout::logical_block(m2, j) == layout::logical_block(m, j));
    }
    medium::lemma_apply_writes_concat(m, first, second);
    lemma_commit(m1, count, lba, data);
    lemma_after_ends(m1, second);
    lemma_header_bytes_valid(JOURNAL_STATE_CLEAN, lba, crc::crc32_of(data));
    assert(after(m1, second, 10) == medium::apply_writes(m1, second));
}

/// An interrupted sequence of writes keeps the size of the medium.
pub proof fn lemma_kept_len(m: Seq<u8>, ws: Seq<MediumWrite>, m2: Seq<u8>)
    requires
        medium::interrupted(m, ws, m2),
    ensures
        m2.len() == m.len(),
{
    medium::lemma_apply_writes_len(m, ws);
    if m2 != medium::apply_writes(m, ws) {
        let k = choose|k: int| #[trigger] medium::stopped_at(m, ws, k, m2);
        medium::lemma_apply_writes_len(m, ws.take(k));
    }
}

/// What a write outside the journal leaves, complete or torn.
pub proof fn lemma_passthrough(m: Seq<u8>, count: int, lba: u32, data: Seq<u8>, m2: Seq<u8>)
    requires
        roomy(m, count),
        lba < count,
        data.len() == BLOCK_SIZE,
        m2 == medium::apply_writes(m, seq![script::logical_write(lba as int, data)]) || medium::torn(
            m,
            script::logical_write(lba as int, data),
            m2,
        ),
    ensures
        m2.len() == m.len(),
        layout::header_of(m2) == layout::header_of(m),
        layout::shadow_of(m2) == layout::shadow_of(m),
        script::pending(m2) == script::pending(m),
        script::target_of(m2) == script::target_of(m),
        script::shadow_crc_of(m2) == script::shadow_crc_of(m),
        m2 == medium::apply_writes(m, seq![script::logical_write(lba as int, data)])
            ==> layout::logical_blocks(m2, count) == layout::logical_blocks(m, count).update(
            lba as int,
            data,
        ),
        forall|j: int|
            0 <= j < count && j != lba ==> #[trigger] layout::logical_blocks(m2, count)[j]
                == layout::logical_blocks(m, count)[j],
{
    let w = script::logical_write(lba as int, data);
    lemma_after_ends(m, seq![w]);
    lemma_after_step(m, seq![w], 0);
    assert(medium::torn(m, w, w.apply(m)));
    lemma_logical_write(m, lba as int, data, count);
    assert(layout::header_of(m2) =~= layout::header_of(m));
    assert(layout::shadow_of(m2) =~= layout::shadow_of(m));
    lemma_header_fields(m);
    lemma_header_fields(m2);
    assert forall|j: int| 0 <= j < count && j != lba implies #[trigger] layout::logical_blocks(
        m2,
        count,
    )[j] == layout::logical_blocks(m, count)[j] by {
        assert(layout::logical_block(m2, j) == layout::logical_block(m, j));
    }
}

} // verus!
