//! What the journal promises of a medium that lost power: a protected write happened or it did
//! not, and starting up finds that out in the same way however often it is interrupted itself.

use vstd::prelude::*;
use crate::storage::journal::crc;
use crate::storage::journal::effects;
use crate::storage::journal::layout::{
    self, LbaRange, JOURNAL_RESERVED_BLOCKS, JOURNAL_STATE_CLEAN, JOURNAL_STATE_COMMITTED,
};
use crate::storage::journal::script;
use crate::storage::medium::{self, MediumWrite, BLOCK_SIZE};

verus! {

/// Whether block `lba` says where the metadata of the volume lies: the first block of the medium,
/// which holds the partition table, and the boot sector.
pub open spec fn places_metadata(m: Seq<u8>, lba: int) -> bool {
    lba == 0 || lba == layout::partition_start(layout::logical_block(m, 0))
}

/// A write that waits to be replayed is not one to a block that places the metadata.
pub open spec fn replays_elsewhere(m: Seq<u8>, count: int) -> bool {
    script::replays(m, count, layout::protected_range(m, count)) ==> !places_metadata(
        m,
        script::target_of(m) as int,
    )
}

/// Media that agree on the blocks that place the metadata agree on the protected blocks.
proof fn lemma_same_protection(m: Seq<u8>, m2: Seq<u8>, count: int, lba: int)
    requires
        0 < count,
        !places_metadata(m, lba),
        forall|j: int|
            0 <= j < count && j != lba ==> #[trigger] layout::logical_block(m2, j)
                == layout::logical_block(m, j),
    ensures
        layout::protected_range(m2, count) == layout::protected_range(m, count),
        layout::logical_block(m2, 0) == layout::logical_block(m, 0),
{
    assert(layout::logical_block(m2, 0) == layout::logical_block(m, 0));
    let volume = layout::partition_start(layout::logical_block(m, 0));
    if 0 <= volume < count {
        assert(layout::logical_block(m2, volume) == layout::logical_block(m, volume));
    }
}

/// A torn write of one byte is the write, or nothing.
proof fn lemma_torn_byte(m: Seq<u8>, w: MediumWrite, m2: Seq<u8>)
    requires
        w.data.len() == 1,
        w.fits(m),
        medium::torn(m, w, m2),
    ensures
        m2 == m || m2 == w.apply(m),
{
    if m2[w.address] == m[w.address] {
        assert(m2 =~= m);
    } else {
        assert(m2 =~= w.apply(m));
    }
}

/// A write behind the state byte leaves that byte, torn or not.
proof fn lemma_state_kept(m: Seq<u8>, w: MediumWrite, m2: Seq<u8>)
    requires
        m.len() > 0,
        w.address > 0,
        medium::torn(m, w, m2),
    ensures
        m2[0] == m[0],
{
}

/// A journal that is not pending stands for the blocks on the medium.
proof fn lemma_settled_blocks(m: Seq<u8>, count: int)
    requires
        !script::pending(m),
    ensures
        script::recovered_blocks(m, count) == layout::logical_blocks(m, count),
{
}

/// Wherever the writes that mark a journal clean stop, the blocks stay, and the journal is as it
/// was or clean.
proof fn lemma_clean_interrupted(m: Seq<u8>, count: int, lba: u32, shadow_crc: u32, m2: Seq<u8>)
    requires
        effects::roomy(m, count),
        medium::interrupted(m, script::clean_writes(lba, shadow_crc), m2),
    ensures
        m2 == m || (!script::pending(m2) && layout::logical_blocks(m2, count)
            == layout::logical_blocks(m, count)),
{
    let ws = script::clean_writes(lba, shadow_crc);
    effects::lemma_after_ends(m, ws);
    effects::lemma_after_step(m, ws, 0);
    effects::lemma_after_step(m, ws, 1);
    let m1 = effects::after(m, ws, 1);
    effects::lemma_in_front_keeps_blocks(m, ws[0], count);
    effects::lemma_in_front_keeps_blocks(m1, ws[1], count);
    if m2 != medium::apply_writes(m, ws) {
        let k = choose|k: int| #[trigger] medium::stopped_at(m, ws, k, m2);
        if k == 0 {
            assert(medium::torn(effects::after(m, ws, 0), ws[0], m2));
            lemma_torn_byte(m, ws[0], m2);
        } else {
            assert(medium::torn(effects::after(m, ws, 1), ws[1], m2));
            lemma_state_kept(m1, ws[1], m2);
        }
    }
}

/// Finishing a pending write is something that can be interrupted: wherever it stops, the medium
/// stands for the same blocks.
pub proof fn interrupted_recovery_recovers_the_same(m: Seq<u8>, count: int, m2: Seq<u8>)
    requires
        effects::roomy(m, count),
        layout::has_magic(layout::header_of(m)),
        replays_elsewhere(m, count),
        medium::interrupted(
            m,
            script::recovery_writes(m, count, layout::protected_range(m, count)),
            m2,
        ),
    ensures
        script::recovered_blocks(m2, count) == script::recovered_blocks(m, count),
        layout::protected_range(m2, count) == layout::protected_range(m, count),
        layout::logical_block(m2, 0) == layout::logical_block(m, 0),
        script::replays(m2, count, layout::protected_range(m, count)) ==> script::replays(
            m,
            count,
            layout::protected_range(m, count),
        ) && script::target_of(m2) == script::target_of(m),
        m2.len() == m.len(),
{
    let range = layout::protected_range(m, count);
    let ws = script::recovery_writes(m, count, range);
    let target = script::target_of(m);
    let clean = script::clean_writes(target, script::shadow_crc_of(m));
    effects::lemma_kept_len(m, ws, m2);
    if script::replays(m, count, range) {
        let shadow = layout::shadow_of(m);
        let w = script::logical_write(target as int, shadow);
        let m1 = w.apply(m);
        let blocks = layout::logical_blocks(m, count);
        effects::lemma_logical_write(m, target as int, shadow, count);
        effects::lemma_after_ends(m, seq![w]);
        effects::lemma_after_step(m, seq![w], 0);
        medium::lemma_interrupted_split(m, seq![w], clean, m2);
        assert(medium::torn(m, w, m1));
        lemma_replay_torn(m, count, m1);
        if medium::interrupted(m, seq![w], m2) {
            if m2 != medium::apply_writes(m, seq![w]) {
                let k = choose|k: int| #[trigger] medium::stopped_at(m, seq![w], k, m2);
                assert(medium::torn(effects::after(m, seq![w], 0), w, m2));
                lemma_replay_torn(m, count, m2);
            }
        } else {
            lemma_clean_interrupted(m1, count, target, script::shadow_crc_of(m), m2);
            if m2 != m1 {
                effects::lemma_protected_by_blocks(m2, m1, count);
                lemma_settled_blocks(m2, count);
                assert(layout::logical_blocks(m2, count)[0] == layout::logical_blocks(m1, count)[0]);
            }
        }
    } else if script::pending(m) {
        lemma_clean_interrupted(m, count, target, script::shadow_crc_of(m), m2);
        if m2 != m {
            effects::lemma_protected_by_blocks(m2, m, count);
            lemma_settled_blocks(m2, count);
            assert(layout::logical_blocks(m2, count)[0] == layout::logical_blocks(m, count)[0]);
        }
    }
}

/// However much of a replay was written, the medium stands for the same blocks.
proof fn lemma_replay_torn(m: Seq<u8>, count: int, m2: Seq<u8>)
    requires
        effects::roomy(m, count),
        script::replays(m, count, layout::protected_range(m, count)),
        !places_metadata(m, script::target_of(m) as int),
        medium::torn(
            m,
            script::logical_write(script::target_of(m) as int, layout::shadow_of(m)),
            m2,
        ),
    ensures
        script::recovered_blocks(m2, count) == script::recovered_blocks(m, count),
        layout::protected_range(m2, count) == layout::protected_range(m, count),
        layout::logical_block(m2, 0) == layout::logical_block(m, 0),
        script::pending(m2),
        script::target_of(m2) == script::target_of(m),
{
    let target = script::target_of(m);
    effects::lemma_logical_write(m, target as int, layout::shadow_of(m), count);
    lemma_same_front(m, m2);
    lemma_same_protection(m, m2, count, target as int);
    assert(script::recovered_blocks(m2, count) =~= script::recovered_blocks(m, count));
}

/// Media that agree in front of the data area agree on what the journal says.
proof fn lemma_same_front(m: Seq<u8>, m2: Seq<u8>)
    requires
        m.len() >= JOURNAL_RESERVED_BLOCKS * BLOCK_SIZE,
        m2.len() == m.len(),
        m2.take(JOURNAL_RESERVED_BLOCKS * BLOCK_SIZE) == m.take(
            JOURNAL_RESERVED_BLOCKS * BLOCK_SIZE,
        ),
    ensures
        layout::header_of(m2) == layout::header_of(m),
        layout::shadow_of(m2) == layout::shadow_of(m),
        script::pending(m2) == script::pending(m),
        script::target_of(m2) == script::target_of(m),
        script::shadow_crc_of(m2) == script::shadow_crc_of(m),
{
    let front = m.take(JOURNAL_RESERVED_BLOCKS * BLOCK_SIZE);
    assert(forall|i: int| 0 <= i < 1024 ==> #[trigger] m[i] == front[i]);
    assert(forall|i: int| 0 <= i < 1024 ==> #[trigger] m2[i] == front[i]);
    assert(layout::header_of(m2) =~= layout::header_of(m));
    assert(layout::shadow_of(m2) =~= layout::shadow_of(m));
    effects::lemma_header_fields(m);
    effects::lemma_header_fields(m2);
}

/// Starting up is something that can be interrupted: wherever it stops, the medium stands for the
/// same blocks, so the next start finds what this one would have found, and can be interrupted in
/// its turn.
pub proof fn interrupted_initialization_recovers_the_same(m: Seq<u8>, count: int, m2: Seq<u8>)
    requires
        effects::roomy(m, count),
        replays_elsewhere(m, count),
        medium::interrupted(m, script::initialize_writes(m, count), m2),
    ensures
        script::recovered_blocks(m2, count) == script::recovered_blocks(m, count),
        effects::roomy(m2, count),
        replays_elsewhere(m2, count),
{
    effects::lemma_kept_len(m, script::initialize_writes(m, count), m2);
    let first = script::header_writes(m);
    let m1 = medium::apply_writes(m, first);
    effects::lemma_with_header(m, count);
    let second = script::recovery_writes(m1, count, layout::protected_range(m, count));
    if layout::header_valid(layout::header_of(m)) {
        assert(first + second =~= second);
        interrupted_recovery_recovers_the_same(m, count, m2);
    } else {
        effects::lemma_reset(m, count);
        assert(second =~= Seq::empty());
        assert(first + second =~= first);
        lemma_reset_interrupted(m, count, m2);
    }
}

/// Wherever a reset of the header stops, no write waits to be replayed, and the blocks stay.
proof fn lemma_reset_interrupted(m: Seq<u8>, count: int, m2: Seq<u8>)
    requires
        effects::roomy(m, count),
        medium::interrupted(m, script::reset_writes(), m2),
    ensures
        m2 == m || (!script::pending(m2) && layout::logical_blocks(m2, count)
            == layout::logical_blocks(m, count)),
{
    let ws = script::reset_writes();
    effects::lemma_reset(m, count);
    effects::lemma_after_ends(m, ws);
    effects::lemma_after_step(m, ws, 0);
    effects::lemma_after_step(m, ws, 1);
    effects::lemma_after_step(m, ws, 2);
    effects::lemma_after_step(m, ws, 3);
    effects::lemma_in_front_keeps_blocks(m, ws[0], count);
    effects::lemma_in_front_keeps_blocks(effects::after(m, ws, 1), ws[1], count);
    effects::lemma_in_front_keeps_blocks(effects::after(m, ws, 2), ws[2], count);
    effects::lemma_in_front_keeps_blocks(effects::after(m, ws, 3), ws[3], count);
    effects::lemma_in_front_keeps_blocks(effects::after(m, ws, 4), ws[4], count);
    if m2 != medium::apply_writes(m, ws) {
        let k = choose|k: int| #[trigger] medium::stopped_at(m, ws, k, m2);
        assert(medium::torn(effects::after(m, ws, k), ws[k], m2));
        if k == 0 {
            lemma_torn_byte(m, ws[0], m2);
        } else {
            assert(effects::after(m, ws, k)[0] == JOURNAL_STATE_CLEAN);
            lemma_state_kept(effects::after(m, ws, k), ws[k], m2);
        }
    }
}

/// A protected write is atomic. Wherever it stops, and however its last write to the medium was
/// torn, the medium stands either for the blocks it stood for before, or for those with the whole
/// new block in place.
pub proof fn protected_write_is_atomic(
    m: Seq<u8>,
    count: int,
    lba: u32,
    data: Seq<u8>,
    m2: Seq<u8>,
)
    requires
        effects::roomy(m, count),
        layout::has_magic(layout::header_of(m)),
        replays_elsewhere(m, count),
        layout::protected_range(m, count).has(lba as int),
        !places_metadata(m, lba as int),
        lba < count,
        data.len() == BLOCK_SIZE,
        medium::interrupted(
            m,
            script::journaled_writes(m, count, layout::protected_range(m, count), lba, data),
            m2,
        ),
    ensures
        script::recovered_blocks(m2, count) == script::recovered_blocks(m, count)
            || script::recovered_blocks(m2, count) == script::recovered_blocks(m, count).update(
            lba as int,
            data,
        ),
{
    let range = layout::protected_range(m, count);
    let first = script::recovery_writes(m, count, range);
    let second = script::commit_writes(lba, data);
    let m1 = medium::apply_writes(m, first);
    lemma_after_recovery(m, count);
    medium::lemma_interrupted_split(m, first, second, m2);
    if medium::interrupted(m, first, m2) {
        interrupted_recovery_recovers_the_same(m, count, m2);
    } else {
        lemma_commit_atomic(m1, count, lba, data, m2);
    }
}

/// Once the commit marker is there, the medium stands for the new block, however much of the target
/// block was written.
proof fn lemma_committed(m: Seq<u8>, count: int, lba: u32, data: Seq<u8>, m2: Seq<u8>)
    requires
        effects::roomy(m, count),
        layout::has_magic(layout::header_of(m)),
        layout::protected_range(m, count).has(lba as int),
        !places_metadata(m, lba as int),
        lba < count,
        data.len() == BLOCK_SIZE,
        m2.len() == m.len(),
        m2.take(JOURNAL_RESERVED_BLOCKS * BLOCK_SIZE) == effects::after(
            m,
            script::commit_writes(lba, data),
            7,
        ).take(JOURNAL_RESERVED_BLOCKS * BLOCK_SIZE),
        forall|j: int|
            0 <= j < count && j != lba ==> #[trigger] layout::logical_blocks(m2, count)[j]
                == layout::logical_blocks(m, count)[j],
    ensures
        script::recovered_blocks(m2, count) == layout::logical_blocks(m, count).update(
            lba as int,
            data,
        ),
        script::target_of(m2) == lba,
{
    let marked = effects::after(m, script::commit_writes(lba, data), 7);
    effects::lemma_commit(m, count, lba, data);
    assert(effects::roomy(marked, count));
    lemma_same_front(marked, m2);
    effects::lemma_header_bytes_valid(JOURNAL_STATE_COMMITTED, lba, crc::crc32_of(data));
    effects::lemma_header_fields(m2);
    assert forall|j: int| 0 <= j < count && j != lba implies #[trigger] layout::logical_block(m2, j)
        == layout::logical_block(m, j) by {
        assert(layout::logical_blocks(m2, count)[j] == layout::logical_blocks(m, count)[j]);
    }
    lemma_same_protection(m, m2, count, lba as int);
    assert(script::replays(m2, count, layout::protected_range(m2, count)));
    assert(script::recovered_blocks(m2, count) =~= layout::logical_blocks(m, count).update(
        lba as int,
        data,
    ));
}

/// A protected write on a clean journal that stops at its write `k` leaves the old block before the
/// commit marker, the new one behind it, and either where it stops at the marker.
proof fn lemma_commit_stopped(
    m: Seq<u8>,
    count: int,
    lba: u32,
    data: Seq<u8>,
    k: int,
    m2: Seq<u8>,
)
    requires
        effects::roomy(m, count),
        layout::has_magic(layout::header_of(m)),
        !script::pending(m),
        layout::protected_range(m, count).has(lba as int),
        !places_metadata(m, lba as int),
        lba < count,
        data.len() == BLOCK_SIZE,
        medium::stopped_at(m, script::commit_writes(lba, data), k, m2),
    ensures
        ({
            let blocks = layout::logical_blocks(m, count);
            let found = script::recovered_blocks(m2, count);
            &&& found == blocks || found == blocks.update(lba as int, data)
            &&& k < script::writes_before_marker() ==> found == blocks
            &&& k > script::writes_before_marker() ==> found == blocks.update(lba as int, data)
        }),
        script::pending(m2) ==> script::target_of(m2) == lba,
{
    let ws = script::commit_writes(lba, data);
    effects::lemma_after_ends(m, ws);
    effects::lemma_commit(m, count, lba, data);
    let before = effects::after(m, ws, k);
    assert(medium::torn(before, ws[k], m2));
    effects::lemma_after_step(m, ws, k);
    if k == 0 || k == 6 || k == 8 {
        lemma_torn_byte(before, ws[k], m2);
        effects::lemma_in_front_keeps_blocks(before, ws[k], count);
        if k != 0 && m2[0] == JOURNAL_STATE_COMMITTED {
            lemma_committed(m, count, lba, data, m2);
        } else {
            lemma_settled_blocks(m2, count);
        }
    } else if k == 7 {
        effects::lemma_logical_write(before, lba as int, data, count);
        lemma_committed(m, count, lba, data, m2);
    } else {
        lemma_state_kept(before, ws[k], m2);
        effects::lemma_in_front_keeps_blocks(before, ws[k], count);
        assert(!script::pending(m2));
        lemma_settled_blocks(m2, count);
    }
}

/// A protected write on a clean journal is atomic.
proof fn lemma_commit_atomic(m: Seq<u8>, count: int, lba: u32, data: Seq<u8>, m2: Seq<u8>)
    requires
        effects::roomy(m, count),
        layout::has_magic(layout::header_of(m)),
        !script::pending(m),
        layout::protected_range(m, count).has(lba as int),
        !places_metadata(m, lba as int),
        lba < count,
        data.len() == BLOCK_SIZE,
        medium::interrupted(m, script::commit_writes(lba, data), m2),
    ensures
        script::recovered_blocks(m2, count) == layout::logical_blocks(m, count)
            || script::recovered_blocks(m2, count) == layout::logical_blocks(m, count).update(
            lba as int,
            data,
        ),
        script::pending(m2) ==> script::target_of(m2) == lba,
{
    let ws = script::commit_writes(lba, data);
    if m2 == medium::apply_writes(m, ws) {
        lemma_commit_done(m, count, lba, data);
    } else {
        let k = choose|k: int| #[trigger] medium::stopped_at(m, ws, k, m2);
        lemma_commit_stopped(m, count, lba, data, k, m2);
    }
}

/// A protected write on a clean journal that was completed leaves the new block.
proof fn lemma_commit_done(m: Seq<u8>, count: int, lba: u32, data: Seq<u8>)
    requires
        effects::roomy(m, count),
        layout::has_magic(layout::header_of(m)),
        lba < count,
        data.len() == BLOCK_SIZE,
    ensures
        ({
            let m2 = medium::apply_writes(m, script::commit_writes(lba, data));
            &&& script::recovered_blocks(m2, count) == layout::logical_blocks(m, count).update(
                lba as int,
                data,
            )
            &&& !script::pending(m2)
        }),
{
    let ws = script::commit_writes(lba, data);
    effects::lemma_after_ends(m, ws);
    effects::lemma_commit(m, count, lba, data);
    lemma_settled_blocks(effects::after(m, ws, 10), count);
}

/// A protected write is made once its commit marker is on the medium: wherever it stops from there
/// on, and however much of the target block was written, the medium stands for the new block.
pub proof fn committed_write_is_made(m: Seq<u8>, count: int, lba: u32, data: Seq<u8>, left: Seq<u8>)
    requires
        effects::roomy(m, count),
        layout::has_magic(layout::header_of(m)),
        replays_elsewhere(m, count),
        layout::protected_range(m, count).has(lba as int),
        !places_metadata(m, lba as int),
        lba < count,
        data.len() == BLOCK_SIZE,
        medium::interrupted(
            medium::apply_writes(
                m,
                script::committing_writes(m, count, layout::protected_range(m, count), lba, data),
            ),
            script::finishing_writes(lba, data),
            left,
        ),
    ensures
        script::recovered_blocks(left, count) == script::recovered_blocks(m, count).update(
            lba as int,
            data,
        ),
{
    let range = layout::protected_range(m, count);
    let first = script::recovery_writes(m, count, range);
    let second = script::commit_writes(lba, data);
    let m1 = medium::apply_writes(m, first);
    let n = script::writes_before_marker() + 1;
    lemma_after_recovery(m, count);
    assert(script::committing_writes(m, count, range, lba, data) =~= first + second.take(n));
    medium::lemma_apply_writes_concat(m, first, second.take(n));
    medium::lemma_interrupted_rest(m1, second, n, left);
    if left == medium::apply_writes(m1, second) {
        lemma_commit_done(m1, count, lba, data);
    } else {
        let k = choose|k: int| n <= k && #[trigger] medium::stopped_at(m1, second, k, left);
        lemma_commit_stopped(m1, count, lba, data, k, left);
    }
}

/// A protected write is not made before its commit marker: wherever it stops in front of that, the
/// medium stands for the blocks it stood for before.
pub proof fn uncommitted_write_is_dropped(
    m: Seq<u8>,
    count: int,
    lba: u32,
    data: Seq<u8>,
    left: Seq<u8>,
)
    requires
        effects::roomy(m, count),
        layout::has_magic(layout::header_of(m)),
        replays_elsewhere(m, count),
        layout::protected_range(m, count).has(lba as int),
        !places_metadata(m, lba as int),
        lba < count,
        data.len() == BLOCK_SIZE,
        medium::interrupted(
            m,
            script::preparing_writes(m, count, layout::protected_range(m, count), lba, data),
            left,
        ),
    ensures
        script::recovered_blocks(left, count) == script::recovered_blocks(m, count),
{
    let range = layout::protected_range(m, count);
    let first = script::recovery_writes(m, count, range);
    let second = script::commit_writes(lba, data);
    let m1 = medium::apply_writes(m, first);
    let n = script::writes_before_marker();
    let prepared = second.take(n);
    lemma_after_recovery(m, count);
    medium::lemma_interrupted_split(m, first, prepared, left);
    if medium::interrupted(m, first, left) {
        interrupted_recovery_recovers_the_same(m, count, left);
    } else {
        let k = if left == medium::apply_writes(m1, prepared) {
            n - 1
        } else {
            choose|k: int| #[trigger] medium::stopped_at(m1, prepared, k, left)
        };
        assert(prepared.take(k) =~= second.take(k));
        assert(prepared =~= second.take(n - 1).push(second[n - 1]));
        medium::lemma_apply_writes_push(m1, second.take(n - 1), second[n - 1]);
        assert(medium::stopped_at(m1, second, k, left));
        lemma_commit_stopped(m1, count, lba, data, k, left);
    }
}

/// Finishing a pending write leaves a clean journal that stands for the same blocks.
proof fn lemma_after_recovery(m: Seq<u8>, count: int)
    requires
        effects::roomy(m, count),
        layout::has_magic(layout::header_of(m)),
        replays_elsewhere(m, count),
    ensures
        ({
            let range = layout::protected_range(m, count);
            let m1 = medium::apply_writes(m, script::recovery_writes(m, count, range));
            &&& effects::roomy(m1, count)
            &&& layout::has_magic(layout::header_of(m1))
            &&& !script::pending(m1)
            &&& layout::protected_range(m1, count) == range
            &&& layout::logical_block(m1, 0) == layout::logical_block(m, 0)
            &&& layout::logical_blocks(m1, count) == script::recovered_blocks(m, count)
        }),
{
    let range = layout::protected_range(m, count);
    let m1 = medium::apply_writes(m, script::recovery_writes(m, count, range));
    assert(medium::interrupted(m, script::recovery_writes(m, count, range), m1));
    effects::lemma_recovery(m, count, range);
    interrupted_recovery_recovers_the_same(m, count, m1);
    lemma_settled_blocks(m1, count);
}

/// What waits on a journal that was clean, once a write through it stopped, is that write.
proof fn lemma_commit_pending(m: Seq<u8>, count: int, lba: u32, data: Seq<u8>, m2: Seq<u8>)
    requires
        effects::roomy(m, count),
        layout::has_magic(layout::header_of(m)),
        !script::pending(m),
        lba < count,
        data.len() == BLOCK_SIZE,
        medium::interrupted(m, script::commit_writes(lba, data), m2),
        script::pending(m2),
    ensures
        script::target_of(m2) == lba,
        layout::shadow_of(m2) == data,
{
    let ws = script::commit_writes(lba, data);
    effects::lemma_after_ends(m, ws);
    effects::lemma_commit(m, count, lba, data);
    let marked = effects::after(m, ws, 7);
    assert(effects::roomy(marked, count));
    assert(m2 != effects::after(m, ws, 10));
    let k = choose|k: int| #[trigger] medium::stopped_at(m, ws, k, m2);
    let before = effects::after(m, ws, k);
    assert(medium::torn(before, ws[k], m2));
    effects::lemma_after_step(m, ws, k);
    if k == 0 || k == 6 || k == 8 {
        lemma_torn_byte(before, ws[k], m2);
    } else if k == 7 {
        effects::lemma_logical_write(before, lba as int, data, count);
    } else {
        lemma_state_kept(before, ws[k], m2);
    }
    assert(6 <= k <= 8);
    assert(m2.take(JOURNAL_RESERVED_BLOCKS * BLOCK_SIZE) == marked.take(
        JOURNAL_RESERVED_BLOCKS * BLOCK_SIZE,
    ));
    lemma_same_front(marked, m2);
    effects::lemma_header_bytes_valid(JOURNAL_STATE_COMMITTED, lba, crc::crc32_of(data));
    effects::lemma_header_fields(marked);
}

/// What waits to be replayed once a protected write stopped is what waited before, or that write.
pub proof fn lemma_journaled_pending(
    m: Seq<u8>,
    count: int,
    range: LbaRange,
    lba: u32,
    data: Seq<u8>,
    m2: Seq<u8>,
)
    requires
        effects::roomy(m, count),
        layout::has_magic(layout::header_of(m)),
        lba < count,
        data.len() == BLOCK_SIZE,
        medium::interrupted(m, script::journaled_writes(m, count, range, lba, data), m2),
        script::replays(m2, count, range),
    ensures
        ({
            ||| {
                &&& script::replays(m, count, range)
                &&& script::target_of(m2) == script::target_of(m)
                &&& layout::shadow_of(m2) == layout::shadow_of(m)
            }
            ||| {
                &&& script::target_of(m2) == lba
                &&& layout::shadow_of(m2) == data
            }
        }),
{
    let first = script::recovery_writes(m, count, range);
    let second = script::commit_writes(lba, data);
    let m1 = medium::apply_writes(m, first);
    effects::lemma_recovery(m, count, range);
    medium::lemma_interrupted_split(m, first, second, m2);
    if medium::interrupted(m, first, m2) {
        lemma_recovery_pending(m, count, range, m2);
    } else {
        lemma_commit_pending(m1, count, lba, data, m2);
    }
}

/// What waits to be replayed once a recovery stopped is what waited before.
proof fn lemma_recovery_pending(m: Seq<u8>, count: int, range: LbaRange, m2: Seq<u8>)
    requires
        effects::roomy(m, count),
        medium::interrupted(m, script::recovery_writes(m, count, range), m2),
        script::replays(m2, count, range),
    ensures
        script::replays(m, count, range),
        script::target_of(m2) == script::target_of(m),
        layout::shadow_of(m2) == layout::shadow_of(m),
{
    let target = script::target_of(m);
    let clean = script::clean_writes(target, script::shadow_crc_of(m));
    if script::replays(m, count, range) {
        let w = script::logical_write(target as int, layout::shadow_of(m));
        let m1 = w.apply(m);
        effects::lemma_logical_write(m, target as int, layout::shadow_of(m), count);
        effects::lemma_after_ends(m, seq![w]);
        effects::lemma_after_step(m, seq![w], 0);
        assert(medium::torn(m, w, m1));
        lemma_same_front(m, m1);
        medium::lemma_interrupted_split(m, seq![w], clean, m2);
        if medium::interrupted(m, seq![w], m2) {
            if m2 != m1 {
                let k = choose|k: int| #[trigger] medium::stopped_at(m, seq![w], k, m2);
                assert(medium::torn(effects::after(m, seq![w], 0), w, m2));
                lemma_same_front(m, m2);
            }
        } else {
            lemma_clean_interrupted(m1, count, target, script::shadow_crc_of(m), m2);
        }
    } else if script::pending(m) {
        lemma_clean_interrupted(m, count, target, script::shadow_crc_of(m), m2);
    }
}

/// Protection lasts. Whatever is written to a block that does not place the metadata, and wherever
/// the writing stops, the blocks that hold the metadata are those found at the start, and what
/// waits to be replayed then is not a block that places it either.
pub proof fn protection_lasts(m: Seq<u8>, count: int, lba: u32, data: Seq<u8>, m2: Seq<u8>)
    requires
        effects::roomy(m, count),
        layout::has_magic(layout::header_of(m)),
        replays_elsewhere(m, count),
        !places_metadata(m, lba as int),
        lba < count,
        data.len() == BLOCK_SIZE,
        medium::interrupted(
            m,
            if layout::protected_range(m, count).has(lba as int) {
                script::journaled_writes(m, count, layout::protected_range(m, count), lba, data)
            } else {
                seq![script::logical_write(lba as int, data)]
            },
            m2,
        ),
    ensures
        layout::protected_range(m2, count) == layout::protected_range(m, count),
        replays_elsewhere(m2, count),
        layout::has_magic(layout::header_of(m2)),
        effects::roomy(m2, count),
{
    if layout::protected_range(m, count).has(lba as int) {
        lemma_protection_lasts_journaled(m, count, lba, data, m2);
    } else {
        lemma_protection_lasts_direct(m, count, lba, data, m2);
    }
}

proof fn lemma_protection_lasts_journaled(
    m: Seq<u8>,
    count: int,
    lba: u32,
    data: Seq<u8>,
    m2: Seq<u8>,
)
    requires
        effects::roomy(m, count),
        layout::has_magic(layout::header_of(m)),
        replays_elsewhere(m, count),
        layout::protected_range(m, count).has(lba as int),
        !places_metadata(m, lba as int),
        lba < count,
        data.len() == BLOCK_SIZE,
        medium::interrupted(
            m,
            script::journaled_writes(m, count, layout::protected_range(m, count), lba, data),
            m2,
        ),
    ensures
        layout::protected_range(m2, count) == layout::protected_range(m, count),
        replays_elsewhere(m2, count),
        layout::has_magic(layout::header_of(m2)),
        effects::roomy(m2, count),
{
    let range = layout::protected_range(m, count);
    let first = script::recovery_writes(m, count, range);
    let second = script::commit_writes(lba, data);
    let m1 = medium::apply_writes(m, first);
    assert(medium::interrupted(m, first, m1));
    effects::lemma_recovery(m, count, range);
    interrupted_recovery_recovers_the_same(m, count, m1);
    medium::lemma_interrupted_split(m, first, second, m2);
    if medium::interrupted(m, first, m2) {
        interrupted_recovery_recovers_the_same(m, count, m2);
        effects::lemma_recovery_keeps_magic(m, count, range, m2);
    } else {
        lemma_protection_lasts_committed(m1, count, lba, data, m2);
    }
}

proof fn lemma_protection_lasts_committed(
    m: Seq<u8>,
    count: int,
    lba: u32,
    data: Seq<u8>,
    m2: Seq<u8>,
)
    requires
        effects::roomy(m, count),
        layout::has_magic(layout::header_of(m)),
        !script::pending(m),
        layout::protected_range(m, count).has(lba as int),
        !places_metadata(m, lba as int),
        lba < count,
        data.len() == BLOCK_SIZE,
        medium::interrupted(m, script::commit_writes(lba, data), m2),
    ensures
        layout::protected_range(m2, count) == layout::protected_range(m, count),
        replays_elsewhere(m2, count),
        layout::has_magic(layout::header_of(m2)),
        effects::roomy(m2, count),
{
    lemma_commit_atomic(m, count, lba, data, m2);
    effects::lemma_commit_keeps(m, count, lba, data, m2);
    lemma_same_protection(m, m2, count, lba as int);
}

proof fn lemma_protection_lasts_direct(
    m: Seq<u8>,
    count: int,
    lba: u32,
    data: Seq<u8>,
    m2: Seq<u8>,
)
    requires
        effects::roomy(m, count),
        layout::has_magic(layout::header_of(m)),
        replays_elsewhere(m, count),
        !places_metadata(m, lba as int),
        lba < count,
        data.len() == BLOCK_SIZE,
        medium::interrupted(m, seq![script::logical_write(lba as int, data)], m2),
    ensures
        layout::protected_range(m2, count) == layout::protected_range(m, count),
        replays_elsewhere(m2, count),
        layout::has_magic(layout::header_of(m2)),
        effects::roomy(m2, count),
{
    let w = script::logical_write(lba as int, data);
    unprotected_write_leaves_the_journal(m, count, lba, data, m2);
    effects::lemma_kept_len(m, seq![w], m2);
    effects::lemma_header_fields(m);
    effects::lemma_header_fields(m2);
    assert forall|j: int| 0 <= j < count && j != lba implies #[trigger] layout::logical_block(
        m2,
        j,
    ) == layout::logical_block(m, j) by {
        assert(layout::logical_blocks(m2, count)[j] == layout::logical_blocks(m, count)[j]);
    }
    lemma_same_protection(m, m2, count, lba as int);
}

/// A completed protected write stands on the medium: the journal is clean again and the block is
/// in place, so a restart reads it back and no other block has changed.
pub proof fn protected_write_is_durable(m: Seq<u8>, count: int, lba: u32, data: Seq<u8>)
    requires
        effects::roomy(m, count),
        layout::has_magic(layout::header_of(m)),
        lba < count,
        data.len() == BLOCK_SIZE,
    ensures
        ({
            let range = layout::protected_range(m, count);
            let m2 = medium::apply_writes(
                m,
                script::journaled_writes(m, count, range, lba, data),
            );
            &&& !script::pending(m2)
            &&& layout::header_valid(layout::header_of(m2))
            &&& script::recovered_blocks(m2, count) == script::recovered_blocks(m, count).update(
                lba as int,
                data,
            )
        }),
{
    let range = layout::protected_range(m, count);
    let m2 = medium::apply_writes(m, script::journaled_writes(m, count, range, lba, data));
    effects::lemma_journaled(m, count, range, lba, data, m2);
    lemma_settled_blocks(m2, count);
}

/// Starting up settles the journal: a second start makes no write and finds the same blocks.
pub proof fn initialization_is_idempotent(m: Seq<u8>, count: int)
    requires
        effects::roomy(m, count),
    ensures
        ({
            let m2 = medium::apply_writes(m, script::initialize_writes(m, count));
            &&& script::initialize_writes(m2, count).len() == 0
            &&& script::recovered_blocks(m2, count) == script::recovered_blocks(m, count)
            &&& layout::logical_blocks(m2, count) == script::recovered_blocks(m, count)
        }),
{
    let first = script::header_writes(m);
    let m1 = medium::apply_writes(m, first);
    let range = layout::protected_range(m, count);
    let second = script::recovery_writes(m1, count, range);
    let m2 = medium::apply_writes(m1, second);
    medium::lemma_apply_writes_concat(m, first, second);
    effects::lemma_with_header(m, count);
    effects::lemma_recovery(m1, count, range);
    lemma_settled_blocks(m2, count);
    assert(script::header_writes(m2) =~= Seq::empty());
    assert(medium::apply_writes(m2, script::header_writes(m2)) == m2);
    assert(script::initialize_writes(m2, count) =~= Seq::empty());
}

/// A write to an unprotected block leaves the journal alone, torn or not, and no other block
/// changes.
pub proof fn unprotected_write_leaves_the_journal(
    m: Seq<u8>,
    count: int,
    lba: u32,
    data: Seq<u8>,
    m2: Seq<u8>,
)
    requires
        effects::roomy(m, count),
        lba < count,
        data.len() == BLOCK_SIZE,
        medium::interrupted(m, seq![script::logical_write(lba as int, data)], m2),
    ensures
        layout::header_of(m2) == layout::header_of(m),
        layout::shadow_of(m2) == layout::shadow_of(m),
        forall|j: int|
            0 <= j < count && j != lba ==> #[trigger] layout::logical_blocks(m2, count)[j]
                == layout::logical_blocks(m, count)[j],
{
    let w = script::logical_write(lba as int, data);
    effects::lemma_after_ends(m, seq![w]);
    effects::lemma_after_step(m, seq![w], 0);
    if m2 != medium::apply_writes(m, seq![w]) {
        let k = choose|k: int| #[trigger] medium::stopped_at(m, seq![w], k, m2);
        assert(medium::torn(effects::after(m, seq![w], 0), w, m2));
    } else {
        assert(medium::torn(m, w, m2));
    }
    effects::lemma_logical_write(m, lba as int, data, count);
    lemma_same_front(m, m2);
    effects::lemma_passthrough(m, count, lba, data, m2);
}

} // verus!
