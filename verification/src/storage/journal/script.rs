//! The writes that the journal makes, as sequences of values.

use vstd::prelude::*;
use crate::bytes;
use crate::storage::backend::BackendCall;
use crate::storage::journal::crc;
use crate::storage::journal::layout::{
    self, LbaRange, JOURNAL_HEADER_CRC_OFFSET, JOURNAL_HEADER_LEN, JOURNAL_HEADER_MAGIC_OFFSET,
    JOURNAL_HEADER_SHADOW_CRC_OFFSET, JOURNAL_HEADER_STATE_OFFSET, JOURNAL_HEADER_TARGET_LBA_OFFSET,
    JOURNAL_MAGIC, JOURNAL_RESERVED_BLOCKS, JOURNAL_STATE_CLEAN, JOURNAL_STATE_COMMITTED,
};
use crate::storage::medium::{self, MediumWrite, BLOCK_SIZE};

verus! {

/// The write of the state byte.
pub open spec fn state_write(state: u8) -> MediumWrite {
    MediumWrite { address: JOURNAL_HEADER_STATE_OFFSET as int, data: seq![state] }
}

/// The write of the magic.
pub open spec fn magic_write() -> MediumWrite {
    MediumWrite { address: JOURNAL_HEADER_MAGIC_OFFSET as int, data: JOURNAL_MAGIC@ }
}

/// The write of the target address.
pub open spec fn target_write(lba: u32) -> MediumWrite {
    MediumWrite {
        address: JOURNAL_HEADER_TARGET_LBA_OFFSET as int,
        data: bytes::le32_bytes(lba),
    }
}

/// The write of the shadow block's CRC.
pub open spec fn shadow_crc_write(crc: u32) -> MediumWrite {
    MediumWrite {
        address: JOURNAL_HEADER_SHADOW_CRC_OFFSET as int,
        data: bytes::le32_bytes(crc),
    }
}

/// The write of the header's CRC, for a header with the given fields.
pub open spec fn header_crc_write(state: u8, lba: u32, shadow_crc: u32) -> MediumWrite {
    MediumWrite {
        address: JOURNAL_HEADER_CRC_OFFSET as int,
        data: bytes::le32_bytes(crc::crc32_of(layout::header_body(state, lba, shadow_crc))),
    }
}

/// The write of the shadow block.
pub open spec fn shadow_write(data: Seq<u8>) -> MediumWrite {
    MediumWrite::block(1, data)
}

/// The write of a logical block.
pub open spec fn logical_write(lba: int, data: Seq<u8>) -> MediumWrite {
    MediumWrite::block(JOURNAL_RESERVED_BLOCKS + lba, data)
}

/// Whether a committed write waits on the medium.
pub open spec fn pending(m: Seq<u8>) -> bool {
    m[0] == JOURNAL_STATE_COMMITTED
}

/// The block that the journal header names.
pub open spec fn target_of(m: Seq<u8>) -> u32 {
    bytes::le32_at(m, JOURNAL_HEADER_TARGET_LBA_OFFSET as int) as u32
}

/// The CRC that the journal header gives for the shadow block.
pub open spec fn shadow_crc_of(m: Seq<u8>) -> u32 {
    bytes::le32_at(m, JOURNAL_HEADER_SHADOW_CRC_OFFSET as int) as u32
}

/// Whether the pending write is to be replayed: the header can be trusted, it names a protected
/// block of the medium, and the shadow block is the one that was committed.
pub open spec fn replays(m: Seq<u8>, count: int, range: LbaRange) -> bool {
    &&& pending(m)
    &&& layout::header_valid(layout::header_of(m))
    &&& target_of(m) < count
    &&& range.has(target_of(m) as int)
    &&& crc::crc32_of(layout::shadow_of(m)) == shadow_crc_of(m)
}

/// The writes that mark the journal clean, leaving the other header fields.
pub open spec fn clean_writes(lba: u32, shadow_crc: u32) -> Seq<MediumWrite> {
    seq![state_write(JOURNAL_STATE_CLEAN), header_crc_write(JOURNAL_STATE_CLEAN, lba, shadow_crc)]
}

/// The writes that make a header from nothing.
pub open spec fn reset_writes() -> Seq<MediumWrite> {
    seq![
        state_write(JOURNAL_STATE_CLEAN),
        magic_write(),
        target_write(0),
        shadow_crc_write(0),
        header_crc_write(JOURNAL_STATE_CLEAN, 0, 0),
    ]
}

/// The writes with which initialization makes sure of a header that can be trusted.
pub open spec fn header_writes(m: Seq<u8>) -> Seq<MediumWrite> {
    if layout::header_valid(layout::header_of(m)) {
        Seq::empty()
    } else {
        reset_writes()
    }
}

/// The writes that finish, or drop, a pending write.
pub open spec fn recovery_writes(m: Seq<u8>, count: int, range: LbaRange) -> Seq<MediumWrite> {
    if !pending(m) {
        Seq::empty()
    } else if replays(m, count, range) {
        seq![logical_write(target_of(m) as int, layout::shadow_of(m))] + clean_writes(
            target_of(m),
            shadow_crc_of(m),
        )
    } else {
        clean_writes(target_of(m), shadow_crc_of(m))
    }
}

/// The writes of initialization.
pub open spec fn initialize_writes(m: Seq<u8>, count: int) -> Seq<MediumWrite> {
    let with_header = medium::apply_writes(m, header_writes(m));
    header_writes(m) + recovery_writes(
        with_header,
        count,
        layout::protected_range(m, count),
    )
}

/// The writes of a journaled write of `data` to `lba` on a clean journal. The single-byte commit
/// marker comes after everything that a replay needs, and before the target block.
pub open spec fn commit_writes(lba: u32, data: Seq<u8>) -> Seq<MediumWrite> {
    let shadow_crc = crc::crc32_of(data);
    seq![
        state_write(JOURNAL_STATE_CLEAN),
        target_write(lba),
        shadow_crc_write(shadow_crc),
        header_crc_write(JOURNAL_STATE_CLEAN, lba, shadow_crc),
        shadow_write(data),
        header_crc_write(JOURNAL_STATE_COMMITTED, lba, shadow_crc),
        state_write(JOURNAL_STATE_COMMITTED),
        logical_write(lba as int, data),
        state_write(JOURNAL_STATE_CLEAN),
        header_crc_write(JOURNAL_STATE_CLEAN, lba, shadow_crc),
    ]
}

/// The writes of a journaled write on any journal: what is pending comes first.
pub open spec fn journaled_writes(
    m: Seq<u8>,
    count: int,
    range: LbaRange,
    lba: u32,
    data: Seq<u8>,
) -> Seq<MediumWrite> {
    recovery_writes(m, count, range) + commit_writes(lba, data)
}

/// How many of the writes of `commit_writes` come before the commit marker.
pub open spec fn writes_before_marker() -> int {
    6
}

/// The writes of a journaled write that come before its commit marker.
pub open spec fn preparing_writes(
    m: Seq<u8>,
    count: int,
    range: LbaRange,
    lba: u32,
    data: Seq<u8>,
) -> Seq<MediumWrite> {
    recovery_writes(m, count, range) + commit_writes(lba, data).take(writes_before_marker())
}

/// The writes of a journaled write up to its commit marker, and that with them.
pub open spec fn committing_writes(
    m: Seq<u8>,
    count: int,
    range: LbaRange,
    lba: u32,
    data: Seq<u8>,
) -> Seq<MediumWrite> {
    preparing_writes(m, count, range, lba, data).push(state_write(JOURNAL_STATE_COMMITTED))
}

/// The writes of a journaled write that come behind its commit marker.
pub open spec fn finishing_writes(lba: u32, data: Seq<u8>) -> Seq<MediumWrite> {
    commit_writes(lba, data).skip(writes_before_marker() + 1)
}

/// The logical blocks that the medium stands for: those on it, with a write that is to be replayed
/// already made.
pub open spec fn recovered_blocks(m: Seq<u8>, count: int) -> Seq<Seq<u8>> {
    if replays(m, count, layout::protected_range(m, count)) {
        layout::logical_blocks(m, count).update(target_of(m) as int, layout::shadow_of(m))
    } else {
        layout::logical_blocks(m, count)
    }
}

/// The call that makes a write: a whole block is written as such, and less as bytes.
pub open spec fn write_call(w: MediumWrite) -> BackendCall {
    if w.data.len() == BLOCK_SIZE {
        BackendCall::WritePhysicalBlock {
            block_index: (w.address / BLOCK_SIZE as int) as u32,
            data: w.data,
        }
    } else {
        BackendCall::WriteBytes { address: w.address as usize, data: w.data }
    }
}

/// The calls that make the writes `ws`.
pub open spec fn write_calls(ws: Seq<MediumWrite>) -> Seq<BackendCall> {
    Seq::new(ws.len(), |i: int| write_call(ws[i]))
}

/// The call that reads the journal header.
pub open spec fn header_read() -> BackendCall {
    BackendCall::ReadBytes {
        address: JOURNAL_HEADER_STATE_OFFSET,
        len: JOURNAL_HEADER_LEN as nat,
    }
}

/// The call that reads a logical block.
pub open spec fn logical_read(lba: int) -> BackendCall {
    BackendCall::ReadPhysicalBlock { block_index: (JOURNAL_RESERVED_BLOCKS + lba) as u32 }
}

/// The calls with which initialization makes sure of a header that can be trusted.
pub open spec fn header_calls(m: Seq<u8>) -> Seq<BackendCall> {
    seq![header_read()] + write_calls(header_writes(m))
}

/// The calls that find out which blocks to protect: the partition table is read, and the boot
/// sector where there is one on the medium.
pub open spec fn detect_calls(m: Seq<u8>, count: int) -> Seq<BackendCall> {
    let mbr = layout::logical_block(m, 0);
    let volume = layout::partition_start(mbr);
    if layout::partition_blocks(mbr, count) == 0 || volume >= count {
        seq![logical_read(0)]
    } else {
        seq![logical_read(0), logical_read(volume)]
    }
}

/// Whether the header of a pending write leaves it to the shadow block whether that is replayed.
pub open spec fn looks_at_shadow(m: Seq<u8>, count: int, range: LbaRange) -> bool {
    &&& pending(m)
    &&& layout::header_valid(layout::header_of(m))
    &&& target_of(m) < count
    &&& range.has(target_of(m) as int)
}

/// The reads before a pending write is finished, or dropped.
pub open spec fn recovery_reads(m: Seq<u8>, count: int, range: LbaRange) -> Seq<BackendCall> {
    if looks_at_shadow(m, count, range) {
        seq![header_read(), BackendCall::ReadPhysicalBlock { block_index: 1 }]
    } else {
        seq![header_read()]
    }
}

/// The calls that finish, or drop, a pending write.
pub open spec fn recovery_calls(m: Seq<u8>, count: int, range: LbaRange) -> Seq<BackendCall> {
    recovery_reads(m, count, range) + write_calls(recovery_writes(m, count, range))
}

/// The calls of initialization.
pub open spec fn initialize_calls(m: Seq<u8>, count: int) -> Seq<BackendCall> {
    let with_header = medium::apply_writes(m, header_writes(m));
    header_calls(m) + detect_calls(with_header, count) + recovery_calls(
        with_header,
        count,
        layout::protected_range(m, count),
    )
}

/// The calls of a journaled write.
pub open spec fn journaled_calls(
    m: Seq<u8>,
    count: int,
    range: LbaRange,
    lba: u32,
    data: Seq<u8>,
) -> Seq<BackendCall> {
    recovery_calls(m, count, range) + write_calls(commit_writes(lba, data))
}

/// The log of calls after the calls `cs` were to be made: all of them were made where that
/// succeeds, and a first part of them, at least one, where it fails.
pub open spec fn called<T, E>(
    calls0: Seq<BackendCall>,
    cs: Seq<BackendCall>,
    calls: Seq<BackendCall>,
    r: Result<T, E>,
) -> bool {
    match r {
        Ok(_) => calls == calls0 + cs,
        Err(_) => exists|k: int| 0 < k <= cs.len() && calls == calls0 + #[trigger] cs.take(k),
    }
}

/// The calls of one more write follow those of the writes before it.
pub proof fn lemma_write_calls(calls0: Seq<BackendCall>, ws: Seq<MediumWrite>, k: int)
    requires
        0 <= k < ws.len(),
    ensures
        calls0 + write_calls(ws.take(k + 1)) == (calls0 + write_calls(ws.take(k))).push(
            write_call(ws[k]),
        ),
        calls0 + write_calls(ws.take(k + 1)) == calls0 + write_calls(ws).take(k + 1),
{
    assert(write_calls(ws.take(k + 1)) =~= write_calls(ws.take(k)).push(write_call(ws[k])));
    assert(calls0 + write_calls(ws.take(k)).push(write_call(ws[k])) =~= (calls0 + write_calls(
        ws.take(k),
    )).push(write_call(ws[k])));
    assert(write_calls(ws.take(k + 1)) =~= write_calls(ws).take(k + 1));
}

/// Calls made after others are the calls of both.
pub proof fn lemma_called_then<T, E>(
    calls0: Seq<BackendCall>,
    a: Seq<BackendCall>,
    b: Seq<BackendCall>,
    calls: Seq<BackendCall>,
    r: Result<T, E>,
)
    requires
        called(calls0 + a, b, calls, r),
    ensures
        called(calls0, a + b, calls, r),
{
    match r {
        Ok(_) => {
            assert(calls0 + a + b =~= calls0 + (a + b));
        },
        Err(_) => {
            let k = choose|k: int|
                0 < k <= b.len() && calls == calls0 + a + #[trigger] b.take(k);
            assert((a + b).take(a.len() + k) =~= a + b.take(k));
            assert(calls0 + a + b.take(k) =~= calls0 + (a + b.take(k)));
        },
    }
}

/// First calls that fail are the calls of both that fail.
pub proof fn lemma_called_not_further<T, E>(
    calls0: Seq<BackendCall>,
    a: Seq<BackendCall>,
    b: Seq<BackendCall>,
    calls: Seq<BackendCall>,
    r: Result<T, E>,
)
    requires
        r is Err,
        called(calls0, a, calls, r),
    ensures
        called(calls0, a + b, calls, r),
{
    let k = choose|k: int| 0 < k <= a.len() && calls == calls0 + #[trigger] a.take(k);
    assert((a + b).take(k) =~= a.take(k));
}

/// `k` of the writes `ws` were made: the medium and the log of writes show it.
pub open spec fn progressed(
    m0: Seq<u8>,
    log0: Seq<MediumWrite>,
    ws: Seq<MediumWrite>,
    k: int,
    m: Seq<u8>,
    log: Seq<MediumWrite>,
) -> bool {
    &&& 0 <= k <= ws.len()
    &&& m == medium::apply_writes(m0, ws.take(k))
    &&& log == log0 + ws.take(k)
}

/// Of the writes `ws`, the first `k` were attempted; all of them were made, or all but the last,
/// which may be torn.
pub open spec fn attempted(
    m0: Seq<u8>,
    log0: Seq<MediumWrite>,
    ws: Seq<MediumWrite>,
    k: int,
    m: Seq<u8>,
    log: Seq<MediumWrite>,
) -> bool {
    &&& 0 <= k <= ws.len()
    &&& log == log0 + ws.take(k)
    &&& m == medium::apply_writes(m0, ws.take(k)) || medium::stopped_at(m0, ws, k - 1, m)
}

/// What a run of the writes `ws` leaves: all of them where it succeeds, and some first part of
/// them where it fails.
pub open spec fn ran<T, E>(
    m0: Seq<u8>,
    log0: Seq<MediumWrite>,
    ws: Seq<MediumWrite>,
    m: Seq<u8>,
    log: Seq<MediumWrite>,
    r: Result<T, E>,
) -> bool {
    match r {
        Ok(_) => m == medium::apply_writes(m0, ws) && log == log0 + ws,
        Err(_) => exists|k: int| #[trigger] attempted(m0, log0, ws, k, m, log),
    }
}

/// A run that failed was interrupted.
pub proof fn lemma_attempted_is_interrupted(
    m0: Seq<u8>,
    log0: Seq<MediumWrite>,
    ws: Seq<MediumWrite>,
    k: int,
    m: Seq<u8>,
    log: Seq<MediumWrite>,
)
    requires
        attempted(m0, log0, ws, k, m, log),
    ensures
        medium::interrupted(m0, ws, m),
{
    if !medium::stopped_at(m0, ws, k - 1, m) {
        if k == ws.len() {
            assert(ws.take(k) =~= ws);
        } else {
            assert(medium::stopped_at(m0, ws, k, m));
        }
    }
}

/// A run that was attempted past its first `n` writes was interrupted behind them.
pub proof fn lemma_attempted_past(
    m0: Seq<u8>,
    log0: Seq<MediumWrite>,
    ws: Seq<MediumWrite>,
    k: int,
    m: Seq<u8>,
    log: Seq<MediumWrite>,
    n: int,
)
    requires
        attempted(m0, log0, ws, k, m, log),
        0 <= n < k,
    ensures
        medium::interrupted(medium::apply_writes(m0, ws.take(n)), ws.skip(n), m),
{
    let first = medium::apply_writes(m0, ws.take(n));
    let rest = ws.skip(n);
    assert(ws.take(n) + rest.take(k - n) =~= ws.take(k));
    assert(ws.take(n) + rest.take(k - 1 - n) =~= ws.take(k - 1));
    medium::lemma_apply_writes_concat(m0, ws.take(n), rest.take(k - n));
    medium::lemma_apply_writes_concat(m0, ws.take(n), rest.take(k - 1 - n));
    if medium::stopped_at(m0, ws, k - 1, m) {
        assert(medium::stopped_at(first, rest, k - 1 - n, m));
    } else if k == ws.len() {
        assert(rest.take(k - n) =~= rest);
    } else {
        assert(medium::stopped_at(first, rest, k - n, m));
    }
}

/// A run that failed is a longer run that failed at the same place.
pub proof fn lemma_attempted_prefix(
    m0: Seq<u8>,
    log0: Seq<MediumWrite>,
    a: Seq<MediumWrite>,
    b: Seq<MediumWrite>,
    k: int,
    m: Seq<u8>,
    log: Seq<MediumWrite>,
)
    requires
        attempted(m0, log0, a, k, m, log),
    ensures
        attempted(m0, log0, a + b, k, m, log),
{
    assert((a + b).take(k) =~= a.take(k));
    if k > 0 {
        assert((a + b).take(k - 1) =~= a.take(k - 1));
    }
}

/// A run that failed after another was completed is the run of both that failed there.
pub proof fn lemma_attempted_suffix(
    m0: Seq<u8>,
    log0: Seq<MediumWrite>,
    a: Seq<MediumWrite>,
    b: Seq<MediumWrite>,
    k: int,
    m: Seq<u8>,
    log: Seq<MediumWrite>,
)
    requires
        attempted(medium::apply_writes(m0, a), log0 + a, b, k, m, log),
    ensures
        attempted(m0, log0, a + b, a.len() + k, m, log),
{
    assert((a + b).take(a.len() + k) =~= a + b.take(k));
    assert(log0 + a + b.take(k) =~= log0 + (a + b.take(k)));
    medium::lemma_apply_writes_concat(m0, a, b.take(k));
    if k > 0 {
        assert((a + b).take(a.len() + k - 1) =~= a + b.take(k - 1));
        medium::lemma_apply_writes_concat(m0, a, b.take(k - 1));
    }
}

/// One run after another is the run of both.
pub proof fn lemma_ran_then<T, E>(
    m0: Seq<u8>,
    log0: Seq<MediumWrite>,
    a: Seq<MediumWrite>,
    b: Seq<MediumWrite>,
    m: Seq<u8>,
    log: Seq<MediumWrite>,
    r: Result<T, E>,
)
    requires
        ran(medium::apply_writes(m0, a), log0 + a, b, m, log, r),
    ensures
        ran(m0, log0, a + b, m, log, r),
{
    match r {
        Ok(_) => {
            medium::lemma_apply_writes_concat(m0, a, b);
            assert(log0 + a + b =~= log0 + (a + b));
        },
        Err(_) => {
            let k = choose|k: int|
                #[trigger] attempted(medium::apply_writes(m0, a), log0 + a, b, k, m, log);
            lemma_attempted_suffix(m0, log0, a, b, k, m, log);
        },
    }
}

/// A first run that fails is the run of both that fails.
pub proof fn lemma_ran_not_further<T, E>(
    m0: Seq<u8>,
    log0: Seq<MediumWrite>,
    a: Seq<MediumWrite>,
    b: Seq<MediumWrite>,
    m: Seq<u8>,
    log: Seq<MediumWrite>,
    r: Result<T, E>,
)
    requires
        r is Err,
        ran(m0, log0, a, m, log, r),
    ensures
        ran(m0, log0, a + b, m, log, r),
{
    let k = choose|k: int| #[trigger] attempted(m0, log0, a, k, m, log);
    lemma_attempted_prefix(m0, log0, a, b, k, m, log);
}

/// Whatever a run leaves, the sequence can leave where it stops.
pub proof fn lemma_ran_interrupted<T, E>(
    m0: Seq<u8>,
    log0: Seq<MediumWrite>,
    ws: Seq<MediumWrite>,
    m: Seq<u8>,
    log: Seq<MediumWrite>,
    r: Result<T, E>,
)
    requires
        ran(m0, log0, ws, m, log, r),
    ensures
        medium::interrupted(m0, ws, m),
{
    if r is Err {
        let k = choose|k: int| #[trigger] attempted(m0, log0, ws, k, m, log);
        lemma_attempted_is_interrupted(m0, log0, ws, k, m, log);
    }
}

} // verus!
