//! The medium as a byte string: its blocks, the writes made to it, and what an interrupted
//! sequence of writes leaves behind.

use vstd::prelude::*;
use crate::bytes;

verus! {

/// Bytes in one block, logical or physical.
pub const BLOCK_SIZE: usize = 512;

/// Block `index` of the medium `m`.
pub open spec fn block_at(m: Seq<u8>, index: int) -> Seq<u8> {
    m.subrange(index * BLOCK_SIZE, index * BLOCK_SIZE + BLOCK_SIZE)
}

/// A write of `data` to the bytes from `address` on.
#[verifier::ext_equal]
pub struct MediumWrite {
    pub address: int,
    pub data: Seq<u8>,
}

impl MediumWrite {
    /// The write of a whole physical block.
    pub open spec fn block(index: int, data: Seq<u8>) -> MediumWrite {
        MediumWrite { address: index * BLOCK_SIZE, data }
    }

    /// Whether address `i` is among those written.
    pub open spec fn covers(self, i: int) -> bool {
        self.address <= i < self.address + self.data.len()
    }

    /// Whether the write stays inside the medium.
    pub open spec fn fits(self, m: Seq<u8>) -> bool {
        0 <= self.address && self.address + self.data.len() <= m.len()
    }

    /// The medium after the whole write.
    pub open spec fn apply(self, m: Seq<u8>) -> Seq<u8> {
        bytes::splice(m, self.address, self.data)
    }
}

/// The medium after all of `ws`, in order.
pub open spec fn apply_writes(m: Seq<u8>, ws: Seq<MediumWrite>) -> Seq<u8>
    decreases ws.len(),
{
    if ws.len() == 0 {
        m
    } else {
        ws.last().apply(apply_writes(m, ws.drop_last()))
    }
}

/// `after` is what an interrupted write `w` can leave of `before`: each byte it covers is either
/// still the old one or already the new one, and no other byte has changed.
pub open spec fn torn(before: Seq<u8>, w: MediumWrite, after: Seq<u8>) -> bool {
    &&& after.len() == before.len()
    &&& forall|i: int|
        0 <= i < before.len() ==> #[trigger] after[i] == before[i] || (w.covers(i) && after[i]
            == w.data[i - w.address])
}

/// `after` is what the sequence `ws` leaves of `m` when it stops at write `k`: the writes before
/// it are complete, and it may be torn itself.
pub open spec fn stopped_at(m: Seq<u8>, ws: Seq<MediumWrite>, k: int, after: Seq<u8>) -> bool {
    &&& 0 <= k < ws.len()
    &&& torn(apply_writes(m, ws.take(k)), ws[k], after)
}

/// `after` is what the sequence `ws` can leave of `m`, wherever it stops.
pub open spec fn interrupted(m: Seq<u8>, ws: Seq<MediumWrite>, after: Seq<u8>) -> bool {
    ||| after == apply_writes(m, ws)
    ||| exists|k: int| #[trigger] stopped_at(m, ws, k, after)
}

/// Writes keep the size of the medium.
pub proof fn lemma_apply_writes_len(m: Seq<u8>, ws: Seq<MediumWrite>)
    ensures
        apply_writes(m, ws).len() == m.len(),
    decreases ws.len(),
{
    if ws.len() > 0 {
        lemma_apply_writes_len(m, ws.drop_last());
    }
}

/// One more write acts on what the others have left.
pub proof fn lemma_apply_writes_push(m: Seq<u8>, ws: Seq<MediumWrite>, w: MediumWrite)
    ensures
        apply_writes(m, ws.push(w)) == w.apply(apply_writes(m, ws)),
{
    assert(ws.push(w).drop_last() =~= ws);
}

/// Two sequences of writes, one after the other, act as their concatenation.
pub proof fn lemma_apply_writes_concat(m: Seq<u8>, a: Seq<MediumWrite>, b: Seq<MediumWrite>)
    ensures
        apply_writes(m, a + b) == apply_writes(apply_writes(m, a), b),
    decreases b.len(),
{
    if b.len() == 0 {
        assert(a + b =~= a);
    } else {
        lemma_apply_writes_concat(m, a, b.drop_last());
        assert((a + b).drop_last() =~= a + b.drop_last());
    }
}

/// A concatenation that stops has stopped in its first or in its second part.
pub proof fn lemma_interrupted_split(
    m: Seq<u8>,
    a: Seq<MediumWrite>,
    b: Seq<MediumWrite>,
    after: Seq<u8>,
)
    requires
        interrupted(m, a + b, after),
    ensures
        interrupted(m, a, after) || interrupted(apply_writes(m, a), b, after),
{
    lemma_apply_writes_concat(m, a, b);
    if exists|k: int| #[trigger] stopped_at(m, a + b, k, after) {
        let k = choose|k: int| #[trigger] stopped_at(m, a + b, k, after);
        if k < a.len() {
            assert((a + b).take(k) =~= a.take(k));
            assert(stopped_at(m, a, k, after));
        } else {
            assert((a + b).take(k) =~= a + b.take(k - a.len()));
            lemma_apply_writes_concat(m, a, b.take(k - a.len()));
            assert(stopped_at(apply_writes(m, a), b, k - a.len(), after));
        }
    }
}

/// A sequence that stops once its first `n` writes are complete has stopped at a later one.
pub proof fn lemma_interrupted_rest(m: Seq<u8>, ws: Seq<MediumWrite>, n: int, after: Seq<u8>)
    requires
        0 <= n <= ws.len(),
        interrupted(apply_writes(m, ws.take(n)), ws.skip(n), after),
    ensures
        after == apply_writes(m, ws) || exists|k: int|
            n <= k && #[trigger] stopped_at(m, ws, k, after),
{
    let first = apply_writes(m, ws.take(n));
    let rest = ws.skip(n);
    assert(ws.take(n) + rest =~= ws);
    lemma_apply_writes_concat(m, ws.take(n), rest);
    if after != apply_writes(first, rest) {
        let j = choose|j: int| #[trigger] stopped_at(first, rest, j, after);
        assert(ws.take(n + j) =~= ws.take(n) + rest.take(j));
        lemma_apply_writes_concat(m, ws.take(n), rest.take(j));
        assert(stopped_at(m, ws, n + j, after));
    }
}

} // verus!
