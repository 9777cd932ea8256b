//! How data is cut into packets, and joined again.

use vstd::prelude::*;
use crate::usb::constants::USB_PACKET_SIZE;

verus! {

/// How many packets `len` bytes take.
pub open spec fn packet_count(len: int) -> int {
    (len + USB_PACKET_SIZE - 1) / USB_PACKET_SIZE as int
}

/// The packets that carry `data`: all of them full but the last.
pub open spec fn packets_of(data: Seq<u8>) -> Seq<Seq<u8>> {
    Seq::new(
        packet_count(data.len() as int) as nat,
        |i: int|
            data.subrange(
                USB_PACKET_SIZE * i,
                if USB_PACKET_SIZE * i + USB_PACKET_SIZE < data.len() {
                    USB_PACKET_SIZE * i + USB_PACKET_SIZE
                } else {
                    data.len() as int
                },
            ),
    )
}

/// What packets carry.
pub open spec fn joined(packets: Seq<Seq<u8>>) -> Seq<u8>
    decreases packets.len(),
{
    if packets.len() == 0 {
        Seq::empty()
    } else {
        joined(packets.drop_last()) + packets.last()
    }
}

/// As much of `data` as a host takes that expects `expected` bytes.
pub open spec fn clipped(data: Seq<u8>, expected: int) -> Seq<u8> {
    if data.len() <= expected {
        data
    } else {
        data.take(expected)
    }
}

/// Whether `len` bytes need an empty packet behind them: the host expects more, and no short packet
/// tells it that no more comes.
pub open spec fn needs_empty_packet(len: int, expected: int, expects_in: bool) -> bool {
    expects_in && 0 < len < expected && len % USB_PACKET_SIZE as int == 0
}

/// The packets of a bulk-IN data phase with `data` to send.
pub open spec fn in_packets(data: Seq<u8>, expected: int, expects_in: bool) -> Seq<Seq<u8>> {
    let sent = clipped(data, expected);
    packets_of(sent) + if needs_empty_packet(sent.len() as int, expected, expects_in) {
        seq![Seq::empty()]
    } else {
        Seq::empty()
    }
}

/// The first packet, and the rest.
pub proof fn lemma_first_packet(data: Seq<u8>, n: int)
    requires
        0 < n <= data.len(),
        n == USB_PACKET_SIZE || (n < USB_PACKET_SIZE && n == data.len()),
    ensures
        packets_of(data) == seq![data.take(n)] + packets_of(data.skip(n)),
{
    let rest = data.skip(n);
    let all = seq![data.take(n)] + packets_of(rest);
    assert(packets_of(data).len() == all.len());
    assert forall|i: int| 0 <= i < all.len() implies #[trigger] packets_of(data)[i] == all[i] by {
        if i == 0 {
            assert(packets_of(data)[0] =~= data.take(n));
        } else {
            assert(all[i] == packets_of(rest)[i - 1]);
            assert(packets_of(data)[i] =~= packets_of(rest)[i - 1]);
        }
    }
    assert(packets_of(data) =~= all);
}

/// Joining one more packet appends what it carries.
pub proof fn lemma_joined_push(packets: Seq<Seq<u8>>, packet: Seq<u8>)
    ensures
        joined(packets.push(packet)) == joined(packets) + packet,
{
    assert(packets.push(packet).drop_last() =~= packets);
}

/// Joining two sequences of packets joins what they carry.
pub proof fn lemma_joined_concat(a: Seq<Seq<u8>>, b: Seq<Seq<u8>>)
    ensures
        joined(a + b) == joined(a) + joined(b),
    decreases b.len(),
{
    if b.len() == 0 {
        assert(a + b =~= a);
        assert(joined(a) + joined(b) =~= joined(a));
    } else {
        lemma_joined_concat(a, b.drop_last());
        assert((a + b).drop_last() =~= a + b.drop_last());
        assert(joined(a) + joined(b.drop_last()) + b.last() =~= joined(a) + (joined(b.drop_last())
            + b.last()));
    }
}

/// The packets that carry data carry that data.
pub proof fn packets_carry_the_data(data: Seq<u8>)
    ensures
        joined(packets_of(data)) == data,
    decreases data.len(),
{
    if data.len() == 0 {
        assert(joined(packets_of(data)) =~= data);
    } else {
        let n = if data.len() < USB_PACKET_SIZE {
            data.len() as int
        } else {
            USB_PACKET_SIZE as int
        };
        lemma_first_packet(data, n);
        packets_carry_the_data(data.skip(n));
        let first = seq![data.take(n)];
        lemma_joined_concat(first, packets_of(data.skip(n)));
        assert(first.drop_last() =~= Seq::empty());
        assert(joined(first) =~= data.take(n)) by {
            assert(joined(first.drop_last()) =~= Seq::empty());
        }
        assert(data.take(n) + data.skip(n) =~= data);
    }
}

/// A bulk-IN data phase carries the data, as far as the host expects it, and tells the host where
/// it ends: it is as long as expected, or nothing, or its last packet is short.
pub proof fn in_packets_carry_the_data(data: Seq<u8>, expected: int)
    requires
        expected >= 0,
    ensures
        joined(in_packets(data, expected, true)) == clipped(data, expected),
        ({
            let sent = clipped(data, expected);
            let packets = in_packets(data, expected, true);
            sent.len() == expected || sent.len() == 0 || packets.last().len() < USB_PACKET_SIZE
        }),
{
    let sent = clipped(data, expected);
    packets_carry_the_data(sent);
    let empty = seq![Seq::<u8>::empty()];
    lemma_joined_concat(packets_of(sent), empty);
    assert(empty.drop_last() =~= Seq::empty());
    assert(joined(empty) =~= Seq::empty()) by {
        assert(joined(empty.drop_last()) =~= Seq::empty());
    }
    assert(sent + Seq::<u8>::empty() =~= sent);
    assert(packets_of(sent) + Seq::<Seq<u8>>::empty() =~= packets_of(sent));
}

/// Where a bulk-IN data phase stands.
pub struct PacketCursor {
    total: usize,
    offset: usize,
    empty_packet_due: bool,
}

impl PacketCursor {
    /// Whether the position is at a packet boundary.
    pub closed spec fn wf(&self) -> bool {
        &&& self.offset <= self.total
        &&& self.offset % USB_PACKET_SIZE == 0 || self.offset == self.total
    }

    /// The bytes of the whole data phase.
    pub closed spec fn total(&self) -> int {
        self.total as int
    }

    /// The bytes in the packets that were handed out.
    pub closed spec fn offset(&self) -> int {
        self.offset as int
    }

    /// The packets that are still to be sent of `data`.
    pub closed spec fn remaining(&self, data: Seq<u8>) -> Seq<Seq<u8>> {
        packets_of(data.skip(self.offset as int)) + if self.empty_packet_due {
            seq![Seq::empty()]
        } else {
            Seq::empty()
        }
    }

    /// The start of a data phase with `len` bytes to send to a host that expects `expected`.
    pub fn new(len: usize, expected: u32, expects_in: bool) -> (cursor: PacketCursor)
        ensures
            cursor.wf(),
            cursor.total() == if len <= expected {
                len as int
            } else {
                expected as int
            },
            cursor.offset() == 0,
            forall|data: Seq<u8>|
                data.len() == len ==> #[trigger] cursor.remaining(clipped(data, expected as int))
                    == in_packets(data, expected as int, expects_in),
    {
        let total: usize = if (len as u64) < expected as u64 {
            len
        } else {
            expected as usize
        };
        let empty_packet_due = expects_in && total > 0 && (total as u64) < expected as u64 && total
            % USB_PACKET_SIZE == 0;
        let cursor = PacketCursor { total, offset: 0, empty_packet_due };
        proof {
            assert forall|data: Seq<u8>| data.len() == len implies #[trigger] cursor.remaining(
                clipped(data, expected as int),
            ) == in_packets(data, expected as int, expects_in) by {
                let sent = clipped(data, expected as int);
                assert(sent.skip(0) =~= sent);
            }
        }
        cursor
    }

    /// The bytes of the whole data phase.
    pub fn len(&self) -> (len: usize)
        ensures
            len == self.total(),
    {
        self.total
    }

    /// The bounds of the next packet, and `None` behind the last one.
    pub fn next_packet(&mut self) -> (r: Option<(usize, usize)>)
        requires
            old(self).wf(),
        ensures
            final(self).wf(),
            final(self).total() == old(self).total(),
            match r {
                Some((start, end)) => {
                    &&& start == old(self).offset()
                    &&& end == final(self).offset()
                    &&& start <= end <= old(self).total()
                    &&& end == start + USB_PACKET_SIZE || end == old(self).total()
                    &&& start < end || start == old(self).total()
                    &&& end <= start + USB_PACKET_SIZE
                    &&& forall|data: Seq<u8>|
                        data.len() == old(self).total() ==> #[trigger] old(self).remaining(data)
                            == seq![data.subrange(start as int, end as int)] + final(self).remaining(data)
                },
                None => {
                    &&& *final(self) == *old(self)
                    &&& old(self).offset() == old(self).total()
                    &&& forall|data: Seq<u8>|
                        data.len() == old(self).total() ==> #[trigger] old(self).remaining(
                            data,
                        ).len() == 0
                },
            },
    {
        if self.offset < self.total {
            let start = self.offset;
            let end = if self.total - start > USB_PACKET_SIZE {
                start + USB_PACKET_SIZE
            } else {
                self.total
            };
            self.offset = end;
            proof {
                assert forall|data: Seq<u8>| data.len() == self.total implies #[trigger] old(self).remaining(data) == seq![data.subrange(start as int, end as int)]
                    + self.remaining(data) by {
                    let rest = data.skip(start as int);
                    lemma_first_packet(rest, end - start);
                    assert(rest.take(end - start) =~= data.subrange(start as int, end as int));
                    assert(rest.skip(end - start) =~= data.skip(end as int));
                    assert(old(self).remaining(data) =~= seq![
                        data.subrange(start as int, end as int),
                    ] + self.remaining(data));
                }
            }
            Some((start, end))
        } else if self.empty_packet_due {
            self.empty_packet_due = false;
            proof {
                assert forall|data: Seq<u8>| data.len() == self.total implies #[trigger] old(self).remaining(data) == seq![
                    data.subrange(self.total as int, self.total as int),
                ] + self.remaining(data) by {
                    assert(data.skip(self.total as int) =~= Seq::empty());
                    assert(data.subrange(self.total as int, self.total as int) =~= Seq::empty());
                    assert(old(self).remaining(data) =~= seq![
                        data.subrange(self.total as int, self.total as int),
                    ] + self.remaining(data));
                }
            }
            Some((self.total, self.total))
        } else {
            proof {
                assert forall|data: Seq<u8>| data.len() == self.total implies #[trigger] old(self).remaining(data).len() == 0 by {
                    assert(data.skip(self.total as int) =~= Seq::empty());
                }
            }
            None
        }
    }
}

} // verus!
