//! Fixed-width integers in byte strings, and byte strings written into larger ones.

use vstd::prelude::*;

verus! {

/// The little-endian 16-bit number at `at`.
pub open spec fn le16_at(s: Seq<u8>, at: int) -> int {
    s[at] + 0x100 * s[at + 1]
}

/// The little-endian 32-bit number at `at`.
pub open spec fn le32_at(s: Seq<u8>, at: int) -> int {
    s[at] + 0x100 * s[at + 1] + 0x1_0000 * s[at + 2] + 0x100_0000 * s[at + 3]
}

/// The big-endian 16-bit number at `at`.
pub open spec fn be16_at(s: Seq<u8>, at: int) -> int {
    0x100 * s[at] + s[at + 1]
}

/// The big-endian 32-bit number at `at`.
pub open spec fn be32_at(s: Seq<u8>, at: int) -> int {
    0x100_0000 * s[at] + 0x1_0000 * s[at + 1] + 0x100 * s[at + 2] + s[at + 3]
}

/// The two little-endian bytes of `x`.
pub open spec fn le16_bytes(x: u16) -> Seq<u8> {
    seq![(x % 0x100) as u8, (x / 0x100) as u8]
}

/// The four little-endian bytes of `x`.
pub open spec fn le32_bytes(x: u32) -> Seq<u8> {
    seq![
        (x % 0x100) as u8,
        (x / 0x100 % 0x100) as u8,
        (x / 0x1_0000 % 0x100) as u8,
        (x / 0x100_0000) as u8,
    ]
}

/// The two big-endian bytes of `x`.
pub open spec fn be16_bytes(x: u16) -> Seq<u8> {
    seq![(x / 0x100) as u8, (x % 0x100) as u8]
}

/// The four big-endian bytes of `x`.
pub open spec fn be32_bytes(x: u32) -> Seq<u8> {
    seq![
        (x / 0x100_0000) as u8,
        (x / 0x1_0000 % 0x100) as u8,
        (x / 0x100 % 0x100) as u8,
        (x % 0x100) as u8,
    ]
}

/// `s` with the bytes from `at` on replaced by `data`.
pub open spec fn splice(s: Seq<u8>, at: int, data: Seq<u8>) -> Seq<u8> {
    Seq::new(
        s.len(),
        |i: int| if at <= i < at + data.len() { data[i - at] } else { s[i] },
    )
}

/// Reading a little-endian 32-bit number gives back the number that was written.
pub proof fn lemma_le32_round_trip(x: u32)
    ensures
        le32_bytes(x).len() == 4,
        le32_at(le32_bytes(x), 0) == x,
{
}

/// Reading a little-endian 16-bit number gives back the number that was written.
pub proof fn lemma_le16_round_trip(x: u16)
    ensures
        le16_bytes(x).len() == 2,
        le16_at(le16_bytes(x), 0) == x,
{
}

/// Reading a big-endian 32-bit number gives back the number that was written.
pub proof fn lemma_be32_round_trip(x: u32)
    ensures
        be32_bytes(x).len() == 4,
        be32_at(be32_bytes(x), 0) == x,
{
}

/// Writing a little-endian 32-bit number that was read gives back the bytes it was read from.
pub proof fn lemma_le32_written_back(s: Seq<u8>, at: int)
    requires
        0 <= at,
        at + 4 <= s.len(),
    ensures
        0 <= le32_at(s, at) <= u32::MAX,
        le32_bytes(le32_at(s, at) as u32) == s.subrange(at, at + 4),
{
    let x = le32_at(s, at) as u32;
    assert(x % 0x100 == s[at]);
    assert(x / 0x100 == s[at + 1] + 0x100 * s[at + 2] + 0x1_0000 * s[at + 3]);
    assert(x / 0x1_0000 == s[at + 2] + 0x100 * s[at + 3]);
    assert(x / 0x100_0000 == s[at + 3]);
    assert(le32_bytes(x) =~= s.subrange(at, at + 4));
}

/// The fields of a byte, as numbers.
pub proof fn lemma_bit_fields(x: u8)
    ensures
        x & 0x01 != 0 <==> x % 2 == 1,
        x & 0x02 != 0 <==> x / 2 % 2 == 1,
        x & 0x0F == x % 16,
        x & 0x1F == x % 32,
        x & 0x3F == x % 64,
        x & 0x60 == 32 * (x / 32 % 4),
        x & 0x7F == x % 128,
        x & 0x80 != 0 <==> x >= 0x80,
        (x >> 6) & 0x03 == x / 64,
        (x & 0x0F) | 0x00 == x % 16,
        (x & 0x0F) | 0x20 == 32 + x % 16,
{
    assert({
        &&& x & 0x01 != 0 <==> x % 2 == 1
        &&& x & 0x02 != 0 <==> x / 2 % 2 == 1
        &&& x & 0x0F == x % 16
        &&& x & 0x1F == x % 32
        &&& x & 0x3F == x % 64
        &&& x & 0x60 == 32 * (x / 32 % 4)
        &&& x & 0x7F == x % 128
        &&& x & 0x80 != 0 <==> x >= 0x80
        &&& (x >> 6) & 0x03 == x / 64
        &&& (x & 0x0F) | 0x00 == x % 16
        &&& (x & 0x0F) | 0x20 == 32 + x % 16
    }) by (bit_vector);
}

/// Reads the little-endian 16-bit number at `at`.
pub fn get_le16(s: &[u8], at: usize) -> (x: u16)
    requires
        at + 2 <= s@.len(),
    ensures
        x == le16_at(s@, at as int),
{
    s[at] as u16 + 0x100 * (s[at + 1] as u16)
}

/// Reads the little-endian 32-bit number at `at`.
pub fn get_le32(s: &[u8], at: usize) -> (x: u32)
    requires
        at + 4 <= s@.len(),
    ensures
        x == le32_at(s@, at as int),
{
    s[at] as u32 + 0x100 * (s[at + 1] as u32) + 0x1_0000 * (s[at + 2] as u32) + 0x100_0000 * (s[at
        + 3] as u32)
}

/// Reads the big-endian 16-bit number at `at`.
pub fn get_be16(s: &[u8], at: usize) -> (x: u16)
    requires
        at + 2 <= s@.len(),
    ensures
        x == be16_at(s@, at as int),
{
    0x100 * (s[at] as u16) + s[at + 1] as u16
}

/// Reads the big-endian 32-bit number at `at`.
pub fn get_be32(s: &[u8], at: usize) -> (x: u32)
    requires
        at + 4 <= s@.len(),
    ensures
        x == be32_at(s@, at as int),
{
    0x100_0000 * (s[at] as u32) + 0x1_0000 * (s[at + 1] as u32) + 0x100 * (s[at + 2] as u32) + s[at
        + 3] as u32
}

/// The little-endian bytes of a 16-bit number.
pub fn le16(x: u16) -> (b: [u8; 2])
    ensures
        b@ == le16_bytes(x),
{
    let b = [(x % 0x100) as u8, (x / 0x100) as u8];
    assert(b@ =~= le16_bytes(x));
    b
}

/// The little-endian bytes of a 32-bit number.
pub fn le32(x: u32) -> (b: [u8; 4])
    ensures
        b@ == le32_bytes(x),
{
    let b = [
        (x % 0x100) as u8,
        (x / 0x100 % 0x100) as u8,
        (x / 0x1_0000 % 0x100) as u8,
        (x / 0x100_0000) as u8,
    ];
    assert(b@ =~= le32_bytes(x));
    b
}

/// The big-endian bytes of a 16-bit number.
pub fn be16(x: u16) -> (b: [u8; 2])
    ensures
        b@ == be16_bytes(x),
{
    let b = [(x / 0x100) as u8, (x % 0x100) as u8];
    assert(b@ =~= be16_bytes(x));
    b
}

/// The big-endian bytes of a 32-bit number.
pub fn be32(x: u32) -> (b: [u8; 4])
    ensures
        b@ == be32_bytes(x),
{
    let b = [
        (x / 0x100_0000) as u8,
        (x / 0x1_0000 % 0x100) as u8,
        (x / 0x100 % 0x100) as u8,
        (x % 0x100) as u8,
    ];
    assert(b@ =~= be32_bytes(x));
    b
}

/// Copies `src` over the bytes of `dst` from `at` on.
pub fn put(dst: &mut [u8], at: usize, src: &[u8])
    requires
        at + src@.len() <= old(dst)@.len(),
    ensures
        final(dst)@ == splice(old(dst)@, at as int, src@),
{
    let len = dst.len();
    let mut i: usize = 0;
    while i < src.len()
        invariant
            i <= src@.len(),
            at + src@.len() <= len,
            len == dst@.len(),
            len == old(dst)@.len(),
            dst@ =~= splice(old(dst)@, at as int, src@.take(i as int)),
        decreases src@.len() - i,
    {
        dst[at + i] = src[i];
        i = i + 1;
    }
    assert(src@.take(src@.len() as int) =~= src@);
}

/// A short number that is read has the bytes it is read from for its digits: the first byte is the
/// lower digit of a little-endian number, and the higher of a big-endian one.
pub proof fn bytes_are_the_digits_of_the_short_number(s: &[u8], at: usize, le: u16, be: u16)
    requires
        at + 2 <= s@.len(),
        call_ensures(get_le16, (s, at), le),
        call_ensures(get_be16, (s, at), be),
    ensures
        le % 0x100 == s@[at as int] && le / 0x100 == s@[at + 1],
        be / 0x100 == s@[at as int] && be % 0x100 == s@[at + 1],
{
}

/// A little-endian long number that is read has the bytes it is read from for its digits, the lowest
/// first.
pub proof fn bytes_are_the_digits_of_the_long_number(s: &[u8], at: usize, le: u32)
    requires
        at + 4 <= s@.len(),
        call_ensures(get_le32, (s, at), le),
    ensures
        le % 0x100 == s@[at as int],
        le / 0x100 % 0x100 == s@[at + 1],
        le / 0x1_0000 % 0x100 == s@[at + 2],
        le / 0x100_0000 == s@[at + 3],
{
    let (a, b, c, d) = (s@[at as int], s@[at + 1], s@[at + 2], s@[at + 3]);
    assert(le == a + 0x100 * b + 0x1_0000 * c + 0x100_0000 * d);
    lemma_digits(le, a, b, c, d);
}

/// A big-endian long number that is read has the bytes it is read from for its digits, the highest
/// first.
pub proof fn bytes_are_the_digits_of_the_long_big_endian_number(s: &[u8], at: usize, be: u32)
    requires
        at + 4 <= s@.len(),
        call_ensures(get_be32, (s, at), be),
    ensures
        be / 0x100_0000 == s@[at as int],
        be / 0x1_0000 % 0x100 == s@[at + 1],
        be / 0x100 % 0x100 == s@[at + 2],
        be % 0x100 == s@[at + 3],
{
    let (a, b, c, d) = (s@[at as int], s@[at + 1], s@[at + 2], s@[at + 3]);
    assert(be == d + 0x100 * c + 0x1_0000 * b + 0x100_0000 * a);
    lemma_digits(be, d, c, b, a);
}

/// The digits of a number that is made up of four bytes, the lowest first, are those bytes.
proof fn lemma_digits(x: u32, a: u8, b: u8, c: u8, d: u8)
    requires
        x == a + 0x100 * b + 0x1_0000 * c + 0x100_0000 * d,
    ensures
        x % 0x100 == a,
        x / 0x100 % 0x100 == b,
        x / 0x1_0000 % 0x100 == c,
        x / 0x100_0000 == d,
{
    assert(x / 0x100 == b + 0x100 * c + 0x1_0000 * d);
    assert(x / 0x1_0000 == c + 0x100 * d);
}

/// The bytes of a short number make it up again, each weighed by its place.
pub proof fn bytes_make_up_the_short_number(short: u16, le: [u8; 2], be: [u8; 2])
    requires
        call_ensures(le16, (short,), le),
        call_ensures(be16, (short,), be),
    ensures
        le@[0] + 0x100 * le@[1] == short,
        0x100 * be@[0] + be@[1] == short,
{
    lemma_le16_round_trip(short);
}

/// The bytes of a long number make it up again, each weighed by its place.
pub proof fn bytes_make_up_the_long_number(long: u32, le: [u8; 4], be: [u8; 4])
    requires
        call_ensures(le32, (long,), le),
        call_ensures(be32, (long,), be),
    ensures
        le@[0] + 0x100 * le@[1] + 0x1_0000 * le@[2] + 0x100_0000 * le@[3] == long,
        0x100_0000 * be@[0] + 0x1_0000 * be@[1] + 0x100 * be@[2] + be@[3] == long,
{
    lemma_le32_round_trip(long);
    lemma_be32_round_trip(long);
    assert(le@ == le32_bytes(long));
    assert(be@ == be32_bytes(long));
}

/// Copying puts the bytes where they are to go, and leaves every other byte.
pub proof fn copying_changes_no_other_byte(dst: &mut [u8], at: usize, src: &[u8])
    requires
        at + src@.len() <= dst@.len(),
        call_ensures(put, (dst, at, src), ()),
    ensures
        final(dst)@.len() == old(dst)@.len(),
        forall|i: int| 0 <= i < src@.len() ==> final(dst)@[at + i] == #[trigger] src@[i],
        forall|i: int|
            0 <= i < old(dst)@.len() && !(at <= i < at + src@.len()) ==> #[trigger] final(dst)@[i]
                == old(dst)@[i],
{
    assert forall|i: int| 0 <= i < src@.len() implies final(dst)@[at + i] == #[trigger] src@[i] by {
        assert(splice(old(dst)@, at as int, src@)[at + i] == src@[i]);
    }
}

} // verus!
