//! CRC-32 (reflected, polynomial `0xEDB88320`), which guards the journal header and the shadow
//! block.

use vstd::prelude::*;

verus! {

/// The reflected generator polynomial.
pub const CRC32_POLYNOMIAL: u32 = 0xEDB8_8320;

/// The register after one bit has been shifted out of `crc`.
pub open spec fn crc_shift(crc: u32) -> u32 {
    if crc & 1 == 1 {
        (crc >> 1) ^ CRC32_POLYNOMIAL
    } else {
        crc >> 1
    }
}

/// The register after `n` bits have been shifted out of `crc`.
pub open spec fn crc_shifts(crc: u32, n: nat) -> u32
    decreases n,
{
    if n == 0 {
        crc
    } else {
        crc_shift(crc_shifts(crc, (n - 1) as nat))
    }
}

/// The register after all of `data` has gone through it, starting from all ones.
pub open spec fn crc_register(data: Seq<u8>) -> u32
    decreases data.len(),
{
    if data.len() == 0 {
        0xFFFF_FFFF
    } else {
        crc_shifts(crc_register(data.drop_last()) ^ (data.last() as u32), 8)
    }
}

/// The CRC-32 of `data`: the complement of the final register.
#[verifier::opaque]
pub open spec fn crc32_of(data: Seq<u8>) -> u32 {
    !crc_register(data)
}

/// Computes the CRC-32 of `data`.
pub fn crc32(data: &[u8]) -> (crc: u32)
    ensures
        crc == crc32_of(data@),
{
    let mut register: u32 = 0xFFFF_FFFF;
    let mut i: usize = 0;
    while i < data.len()
        invariant
            i <= data@.len(),
            register == crc_register(data@.take(i as int)),
        decreases data@.len() - i,
    {
        let ghost before = register;
        register = register ^ (data[i] as u32);
        let mut bit: u32 = 0;
        while bit < 8
            invariant
                bit <= 8,
                i < data@.len(),
                register == crc_shifts(before ^ (data@[i as int] as u32), bit as nat),
            decreases 8 - bit,
        {
            register = if register & 1 == 1 {
                (register >> 1) ^ CRC32_POLYNOMIAL
            } else {
                register >> 1
            };
            bit = bit + 1;
        }
        assert(data@.take(i + 1).drop_last() =~= data@.take(i as int));
        i = i + 1;
    }
    assert(data@.take(data@.len() as int) =~= data@);
    reveal(crc32_of);
    !register
}

/// Shifting is linear, and loses nothing.
proof fn lemma_shift(a: u32, b: u32)
    ensures
        crc_shift(a ^ b) == crc_shift(a) ^ crc_shift(b),
        crc_shift(a) == crc_shift(b) ==> a == b,
{
    assert(crc_shift(a ^ b) == crc_shift(a) ^ crc_shift(b) && (crc_shift(a) == crc_shift(b) ==> a
        == b)) by (bit_vector);
}

proof fn lemma_shifts(a: u32, b: u32, n: nat)
    ensures
        crc_shifts(a ^ b, n) == crc_shifts(a, n) ^ crc_shifts(b, n),
        crc_shifts(a, n) == crc_shifts(b, n) ==> a == b,
    decreases n,
{
    if n > 0 {
        lemma_shifts(a, b, (n - 1) as nat);
        lemma_shift(crc_shifts(a, (n - 1) as nat), crc_shifts(b, (n - 1) as nat));
    }
}

proof fn lemma_more_shifts(a: u32, n: nat, k: nat)
    ensures
        crc_shifts(crc_shifts(a, n), k) == crc_shifts(a, n + k),
    decreases k,
{
    if k > 0 {
        lemma_more_shifts(a, n, (k - 1) as nat);
    }
}

/// A byte that comes after `n` bits can as well be there before them, `n` bits further left.
proof fn lemma_early(c: u8)
    ensures
        crc_shifts((c as u32) << 8, 8) == c,
        crc_shifts((c as u32) << 16, 16) == c,
        crc_shifts((c as u32) << 24, 24) == c,
{
    let x = c as u32;
    assert(crc_shift(x << 8) == x << 7 && crc_shift(x << 7) == x << 6 && crc_shift(x << 6) == x << 5
        && crc_shift(x << 5) == x << 4 && crc_shift(x << 4) == x << 3 && crc_shift(x << 3) == x << 2
        && crc_shift(x << 2) == x << 1 && crc_shift(x << 1) == x && crc_shift(x << 16) == x << 15
        && crc_shift(x << 15) == x << 14 && crc_shift(x << 14) == x << 13 && crc_shift(x << 13) == x
        << 12 && crc_shift(x << 12) == x << 11 && crc_shift(x << 11) == x << 10 && crc_shift(x << 10)
        == x << 9 && crc_shift(x << 9) == x << 8 && crc_shift(x << 24) == x << 23 && crc_shift(
        x << 23,
    ) == x << 22 && crc_shift(x << 22) == x << 21 && crc_shift(x << 21) == x << 20 && crc_shift(
        x << 20,
    ) == x << 19 && crc_shift(x << 19) == x << 18 && crc_shift(x << 18) == x << 17 && crc_shift(
        x << 17,
    ) == x << 16) by (bit_vector)
        requires
            x <= 0xFF,
    ;
    reveal_with_fuel(crc_shifts, 9);
    lemma_more_shifts(x << 16, 8, 8);
    lemma_more_shifts(x << 24, 8, 16);
}

/// The register after four bytes is that of all their bits at once.
proof fn lemma_four_bytes(r: u32, c: Seq<u8>)
    requires
        c.len() == 4,
    ensures
        ({
            let r1 = crc_shifts(r ^ (c[0] as u32), 8);
            let r2 = crc_shifts(r1 ^ (c[1] as u32), 8);
            let r3 = crc_shifts(r2 ^ (c[2] as u32), 8);
            crc_shifts(r3 ^ (c[3] as u32), 8) == crc_shifts(
                r ^ (c[0] as u32) ^ ((c[1] as u32) << 8) ^ ((c[2] as u32) << 16) ^ ((c[3] as u32)
                    << 24),
                32,
            )
        }),
{
    let x = r ^ (c[0] as u32);
    let y = x ^ ((c[1] as u32) << 8);
    let z = y ^ ((c[2] as u32) << 16);
    lemma_early(c[1]);
    lemma_early(c[2]);
    lemma_early(c[3]);
    lemma_shifts(x, (c[1] as u32) << 8, 8);
    lemma_more_shifts(y, 8, 8);
    lemma_shifts(y, (c[2] as u32) << 16, 16);
    lemma_more_shifts(z, 16, 8);
    lemma_shifts(z, (c[3] as u32) << 24, 24);
    lemma_more_shifts(z ^ ((c[3] as u32) << 24), 24, 8);
}

/// The register that 32 bits leave of all ones.
proof fn lemma_all_ones()
    ensures
        crc_shifts(0xFFFF_FFFF, 32) == 0xDEBB_20E3,
{
    assert(({
        let a = crc_shift(crc_shift(crc_shift(crc_shift(0xFFFF_FFFF))));
        let b = crc_shift(crc_shift(crc_shift(crc_shift(a))));
        let c = crc_shift(crc_shift(crc_shift(crc_shift(b))));
        let d = crc_shift(crc_shift(crc_shift(crc_shift(c))));
        let e = crc_shift(crc_shift(crc_shift(crc_shift(d))));
        let f = crc_shift(crc_shift(crc_shift(crc_shift(e))));
        let g = crc_shift(crc_shift(crc_shift(crc_shift(f))));
        crc_shift(crc_shift(crc_shift(crc_shift(g)))) == 0xDEBB_20E3
    })) by (bit_vector);
    reveal_with_fuel(crc_shifts, 33);
}

/// The CRC of nothing is zero, and the CRC of any data with its own CRC behind it, the low byte first,
/// is the same number whatever the data is.
pub proof fn data_is_closed_by_its_crc(data: &[u8], crc: u32, framed: &[u8], framed_crc: u32)
    requires
        call_ensures(crc32, (data,), crc),
        call_ensures(crc32, (framed,), framed_crc),
        framed@.len() == data@.len() + 4,
        data@ == framed@.take(data@.len() as int),
        framed@[data@.len() as int] == crc % 0x100,
        framed@[(data@.len() + 1) as int] == crc / 0x100 % 0x100,
        framed@[(data@.len() + 2) as int] == crc / 0x1_0000 % 0x100,
        framed@[(data@.len() + 3) as int] == crc / 0x100_0000,
    ensures
        data@.len() == 0 ==> crc == 0,
        framed_crc == 0x2144_DF1C,
{
    reveal(crc32_of);
    let n = data@.len() as int;
    let r = crc_register(data@);
    let s = framed@;
    let c = s.skip(n);
    assert(s.drop_last() =~= s.take(n + 3));
    assert(s.take(n + 3).drop_last() =~= s.take(n + 2));
    assert(s.take(n + 2).drop_last() =~= s.take(n + 1));
    assert(s.take(n + 1).drop_last() =~= data@);
    let r1 = crc_register(s.take(n + 1));
    let r2 = crc_register(s.take(n + 2));
    let r3 = crc_register(s.take(n + 3));
    assert(r1 == crc_shifts(r ^ (c[0] as u32), 8));
    assert(r2 == crc_shifts(r1 ^ (c[1] as u32), 8));
    assert(r3 == crc_shifts(r2 ^ (c[2] as u32), 8));
    assert(crc_register(s) == crc_shifts(r3 ^ (c[3] as u32), 8));
    lemma_four_bytes(r, c);
    lemma_all_ones();
    let (c0, c1, c2, c3) = (c[0] as u32, c[1] as u32, c[2] as u32, c[3] as u32);
    assert(r ^ c0 ^ (c1 << 8) ^ (c2 << 16) ^ (c3 << 24) == 0xFFFF_FFFF && !0xDEBB_20E3u32
        == 0x2144_DF1Cu32 && !0xFFFF_FFFFu32 == 0) by (bit_vector)
        requires
            crc == !r,
            c0 == crc % 0x100,
            c1 == crc / 0x100 % 0x100,
            c2 == crc / 0x1_0000 % 0x100,
            c3 == crc / 0x100_0000,
    ;
}

/// One byte that is not as it was gives another CRC.
pub proof fn crc_tells_a_changed_byte(data: &[u8], crc: u32, changed: &[u8], changed_crc: u32, i: int)
    requires
        call_ensures(crc32, (data,), crc),
        call_ensures(crc32, (changed,), changed_crc),
        data@.len() == changed@.len(),
        0 <= i < data@.len(),
        data@[i] != changed@[i],
        forall|j: int| 0 <= j < data@.len() && j != i ==> #[trigger] data@[j] == changed@[j],
    ensures
        crc != changed_crc,
{
    reveal(crc32_of);
    lemma_register_changed(data@, changed@, i);
    let a = crc_register(data@);
    let b = crc_register(changed@);
    assert(a != b ==> !a != !b) by (bit_vector);
}

proof fn lemma_register_changed(a: Seq<u8>, b: Seq<u8>, i: int)
    requires
        a.len() == b.len(),
        0 <= i < a.len(),
        a[i] != b[i],
        forall|j: int| 0 <= j < a.len() && j != i ==> #[trigger] a[j] == b[j],
    ensures
        crc_register(a) != crc_register(b),
    decreases a.len(),
{
    let x = crc_register(a.drop_last());
    let y = crc_register(b.drop_last());
    let p = a.last() as u32;
    let q = b.last() as u32;
    if i == a.len() - 1 {
        assert(a.drop_last() =~= b.drop_last());
    } else {
        lemma_register_changed(a.drop_last(), b.drop_last(), i);
    }
    assert((x == y && p != q || x != y && p == q) ==> x ^ p != y ^ q) by (bit_vector);
    lemma_shifts(x ^ p, y ^ q, 8);
}

} // verus!
