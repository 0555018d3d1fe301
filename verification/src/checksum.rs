//! The Internet checksum used by the ICMP transport.
//!
//! Sixteen-bit words are added in ones'-complement arithmetic: whenever a
//! pairwise addition overflows sixteen bits, the carry is folded back in by
//! adding one. The checksum of a buffer is the complement of the
//! ones'-complement sum of its big-endian words.

use vstd::prelude::*;

verus! {

/// Ones'-complement addition of two sixteen-bit words: the carry out of the
/// top bit is added back in ("end-around carry").
pub open spec fn csum_add(x: u16, y: u16) -> u16 {
    if x + y >= 0x1_0000 {
        (x + y - 0xffff) as u16
    } else {
        (x + y) as u16
    }
}

/// Ones'-complement sum of a sequence of words, folded left to right from
/// zero.
pub open spec fn ones_sum(ws: Seq<u16>) -> u16
    decreases ws.len(),
{
    if ws.len() == 0 {
        0u16
    } else {
        csum_add(ones_sum(ws.drop_last()), ws.last())
    }
}

/// The big-endian sixteen-bit words of a byte sequence of even length.
pub open spec fn words_of(s: Seq<u8>) -> Seq<u16>
    recommends
        s.len() % 2 == 0,
{
    Seq::new(s.len() / 2, |i: int| (((s[2 * i] as u16) << 8) | (s[2 * i + 1] as u16)) as u16)
}

/// Ones'-complement addition of two words, with the end-around carry folded
/// back in exactly once.
pub fn csum16_add(x: u16, y: u16) -> (r: u16)
    ensures
        r == csum_add(x, y),
{
    let s = (x as u32) + (y as u32);
    if s & 0x1_00_00 > 0 {
        proof {
            assert(s & 0x1_00_00 > 0 ==> s >= 0x1_0000) by (bit_vector);
        }
        let t = s + 1;
        proof {
            assert(0x1_0000 < t && t < 0x2_0000 ==> t as u16 == t - 0x1_0000) by (bit_vector);
        }
        t as u16
    } else {
        proof {
            assert(s <= 0x1_fffe && s & 0x1_00_00 == 0 ==> s < 0x1_0000) by (bit_vector);
        }
        s as u16
    }
}

/// The Internet checksum of `data`: the complement of the ones'-complement
/// sum of its big-endian words. The caller must supply an even number of
/// bytes.
pub fn csum16_slice(data: &[u8]) -> (r: u16)
    requires
        data@.len() % 2 == 0,
    ensures
        r == !ones_sum(words_of(data@)),
{
    let ghost ws = words_of(data@);
    let n = data.len() / 2;
    let mut csum: u16 = 0;
    let mut i: usize = 0;
    while i < n
        invariant
            n == data@.len() / 2,
            n <= usize::MAX / 2,
            data@.len() % 2 == 0,
            0 <= i <= n,
            ws == words_of(data@),
            csum == ones_sum(ws.take(i as int)),
        decreases n - i,
    {
        proof {
            assert(2 * i + 1 < data@.len());
        }
        let hi = data[2 * i] as u16;
        let lo = data[2 * i + 1] as u16;
        let w = (hi << 8) | lo;
        proof {
            assert(ws.take(i + 1).drop_last() =~= ws.take(i as int));
            assert(ws.take(i + 1).last() == ws[i as int]);
        }
        csum = csum16_add(csum, w);
        i = i + 1;
    }
    proof {
        assert(ws.take(n as int) =~= ws);
    }
    !csum
}

/// Two ones'-complement additions may be performed in either order.
proof fn lemma_csum_add_exchange(a: u16, b: u16, c: u16)
    ensures
        csum_add(csum_add(a, b), c) == csum_add(csum_add(a, c), b),
{
}

/// Overwriting a zero word with `c` adds `c` to the ones'-complement sum.
proof fn lemma_ones_sum_update_zero(ws: Seq<u16>, k: int, c: u16)
    requires
        0 <= k < ws.len(),
        ws[k] == 0,
    ensures
        ones_sum(ws.update(k, c)) == csum_add(ones_sum(ws), c),
    decreases ws.len(),
{
    if k == ws.len() - 1 {
        assert(ws.update(k, c).drop_last() =~= ws.drop_last());
        assert(ws.update(k, c).last() == c);
        assert(ws.last() == 0);
        assert(csum_add(ones_sum(ws.drop_last()), 0) == ones_sum(ws.drop_last()));
    } else {
        let inner = ws.drop_last();
        assert(ws.update(k, c).drop_last() =~= inner.update(k, c));
        assert(ws.update(k, c).last() == ws.last());
        lemma_ones_sum_update_zero(inner, k, c);
        lemma_csum_add_exchange(ones_sum(inner), ws.last(), c);
    }
}

/// The checksum is self-verifying: if the checksum of the data with its
/// checksum word zeroed is `c`, then with `c` written into that word the
/// ones'-complement sum of the whole buffer is `0xffff` — equivalently, the
/// complemented checksum of the patched buffer is zero.
pub proof fn lemma_checksum_self_verifying(ws: Seq<u16>, k: int)
    requires
        0 <= k < ws.len(),
        ws[k] == 0,
    ensures
        ones_sum(ws.update(k, !ones_sum(ws))) == 0xffff,
        !ones_sum(ws.update(k, !ones_sum(ws))) == 0,
{
    let s = ones_sum(ws);
    let c = !s;
    lemma_ones_sum_update_zero(ws, k, c);
    assert(s + (!s) == 0xffff) by (bit_vector);
    assert(csum_add(s, c) == 0xffff);
    assert(!0xffffu16 == 0u16) by (bit_vector);
}

} // verus!
