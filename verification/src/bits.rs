//! Bitmaps as byte vectors: bit-level reading, zeroed bitmaps, bitwise or,
//! and the subset test between two bitmaps' sets of set bits.

use vstd::prelude::*;

verus! {

/// Bit `j` (counting from the least significant) of the byte `b`.
pub open spec fn u8_bit(b: u8, j: u8) -> bool
    recommends
        j < 8,
{
    b & (1u8 << j) != 0
}

/// Bit `i` of a bitmap laid out as bytes, least-significant bit first
/// within each byte.
pub open spec fn bm_bit(bm: Seq<u8>, i: int) -> bool
    recommends
        0 <= i < 8 * bm.len(),
{
    u8_bit(bm[i / 8], (i % 8) as u8)
}

/// Some bit below `bits` is set in `bm`.
pub open spec fn has_set_bit(bm: Seq<u8>, bits: int) -> bool {
    exists|i: int| 0 <= i < bits && bm_bit(bm, i)
}

/// Every set bit of `a` is also set in `b`.
pub open spec fn bm_subset(a: Seq<u8>, b: Seq<u8>) -> bool {
    forall|i: int| 0 <= i < 8 * a.len() ==> (#[trigger] bm_bit(a, i) ==> bm_bit(b, i))
}

proof fn lemma_u8_zero_bit(j: u8)
    requires
        j < 8,
    ensures
        !u8_bit(0u8, j),
{
    assert(0u8 & (1u8 << j) == 0) by (bit_vector);
}

proof fn lemma_u8_or_bit(a: u8, b: u8, j: u8)
    requires
        j < 8,
    ensures
        u8_bit(a | b, j) == (u8_bit(a, j) || u8_bit(b, j)),
{
    assert(((a | b) & (1u8 << j) != 0) == ((a & (1u8 << j) != 0) || (b & (1u8 << j) != 0)))
        by (bit_vector);
}

/// Read bit `i` of the bitmap `bm`.
pub fn get_bit(bm: &Vec<u8>, i: usize) -> (r: bool)
    requires
        i < 8 * bm@.len(),
    ensures
        r == bm_bit(bm@, i as int),
{
    let j: u8 = (i % 8) as u8;
    assert(j < 8);
    assert(i as int / 8 == (i / 8) as int);
    (bm[i / 8] & (1u8 << j)) != 0
}

/// A bitmap of `n` bytes with every bit clear.
pub fn zero_bitmap(n: usize) -> (r: Vec<u8>)
    ensures
        r@.len() == n,
        forall|i: int| 0 <= i < 8 * n ==> !bm_bit(r@, i),
{
    let mut r: Vec<u8> = Vec::new();
    for _idx in 0..n
        invariant
            r@.len() == _idx,
            forall|b: int| 0 <= b < r@.len() ==> r@[b] == 0u8,
    {
        r.push(0u8);
    }
    assert forall|i: int| 0 <= i < 8 * n implies !bm_bit(r@, i) by {
        lemma_u8_zero_bit((i % 8) as u8);
    }
    r
}

/// Set, in `dst`, every bit that is set in `src`.
pub fn or_into(dst: &mut Vec<u8>, src: &Vec<u8>)
    requires
        old(dst)@.len() == src@.len(),
    ensures
        final(dst)@.len() == old(dst)@.len(),
        forall|i: int|
            0 <= i < 8 * src@.len() ==> (#[trigger] bm_bit(final(dst)@, i) == (bm_bit(
                old(dst)@,
                i,
            ) || bm_bit(src@, i))),
{
    let n = dst.len();
    for idx in 0..n
        invariant
            dst@.len() == n,
            n == src@.len(),
            forall|b: int| idx <= b < n ==> dst@[b] == old(dst)@[b],
            forall|b: int| 0 <= b < idx ==> dst@[b] == (old(dst)@[b] | src@[b]),
    {
        dst[idx] = dst[idx] | src[idx];
    }
    assert forall|i: int|
        0 <= i < 8 * src@.len() implies #[trigger] bm_bit(dst@, i) == (bm_bit(old(dst)@, i)
        || bm_bit(src@, i)) by {
        lemma_u8_or_bit(old(dst)@[i / 8], src@[i / 8], (i % 8) as u8);
    }
}

/// Test whether every set bit of `a` is also set in `b`.
pub fn bits_subset(a: &Vec<u8>, b: &Vec<u8>) -> (r: bool)
    requires
        a@.len() == b@.len(),
        8 * a@.len() <= usize::MAX,
    ensures
        r == bm_subset(a@, b@),
{
    let n = a.len();
    let mut i: usize = 0;
    while i < 8 * n
        invariant
            a@.len() == n,
            b@.len() == n,
            8 * n <= usize::MAX,
            i <= 8 * n,
            forall|x: int| 0 <= x < i ==> (#[trigger] bm_bit(a@, x) ==> bm_bit(b@, x)),
        decreases 8 * n - i,
    {
        if get_bit(a, i) && !get_bit(b, i) {
            return false;
        }
        i = i + 1;
    }
    true
}

} // verus!
