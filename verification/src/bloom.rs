//! Shared Bloom-filter parameterization and per-gram bit patterns.
//!
//! Every filter of one collection generation is built under one
//! `HashParams` value, so a bit position means the same gram hash in every
//! document's bitmap.  The SipHash positions that one gram sets are computed
//! by the `bloomfilter` crate and named by `gram_bits_of`; everything else
//! (bitmap union, membership tests) is the library's own verified code over
//! plain byte vectors.

use vstd::prelude::*;
use crate::bits::{bm_bit, bm_subset, has_set_bit, or_into, zero_bitmap};

verus! {

/// The Bloom construction parameters pinned for one collection generation:
/// bitmap size, hash-function count and the SipHash key pair.
#[derive(Clone, Copy)]
pub struct HashParams {
    /// Bitmap size in bytes.
    pub bytes: usize,
    /// Bitmap size in bits, always `8 * bytes`.
    pub bits: u64,
    /// Number of hash functions.
    pub k: u32,
    /// First SipHash key pair.
    pub key0: (u64, u64),
    /// Second SipHash key pair.
    pub key1: (u64, u64),
}

/// Well-formed parameters: a nonempty bitmap whose bit length matches its
/// byte length, and at least one hash function.
pub open spec fn params_wf(p: HashParams) -> bool {
    &&& 1 <= p.bytes
    &&& p.bits == 8 * p.bytes
    &&& p.k >= 1
}

/// The bitmap, of `bits / 8` bytes, whose set bits are exactly the
/// positions that the gram `g` hashes to under `k` SipHash-1-3 functions
/// with the key pairs `key0`, `key1`, each position taken modulo `bits`.
pub uninterp spec fn gram_bits_of(
    g: Seq<char>,
    key0: (u64, u64),
    key1: (u64, u64),
    k: u32,
    bits: u64,
) -> Seq<u8>;

/// The bit pattern of the gram `g` under the parameters `p`.
pub open spec fn gbits(p: HashParams, g: Seq<char>) -> Seq<u8> {
    gram_bits_of(g, p.key0, p.key1, p.k, p.bits)
}

/// Relies on bloomfilter::Bloom::new: a filter of `bytes` bytes sized for
/// `items` expected items, whose hash count `number_of_hash_functions` is
/// at least 1, whose `number_of_bits` is `8 * bytes`, and whose SipHash
/// keys `sip_keys` are drawn at random.
#[verifier::external_body]
pub(crate) fn fresh_params(bytes: usize, items: usize) -> (r: HashParams)
    requires
        1 <= bytes,
        1 <= items,
        8 * bytes <= u64::MAX,
    ensures
        r.bytes == bytes,
        r.bits == 8 * bytes,
        r.k >= 1,
{
    let b = bloomfilter::Bloom::<String>::new(bytes, items);
    let keys = b.sip_keys();
    HashParams {
        bytes,
        bits: b.number_of_bits(),
        k: b.number_of_hash_functions(),
        key0: keys[0],
        key1: keys[1],
    }
}

/// Relies on bloomfilter::Bloom: `from_existing` adopts the given bytes,
/// bit length, hash count and SipHash keys; `set` marks the positions of
/// the item, a pure function of the item's characters and those
/// parameters, at least one and each below the bit length; `bitmap`
/// returns the bytes.
#[verifier::external_body]
pub(crate) fn gram_bitmap(gram: &Vec<char>, p: &HashParams) -> (r: Vec<u8>)
    requires
        params_wf(*p),
    ensures
        r@.len() == p.bytes,
        r@ == gram_bits_of(gram@, p.key0, p.key1, p.k, p.bits),
        has_set_bit(r@, p.bits as int),
{
    let s: String = gram.iter().collect();
    let zeros = vec![0u8; p.bytes];
    let mut b = bloomfilter::Bloom::<String>::from_existing(&zeros, p.bits, p.k, [p.key0, p.key1]);
    b.set(&s);
    b.bitmap()
}

/// Build one document's Bloom bitmap: the union of the bit patterns of its
/// grams under the shared parameters `p`.
pub fn build_filter(grams: &Vec<Vec<char>>, p: &HashParams) -> (r: Vec<u8>)
    requires
        params_wf(*p),
    ensures
        r@.len() == p.bytes,
        forall|i: int|
            0 <= i < p.bits ==> (#[trigger] bm_bit(r@, i) <==> exists|k: int|
                0 <= k < grams@.len() && bm_bit(gbits(*p, grams@[k]@), i)),
{
    let mut bm = zero_bitmap(p.bytes);
    for idx in 0..grams.len()
        invariant
            params_wf(*p),
            bm@.len() == p.bytes,
            forall|i: int|
                0 <= i < p.bits ==> (#[trigger] bm_bit(bm@, i) <==> exists|k: int|
                    0 <= k < idx && bm_bit(gbits(*p, grams@[k]@), i)),
    {
        let gb = gram_bitmap(&grams[idx], p);
        or_into(&mut bm, &gb);
    }
    bm
}

/// Every set bit of the pattern of gram `g` is set in the bitmap `bm`: the
/// gram tests positive against the filter.
pub open spec fn gram_fits(p: HashParams, g: Seq<char>, bm: Seq<u8>) -> bool {
    forall|i: int|
        0 <= i < p.bits ==> (#[trigger] bm_bit(gbits(p, g), i) ==> bm_bit(bm, i))
}

/// The document-level match decision: the query gram set is nonempty and
/// every one of its grams tests positive against the filter bitmap `bm`.
pub open spec fn filter_matches(p: HashParams, qgrams: Set<Seq<char>>, bm: Seq<u8>) -> bool {
    &&& qgrams != Set::<Seq<char>>::empty()
    &&& forall|g: Seq<char>| #[trigger] qgrams.contains(g) ==> gram_fits(p, g, bm)
}

/// Test whether every query gram pattern in `qbms` is contained in the
/// filter bitmap `bm`.
pub fn all_grams_fit(qbms: &Vec<Vec<u8>>, bm: &Vec<u8>) -> (r: bool)
    requires
        forall|k: int| 0 <= k < qbms@.len() ==> (#[trigger] qbms@[k]@).len() == bm@.len(),
        8 * bm@.len() <= usize::MAX,
    ensures
        r == forall|k: int| 0 <= k < qbms@.len() ==> bm_subset(#[trigger] qbms@[k]@, bm@),
{
    for k in 0..qbms.len()
        invariant
            forall|x: int| 0 <= x < qbms@.len() ==> (#[trigger] qbms@[x]@).len() == bm@.len(),
            8 * bm@.len() <= usize::MAX,
            forall|x: int| 0 <= x < k ==> bm_subset(#[trigger] qbms@[x]@, bm@),
    {
        if !crate::bits::bits_subset(&qbms[k], bm) {
            return false;
        }
    }
    true
}

} // verus!
