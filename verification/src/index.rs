//! The index store: the sequence of document filter entries, the
//! bit-sliced inverted index over their bitmaps, and the hash parameters
//! pinned for the current generation, with the reset / add / search
//! lifecycle.

use vstd::prelude::*;
use crate::bits::{bm_bit, bm_subset, has_set_bit};
use crate::bloom::{
    HashParams, all_grams_fit, build_filter, filter_matches, fresh_params, gbits, gram_bitmap,
    gram_fits, params_wf,
};
use crate::tokenizer::{gram_set, ngrams, spec_ngrams};
use crate::{BLOOM_BITS, BLOOM_BYTES, BLOOM_CAPACITY};

verus! {

/// One document handed to `add`: a caller-opaque id and the raw text.
/// Duplicate ids are legal and give independently matchable entries.
pub struct Document {
    /// Caller-opaque identifier, returned by `search`.
    pub id: String,
    /// Raw text, tokenized into n-grams on ingestion.
    pub text: String,
}

/// The error a query can signal.
#[derive(Clone, Copy, Debug, PartialEq, Eq, Structural)]
pub enum SearchError {
    /// `search` was called while no document has been added in the current
    /// generation, so no hash parameters are pinned.
    EmptyCollection,
}

/// One stored document summary: the id and the Bloom bitmap of the
/// document's gram set, immutable once created.
pub struct FilterEntry {
    /// The document's id as given to `add`.
    pub id: String,
    /// The document's Bloom bitmap, `BLOOM_BYTES` bytes.
    pub bitmap: Vec<u8>,
}

/// The mutable collection state of one generation.
pub struct SearchIndex {
    /// Hash parameters pinned for this generation; `None` until the first
    /// document is added after a reset.
    pub params: Option<HashParams>,
    /// The filter entries, in insertion order; an entry's position is its
    /// ordinal.
    pub entries: Vec<FilterEntry>,
    /// The bit-sliced inverted index: `postings[i]` holds, in increasing
    /// order, the ordinals of the entries whose bitmap has bit `i` set.
    pub postings: Vec<Vec<usize>>,
}

/// Bit `i` is set in the bitmap of some gram of `grams` under `p`.
pub open spec fn gram_hits(p: HashParams, grams: Set<Seq<char>>, i: int) -> bool {
    exists|g: Seq<char>| #[trigger] grams.contains(g) && bm_bit(gbits(p, g), i)
}

/// `bm` is the Bloom bitmap of the gram set `grams` under `p`: the union
/// of the grams' bit patterns.
pub open spec fn doc_filter_ok(p: HashParams, grams: Set<Seq<char>>, bm: Seq<u8>) -> bool {
    &&& bm.len() == p.bytes
    &&& forall|i: int| 0 <= i < p.bits ==> (#[trigger] bm_bit(bm, i) <==> gram_hits(p, grams, i))
}

impl SearchIndex {
    /// Every stored bitmap has the configured size.
    pub open spec fn entries_wf(self) -> bool {
        forall|o: int|
            0 <= o < self.entries@.len() ==> (#[trigger] self.entries@[o].bitmap@).len()
                == BLOOM_BYTES
    }

    /// Every ordinal in a posting list points at a stored entry.
    pub open spec fn postings_in_range(self) -> bool {
        forall|i: int, j: int|
            0 <= i < self.postings@.len() && 0 <= j < self.postings@[i]@.len() ==> (
            #[trigger] self.postings@[i]@[j]) < self.entries@.len()
    }

    /// An ordinal stands in `postings[i]` exactly when the entry's bitmap
    /// has bit `i` set.
    pub open spec fn postings_exact(self) -> bool {
        forall|i: int, o: int|
            #![trigger self.postings@[i]@.contains(o as usize)]
            0 <= i < self.postings@.len() && 0 <= o < self.entries@.len() ==> (
            self.postings@[i]@.contains(o as usize) <==> bm_bit(self.entries@[o].bitmap@, i))
    }

    /// Each posting list is strictly increasing.
    pub open spec fn postings_sorted(self) -> bool {
        forall|i: int, a: int, b: int|
            0 <= i < self.postings@.len() && 0 <= a < b < self.postings@[i]@.len() ==> (
            #[trigger] self.postings@[i]@[a]) < (#[trigger] self.postings@[i]@[b])
    }

    /// The inverted index reflects the entries exactly.
    pub open spec fn index_wf(self) -> bool {
        &&& self.postings@.len() == BLOOM_BITS
        &&& self.postings_in_range()
        &&& self.postings_exact()
        &&& self.postings_sorted()
    }

    /// Parameters are pinned exactly while the generation holds entries,
    /// and always with the configured bitmap size.
    pub open spec fn params_ok(self) -> bool {
        match self.params {
            None => self.entries@.len() == 0,
            Some(p) => params_wf(p) && p.bytes == BLOOM_BYTES && self.entries@.len() > 0,
        }
    }

    /// The store invariant: constructors establish it and every operation
    /// preserves it.
    pub open spec fn wf(self) -> bool {
        &&& self.entries_wf()
        &&& self.index_wf()
        &&& self.params_ok()
    }

    /// The observable empty state left by `reset`: no parameters, no
    /// entries, and `BLOOM_BITS` empty posting lists.
    pub open spec fn is_pristine(self) -> bool {
        &&& self.params is None
        &&& self.entries@.len() == 0
        &&& self.postings@.len() == BLOOM_BITS
        &&& forall|i: int| 0 <= i < BLOOM_BITS ==> (#[trigger] self.postings@[i]@).len() == 0
    }

    /// A fresh, empty store.
    pub fn new() -> (r: SearchIndex)
        ensures
            r.wf(),
            r.is_pristine(),
    {
        let mut postings: Vec<Vec<usize>> = Vec::new();
        for i in 0..BLOOM_BITS
            invariant
                postings@.len() == i,
                forall|b: int| 0 <= b < i ==> (#[trigger] postings@[b]@).len() == 0,
        {
            postings.push(Vec::new());
        }
        SearchIndex { params: None, entries: Vec::new(), postings }
    }

    /// Clear the collection: drop every entry, reinitialize the inverted
    /// index, and unpin the hash parameters, starting a new generation.
    /// Callable at any time, also on an already empty store.
    pub fn reset(&mut self)
        ensures
            final(self).wf(),
            final(self).is_pristine(),
    {
        let fresh = SearchIndex::new();
        self.params = fresh.params;
        self.entries = fresh.entries;
        self.postings = fresh.postings;
    }

    /// Append one entry and record its set bits in the inverted index.
    #[verifier::rlimit(60)]
    fn record(&mut self, id: String, bm: Vec<u8>)
        requires
            old(self).entries_wf(),
            old(self).index_wf(),
            bm@.len() == BLOOM_BYTES,
        ensures
            final(self).entries_wf(),
            final(self).index_wf(),
            final(self).params == old(self).params,
            final(self).entries@.len() == old(self).entries@.len() + 1,
            forall|j: int|
                0 <= j < old(self).entries@.len() ==> final(self).entries@[j] == old(
                    self,
                ).entries@[j],
            final(self).entries@[old(self).entries@.len() as int].id@ == id@,
            final(self).entries@[old(self).entries@.len() as int].bitmap@ == bm@,
    {
        let ordinal = self.entries.len();
        let ghost pre = *self;
        for i in 0..BLOOM_BITS
            invariant
                self.postings@.len() == BLOOM_BITS,
                self.entries == pre.entries,
                self.params == pre.params,
                bm@.len() == BLOOM_BYTES,
                ordinal == pre.entries@.len(),
                pre.index_wf(),
                forall|b: int| i <= b < BLOOM_BITS ==> self.postings@[b] == pre.postings@[b],
                forall|b: int|
                    0 <= b < i && bm_bit(bm@, b) ==> self.postings@[b]@ == (
                    #[trigger] pre.postings@[b]@).push(ordinal),
                forall|b: int|
                    0 <= b < i && !bm_bit(bm@, b) ==> self.postings@[b] == pre.postings@[b],
        {
            if crate::bits::get_bit(&bm, i) {
                self.postings[i].push(ordinal);
            }
        }
        self.entries.push(FilterEntry { id, bitmap: bm });
        proof {
            let post = *self;
            assert(post.entries@ == pre.entries@.push(
                FilterEntry { id: post.entries@[ordinal as int].id, bitmap: post.entries@[
                    ordinal as int].bitmap },
            ));
            assert forall|o2: int| 0 <= o2 < post.entries@.len() implies (
            #[trigger] post.entries@[o2].bitmap@).len() == BLOOM_BYTES by {
                if o2 < pre.entries@.len() {
                    assert(pre.entries@[o2].bitmap@.len() == BLOOM_BYTES);
                    assert(post.entries@[o2] == pre.entries@[o2]);
                    assert(post.entries@[o2].bitmap@ == pre.entries@[o2].bitmap@);
                } else {
                    assert(post.entries@[o2].bitmap@ == bm@);
                }
            }
            assert forall|i: int, j: int|
                0 <= i < post.postings@.len() && 0 <= j < post.postings@[i]@.len() implies (
            #[trigger] post.postings@[i]@[j]) < post.entries@.len() by {
                if bm_bit(bm@, i) {
                    assert(post.postings@[i]@ == pre.postings@[i]@.push(ordinal));
                    if j < pre.postings@[i]@.len() {
                        assert(pre.postings@[i]@[j] < pre.entries@.len());
                    }
                } else {
                    assert(pre.postings@[i]@[j] < pre.entries@.len());
                }
            }
            assert forall|i: int, o: int|
                #![trigger post.postings@[i]@.contains(o as usize)]
                0 <= i < post.postings@.len() && 0 <= o < post.entries@.len() implies (
            post.postings@[i]@.contains(o as usize) <==> bm_bit(
                post.entries@[o].bitmap@,
                i,
            )) by {
                if o < pre.entries@.len() {
                    assert(post.entries@[o] == pre.entries@[o]);
                    if bm_bit(bm@, i) {
                        assert(post.postings@[i]@ == pre.postings@[i]@.push(ordinal));
                        assert(post.postings@[i]@.contains(o as usize) <==> (
                        pre.postings@[i]@.contains(o as usize) || o == ordinal)) by {
                            lemma_push_contains(pre.postings@[i]@, ordinal, o as usize);
                        }
                    } else {
                        assert(post.postings@[i]@ == pre.postings@[i]@);
                    }
                } else {
                    assert(o == ordinal);
                    assert(post.entries@[o].bitmap@ == bm@);
                    if bm_bit(bm@, i) {
                        assert(post.postings@[i]@ == pre.postings@[i]@.push(ordinal));
                        assert(post.postings@[i]@[pre.postings@[i]@.len() as int] == ordinal);
                        assert(post.postings@[i]@.contains(o as usize));
                    } else {
                        assert(post.postings@[i]@ == pre.postings@[i]@);
                        assert(!pre.postings@[i]@.contains(ordinal)) by {
                            if pre.postings@[i]@.contains(ordinal) {
                                let j = choose|j: int|
                                    0 <= j < pre.postings@[i]@.len() && pre.postings@[i]@[j]
                                        == ordinal;
                                assert(pre.postings@[i]@[j] < pre.entries@.len());
                            }
                        }
                    }
                }
            }
            assert forall|i: int, a: int, b: int|
                0 <= i < post.postings@.len() && 0 <= a < b < post.postings@[i]@.len() implies (
            #[trigger] post.postings@[i]@[a]) < (#[trigger] post.postings@[i]@[b]) by {
                if bm_bit(bm@, i) {
                    assert(post.postings@[i]@ == pre.postings@[i]@.push(ordinal));
                    if b < pre.postings@[i]@.len() {
                        assert(pre.postings@[i]@[a] < pre.postings@[i]@[b]);
                    } else {
                        assert(post.postings@[i]@[b] == ordinal);
                        assert(pre.postings@[i]@[a] < pre.entries@.len());
                    }
                } else {
                    assert(pre.postings@[i]@[a] < pre.postings@[i]@[b]);
                }
            }
        }
    }
}

impl SearchIndex {
    /// Append documents to the current generation.  Each document is
    /// tokenized and its filter built under the pinned hash parameters;
    /// when none are pinned yet and at least one document arrives, fresh
    /// parameters are generated and pinned for the rest of the generation.
    /// Existing entries, and the parameters once pinned, never change.
    pub fn add(&mut self, docs: &Vec<Document>)
        requires
            old(self).wf(),
        ensures
            final(self).wf(),
            final(self).entries@.len() == old(self).entries@.len() + docs@.len(),
            forall|x: int|
                0 <= x < old(self).entries@.len() ==> final(self).entries@[x] == old(
                    self,
                ).entries@[x],
            old(self).params is Some ==> final(self).params == old(self).params,
            old(self).params is None && docs@.len() == 0 ==> final(self).params is None,
            old(self).params is None && docs@.len() > 0 ==> final(self).params is Some,
            forall|j: int|
                0 <= j < docs@.len() ==> (#[trigger] final(self).entries@[old(self).entries@.len()
                    + j]).id@ == docs@[j].id@ && doc_filter_ok(
                    final(self).params.unwrap(),
                    spec_ngrams(docs@[j].text@),
                    final(self).entries@[old(self).entries@.len() + j].bitmap@,
                ),
    {
        let ghost orig = *self;
        let n_docs = docs.len();
        for j in 0..n_docs
            invariant
                n_docs == docs@.len(),
                self.wf(),
                self.entries@.len() == orig.entries@.len() + j,
                forall|x: int|
                    0 <= x < orig.entries@.len() ==> self.entries@[x] == orig.entries@[x],
                orig.params is Some ==> self.params == orig.params,
                orig.params is None && j == 0 ==> self.params is None,
                orig.params is None && j > 0 ==> self.params is Some,
                forall|x: int|
                    0 <= x < j ==> (#[trigger] self.entries@[orig.entries@.len() + x]).id@
                        == docs@[x].id@ && doc_filter_ok(
                        self.params.unwrap(),
                        spec_ngrams(docs@[x].text@),
                        self.entries@[orig.entries@.len() + x].bitmap@,
                    ),
        {
            if self.params.is_none() {
                self.params = Some(fresh_params(BLOOM_BYTES, BLOOM_CAPACITY));
            }
            let p = self.params.unwrap();
            assert(params_wf(p) && p.bytes == BLOOM_BYTES && p.bits == BLOOM_BITS);
            let d = &docs[j];
            let grams = ngrams(d.text.as_str());
            let bm = build_filter(&grams, &p);
            proof {
                assert forall|i: int| 0 <= i < p.bits implies (bm_bit(bm@, i) <==> gram_hits(
                    p,
                    spec_ngrams(d.text@),
                    i,
                )) by {
                    if bm_bit(bm@, i) {
                        let k = choose|k: int|
                            0 <= k < grams@.len() && bm_bit(gbits(p, grams@[k]@), i);
                        assert(gram_set(grams@).contains(grams@[k]@));
                        assert(gram_hits(p, spec_ngrams(d.text@), i));
                    }
                    if gram_hits(p, spec_ngrams(d.text@), i) {
                        let g = choose|g: Seq<char>|
                            #[trigger] spec_ngrams(d.text@).contains(g) && bm_bit(gbits(p, g), i);
                        assert(gram_set(grams@).contains(g));
                        let k = choose|k: int| 0 <= k < grams@.len() && grams@[k]@ == g;
                        assert(bm_bit(gbits(p, grams@[k]@), i));
                    }
                }
            }
            self.record(d.id.clone(), bm);
        }
    }
}

/// The set of character sequences held by a vector of id strings.
pub open spec fn id_set(ids: Seq<String>) -> Set<Seq<char>> {
    Set::new(|s: Seq<char>| exists|k: int| 0 <= k < ids.len() && (#[trigger] ids[k])@ == s)
}

/// No two ids in the vector are equal.
pub open spec fn ids_distinct(ids: Seq<String>) -> bool {
    forall|j: int, k: int| 0 <= j < k < ids.len() ==> ids[j]@ != ids[k]@
}

impl SearchIndex {
    /// The ids of the entries that match the query gram set `qgrams`: an
    /// entry matches when `qgrams` is nonempty and every query gram tests
    /// positive against the entry's bitmap.
    pub open spec fn match_set(self, qgrams: Set<Seq<char>>) -> Set<Seq<char>>
        recommends
            self.params is Some,
    {
        Set::new(
            |id: Seq<char>|
                exists|o: int|
                    0 <= o < self.entries@.len() && (#[trigger] self.entries@[o]).id@ == id
                        && filter_matches(self.params.unwrap(), qgrams, self.entries@[o].bitmap@),
        )
    }

    /// The ids of the entries marked true in `marked`.
    pub open spec fn marked_ids(self, marked: Seq<bool>) -> Set<Seq<char>> {
        Set::new(
            |id: Seq<char>|
                exists|o: int|
                    0 <= o < self.entries@.len() && #[trigger] marked[o]
                        && self.entries@[o].id@ == id,
        )
    }

    /// Gather the ids of the marked entries, each id once.
    fn collect_marked(&self, marked: &Vec<bool>) -> (r: Vec<String>)
        requires
            marked@.len() == self.entries@.len(),
        ensures
            ids_distinct(r@),
            id_set(r@) == self.marked_ids(marked@),
    {
        let mut out: Vec<String> = Vec::new();
        let n = self.entries.len();
        for o in 0..n
            invariant
                n == self.entries@.len(),
                marked@.len() == n,
                ids_distinct(out@),
                forall|k: int|
                    0 <= k < out@.len() ==> self.marked_ids(marked@).contains(
                        (#[trigger] out@[k])@,
                    ),
                forall|x: int|
                    0 <= x < o && #[trigger] marked@[x] ==> id_set(out@).contains(
                        self.entries@[x].id@,
                    ),
        {
            let ghost pre_out = out@;
            if marked[o] {
                if !contains_id(&out, &self.entries[o].id) {
                    out.push(self.entries[o].id.clone());
                    proof {
                        assert(out@[pre_out.len() as int]@ == self.entries@[o as int].id@);
                        assert(forall|k: int| 0 <= k < pre_out.len() ==> out@[k] == pre_out[k]);
                        assert(0 <= o < self.entries@.len() && marked@[o as int]
                            && self.entries@[o as int].id@ == self.entries@[o as int].id@);
                        assert(self.marked_ids(marked@).contains(self.entries@[o as int].id@));
                        assert forall|x: int| 0 <= x < o + 1 && #[trigger] marked@[x] implies id_set(
                            out@,
                        ).contains(self.entries@[x].id@) by {
                            if x < o {
                                let k = choose|k: int|
                                    0 <= k < pre_out.len() && (#[trigger] pre_out[k])@
                                        == self.entries@[x].id@;
                                assert(out@[k]@ == self.entries@[x].id@);
                            } else {
                                assert(out@[pre_out.len() as int]@ == self.entries@[x].id@);
                            }
                        }
                    }
                } else {
                    proof {
                        assert forall|x: int| 0 <= x < o + 1 && #[trigger] marked@[x] implies id_set(
                            out@,
                        ).contains(self.entries@[x].id@) by {}
                    }
                }
            }
        }
        proof {
            assert forall|id: Seq<char>| #[trigger]
                self.marked_ids(marked@).contains(id) implies id_set(out@).contains(id) by {
                let x = choose|x: int|
                    0 <= x < self.entries@.len() && #[trigger] marked@[x] && self.entries@[x].id@
                        == id;
            }
            assert(id_set(out@) =~= self.marked_ids(marked@));
        }
        out
    }
}

/// Whether some id in `v` equals `s`.
fn contains_id(v: &Vec<String>, s: &String) -> (r: bool)
    ensures
        r == id_set(v@).contains(s@),
{
    for k in 0..v.len()
        invariant
            forall|x: int| 0 <= x < k ==> (#[trigger] v@[x])@ != s@,
    {
        if s.eq(&v[k]) {
            return true;
        }
    }
    false
}

/// A vector of `n` false flags.
fn false_flags(n: usize) -> (r: Vec<bool>)
    ensures
        r@.len() == n,
        forall|x: int| 0 <= x < n ==> !(#[trigger] r@[x]),
{
    let mut r: Vec<bool> = Vec::new();
    for _i in 0..n
        invariant
            r@.len() == _i,
            forall|x: int| 0 <= x < _i ==> !(#[trigger] r@[x]),
    {
        r.push(false);
    }
    r
}

/// The bit patterns of the query's grams under the shared parameters.
fn query_bitmaps(grams: &Vec<Vec<char>>, p: &HashParams) -> (r: Vec<Vec<u8>>)
    requires
        params_wf(*p),
    ensures
        r@.len() == grams@.len(),
        forall|k: int| 0 <= k < grams@.len() ==> (#[trigger] r@[k])@ == gbits(*p, grams@[k]@),
        forall|k: int| 0 <= k < r@.len() ==> (#[trigger] r@[k])@.len() == p.bytes,
        forall|k: int| 0 <= k < r@.len() ==> has_set_bit((#[trigger] r@[k])@, p.bits as int),
{
    let mut r: Vec<Vec<u8>> = Vec::new();
    for k in 0..grams.len()
        invariant
            params_wf(*p),
            r@.len() == k,
            forall|x: int| 0 <= x < k ==> (#[trigger] r@[x])@ == gbits(*p, grams@[x]@),
            forall|x: int| 0 <= x < r@.len() ==> (#[trigger] r@[x])@.len() == p.bytes,
            forall|x: int| 0 <= x < r@.len() ==> has_set_bit((#[trigger] r@[x])@, p.bits as int),
    {
        r.push(gram_bitmap(&grams[k], p));
    }
    r
}

/// An entry's bitmap passes the per-gram subset tests exactly when the
/// query gram set matches the entry under `filter_matches`.
proof fn lemma_fit_bridge(p: HashParams, grams: Seq<Vec<char>>, qbms: Seq<Vec<u8>>, bm: Seq<u8>)
    requires
        qbms.len() == grams.len(),
        forall|k: int| 0 <= k < grams.len() ==> (#[trigger] qbms[k])@ == gbits(p, grams[k]@),
        forall|k: int| 0 <= k < qbms.len() ==> (#[trigger] qbms[k])@.len() == p.bytes,
        bm.len() == p.bytes,
        p.bits == 8 * p.bytes,
    ensures
        filter_matches(p, gram_set(grams), bm) <==> (grams.len() > 0 && forall|k: int|
            0 <= k < qbms.len() ==> bm_subset((#[trigger] qbms[k])@, bm)),
{
    if grams.len() > 0 && (forall|k: int| 0 <= k < qbms.len() ==> bm_subset(
        (#[trigger] qbms[k])@,
        bm,
    )) {
        assert(gram_set(grams).contains(grams[0]@));
        assert(gram_set(grams) != Set::<Seq<char>>::empty());
        assert forall|g: Seq<char>| #[trigger]
            gram_set(grams).contains(g) implies gram_fits(p, g, bm) by {
            let k = choose|k: int| 0 <= k < grams.len() && (#[trigger] grams[k])@ == g;
            assert(bm_subset(qbms[k]@, bm));
            assert(qbms[k]@ == gbits(p, g));
            assert(8 * qbms[k]@.len() == p.bits);
        }
        assert(filter_matches(p, gram_set(grams), bm));
    }
    if filter_matches(p, gram_set(grams), bm) {
        if grams.len() == 0 {
            assert(gram_set(grams) =~= Set::<Seq<char>>::empty());
        }
        assert forall|k: int| 0 <= k < qbms.len() implies bm_subset((#[trigger] qbms[k])@, bm) by {
            assert(gram_set(grams).contains(grams[k]@));
            assert(gram_fits(p, grams[k]@, bm));
            assert(qbms[k]@ == gbits(p, grams[k]@));
            assert(8 * qbms[k]@.len() == p.bits);
        }
    }
}

impl SearchIndex {
    /// Answer a query by a direct scan: verify every stored entry against
    /// the query's gram set, without consulting the inverted index.  The
    /// result set equals `search`'s for the same state and text.
    pub fn search_linear(&self, text: &str) -> (r: Result<Vec<String>, SearchError>)
        requires
            self.wf(),
        ensures
            r is Err <==> self.params is None,
            r is Ok ==> ids_distinct(r->Ok_0@) && id_set(r->Ok_0@) == self.match_set(
                spec_ngrams(text@),
            ),
    {
        if self.params.is_none() {
            return Err(SearchError::EmptyCollection);
        }
        let p = self.params.unwrap();
        let grams = ngrams(text);
        let qbms = query_bitmaps(&grams, &p);
        let ghost qgrams = spec_ngrams(text@);
        let n = self.entries.len();
        let mut marked: Vec<bool> = Vec::new();
        for o in 0..n
            invariant
                n == self.entries@.len(),
                marked@.len() == o,
                self.wf(),
                self.params == Some(p),
                params_wf(p),
                p.bytes == BLOOM_BYTES,
                p.bits == 8 * p.bytes,
                qbms@.len() == grams@.len(),
                gram_set(grams@) == qgrams,
                forall|k: int|
                    0 <= k < grams@.len() ==> (#[trigger] qbms@[k])@ == gbits(p, grams@[k]@),
                forall|k: int| 0 <= k < qbms@.len() ==> (#[trigger] qbms@[k])@.len() == p.bytes,
                forall|x: int|
                    0 <= x < o ==> marked@[x] == filter_matches(
                        p,
                        qgrams,
                        (#[trigger] self.entries@[x]).bitmap@,
                    ),
        {
            let m = if grams.len() > 0 {
                all_grams_fit(&qbms, &self.entries[o].bitmap)
            } else {
                false
            };
            proof {
                lemma_fit_bridge(p, grams@, qbms@, self.entries@[o as int].bitmap@);
            }
            marked.push(m);
        }
        let out = self.collect_marked(&marked);
        proof {
            assert forall|id: Seq<char>| #[trigger]
                self.marked_ids(marked@).contains(id) implies self.match_set(qgrams).contains(
                id,
            ) by {
                let x = choose|x: int|
                    0 <= x < self.entries@.len() && #[trigger] marked@[x] && self.entries@[x].id@
                        == id;
                assert(filter_matches(p, qgrams, self.entries@[x].bitmap@));
            }
            assert forall|id: Seq<char>| #[trigger]
                self.match_set(qgrams).contains(id) implies self.marked_ids(marked@).contains(
                id,
            ) by {
                let x = choose|x: int|
                    0 <= x < self.entries@.len() && (#[trigger] self.entries@[x]).id@ == id
                        && filter_matches(p, qgrams, self.entries@[x].bitmap@);
                assert(marked@[x]);
            }
            assert(self.marked_ids(marked@) =~= self.match_set(qgrams));
        }
        Ok(out)
    }
}

impl SearchIndex {
    /// Answer a query through the bit-sliced inverted index: build the
    /// query's bitmap under the pinned parameters, walk the postings of
    /// its set bits to enumerate candidate ordinals, verify each candidate
    /// once against the query's gram set, and return the ids of the
    /// matches.  A document whose text contains every query gram is never
    /// missed; a candidate that only shares bits incidentally is rejected
    /// by the exact per-gram verification.
    pub fn search(&self, text: &str) -> (r: Result<Vec<String>, SearchError>)
        requires
            self.wf(),
        ensures
            r is Err <==> self.params is None,
            r is Ok ==> ids_distinct(r->Ok_0@) && id_set(r->Ok_0@) == self.match_set(
                spec_ngrams(text@),
            ),
    {
        if self.params.is_none() {
            return Err(SearchError::EmptyCollection);
        }
        let p = self.params.unwrap();
        let grams = ngrams(text);
        let qbms = query_bitmaps(&grams, &p);
        let qbm = build_filter(&grams, &p);
        let ghost qgrams = spec_ngrams(text@);
        let n = self.entries.len();
        let mut decided = false_flags(n);
        let mut marked = false_flags(n);
        for i in 0..BLOOM_BITS
            invariant
                n == self.entries@.len(),
                decided@.len() == n,
                marked@.len() == n,
                self.wf(),
                self.params == Some(p),
                params_wf(p),
                p.bytes == BLOOM_BYTES,
                p.bits == 8 * p.bytes,
                qbm@.len() == p.bytes,
                forall|b: int|
                    0 <= b < p.bits ==> (#[trigger] bm_bit(qbm@, b) <==> exists|k: int|
                        0 <= k < grams@.len() && bm_bit(gbits(p, grams@[k]@), b)),
                qbms@.len() == grams@.len(),
                gram_set(grams@) == qgrams,
                forall|k: int|
                    0 <= k < grams@.len() ==> (#[trigger] qbms@[k])@ == gbits(p, grams@[k]@),
                forall|k: int| 0 <= k < qbms@.len() ==> (#[trigger] qbms@[k])@.len() == p.bytes,
                forall|k: int|
                    0 <= k < qbms@.len() ==> has_set_bit((#[trigger] qbms@[k])@, p.bits as int),
                forall|o: int|
                    0 <= o < n && #[trigger] decided@[o] ==> marked@[o] == filter_matches(
                        p,
                        qgrams,
                        self.entries@[o].bitmap@,
                    ),
                forall|o: int| 0 <= o < n && #[trigger] marked@[o] ==> decided@[o],
                forall|b: int, j: int|
                    0 <= b < i && 0 <= j < self.postings@[b]@.len() && bm_bit(qbm@, b)
                        ==> decided@[(#[trigger] self.postings@[b]@[j]) as int],
        {
            if crate::bits::get_bit(&qbm, i) {
                let plen = self.postings[i].len();
                for j in 0..plen
                    invariant
                        n == self.entries@.len(),
                        decided@.len() == n,
                        marked@.len() == n,
                        self.wf(),
                        self.params == Some(p),
                        params_wf(p),
                        p.bytes == BLOOM_BYTES,
                        p.bits == 8 * p.bytes,
                        i < BLOOM_BITS,
                        plen == self.postings@[i as int]@.len(),
                        bm_bit(qbm@, i as int),
                        qbm@.len() == p.bytes,
                        qbms@.len() == grams@.len(),
                        gram_set(grams@) == qgrams,
                        forall|k: int|
                            0 <= k < grams@.len() ==> (#[trigger] qbms@[k])@ == gbits(
                                p,
                                grams@[k]@,
                            ),
                        forall|k: int|
                            0 <= k < qbms@.len() ==> (#[trigger] qbms@[k])@.len() == p.bytes,
                        forall|o: int|
                            0 <= o < n && #[trigger] decided@[o] ==> marked@[o] == filter_matches(
                                p,
                                qgrams,
                                self.entries@[o].bitmap@,
                            ),
                        forall|o: int| 0 <= o < n && #[trigger] marked@[o] ==> decided@[o],
                        forall|b: int, j2: int|
                            0 <= b < i && 0 <= j2 < self.postings@[b]@.len() && bm_bit(qbm@, b)
                                ==> decided@[(#[trigger] self.postings@[b]@[j2]) as int],
                        forall|j2: int|
                            0 <= j2 < j ==> decided@[(#[trigger] self.postings@[i as int]@[j2]) as int],
                {
                    let o = self.postings[i][j];
                    assert(o < n);
                    if !decided[o] {
                        let m = if grams.len() > 0 {
                            all_grams_fit(&qbms, &self.entries[o].bitmap)
                        } else {
                            false
                        };
                        proof {
                            lemma_fit_bridge(p, grams@, qbms@, self.entries@[o as int].bitmap@);
                        }
                        decided[o] = true;
                        marked[o] = m;
                    }
                }
            }
        }
        proof {
            assert forall|o: int| 0 <= o < n implies marked@[o] == filter_matches(
                p,
                qgrams,
                (#[trigger] self.entries@[o]).bitmap@,
            ) by {
                if filter_matches(p, qgrams, self.entries@[o].bitmap@) {
                    assert(grams@.len() > 0) by {
                        if grams@.len() == 0 {
                            assert(gram_set(grams@) =~= Set::<Seq<char>>::empty());
                        }
                    }
                    let g = grams@[0]@;
                    assert(gram_set(grams@).contains(g));
                    assert(gram_fits(p, g, self.entries@[o].bitmap@));
                    assert(qbms@[0]@ == gbits(p, g));
                    assert(has_set_bit(gbits(p, g), p.bits as int));
                    let b = choose|b: int| 0 <= b < p.bits && bm_bit(gbits(p, g), b);
                    assert(bm_bit(qbm@, b)) by {
                        assert(0 <= 0 < grams@.len() && bm_bit(gbits(p, grams@[0]@), b));
                    }
                    assert(bm_bit(self.entries@[o].bitmap@, b));
                    assert(self.postings@[b]@.contains(o as usize));
                    let j = choose|j: int|
                        0 <= j < self.postings@[b]@.len() && self.postings@[b]@[j] == o as usize;
                    assert(decided@[(self.postings@[b]@[j]) as int]);
                    assert(decided@[o]);
                } else {
                    if marked@[o] {
                        assert(decided@[o]);
                        assert(false);
                    }
                }
            }
            assert forall|id: Seq<char>| #[trigger]
                self.marked_ids(marked@).contains(id) implies self.match_set(qgrams).contains(
                id,
            ) by {
                let x = choose|x: int|
                    0 <= x < self.entries@.len() && #[trigger] marked@[x] && self.entries@[x].id@
                        == id;
                assert(filter_matches(p, qgrams, self.entries@[x].bitmap@));
            }
            assert forall|id: Seq<char>| #[trigger]
                self.match_set(qgrams).contains(id) implies self.marked_ids(marked@).contains(
                id,
            ) by {
                let x = choose|x: int|
                    0 <= x < self.entries@.len() && (#[trigger] self.entries@[x]).id@ == id
                        && filter_matches(p, qgrams, self.entries@[x].bitmap@);
                assert(marked@[x]);
            }
        }
        let out = self.collect_marked(&marked);
        proof {
            assert(self.marked_ids(marked@) =~= self.match_set(qgrams));
        }
        Ok(out)
    }
}

impl SearchIndex {
    /// No false negatives: when an entry's bitmap is the filter of a
    /// document gram set, any nonempty query gram set contained in that
    /// document's grams matches the entry, so its id is in the result set
    /// of every query whose grams those are.
    pub proof fn lemma_no_false_negatives(
        self,
        o: int,
        doc_grams: Set<Seq<char>>,
        qgrams: Set<Seq<char>>,
    )
        requires
            self.wf(),
            self.params is Some,
            0 <= o < self.entries@.len(),
            doc_filter_ok(self.params.unwrap(), doc_grams, self.entries@[o].bitmap@),
            qgrams.subset_of(doc_grams),
            qgrams != Set::<Seq<char>>::empty(),
        ensures
            self.match_set(qgrams).contains(self.entries@[o].id@),
    {
        let p = self.params.unwrap();
        let bm = self.entries@[o].bitmap@;
        assert forall|g: Seq<char>| #[trigger] qgrams.contains(g) implies gram_fits(p, g, bm) by {
            assert(doc_grams.contains(g));
            assert forall|i: int|
                0 <= i < p.bits && #[trigger] bm_bit(gbits(p, g), i) implies bm_bit(bm, i) by {
                assert(gram_hits(p, doc_grams, i));
            }
        }
        assert(filter_matches(p, qgrams, bm));
    }

    /// Deterministic results: any two result vectors that `search` (or
    /// `search_linear`) can return for one state and one query gram set
    /// hold the same id set.
    pub proof fn lemma_search_deterministic(
        self,
        qgrams: Set<Seq<char>>,
        r1: Seq<String>,
        r2: Seq<String>,
    )
        requires
            id_set(r1) == self.match_set(qgrams),
            id_set(r2) == self.match_set(qgrams),
        ensures
            id_set(r1) == id_set(r2),
    {
    }

    /// Strategy equivalence: a result of the indexed `search` and a result
    /// of `search_linear`, for one state and one query gram set, hold the
    /// same id set.
    pub proof fn lemma_strategy_equivalence(
        self,
        qgrams: Set<Seq<char>>,
        r_indexed: Seq<String>,
        r_linear: Seq<String>,
    )
        requires
            id_set(r_indexed) == self.match_set(qgrams),
            id_set(r_linear) == self.match_set(qgrams),
        ensures
            id_set(r_indexed) == id_set(r_linear),
    {
    }

    /// Idempotent reset: any two stores in the pristine state that `reset`
    /// leaves — so also the states after one reset and after two in a row —
    /// agree on everything observable: parameters, entries and postings.
    pub proof fn lemma_reset_idempotent(a: SearchIndex, b: SearchIndex)
        requires
            a.is_pristine(),
            b.is_pristine(),
        ensures
            a.params == b.params,
            a.entries@ == b.entries@,
            a.postings@.len() == b.postings@.len(),
            forall|i: int| 0 <= i < BLOOM_BITS ==> (#[trigger] a.postings@[i])@ == b.postings@[i]@,
    {
        assert(a.entries@ =~= b.entries@);
        assert forall|i: int| 0 <= i < BLOOM_BITS implies (#[trigger] a.postings@[i])@
            == b.postings@[i]@ by {
            assert(a.postings@[i]@ =~= b.postings@[i]@);
        }
    }
}

/// A sequence extended by one element holds exactly the old elements and
/// the new one.
proof fn lemma_push_contains(s: Seq<usize>, x: usize, y: usize)
    ensures
        s.push(x).contains(y) <==> (s.contains(y) || y == x),
{
    if s.contains(y) {
        let j = choose|j: int| 0 <= j < s.len() && s[j] == y;
        assert(s.push(x)[j] == y);
    }
    if y == x {
        assert(s.push(x)[s.len() as int] == y);
    }
    if s.push(x).contains(y) {
        let j = choose|j: int| 0 <= j < s.push(x).len() && s.push(x)[j] == y;
        if j < s.len() {
            assert(s[j] == y);
        }
    }
}

} // verus!
