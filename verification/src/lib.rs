//! An in-memory approximate full-text search engine.
//!
//! Documents are tokenized into fixed-length character n-grams; each
//! document's gram set is summarized as a Bloom-filter bitmap built under
//! hash parameters shared by the whole collection, and a bit-sliced inverted
//! index maps each bit position to the documents whose bitmap has that bit
//! set.  A query builds its own bitmap under the same parameters, walks the
//! postings of its set bits to collect candidates, and verifies each
//! candidate exactly against the query's gram set, so that a match is a
//! document-level decision: no false negatives, and only the bounded false
//! positives inherent to the Bloom summaries.

use vstd::prelude::*;

pub mod bits;
pub mod bloom;
pub mod index;
pub mod tokenizer;

verus! {

/// Length of a character n-gram window.
pub const NGRAM_LEN: usize = 3;

/// Expected number of distinct grams per document filter.
pub const BLOOM_CAPACITY: usize = 500;

/// Size in bytes of each document's Bloom bitmap: the recommended size for
/// `BLOOM_CAPACITY` items at a 1% target false-positive rate under the
/// standard optimal Bloom sizing formula.
pub const BLOOM_BYTES: usize = 600;

/// Size in bits of each document's Bloom bitmap, and the number of posting
/// lists in the bit-sliced inverted index.
pub const BLOOM_BITS: usize = 8 * BLOOM_BYTES;

} // verus!
