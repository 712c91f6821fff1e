//! Tokenizer: raw text to a deduplicated set of lowercase character n-grams.
//!
//! Text is scanned character by character.  Whitespace and control
//! characters end the current word; a word ended that way whose length is
//! strictly between 1 and `NGRAM_LEN - 1` is emitted whole as a short gram.
//! Every other character is lowercased and appended to the word; once the
//! word reaches `NGRAM_LEN` characters the current window is emitted, and
//! beyond that the oldest character is dropped so the window slides.  End of
//! input is not a word boundary: a trailing word shorter than `NGRAM_LEN`
//! is dropped.

use vstd::prelude::*;
use crate::NGRAM_LEN;

verus! {

/// Whether `char::is_whitespace` holds of `c`.
pub uninterp spec fn char_is_whitespace(c: char) -> bool;

/// Whether `char::is_control` holds of `c`.
pub uninterp spec fn char_is_control(c: char) -> bool;

/// Whether `char::is_uppercase` holds of `c`.
pub uninterp spec fn char_is_uppercase(c: char) -> bool;

/// The characters that `char::to_lowercase` yields for `c`.
pub uninterp spec fn lowercase_chars(c: char) -> Seq<char>;

/// Relies on char::is_whitespace: true exactly on the characters with the
/// Unicode White_Space property.
#[verifier::external_body]
pub(crate) fn is_whitespace_char(c: char) -> (r: bool)
    ensures
        r == char_is_whitespace(c),
{
    c.is_whitespace()
}

/// Relies on char::is_control: true exactly on the Unicode control codes.
#[verifier::external_body]
pub(crate) fn is_control_char(c: char) -> (r: bool)
    ensures
        r == char_is_control(c),
{
    c.is_control()
}

/// Relies on char::is_uppercase: true exactly on the characters with the
/// Unicode Uppercase property.
#[verifier::external_body]
pub(crate) fn is_uppercase_char(c: char) -> (r: bool)
    ensures
        r == char_is_uppercase(c),
{
    c.is_uppercase()
}

/// Relies on char::to_lowercase: the lowercase mapping of `c`, one or more
/// characters, a function of `c` alone.
#[verifier::external_body]
pub(crate) fn to_lowercase_chars(c: char) -> (r: Vec<char>)
    ensures
        r@ == lowercase_chars(c),
        r@.len() >= 1,
{
    c.to_lowercase().collect()
}

/// A word boundary: whitespace or a control character.
pub open spec fn is_boundary(c: char) -> bool {
    char_is_whitespace(c) || char_is_control(c)
}

/// The characters that `c` contributes to the current word: its lowercase
/// mapping if it is uppercase, otherwise `c` itself.
pub open spec fn folded(c: char) -> Seq<char> {
    if char_is_uppercase(c) {
        lowercase_chars(c)
    } else {
        seq![c]
    }
}

/// One tokenizer step: the accumulated word and the gram set after
/// consuming `c`.
pub open spec fn tok_step(w: Seq<char>, g: Set<Seq<char>>, c: char) -> (Seq<char>, Set<Seq<char>>) {
    if is_boundary(c) {
        if 1 <= w.len() && w.len() < NGRAM_LEN {
            (Seq::empty(), g.insert(w))
        } else {
            (Seq::empty(), g)
        }
    } else {
        let grown = w + folded(c);
        let slid = if grown.len() > NGRAM_LEN {
            grown.subrange(1, grown.len() as int)
        } else {
            grown
        };
        if slid.len() >= NGRAM_LEN {
            (slid, g.insert(slid))
        } else {
            (slid, g)
        }
    }
}

/// The tokenizer state after consuming the first `i` characters of `text`.
pub open spec fn tok_state(text: Seq<char>, i: int) -> (Seq<char>, Set<Seq<char>>)
    decreases i,
{
    if i <= 0 {
        (Seq::empty(), Set::empty())
    } else {
        let prev = tok_state(text, i - 1);
        tok_step(prev.0, prev.1, text[i - 1])
    }
}

/// The set of n-grams of `text`.
pub open spec fn spec_ngrams(text: Seq<char>) -> Set<Seq<char>> {
    tok_state(text, text.len() as int).1
}

/// The set of character sequences held by a vector of grams.
pub open spec fn gram_set(g: Seq<Vec<char>>) -> Set<Seq<char>> {
    Set::new(|s: Seq<char>| exists|k: int| 0 <= k < g.len() && g[k]@ == s)
}

/// No two grams in the vector are equal.
pub open spec fn grams_distinct(g: Seq<Vec<char>>) -> bool {
    forall|j: int, k: int| 0 <= j < k < g.len() ==> g[j]@ != g[k]@
}

/// Copy a gram.
fn clone_chars(v: &Vec<char>) -> (r: Vec<char>)
    ensures
        r@ == v@,
{
    let mut r: Vec<char> = Vec::new();
    for i in 0..v.len()
        invariant
            r@ == v@.subrange(0, i as int),
    {
        r.push(v[i]);
    }
    assert(v@.subrange(0, v@.len() as int) == v@);
    r
}

/// Compare two grams character by character.
fn chars_eq(a: &Vec<char>, b: &Vec<char>) -> (r: bool)
    ensures
        r == (a@ == b@),
{
    if a.len() != b.len() {
        return false;
    }
    for i in 0..a.len()
        invariant
            a@.len() == b@.len(),
            forall|x: int| 0 <= x < i ==> a@[x] == b@[x],
    {
        if a[i] != b[i] {
            return false;
        }
    }
    proof {
        assert(a@ =~= b@);
    }
    true
}

/// Whether the gram `w` already stands in `g`.
fn contains_gram(g: &Vec<Vec<char>>, w: &Vec<char>) -> (r: bool)
    ensures
        r == gram_set(g@).contains(w@),
{
    for k in 0..g.len()
        invariant
            forall|x: int| 0 <= x < k ==> g@[x]@ != w@,
    {
        if chars_eq(&g[k], w) {
            return true;
        }
    }
    false
}

/// Append `w` to `g` unless an equal gram is already there.
fn insert_unique(g: &mut Vec<Vec<char>>, w: Vec<char>)
    requires
        grams_distinct(old(g)@),
    ensures
        gram_set(final(g)@) == gram_set(old(g)@).insert(w@),
        grams_distinct(final(g)@),
{
    if !contains_gram(g, &w) {
        g.push(w);
        assert(gram_set(g@) =~= gram_set(old(g)@).insert(w@)) by {
            assert(forall|x: int| 0 <= x < old(g)@.len() ==> g@[x]@ == old(g)@[x]@);
            assert(g@[old(g)@.len() as int]@ == w@);
        }
    } else {
        assert(gram_set(g@) =~= gram_set(old(g)@).insert(w@));
    }
}

/// The deduplicated set of fixed-length lowercase n-grams of `text`, with
/// short whitespace-terminated words emitted whole.
pub fn ngrams(text: &str) -> (r: Vec<Vec<char>>)
    ensures
        gram_set(r@) == spec_ngrams(text@),
        grams_distinct(r@),
{
    let len = text.unicode_len();
    let mut word: Vec<char> = Vec::new();
    let mut grams: Vec<Vec<char>> = Vec::new();
    for i in 0..len
        invariant
            len == text@.len(),
            word@ == tok_state(text@, i as int).0,
            gram_set(grams@) == tok_state(text@, i as int).1,
            grams_distinct(grams@),
    {
        let c = text.get_char(i);
        let ghost prev = tok_state(text@, i as int);
        assert(tok_state(text@, i + 1) == tok_step(prev.0, prev.1, text@[i as int]));
        if is_whitespace_char(c) || is_control_char(c) {
            if word.len() >= 1 && word.len() < NGRAM_LEN {
                let w = word;
                word = Vec::new();
                insert_unique(&mut grams, w);
            } else {
                word.clear();
            }
        } else {
            let low = if is_uppercase_char(c) {
                to_lowercase_chars(c)
            } else {
                let mut one: Vec<char> = Vec::new();
                one.push(c);
                one
            };
            assert(low@ == folded(c));
            let ghost grown = prev.0 + folded(c);
            for k in 0..low.len()
                invariant
                    low@ == folded(c),
                    word@ == prev.0 + low@.subrange(0, k as int),
            {
                word.push(low[k]);
                assert(word@ == prev.0 + low@.subrange(0, k + 1));
            }
            assert(low@.subrange(0, low@.len() as int) == low@);
            assert(word@ == grown);
            if word.len() > NGRAM_LEN {
                word.remove(0);
                assert(word@ == grown.subrange(1, grown.len() as int)) by {
                    assert(word@ =~= grown.subrange(1, grown.len() as int));
                }
            }
            if word.len() >= NGRAM_LEN {
                insert_unique(&mut grams, clone_chars(&word));
            }
        }
    }
    assert(tok_state(text@, len as int).1 == spec_ngrams(text@));
    grams
}

} // verus!
