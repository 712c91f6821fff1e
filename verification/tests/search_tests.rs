use bloom_search::index::{Document, SearchError, SearchIndex};
use bloom_search::tokenizer::ngrams;

fn doc(id: &str, text: &str) -> Document {
    Document { id: id.to_string(), text: text.to_string() }
}

fn sorted(mut ids: Vec<String>) -> Vec<String> {
    ids.sort();
    ids
}

fn gram_strings(text: &str) -> Vec<String> {
    let mut grams: Vec<String> = ngrams(text).iter().map(|g| g.iter().collect()).collect();
    grams.sort();
    grams
}

#[test]
fn search_on_fresh_store_signals_empty_collection() {
    let store = SearchIndex::new();
    assert!(matches!(store.search("hello"), Err(SearchError::EmptyCollection)));
    assert!(matches!(store.search_linear("hello"), Err(SearchError::EmptyCollection)));
}

#[test]
fn search_after_reset_signals_empty_collection() {
    let mut store = SearchIndex::new();
    store.add(&vec![doc("a", "hello world")]);
    store.reset();
    assert!(matches!(store.search("hello"), Err(SearchError::EmptyCollection)));
}

#[test]
fn add_of_no_documents_pins_nothing() {
    let mut store = SearchIndex::new();
    store.add(&vec![]);
    assert!(matches!(store.search("x"), Err(SearchError::EmptyCollection)));
}

#[test]
fn add_of_no_documents_after_a_pin_is_legal() {
    let mut store = SearchIndex::new();
    store.add(&vec![doc("a", "hello world")]);
    store.add(&vec![]);
    let ids = store.search("hello").unwrap();
    assert_eq!(sorted(ids), vec!["a".to_string()]);
}

#[test]
fn no_false_negatives_on_window_and_word_queries() {
    let mut store = SearchIndex::new();
    store.add(&vec![doc("a", "hello world")]);
    assert!(store.search("hello").unwrap().contains(&"a".to_string()));
    assert!(store.search("wor").unwrap().contains(&"a".to_string()));
}

#[test]
fn repeated_searches_are_deterministic() {
    let mut store = SearchIndex::new();
    store.add(&vec![doc("a", "hello world"), doc("b", "worldly matters")]);
    let first = sorted(store.search("world").unwrap());
    let second = sorted(store.search("world").unwrap());
    assert_eq!(first, second);
}

#[test]
fn indexed_and_linear_strategies_agree() {
    let mut store = SearchIndex::new();
    store.add(&vec![
        doc("a", "hello world"),
        doc("b", "quiet river stones"),
        doc("c", "hello again"),
    ]);
    for query in ["hello", "wor", "river", "stones", "absent words", "x", "   ", ""] {
        let indexed = sorted(store.search(query).unwrap());
        let linear = sorted(store.search_linear(query).unwrap());
        assert_eq!(indexed, linear);
    }
}

#[test]
fn reset_twice_leaves_the_same_state_as_once() {
    let mut once = SearchIndex::new();
    once.add(&vec![doc("a", "hello world")]);
    once.reset();
    let mut twice = SearchIndex::new();
    twice.add(&vec![doc("a", "hello world")]);
    twice.reset();
    twice.reset();
    assert!(matches!(once.search("hello"), Err(SearchError::EmptyCollection)));
    assert!(matches!(twice.search("hello"), Err(SearchError::EmptyCollection)));
    once.add(&vec![doc("b", "fresh start")]);
    twice.add(&vec![doc("b", "fresh start")]);
    assert_eq!(sorted(once.search("fresh").unwrap()), vec!["b".to_string()]);
    assert_eq!(sorted(twice.search("fresh").unwrap()), vec!["b".to_string()]);
}

#[test]
fn short_words_are_emitted_on_boundaries_only() {
    // "ab" ends at a space and is kept; "cd" ends at the end of the input,
    // which is not a boundary, so it is dropped; no word reaches length 3.
    assert_eq!(gram_strings("ab cd"), vec!["ab".to_string()]);
    // With a trailing space both short words are kept.
    assert_eq!(gram_strings("ab cd "), vec!["ab".to_string(), "cd".to_string()]);
}

#[test]
fn long_word_emits_every_window() {
    assert_eq!(
        gram_strings("abcdef"),
        vec!["abc".to_string(), "bcd".to_string(), "cde".to_string(), "def".to_string()]
    );
}

#[test]
fn case_folding_gives_equal_gram_sets() {
    assert_eq!(gram_strings("ABC"), gram_strings("abc"));
    assert_eq!(gram_strings("Hello World"), gram_strings("hello world"));
}

#[test]
fn single_letter_word_before_boundary_is_kept() {
    assert_eq!(gram_strings("a b"), vec!["a".to_string()]);
}

#[test]
fn grams_are_deduplicated() {
    assert_eq!(gram_strings("aaaa aaaa"), vec!["aaa".to_string()]);
}

#[test]
fn duplicate_ids_are_returned_once() {
    let mut store = SearchIndex::new();
    store.add(&vec![doc("x", "hello world"), doc("x", "hello there")]);
    let ids = store.search("hello").unwrap();
    assert_eq!(sorted(ids), vec!["x".to_string()]);
}

#[test]
fn unrelated_documents_are_filtered_out() {
    let mut store = SearchIndex::new();
    store.add(&vec![doc("a", "hello world"), doc("b", "zzz qqq vvv")]);
    let ids = sorted(store.search("hello world").unwrap());
    assert_eq!(ids, vec!["a".to_string()]);
}

#[test]
fn query_with_no_grams_matches_nothing() {
    let mut store = SearchIndex::new();
    store.add(&vec![doc("a", "hello world")]);
    // "x" is a trailing one-letter word, so the query's gram set is empty.
    assert!(store.search("x").unwrap().is_empty());
    assert!(store.search("").unwrap().is_empty());
}

#[test]
fn entries_accumulate_across_add_calls() {
    let mut store = SearchIndex::new();
    store.add(&vec![doc("a", "hello world")]);
    store.add(&vec![doc("b", "hello again")]);
    let ids = sorted(store.search("hello").unwrap());
    assert_eq!(ids, vec!["a".to_string(), "b".to_string()]);
}
