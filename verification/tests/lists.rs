use petname::Petnames;
use petname::letters::common_first_letters;
use petname::letters::first_letters;

fn strings(words: &[&str]) -> Vec<String> {
    words.iter().map(|w| w.to_string()).collect()
}

#[test]
fn new_splits_on_whitespace_runs() {
    let p = Petnames::new("  big\t red\n", "fast", "cat dog");
    assert_eq!(p.adjectives, strings(&["big", "red"]));
    assert_eq!(p.adverbs, strings(&["fast"]));
    assert_eq!(p.names, strings(&["cat", "dog"]));
}

#[test]
fn new_discards_empty_tokens() {
    let p = Petnames::new("", "   \n\t ", "a  b   c");
    assert!(p.adjectives.is_empty());
    assert!(p.adverbs.is_empty());
    assert_eq!(p.names, strings(&["a", "b", "c"]));
}

#[test]
fn cardinality_is_product_of_referenced_lengths() {
    let p = Petnames::new("big red", "fast", "cat dog");
    assert_eq!(p.cardinality(1), 2); // names only
    assert_eq!(p.cardinality(2), 4); // adjectives x names
    assert_eq!(p.cardinality(3), 4); // adverbs x adjectives x names
    assert_eq!(p.cardinality(4), 4); // one more adverb position
}

#[test]
fn cardinality_zero_for_zero_words() {
    let p = Petnames::new("big red", "fast", "cat dog");
    assert_eq!(p.cardinality(0), 0);
}

#[test]
fn cardinality_zero_when_a_referenced_list_is_empty() {
    let p = Petnames::new("", "fast", "cat dog");
    assert_eq!(p.cardinality(2), 0);
    // with one word only the name list is referenced
    assert_eq!(p.cardinality(1), 2);
    let q = Petnames::new("big", "", "cat");
    assert_eq!(q.cardinality(2), 1);
    assert_eq!(q.cardinality(3), 0);
}

#[test]
fn cardinality_saturates_at_u128_max() {
    // 253 adverb positions of 4 words each: far beyond u128::MAX.
    let p = Petnames::new("w x", "a b c d", "m n");
    assert_eq!(p.cardinality(255), u128::MAX);
}

#[test]
fn retain_keeps_matching_words_in_order() {
    let mut p = Petnames::new("big bad red rose", "boldly fast", "bat cat bird");
    p.retain(|s| s.starts_with('b'));
    assert_eq!(p.adjectives, strings(&["big", "bad"]));
    assert_eq!(p.adverbs, strings(&["boldly"]));
    assert_eq!(p.names, strings(&["bat", "bird"]));
}

#[test]
fn retain_is_idempotent() {
    let mut p = Petnames::new("big bad red rose", "boldly fast", "bat cat bird");
    p.retain(|s| s.starts_with('b'));
    let once = p.clone();
    p.retain(|s| s.starts_with('b'));
    assert_eq!(p.adjectives, once.adjectives);
    assert_eq!(p.adverbs, once.adverbs);
    assert_eq!(p.names, once.names);
}

#[test]
fn retain_may_empty_a_list() {
    let mut p = Petnames::new("big", "fast", "cat");
    p.retain(|s| s.len() > 10);
    assert!(p.adjectives.is_empty());
    assert!(p.adverbs.is_empty());
    assert!(p.names.is_empty());
}

#[test]
fn first_letters_are_distinct_and_in_order() {
    let list = strings(&["big", "bold", "cat", "", "deer", "cub"]);
    assert_eq!(first_letters(&list), vec!['b', 'c', 'd']);
}

#[test]
fn common_first_letters_intersects_the_lists() {
    let a = strings(&["big", "red", "dark"]);
    let b = strings(&["boldly", "rarely"]);
    let c = strings(&["bat", "rook", "deer"]);
    assert_eq!(common_first_letters(&a, &b, &c), vec!['b', 'r']);
}

#[test]
fn builtin_lists_are_nonempty_and_usable() {
    for p in [Petnames::small(), Petnames::medium(), Petnames::large()] {
        assert!(p.cardinality(3) > 0);
    }
    let d = Petnames::default();
    let s = Petnames::small();
    assert_eq!(d.adjectives, s.adjectives);
    assert_eq!(d.adverbs, s.adverbs);
    assert_eq!(d.names, s.names);
}
