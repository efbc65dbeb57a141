use petname::petname;
use petname::Petnames;

fn sorted(mut v: Vec<String>) -> Vec<String> {
    v.sort();
    v
}

#[test]
fn generate_with_singleton_lists_is_determined() {
    let p = Petnames::new("big", "fast", "cat");
    let mut rng = rand::thread_rng();
    assert_eq!(p.generate(&mut rng, 1, "-"), "cat");
    assert_eq!(p.generate(&mut rng, 2, "-"), "big-cat");
    assert_eq!(p.generate(&mut rng, 3, "-"), "fast-big-cat");
    assert_eq!(p.generate(&mut rng, 4, "-"), "fast-fast-big-cat");
}

#[test]
fn generate_zero_words_is_empty() {
    let p = Petnames::new("big", "fast", "cat");
    let mut rng = rand::thread_rng();
    assert_eq!(p.generate(&mut rng, 0, "-"), "");
}

#[test]
fn generate_skips_empty_lists() {
    let p = Petnames::new("big", "", "cat");
    let mut rng = rand::thread_rng();
    assert_eq!(p.generate(&mut rng, 3, "-"), "big-cat");
}

#[test]
fn generate_uses_the_separator_verbatim() {
    let p = Petnames::new("big", "fast", "cat");
    let mut rng = rand::thread_rng();
    assert_eq!(p.generate(&mut rng, 3, "::"), "fast::big::cat");
    assert_eq!(p.generate(&mut rng, 2, ""), "bigcat");
}

#[test]
fn generate_draws_one_word_per_position() {
    let p = Petnames::new("big red", "boldly fast", "cat dog");
    let mut rng = rand::thread_rng();
    for _ in 0..50 {
        let name = p.generate(&mut rng, 3, ".");
        let parts: Vec<&str> = name.split('.').collect();
        assert_eq!(parts.len(), 3);
        assert!(p.adverbs.iter().any(|w| w == parts[0]));
        assert!(p.adjectives.iter().any(|w| w == parts[1]));
        assert!(p.names.iter().any(|w| w == parts[2]));
    }
}

#[test]
fn generate_one_uses_the_default_rng() {
    let p = Petnames::new("big", "fast", "cat");
    assert_eq!(p.generate_one(2, "-"), "big-cat");
}

#[test]
fn petname_uses_the_default_lists() {
    let name = petname(2, "-");
    let p = Petnames::default();
    let parts: Vec<&str> = name.split('-').collect();
    assert_eq!(parts.len(), 2);
    assert!(p.adjectives.iter().any(|w| w == parts[0]));
    assert!(p.names.iter().any(|w| w == parts[1]));
}

#[test]
fn repeating_sequence_never_ends() {
    let p = Petnames::new("big red", "fast", "cat dog");
    let names = p.iter(2, "-");
    let mut rng = rand::thread_rng();
    for _ in 0..200 {
        assert!(names.next(&mut rng).is_some());
    }
}

#[test]
fn non_repeating_yields_every_combination_once() {
    let p = Petnames::new("big red", "fast", "cat dog");
    let mut rng = rand::thread_rng();
    let mut gen = p.iter_non_repeating(&mut rng, 2, "-");
    let mut seen: Vec<String> = Vec::new();
    while let Some(name) = gen.next() {
        seen.push(name);
        assert!(seen.len() <= 4, "more names than the cardinality");
    }
    assert_eq!(
        sorted(seen),
        vec!["big-cat", "big-dog", "red-cat", "red-dog"]
    );
    assert!(gen.next().is_none());
    assert!(gen.next().is_none());
}

#[test]
fn non_repeating_count_matches_cardinality() {
    let p = Petnames::new("a1", "f1 f2", "n1 n2 n3");
    assert_eq!(p.cardinality(3), 6);
    let mut rng = rand::thread_rng();
    let mut gen = p.iter_non_repeating(&mut rng, 3, "-");
    let mut seen: Vec<String> = Vec::new();
    while let Some(name) = gen.next() {
        seen.push(name);
        assert!(seen.len() <= 6);
    }
    assert_eq!(seen.len(), 6);
    let deduped = {
        let mut v = sorted(seen);
        v.dedup();
        v
    };
    assert_eq!(deduped.len(), 6, "a combination repeated");
}

#[test]
fn non_repeating_words_come_from_the_lists() {
    let p = Petnames::new("big red", "boldly fast", "cat dog");
    let mut rng = rand::thread_rng();
    let mut gen = p.iter_non_repeating(&mut rng, 3, "::");
    while let Some(name) = gen.next() {
        let parts: Vec<&str> = name.split("::").collect();
        assert_eq!(parts.len(), 3);
        assert!(p.adverbs.iter().any(|w| w == parts[0]));
        assert!(p.adjectives.iter().any(|w| w == parts[1]));
        assert!(p.names.iter().any(|w| w == parts[2]));
    }
}

#[test]
fn non_repeating_zero_words_yields_one_empty_name() {
    let p = Petnames::new("big", "fast", "cat");
    let mut rng = rand::thread_rng();
    let mut gen = p.iter_non_repeating(&mut rng, 0, "-");
    assert_eq!(gen.next(), Some(String::new()));
    assert!(gen.next().is_none());
    assert!(gen.next().is_none());
}

#[test]
fn non_repeating_with_an_empty_list_yields_nothing() {
    let mut p = Petnames::new("big bold", "fast", "bat bird");
    p.retain(|s| s.starts_with('b'));
    assert_eq!(p.cardinality(3), 0);
    let mut rng = rand::thread_rng();
    let mut gen = p.iter_non_repeating(&mut rng, 3, "-");
    assert!(gen.next().is_none());
    assert!(gen.next().is_none());
}

#[test]
fn non_repeating_single_combination() {
    let p = Petnames::new("big", "fast", "cat");
    let mut rng = rand::thread_rng();
    let mut gen = p.iter_non_repeating(&mut rng, 3, "-");
    assert_eq!(gen.next(), Some("fast-big-cat".to_string()));
    assert!(gen.next().is_none());
}
