use qamd::text::{capitalize, contains, trim, normalize_word, only_contains, spellcheck_predicate, stopword_predicate, to_sentence};

fn strings(v: &[&str]) -> Vec<String> {
    v.iter().map(|s| s.to_string()).collect()
}

#[test]
fn test_contains() {
    let patterns = vec!["bar".to_string()];

    assert!(contains("foo bar baz", &patterns));
    assert_eq!(contains("foo baz qux", &patterns), false);
}

#[test]
fn mod_test_only_contains() {
    let patterns = strings(&["foo", "baz", "qux"]);

    assert!(only_contains("foo baz qux", &patterns));
    assert_eq!(only_contains("foo bar baz", &patterns), false);
}

#[test]
fn dictionary_test_only_contains() {
    let patterns = strings(&["foo", "baz", "qux"]);

    assert!(only_contains("foo baz qux", &patterns));
    assert_eq!(only_contains("foo bar baz", &patterns), false);
}

#[test]
fn test_to_sentence() {
    assert_eq!(to_sentence("ThisIsASentence"), "This is a sentence");
    assert_eq!(to_sentence("thisIsAlsoASentence"), "This is also a sentence");
}

#[test]
fn test_capitalize() {
    assert_eq!(capitalize("word"), "Word".to_string());
}

#[test]
fn capitalize_empty_stays_empty() {
    assert_eq!(capitalize(""), "");
}

#[test]
fn contains_with_no_patterns_is_false() {
    assert!(!contains("anything", &vec![]));
}

#[test]
fn contains_multi_character_pattern_at_end() {
    assert!(contains("foo  ", &strings(&["  "])));
    assert!(!contains("fo", &strings(&["foo"])));
}

#[test]
fn only_contains_double_space_makes_empty_word() {
    let patterns = strings(&["foo", "bar"]);
    assert!(!only_contains("foo  bar", &patterns));
    assert!(only_contains("foo  bar", &strings(&["foo", "bar", ""])));
}

#[test]
fn normalize_word_drops_punctuation_and_lowercases() {
    assert_eq!(normalize_word(&"Hello, World!".to_string()), "hello world");
    assert_eq!(normalize_word(&"g@regs".to_string()), "gregs");
}

#[test]
fn predicates_accept_empty_word() {
    let dict = strings(&["foo"]);
    assert!(spellcheck_predicate("", &dict));
    assert!(stopword_predicate("", &dict));
    assert!(spellcheck_predicate("foo", &dict));
    assert!(!stopword_predicate("foo", &dict));
    assert!(!spellcheck_predicate("bar", &dict));
    assert!(stopword_predicate("bar", &dict));
}

#[test]
fn trim_drops_unicode_white_space_at_both_ends() {
    assert_eq!(trim("  a b \t\n"), "a b");
    assert_eq!(trim("\u{3000}x\u{a0}"), "x");
    assert_eq!(trim(" \u{2003} "), "");
    assert_eq!(trim("x"), "x");
}
