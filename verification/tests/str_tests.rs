use loanwords::similarity::{
    is_same_first_char, is_same_last_char, is_similar, is_similar_length, starts_ends_same,
};

fn trigram_close(a: &str, b: &str) -> bool {
    trigram::similarity(a, b) >= 0.55
}

fn is_similar_by_trigrams(a: &str, b: &str) -> bool {
    is_similar(a, b, &trigram_close)
}

#[test]
fn test_is_same_first_char() {
    assert!(is_same_first_char("hello", "h"));
    assert!(is_same_first_char("hello", "hello"));
    assert!(is_same_first_char("hello", "hello world"));
    assert!(!is_same_first_char("hello", "world"));
    assert!(!is_same_first_char("hello", ""));
    assert!(!is_same_first_char("", "hello"));
    assert!(!is_same_first_char("", ""));
}

#[test]
fn test_is_similar() {
    assert!(is_similar_by_trigrams("абберация", "аберация"));

    assert!(!is_similar_by_trigrams("социальный", "асоциальный"));
    assert!(!is_similar_by_trigrams("кек", "кеке"));
    assert!(!is_similar_by_trigrams("запостить", "захостить"));
    assert!(!is_similar_by_trigrams("запостить", "запустить"));
    assert!(!is_similar_by_trigrams("кант", "канат"));
    assert!(!is_similar_by_trigrams("систематик", "систематический"));
    assert!(!is_similar_by_trigrams("систематик", "систематика"));
    assert!(!is_similar_by_trigrams("систематика", "систематик"));
    assert!(!is_similar_by_trigrams("систематик", "синематик"));
    assert!(!is_similar_by_trigrams("систематик", "системник"));
}

#[test]
fn test_is_same_last_char() {
    assert!(is_same_last_char("hello", "o"));
    assert!(is_same_last_char("hello", "jello"));
    assert!(!is_same_last_char("hello", "help"));
    assert!(!is_same_last_char("hello", ""));
    assert!(!is_same_last_char("", "o"));
    assert!(is_same_last_char("кант", "т"));
}

#[test]
fn test_starts_ends_same() {
    assert!(starts_ends_same("кант", "кот"));
    assert!(!starts_ends_same("кант", "кое"));
    assert!(!starts_ends_same("кант", "шпат"));
    assert!(!starts_ends_same("", ""));
}

#[test]
fn test_is_similar_length() {
    assert!(is_similar_length("абв", "абвгд"));
    assert!(!is_similar_length("абв", "абвгде"));
    assert!(is_similar_length("абвгд", "абв"));
    assert!(!is_similar_length("абвгде", "абв"));
    assert!(is_similar_length("", ""));
}

#[test]
fn test_judgment_consulted_only_after_the_cheap_checks() {
    // The judgment is never asked when the ends differ.
    let never = |_: &str, _: &str| -> bool { panic!("must not be consulted") };
    assert!(!is_similar("кант", "шпат", &never));
    // It decides once the ends and the lengths agree.
    assert!(is_similar("кант", "кат", &|_: &str, _: &str| true));
    assert!(!is_similar("кант", "кат", &|_: &str, _: &str| false));
}

#[test]
fn test_similar_is_symmetric_for_a_symmetric_judgment() {
    let pairs = [("абберация", "аберация"), ("кант", "канат"), ("кек", "кеке"), ("запостить", "запустить")];
    for (a, b) in pairs {
        assert_eq!(is_similar_by_trigrams(a, b), is_similar_by_trigrams(b, a));
    }
}

#[test]
fn test_similar_to_itself() {
    assert!(is_similar_by_trigrams("кант", "кант"));
    assert!(is_similar_by_trigrams("абберация", "абберация"));
    assert!(!is_similar_by_trigrams("", ""));
}
