use loanwords::glossary::{build_answer_text, filter_native_words, Word};
use loanwords::mode::PollingMode;
use loanwords::word::Check;

fn trigram_close(a: &str, b: &str) -> bool {
    trigram::similarity(a, b) >= 0.55
}

fn entry(non_native: &str, native: &str, inexact: &str, extra: &str, forms: &str) -> Word {
    Word {
        non_native: non_native.to_string(),
        native: native.to_string(),
        inexact: inexact.to_string(),
        extra_normal_form: extra.to_string(),
        unrecognized_forms: forms.to_string(),
    }
}

fn glossary() -> Vec<Word> {
    vec![
        entry("абберация", "отклонение", "", "аберация", ""),
        entry("кант", "тесьма", "род мыслителя Иммануила Канта", "", ""),
        entry("абрикос", "желтослив", "", "", "абрикосик"),
    ]
}

#[test]
fn test_glossary_filter_keeps_glossary_order() {
    let found = filter_native_words(glossary(), "Абрикос — и АБЕРАЦИЯ!".to_string(), &trigram_close);
    assert_eq!(found, vec![glossary()[0].clone(), glossary()[2].clone()]);
}

#[test]
fn test_glossary_filter_symbols_are_removed_not_separators() {
    // "абри-кос" becomes "абрикос" once the hyphen is removed.
    let found = filter_native_words(glossary(), "абри-кос".to_string(), &trigram_close);
    assert_eq!(found, vec![glossary()[2].clone()]);
    let found = filter_native_words(glossary(), "дом, сад".to_string(), &trigram_close);
    assert!(found.is_empty());
}

#[test]
fn test_glossary_forms() {
    let g = glossary();
    assert!(g[2].is_non_native("абрикосик".to_string(), &trigram_close));
    assert!(g[0].is_non_native("аберация".to_string(), &trigram_close));
    assert!(!g[1].is_non_native("тесьма".to_string(), &trigram_close));
}

#[test]
fn test_glossary_sentences() {
    let g = glossary();
    assert_eq!(g[0].to_string(), "Не абберация, а отклонение.");
    assert_eq!(
        g[1].to_string(),
        "Если вы имели в виду не род мыслителя Иммануила Канта, то будет правильно тесьма"
    );
    assert_eq!(build_answer_text(vec![]), "Английщины не обнаружено!");
    assert_eq!(
        build_answer_text(vec![g[0].clone(), g[2].clone()]),
        "Не абберация, а отклонение.\nНе абрикос, а желтослив.\n\nБерегите корни русского языка!"
    );
    assert_eq!(g[0].duplicate(), g[0]);
}

#[test]
fn test_polling_mode_from_name() {
    assert!(matches!(PollingMode::from_name("POLLING"), Some(PollingMode::Polling)));
    assert!(matches!(PollingMode::from_name("WEBHOOK"), Some(PollingMode::Webhook)));
    assert!(PollingMode::from_name("polling").is_none());
    assert!(PollingMode::from_name("").is_none());
}
