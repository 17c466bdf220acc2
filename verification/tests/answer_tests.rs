use loanwords::answer::{
    build_answer_text, should_reply, sorry_filter, words_reply, ChatMessage, ALL_NATIVE_ANSWER,
    CALL_FOR_HELP,
};
use loanwords::morpheme::{Loan, PrefixData};
use loanwords::word::filter_native_words;

fn trigram_close(a: &str, b: &str) -> bool {
    trigram::similarity(a, b) >= 0.55
}

fn loan(non_native: &str, native: Vec<Vec<&str>>, inexact: &str) -> Loan {
    Loan {
        non_native: non_native.to_string(),
        native: native
            .into_iter()
            .map(|m| m.into_iter().map(|w| w.to_string()).collect())
            .collect(),
        inexact: inexact.to_string(),
        extra_normal_form: "".to_string(),
        unrecognized_forms: "".to_string(),
    }
}

fn sample_words() -> Vec<Loan> {
    vec![
        loan(
            "кант",
            vec![vec!["оторочка", "тесьма", "выпушка"], vec!["края скользяка (у лыж и снегоката)"]],
            "род мыслителя Иммануила Канта",
        ),
        loan("систематик", vec![vec!["упорядочиватель"]], ""),
        loan("фабричный", vec![vec!["заводской"]], ""),
    ]
}

#[test]
fn test_build_answer_text() {
    let words = sample_words();
    let prefixes = vec![PrefixData::default()];
    let non_native_words_one =
        filter_native_words(&words, &prefixes, "приплясывание".to_string(), &trigram_close);

    assert_eq!(build_answer_text(non_native_words_one), ALL_NATIVE_ANSWER.to_string());

    let non_native_words_two = filter_native_words(
        &words,
        &prefixes,
        "кант систематик фабричный".to_string(),
        &trigram_close,
    );

    assert_eq!(
        build_answer_text(non_native_words_two),
        format!(
            "{}\n{}",
            "Если вы имели в виду не род мыслителя Иммануила Канта, то будет правильно 1) оторочка, тесьма, выпушка 2) края скользяка (у лыж и снегоката)\nНе систематик, а упорядочиватель.\nНе фабричный, а заводской.\n", CALL_FOR_HELP
        )
    );
}

#[test]
fn test_answer_constants() {
    assert_eq!(ALL_NATIVE_ANSWER, "Английщины не обнаружено!");
    assert_eq!(CALL_FOR_HELP, "Берегите корни русского языка!");
}

#[test]
fn test_should_reply() {
    // Private chats always get an answer.
    assert!(should_reply(true, true, true));
    assert!(should_reply(false, true, true));
    // Groups: never when nothing was found.
    assert!(!should_reply(true, false, false));
    assert!(!should_reply(true, false, true));
    // Groups: only when the draw does not say to stay silent.
    assert!(should_reply(false, false, false));
    assert!(!should_reply(false, false, true));
}

#[test]
fn test_words_reply() {
    let words = sample_words();
    let prefixes = vec![PrefixData::default()];
    assert_eq!(words_reply(&words, &prefixes, None, true, false, &trigram_close), None);
    assert_eq!(
        words_reply(&words, &prefixes, Some("привет".to_string()), true, true, &trigram_close),
        Some(ALL_NATIVE_ANSWER.to_string())
    );
    assert_eq!(
        words_reply(&words, &prefixes, Some("привет".to_string()), false, false, &trigram_close),
        None
    );
    assert_eq!(
        words_reply(&words, &prefixes, Some("Фабричный!".to_string()), false, false, &trigram_close),
        Some(format!("Не фабричный, а заводской.\n\n{}", CALL_FOR_HELP))
    );
    assert_eq!(
        words_reply(&words, &prefixes, Some("фабричный".to_string()), false, true, &trigram_close),
        None
    );
}

fn message(is_group: bool, is_supergroup: bool, author: Option<u64>, text: Option<&str>) -> ChatMessage {
    ChatMessage {
        is_group,
        is_supergroup,
        reply_to_author: author,
        text: text.map(|t| t.to_string()),
    }
}

#[test]
fn test_sorry_filter() {
    let bot = 42;
    assert!(sorry_filter(message(true, false, Some(bot), Some("Бот, извинись!")), bot));
    assert!(sorry_filter(message(false, true, Some(bot), Some("ИЗВИНИСЬ")), bot));
    // Not in private chats.
    assert!(!sorry_filter(message(false, false, Some(bot), Some("извинись")), bot));
    // Only when replying to the bot.
    assert!(!sorry_filter(message(true, false, Some(7), Some("извинись")), bot));
    assert!(!sorry_filter(message(true, false, None, Some("извинись")), bot));
    // Only with the word in the text.
    assert!(!sorry_filter(message(true, false, Some(bot), Some("извини")), bot));
    assert!(!sorry_filter(message(true, false, Some(bot), None), bot));
}
