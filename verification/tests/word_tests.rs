use loanwords::morpheme::{Loan, PrefixData, Root, WordData};
use loanwords::word::{filter_native_words, message_would_panic, Check};

fn trigram_close(a: &str, b: &str) -> bool {
    trigram::similarity(a, b) >= 0.55
}

fn loan(non_native: &str, native: Vec<Vec<&str>>, inexact: &str, extra: &str, forms: &str) -> Loan {
    Loan {
        non_native: non_native.to_string(),
        native: native
            .into_iter()
            .map(|m| m.into_iter().map(|w| w.to_string()).collect())
            .collect(),
        inexact: inexact.to_string(),
        extra_normal_form: extra.to_string(),
        unrecognized_forms: forms.to_string(),
    }
}

fn prefix(base: &str, target: &str) -> PrefixData {
    PrefixData { base: base.to_string(), target: target.to_string() }
}

#[test]
fn test_is_non_native() {
    let word = Loan {
        non_native: "абберация".to_string(),
        native: vec![vec!["отклонение".to_string()]],
        inexact: "".to_string(),
        extra_normal_form: "аберация".to_string(),
        unrecognized_forms: "".to_string(),
    };

    assert!(word.is_non_native("абберация".to_string(), &trigram_close));
    assert!(word.is_non_native("аберация".to_string(), &trigram_close));
    assert!(!word.is_non_native("отклонение".to_string(), &trigram_close));

    let word = Loan {
        non_native: "волонтёр".to_string(),
        native: vec![vec!["доброволец".to_string()]],
        inexact: "".to_string(),
        extra_normal_form: "".to_string(),
        unrecognized_forms: "".to_string(),
    };

    assert!(word.is_non_native("волонтёр".to_string(), &trigram_close));
    assert!(!word.is_non_native("доброволец".to_string(), &trigram_close));
}

#[test]
fn test_filter_native_words() {
    let vec_words: Vec<Loan> = vec![
        Loan {
            non_native: "абберация".to_string(),
            native: vec![vec!["отклонение".to_string()]],
            inexact: "".to_string(),
            extra_normal_form: "аберация".to_string(),
            unrecognized_forms: "".to_string(),
        },
        Loan {
            non_native: "абрикос".to_string(),
            native: vec![vec!["желтослив".to_string()]],
            inexact: "".to_string(),
            extra_normal_form: "".to_string(),
            unrecognized_forms: "".to_string(),
        },
    ];

    const ABBERATION_INDEX: usize = 0;
    const APRICOT_INDEX: usize = 1;

    let vec_pref = vec![
        PrefixData { base: "".to_string(), target: "".to_string() },
        PrefixData { base: "прото".to_string(), target: "перво".to_string() },
        PrefixData { base: "мега".to_string(), target: "крупно".to_string() },
    ];

    let result = vec![
        WordData(&vec_pref[0], Root::Loanword(&vec_words[ABBERATION_INDEX])),
        WordData(&vec_pref[1], Root::Loanword(&vec_words[APRICOT_INDEX])),
    ];

    assert_eq!(
        filter_native_words(&vec_words, &vec_pref, "абберация,протоабрикос".to_string(), &trigram_close),
        result
    );

    let result = vec![WordData(&vec_pref[2], Root::Native("мозг".to_string()))];

    assert_eq!(
        filter_native_words(&vec_words, &vec_pref, "мегамозг".to_string(), &trigram_close),
        result
    );
}

#[test]
fn test_fmt() {
    let prefix = PrefixData::default();
    let root = Loan {
        non_native: "абберация".to_string(),
        native: vec![vec!["отклонение".to_string()]],
        inexact: "".to_string(),
        extra_normal_form: "аберация".to_string(),
        unrecognized_forms: "".to_string(),
    };
    let word_one = WordData(&prefix, Root::Loanword(&root));

    assert_eq!(word_one.to_string(), "Не абберация, а отклонение.");

    let kant_root = Loan {
        non_native: "кант".to_string(),
        native: vec![
            vec!["оторочка".to_string(), "тесьма".to_string(), "выпушка".to_string()],
            vec!["края скользяка (у лыж и снегоката)".to_string()],
        ],
        inexact: "род мыслителя Иммануила Канта".to_string(),
        extra_normal_form: "".to_string(),
        unrecognized_forms: "".to_string(),
    };
    let word_two = WordData(&prefix, Root::Loanword(&kant_root));

    assert_eq!(word_two.to_string(), "Если вы имели в виду не род мыслителя Иммануила Канта, то будет правильно 1) оторочка, тесьма, выпушка 2) края скользяка (у лыж и снегоката)");
}

#[test]
fn test_fmt_with_prefixes() {
    let proto = prefix("прото", "перво");
    let apricot = loan("абрикос", vec![vec!["желтослив", "жерделя"]], "", "", "");
    assert_eq!(
        WordData(&proto, Root::Loanword(&apricot)).to_string(),
        "Не протоабрикос, а первожелтослив, первожерделя."
    );
    let mega = prefix("мега", "крупно");
    assert_eq!(
        WordData(&mega, Root::Native("мозг".to_string())).to_string(),
        "Не мегамозг, а крупномозг."
    );
    // Without a target the base prefix stays in front of the replacements.
    let only_base = prefix("анти", "");
    assert_eq!(
        WordData(&only_base, Root::Loanword(&apricot)).to_string(),
        "Не антиабрикос, а антижелтослив, антижерделя."
    );
}

#[test]
fn test_fmt_numbers_many_meanings() {
    let p = PrefixData::default();
    let many = loan(
        "икс",
        (0..11).map(|_| vec!["а"]).collect(),
        "",
        "",
        "",
    );
    let text = WordData(&p, Root::Loanword(&many)).to_string();
    assert_eq!(
        text,
        "Не икс, а 1) а 2) а 3) а 4) а 5) а 6) а 7) а 8) а 9) а 10) а 11) а."
    );
}

#[test]
fn test_unrecognized_forms() {
    let w = loan("кант", vec![vec!["тесьма"]], "", "", " канты, , кантик ");
    assert!(w.is_non_native("канты".to_string(), &trigram_close));
    assert!(w.is_non_native("кантик".to_string(), &trigram_close));
    assert!(!w.is_non_native("тесьма".to_string(), &trigram_close));
    // An empty extra spelling never matches, not even the empty word.
    let bare = loan("кант", vec![vec!["тесьма"]], "", "", "");
    assert!(!bare.is_non_native("".to_string(), &|_: &str, _: &str| true));
}

#[test]
fn test_case_and_punctuation_do_not_matter() {
    let loans = vec![loan("абрикос", vec![vec!["желтослив"]], "", "", "")];
    let prefixes = vec![prefix("", ""), prefix("прото", "перво")];
    let lower = filter_native_words(&loans, &prefixes, "протоабрикос абрикос".to_string(), &trigram_close);
    let upper = filter_native_words(&loans, &prefixes, "ПРОТОАБРИКОС АБРИКОС".to_string(), &trigram_close);
    let punct = filter_native_words(&loans, &prefixes, "протоабрикос;абрикос!".to_string(), &trigram_close);
    assert_eq!(lower.len(), 2);
    assert_eq!(lower, upper);
    assert_eq!(lower, punct);
}

#[test]
fn test_trailing_yery_is_ignored() {
    let loans = vec![loan("абрикос", vec![vec!["желтослив"]], "", "", "")];
    let prefixes = vec![prefix("", ""), prefix("мега", "крупно")];
    assert_eq!(
        filter_native_words(&loans, &prefixes, "абрикосы".to_string(), &trigram_close),
        filter_native_words(&loans, &prefixes, "абрикос".to_string(), &trigram_close)
    );
    assert_eq!(
        filter_native_words(&loans, &prefixes, "мегамозгы".to_string(), &trigram_close),
        vec![WordData(&prefixes[1], Root::Native("мозг".to_string()))]
    );
}

#[test]
fn test_native_prefix_needs_a_long_enough_word() {
    let loans: Vec<Loan> = vec![];
    let prefixes = vec![prefix("мега", "крупно")];
    // "мегазал" is only six bytes longer than "мега": no finding.
    assert!(filter_native_words(&loans, &prefixes, "мегазал".to_string(), &trigram_close).is_empty());
    assert_eq!(
        filter_native_words(&loans, &prefixes, "мегазалы мегазалы".to_string(), &trigram_close).len(),
        0
    );
    assert_eq!(
        filter_native_words(&loans, &prefixes, "мегаполис".to_string(), &trigram_close),
        vec![WordData(&prefixes[0], Root::Native("полис".to_string()))]
    );
}

#[test]
fn test_words_are_analysed_independently() {
    let loans = vec![
        loan("абберация", vec![vec!["отклонение"]], "", "аберация", ""),
        loan("абрикос", vec![vec!["желтослив"]], "", "", ""),
    ];
    let prefixes = vec![prefix("", ""), prefix("мега", "крупно")];
    let a = filter_native_words(&loans, &prefixes, "абрикос дом".to_string(), &trigram_close);
    let b = filter_native_words(&loans, &prefixes, "мегамозг аберация".to_string(), &trigram_close);
    let ab = filter_native_words(&loans, &prefixes, "абрикос дом мегамозг аберация".to_string(), &trigram_close);
    let mut joined = a;
    joined.extend(b);
    assert_eq!(ab, joined);
}

#[test]
fn test_first_prefix_and_first_loan_win() {
    let loans = vec![
        loan("абрикос", vec![vec!["желтослив"]], "", "", ""),
        loan("абрикос", vec![vec!["жерделя"]], "", "", ""),
    ];
    let prefixes = vec![prefix("", ""), prefix("", "пусто")];
    let found = filter_native_words(&loans, &prefixes, "абрикос".to_string(), &trigram_close);
    assert_eq!(found.len(), 1);
    assert!(std::ptr::eq(found[0].0, &prefixes[0]));
    match found[0].1 {
        Root::Loanword(l) => assert!(std::ptr::eq(l, &loans[0])),
        Root::Native(_) => panic!("expected a loanword"),
    }
}

#[test]
fn test_message_would_panic() {
    // A one-byte prefix in front of two-byte letters cuts a character.
    let ascii = vec![prefix("a", "б")];
    let none: Vec<Loan> = vec![];
    assert!(message_would_panic(&none, &ascii, "мегамозг", &trigram_close));
    // Short words are never sliced.
    assert!(!message_would_panic(&none, &ascii, "кот", &trigram_close));
    // A word recognised as a loanword is never sliced either.
    let loans = vec![loan("мегамозг", vec![vec!["умник"]], "", "", "")];
    assert!(!message_would_panic(&loans, &ascii, "мегамозг", &trigram_close));
    // Cyrillic prefixes fall on character boundaries.
    let prefixes = vec![prefix("мега", "крупно")];
    assert!(!message_would_panic(&none, &prefixes, "мегамозг и мегаполис", &trigram_close));
}
