use loanwords::text::{byte_length, char_boundary};
use loanwords::text::{
    chars_of, clean, is_ascii_punct_char, is_cyrillic_char, is_space_char, lower_char,
    split_char, split_whitespace, string_of, strip_prefix_repeatedly, trim,
    trim_end_matching,
};

fn v(s: &str) -> Vec<char> {
    s.chars().collect()
}

fn words(ws: Vec<Vec<char>>) -> Vec<String> {
    ws.into_iter().map(|w| w.into_iter().collect()).collect()
}

#[test]
fn test_space_matches_std() {
    for u in 0u32..0x3100 {
        if let Some(c) = char::from_u32(u) {
            assert_eq!(is_space_char(c), c.is_whitespace(), "code point {:#x}", u);
        }
    }
}

#[test]
fn test_ascii_punct_matches_std() {
    for u in 0u32..0x500 {
        if let Some(c) = char::from_u32(u) {
            assert_eq!(is_ascii_punct_char(c), c.is_ascii_punctuation(), "code point {:#x}", u);
        }
    }
}

#[test]
fn test_lower_matches_std_on_russian_letters() {
    for u in 0x400u32..0x460 {
        let c = char::from_u32(u).unwrap();
        if is_cyrillic_char(c) {
            let std_lower: String = c.to_lowercase().collect();
            assert_eq!(lower_char(c).to_string(), std_lower);
        }
    }
    assert_eq!(lower_char('Ё'), 'ё');
    assert_eq!(lower_char('Я'), 'я');
    assert_eq!(lower_char('Z'), 'Z');
}

#[test]
fn test_cyrillic_letters() {
    assert!(is_cyrillic_char('а'));
    assert!(is_cyrillic_char('Я'));
    assert!(is_cyrillic_char('ё'));
    assert!(is_cyrillic_char('Ё'));
    assert!(!is_cyrillic_char('a'));
    assert!(!is_cyrillic_char('ї'));
}

#[test]
fn test_clean_and_split() {
    let cleaned = clean("Привет, МИР! abc ёЖ-2");
    assert_eq!(cleaned.iter().collect::<String>(), "привет  мир   ёж ");
    let ws = split_whitespace(&cleaned);
    assert_eq!(words(ws), vec!["привет", "мир", "ёж"]);
}

#[test]
fn test_split_char_keeps_empty_pieces() {
    let pieces = split_char(&v("а,,б,"), ',');
    assert_eq!(words(pieces), vec!["а", "", "б", ""]);
    let pieces = split_char(&v(""), ',');
    assert_eq!(words(pieces), vec![""]);
}

#[test]
fn test_trim_and_strip() {
    assert_eq!(trim(&v("  а б \t")).iter().collect::<String>(), "а б");
    assert_eq!(trim_end_matching(&v("мозгыы"), 'ы').iter().collect::<String>(), "мозг");
    assert_eq!(
        strip_prefix_repeatedly(&v("протопротоабрикос"), &v("прото")).iter().collect::<String>(),
        "абрикос"
    );
    assert_eq!(
        strip_prefix_repeatedly(&v("абрикос"), &v("")).iter().collect::<String>(),
        "абрикос"
    );
    assert_eq!(
        "протопротоабрикос".trim_start_matches("прото"),
        strip_prefix_repeatedly(&v("протопротоабрикос"), &v("прото")).iter().collect::<String>()
    );
}

#[test]
fn test_string_round_trip() {
    let s = "кант, тесьма";
    assert_eq!(string_of(&chars_of(s)), s);
}

#[test]
fn test_byte_length_is_str_len() {
    for s in ["", "мега", "abc", "ёж-🐕", "края скользяка (у лыж и снегоката)"] {
        assert_eq!(byte_length(&chars_of(s)), s.len() as u128);
    }
    let w = chars_of("мегамозг");
    assert_eq!(char_boundary(&w, 8), Some(4));
    assert_eq!(char_boundary(&w, 3), None);
    assert_eq!(char_boundary(&w, 0), Some(0));
}
