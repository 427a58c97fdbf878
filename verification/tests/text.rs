use valytics::text::{chars_of, is_white_space_char, split_commas, str_contains, to_uppercase, trim};

#[test]
fn contains_finds_substrings() {
    assert!(str_contains("Consumer Cyclical", "Cyclical"));
    assert!(str_contains("Energy", "Energy"));
    assert!(str_contains("abc", ""));
    assert!(str_contains("", ""));
    assert!(!str_contains("ab", "abc"));
    assert!(!str_contains("Tech", "Technology"));
    assert!(!str_contains("abcabd", "abcd"));
    assert!(str_contains("aabaab", "aab"));
}

#[test]
fn contains_works_on_characters() {
    assert!(str_contains("Société Générale", "é G"));
    assert!(!str_contains("Société", "e G"));
}

#[test]
fn chars_of_lists_characters() {
    assert_eq!(chars_of("añb"), vec!['a', 'ñ', 'b']);
    assert_eq!(chars_of(""), Vec::<char>::new());
}

#[test]
fn split_commas_as_std_split() {
    for s in ["a,b,c", "", ",", "a,,b", "a,", ",a", "é,ü", " x , y "] {
        let expected: Vec<&str> = s.split(',').collect();
        assert_eq!(split_commas(s), expected);
    }
    assert_eq!(split_commas("AAPL,MSFT"), vec!["AAPL", "MSFT"]);
    assert_eq!(split_commas(""), vec![""]);
}

#[test]
fn white_space_is_unicode_white_space() {
    for c in (0u32..=0x10FFFF).filter_map(char::from_u32) {
        assert_eq!(is_white_space_char(c), c.is_whitespace(), "char {:?}", c);
    }
}

#[test]
fn trim_as_std_trim() {
    for s in ["  aapl \t", "\u{3000}x\u{2003}", "", "   ", "a b", " \n\r\u{85}é\u{A0}", "x\u{200B}", "\u{180E}y"] {
        assert_eq!(trim(s), s.trim(), "input {:?}", s);
    }
    assert_eq!(trim("  aapl \t"), "aapl");
    assert_eq!(trim(" \t "), "");
}

#[test]
fn uppercase_wrapper() {
    assert_eq!(to_uppercase("brk.b"), "BRK.B");
    assert_eq!(to_uppercase("straße"), "STRASSE");
}
