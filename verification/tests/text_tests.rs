use datadriver::text::{
    chars_of, contains_chars, decimal_string, is_whitespace, parse_u64, parse_usize, repeat_char,
    split_words, str_equal, string_of, trimmed_chars,
};

#[test]
fn parse_reads_every_rendered_number() {
    for n in [0u64, 7, 10, 4096, 1 << 40, u64::MAX] {
        assert_eq!(parse_u64(&decimal_string(n)), Some(n));
    }
    assert_eq!(parse_usize("+42"), Some(42));
    assert_eq!(parse_usize("4 2"), None);
}

#[test]
fn whitespace_is_unicode_white_space() {
    for c in ['\t', '\n', '\u{b}', '\u{c}', '\r', ' ', '\u{85}', '\u{a0}', '\u{1680}', '\u{2000}', '\u{200a}', '\u{2028}', '\u{2029}', '\u{202f}', '\u{205f}', '\u{3000}'] {
        assert!(is_whitespace(c), "{:?}", c);
    }
    for c in ['a', '\u{200b}', '\u{180e}', '\u{feff}', '_'] {
        assert_eq!(is_whitespace(c), c.is_whitespace(), "{:?}", c);
    }
}

#[test]
fn trimming_matches_std() {
    for s in ["", "  ", " a b ", "\u{3000}x\n", "yes"] {
        let t: String = trimmed_chars(s).into_iter().collect();
        assert_eq!(t, s.trim());
    }
}

#[test]
fn substring_search() {
    let h = chars_of("hello world");
    assert!(contains_chars(&h, &chars_of("lo w")));
    assert!(contains_chars(&h, &chars_of("")));
    assert!(!contains_chars(&h, &chars_of("word")));
    assert!(!contains_chars(&chars_of("ab"), &chars_of("abc")));
}

#[test]
fn small_helpers() {
    assert_eq!(repeat_char('-', 4), "----");
    assert_eq!(string_of(&vec!['a', 'é']), "aé");
    assert!(str_equal("abc", "abc"));
    assert!(!str_equal("abc", "abd"));
    assert_eq!(split_words("a  b"), vec!["a".to_string(), "b".to_string()]);
}
