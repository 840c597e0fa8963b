use inkflow::strings::{
    is_whitespace, push_decimal, push_tried, split_whitespace, to_ascii_lowercase, trim_str,
    trimmed_nonblank,
};

#[test]
fn decimal_digits() {
    let mut s = String::from("n=");
    push_decimal(&mut s, 0);
    push_decimal(&mut s, 907);
    push_decimal(&mut s, u64::MAX);
    assert_eq!(s, format!("n=0907{}", u64::MAX));
}

#[test]
fn tried_list() {
    let mut s = String::new();
    push_tried(&mut s, &[]);
    assert_eq!(s, "");
    push_tried(&mut s, &["a".to_string(), "b".to_string()]);
    assert_eq!(s, "Tried:\n- a\n- b\n");
}

#[test]
fn trimming_helpers() {
    assert_eq!(trim_str("\t a b \n"), "a b");
    assert_eq!(trimmed_nonblank("  x "), Some("x".to_string()));
    assert_eq!(trimmed_nonblank(" \n "), None);
    let words = split_whitespace(&[' ', 'a', 'b', ' ', ' ', 'c']);
    assert_eq!(words, vec![vec!['a', 'b'], vec!['c']]);
}

#[test]
fn ascii_lowercase_only_changes_capitals() {
    assert_eq!(to_ascii_lowercase('Q'), 'q');
    assert_eq!(to_ascii_lowercase('A'), 'a');
    assert_eq!(to_ascii_lowercase('Z'), 'z');
    assert_eq!(to_ascii_lowercase('q'), 'q');
    assert_eq!(to_ascii_lowercase('É'), 'É');
    assert_eq!(to_ascii_lowercase('['), '[');
}

#[test]
fn whitespace_is_the_unicode_white_space_set() {
    for c in ['\t', '\n', '\u{b}', '\u{c}', '\r', ' ', '\u{85}', '\u{a0}', '\u{1680}', '\u{2000}', '\u{200a}', '\u{2028}', '\u{2029}', '\u{202f}', '\u{205f}', '\u{3000}'] {
        assert!(is_whitespace(c), "{c:?}");
        assert_eq!(is_whitespace(c), c.is_whitespace());
    }
    for c in ['a', '0', '\u{8}', '\u{e}', '\u{180e}', '\u{200b}', '\u{feff}', '_'] {
        assert!(!is_whitespace(c), "{c:?}");
        assert_eq!(is_whitespace(c), c.is_whitespace());
    }
}

#[test]
fn whitespace_agrees_with_std_on_every_char() {
    for u in 0..=0x10FFFFu32 {
        if let Some(c) = char::from_u32(u) {
            assert_eq!(is_whitespace(c), c.is_whitespace(), "{u:#x}");
        }
    }
}
