use inkflow::text::{append_normalized, is_cjk, needs_space_between};

#[test]
fn normalization_keeps_space_between_latin_words() {
    let mut out = String::new();
    append_normalized(&mut out, "hello");
    append_normalized(&mut out, "world");
    assert_eq!(out, "hello world");
}

#[test]
fn normalization_avoids_space_for_cjk() {
    let mut out = String::new();
    append_normalized(&mut out, "你好");
    append_normalized(&mut out, "世界");
    assert_eq!(out, "你好世界");
}

#[test]
fn append_keeps_existing_text_as_prefix() {
    let mut out = String::from("hello,");
    append_normalized(&mut out, "  world ");
    assert!(out.starts_with("hello,"));
    assert_eq!(out, "hello,world");
    append_normalized(&mut out, "   ");
    assert_eq!(out, "hello,world");
}

#[test]
fn space_only_between_ascii_alphanumerics() {
    assert!(needs_space_between('a', '1'));
    assert!(!needs_space_between('.', 'a'));
    assert!(!needs_space_between('a', '世'));
    assert!(is_cjk('世'));
    assert!(is_cjk('한'));
    assert!(!is_cjk('a'));
}
