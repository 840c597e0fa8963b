use inkflow::transcript::{
    choose_segment_provisional_text, collapse_leading_duplicate_word, dedup_tail,
    extract_window_tail_text, leading_words_compatible, ms_to_samples_16k,
    should_accept_second_pass_replacement, token_mode_for_language, MergeState, TokenMode,
};

#[test]
fn token_mode_follows_language() {
    assert_eq!(token_mode_for_language(" ZH-cn ", "hello world"), TokenMode::Chars);
    assert_eq!(token_mode_for_language("ja", "x"), TokenMode::Chars);
    assert_eq!(token_mode_for_language("en", "你好"), TokenMode::Words);
    assert_eq!(token_mode_for_language("auto", "hello world"), TokenMode::Words);
    assert_eq!(token_mode_for_language("auto", "你好世界"), TokenMode::Chars);
}

#[test]
fn leading_duplicate_words_collapse() {
    assert_eq!(collapse_leading_duplicate_word("hello hello world"), "hello world");
    assert_eq!(collapse_leading_duplicate_word("Hello, hello there"), "hello there");
    assert_eq!(collapse_leading_duplicate_word("the the end"), "the the end");
    assert_eq!(collapse_leading_duplicate_word("  single  "), "single");
    assert_eq!(collapse_leading_duplicate_word("   "), "");
}

#[test]
fn provisional_text_choice() {
    assert_eq!(choose_segment_provisional_text("", " live words ", true), "live words");
    assert_eq!(choose_segment_provisional_text("sherpa text", "live", false), "sherpa text");
    assert_eq!(choose_segment_provisional_text("hello there friend", "hello there", true), "hello there friend");
    assert_eq!(choose_segment_provisional_text("hello there", "hello world", true), "hello world");
    assert_eq!(choose_segment_provisional_text("abc def", "xyz", true), "abc def");
}

#[test]
fn second_pass_fragments_are_refused() {
    assert!(!should_accept_second_pass_replacement("one two three", "Three.", TokenMode::Words));
    assert!(should_accept_second_pass_replacement("one two three", "four", TokenMode::Words));
    assert!(should_accept_second_pass_replacement("one two", "two", TokenMode::Words));
    assert!(should_accept_second_pass_replacement("one two three", "three", TokenMode::Chars));
    assert!(should_accept_second_pass_replacement("", "x", TokenMode::Words));
}

#[test]
fn leading_word_compatibility() {
    assert!(leading_words_compatible("Hello", "hello!"));
    assert!(leading_words_compatible("testing", "tested"));
    assert!(!leading_words_compatible("ab", "ac"));
    assert!(!leading_words_compatible("", "a"));
    assert!(!leading_words_compatible("apple", "banana"));
}

#[test]
fn tail_overlap_is_removed() {
    assert_eq!(dedup_tail("we went to the", "to the store", TokenMode::Words, 30, 100), "store");
    assert_eq!(dedup_tail("", "  to the store ", TokenMode::Words, 30, 100), "to the store");
    assert_eq!(dedup_tail("abc", "bcd", TokenMode::Chars, 30, 100), "d");
    assert_eq!(dedup_tail("x", "   ", TokenMode::Words, 30, 100), "");
}

#[test]
fn window_tail_estimate() {
    assert_eq!(extract_window_tail_text("one two three four", 62), "four");
    assert_eq!(extract_window_tail_text("one two three four", 125), "three four");
    assert_eq!(extract_window_tail_text("one two three four", 1_000_000), "one two three four");
    assert_eq!(extract_window_tail_text(" single ", 10), "single");
    assert_eq!(ms_to_samples_16k(250), 4000);
    assert_eq!(ms_to_samples_16k(u64::MAX), u64::MAX / 1000);
}

#[test]
fn merge_stabilizes_after_agreeing_candidates() {
    let mut state = MergeState::new();
    let out = state.apply_candidate("hello world", TokenMode::Words, 2, 8);
    assert_eq!(out, "hello world");
    assert_eq!(state.stable_len(), 0);
    let out = state.apply_candidate("hello world again", TokenMode::Words, 2, 8);
    assert_eq!(out, "hello world again");
    assert_eq!(state.stable_len(), 2);
    let out = state.apply_candidate("Hello, there", TokenMode::Words, 2, 8);
    assert_eq!(out, "hello world");
    assert_eq!(state.stable_len(), 2);
}

#[test]
fn merge_rolls_back_on_large_disagreement() {
    let mut state = MergeState::new();
    state.apply_candidate("a b c d", TokenMode::Words, 1, 1);
    assert_eq!(state.stable_len(), 4);
    let out = state.apply_candidate("x y", TokenMode::Words, 1, 1);
    assert_eq!(state.stable_len(), 2);
    assert_eq!(out, "x y");
    state.reset();
    assert_eq!(state.stable_len(), 0);
}
