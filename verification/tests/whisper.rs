use inkflow::whisper::{
    collect_segments, decode_best_of, decode_language, explicit_model_path, join_segment_texts,
    model_missing_error, parse_bool, parse_i32, resolve_whisper_force_gpu, resolve_whisper_language,
    resolve_whisper_threads, whisper_ts_to_ms, RawSegment, WhisperDecodeProfile,
};

#[test]
fn bool_words_are_read_in_any_case() {
    assert_eq!(parse_bool(" YES "), Some(true));
    assert_eq!(parse_bool("on"), Some(true));
    assert_eq!(parse_bool("1"), Some(true));
    assert_eq!(parse_bool("Off"), Some(false));
    assert_eq!(parse_bool("n"), Some(false));
    assert_eq!(parse_bool("maybe"), None);
}

#[test]
fn thread_override_must_be_positive() {
    assert_eq!(resolve_whisper_threads(Some(" 6 "), Some(2)), Some(6));
    assert_eq!(resolve_whisper_threads(Some("-1"), Some(2)), Some(2));
    assert_eq!(resolve_whisper_threads(Some("many"), Some(0)), None);
    assert_eq!(resolve_whisper_threads(None, Some(4)), Some(4));
    assert_eq!(resolve_whisper_threads(None, None), None);
}

#[test]
fn gpu_override_reads_booleans() {
    assert_eq!(resolve_whisper_force_gpu(Some("false"), Some(true)), Some(false));
    assert_eq!(resolve_whisper_force_gpu(Some("what"), Some(true)), Some(true));
    assert_eq!(resolve_whisper_force_gpu(None, None), None);
}

#[test]
fn language_resolution() {
    assert_eq!(resolve_whisper_language(Some(" de "), "fr").unwrap(), "de");
    assert_eq!(resolve_whisper_language(Some("  "), " fr ").unwrap(), "fr");
    assert_eq!(resolve_whisper_language(None, "   ").unwrap(), "en");
    let err = resolve_whisper_language(Some("d\0e"), "fr").unwrap_err();
    assert_eq!(err.code, "whisper_config_invalid");
    assert_eq!(err.message, "INKFLOW_WHISPER_LANGUAGE must not contain NUL bytes.");
    let err = resolve_whisper_language(None, "f\0r").unwrap_err();
    assert_eq!(err.code, "settings_invalid");
    assert_eq!(err.message, "Whisper language must not contain NUL bytes.");
}

#[test]
fn explicit_model_path_prefers_override() {
    assert_eq!(explicit_model_path(Some(" /m/a.bin "), "/m/b.bin"), Some("/m/a.bin".to_string()));
    assert_eq!(explicit_model_path(Some(""), " /m/b.bin"), Some("/m/b.bin".to_string()));
    assert_eq!(explicit_model_path(None, "  "), None);
}

#[test]
fn decode_parameters() {
    assert_eq!(decode_best_of(WhisperDecodeProfile { best_of: 5 }), 4);
    assert_eq!(decode_best_of(WhisperDecodeProfile { best_of: 0 }), 0);
    assert_eq!(decode_language("auto"), None);
    assert_eq!(decode_language("ja"), Some("ja".to_string()));
    assert_eq!(whisper_ts_to_ms(123), 1230);
    assert_eq!(whisper_ts_to_ms(-5), 0);
    assert_eq!(whisper_ts_to_ms(i64::MAX), u64::MAX);
}

#[test]
fn missing_model_message() {
    let err = model_missing_error("/models/x.bin");
    assert_eq!(err.code, "whisper_model_missing");
    assert_eq!(err.message, "Whisper model file does not exist: /models/x.bin.");
}

#[test]
fn segments_are_trimmed_and_joined() {
    let raw = vec![
        RawSegment { start: 0, end: 50, text: " Hello ".into() },
        RawSegment { start: 50, end: 60, text: "   ".into() },
        RawSegment { start: 60, end: 120, text: "world.".into() },
    ];
    let result = collect_segments(&raw);
    assert_eq!(result.text, "Hello world.");
    assert!(result.has_timestamps);
    assert_eq!(result.segments.len(), 2);
    assert_eq!(result.segments[0].t1_ms, 500);
    assert_eq!(result.segments[1].t0_ms, 600);
    assert_eq!(result.segments[1].text, "world.");
    let joined = join_segment_texts(&[" a ".to_string(), "".to_string(), "b".to_string()]);
    assert_eq!(joined, "a b");
}

#[test]
fn integers_parse_as_std_parses_them() {
    let cases = [
        "0", "7", "+7", "-7", "007", "-0", "2147483647", "2147483648", "-2147483648",
        "-2147483649", "99999999999999999999", "", "+", "-", "--1", "+-1", " 1", "1 ", "1a", "a1",
        "١",
    ];
    for case in cases {
        assert_eq!(parse_i32(case), case.parse::<i32>().ok(), "{case:?}");
    }
    assert_eq!(parse_i32("-2147483648"), Some(i32::MIN));
    assert_eq!(parse_i32("+42"), Some(42));
    assert_eq!(parse_i32("2147483648"), None);
}
