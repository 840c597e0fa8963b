use inkflow::compare::{
    check_whisper_args, choose_model_files, chunk_size_samples, compute_cer, compute_cer_checked,
    compute_wer, compute_wer_checked, model_file_paths,
    duration_ms, edit_distance, join_text_parts, missing_files_message, normalize_chars,
    resolve_sherpa_model_files, samples_to_ms, ModelFilePresence, tokenize_words, truncate_text,
    whisper_threads_usize, ErrorCounts, ModelFilesError, SherpaDecodingMethod, SherpaProvider,
    WhisperGpuMode,
};

#[test]
fn truncation_marks_cuts() {
    assert_eq!(truncate_text("  hello world  ", 5), "hello…");
    assert_eq!(truncate_text("hello", 5), "hello");
    assert_eq!(truncate_text("hello", 0), "");
    assert_eq!(truncate_text("   ", 3), "");
    assert_eq!(truncate_text(" long text ", usize::MAX), "long text");
}

#[test]
fn parts_are_joined_without_blanks() {
    let parts = vec![" one ".to_string(), "  ".to_string(), "two".to_string()];
    assert_eq!(join_text_parts(&parts), "one two");
    assert_eq!(join_text_parts(&[]), "");
}

#[test]
fn audio_durations() {
    assert_eq!(samples_to_ms(16_000, 16_000), 1000);
    assert_eq!(samples_to_ms(10, 0), 0);
    assert_eq!(duration_ms(0, 16_000), 0);
    assert_eq!(duration_ms(1, 16_000), 1);
    assert_eq!(duration_ms(48_000, 48_000), 1000);
}

#[test]
fn chunk_sizes() {
    assert_eq!(chunk_size_samples(16_000, 170), Ok(2720));
    assert_eq!(chunk_size_samples(100, 1), Ok(1));
    assert_eq!(chunk_size_samples(0, 170), Err("Sample rate must be greater than zero.".to_string()));
    assert_eq!(chunk_size_samples(16_000, 0), Err("Chunk size must be greater than zero.".to_string()));
}

#[test]
fn option_names_and_choices() {
    assert_eq!(SherpaProvider::Cpu.as_str(), "cpu");
    assert_eq!(SherpaProvider::Coreml.as_str(), "coreml");
    assert_eq!(SherpaDecodingMethod::GreedySearch.as_str(), "greedy_search");
    assert_eq!(SherpaDecodingMethod::ModifiedBeamSearch.as_str(), "modified_beam_search");
    assert_eq!(WhisperGpuMode::Auto.force_gpu(), None);
    assert_eq!(WhisperGpuMode::On.force_gpu(), Some(true));
    assert_eq!(WhisperGpuMode::Off.force_gpu(), Some(false));
    assert_eq!(whisper_threads_usize(Some(4)), 4);
    assert_eq!(whisper_threads_usize(Some(0)), 1);
    assert_eq!(whisper_threads_usize(None), 1);
}

#[test]
fn model_files_are_chosen_from_what_exists() {
    // tokens missing: nothing else matters
    assert_eq!(
        choose_model_files(false, true, true, true, true, true, true, true, true),
        Err(ModelFilesError::TokensMissing)
    );
    // int8 variants taken where preferred and present
    assert_eq!(
        choose_model_files(true, true, false, true, false, true, false, true, true),
        Ok((true, true, true))
    );
    // the decoder keeps fp32 unless its own flag asks for int8
    assert_eq!(
        choose_model_files(true, true, false, true, false, true, true, true, false),
        Ok((true, true, false))
    );
    // int8 present but not preferred: fp32 files are used
    assert_eq!(
        choose_model_files(true, true, true, true, true, true, true, false, false),
        Ok((false, false, false))
    );
    // preferred int8 missing falls back to fp32
    assert_eq!(
        choose_model_files(true, false, true, false, true, false, true, true, true),
        Ok((false, false, false))
    );
    // every missing file is reported, not only the first
    assert_eq!(
        choose_model_files(true, false, false, true, false, false, false, true, true),
        Err(ModelFilesError::FilesMissing { encoder: true, joiner: false, decoder: true })
    );
    assert_eq!(
        choose_model_files(true, false, false, false, false, false, false, false, false),
        Err(ModelFilesError::FilesMissing { encoder: true, joiner: true, decoder: true })
    );
}

#[test]
fn model_files_are_resolved_from_what_exists() {
    let files = resolve_sherpa_model_files("/m", &ModelFilePresence { tokens: true, encoder_int8: true, encoder: false, joiner_int8: false, joiner: true, decoder_int8: true, decoder: true }, true, false)
        .ok()
        .expect("all chosen files present");
    assert_eq!(files.tokens, "/m/tokens.txt");
    assert_eq!(files.encoder, "/m/encoder-epoch-99-avg-1.int8.onnx");
    assert_eq!(files.joiner, "/m/joiner-epoch-99-avg-1.onnx");
    assert_eq!(files.decoder, "/m/decoder-epoch-99-avg-1.onnx");
    let files = resolve_sherpa_model_files("/m", &ModelFilePresence { tokens: true, encoder_int8: true, encoder: false, joiner_int8: true, joiner: false, decoder_int8: true, decoder: false }, true, true)
        .ok()
        .expect("all int8 files present");
    assert_eq!(files.joiner, "/m/joiner-epoch-99-avg-1.int8.onnx");
    assert_eq!(files.decoder, "/m/decoder-epoch-99-avg-1.int8.onnx");
    assert_eq!(
        resolve_sherpa_model_files("/m", &ModelFilePresence { tokens: false, encoder_int8: true, encoder: true, joiner_int8: true, joiner: true, decoder_int8: true, decoder: true }, true, true).err(),
        Some("Missing required sherpa model file: /m/tokens.txt.".to_string())
    );
    assert_eq!(
        resolve_sherpa_model_files("/m", &ModelFilePresence { tokens: true, encoder_int8: false, encoder: false, joiner_int8: false, joiner: true, decoder_int8: false, decoder: false }, true, false).err(),
        Some(
            "Missing required sherpa model files:\n- encoder: /m/encoder-epoch-99-avg-1.onnx\n- decoder: /m/decoder-epoch-99-avg-1.onnx"
                .to_string()
        )
    );
}

#[test]
fn checked_error_counts_match_the_unchecked_ones() {
    assert_eq!(
        compute_wer_checked("the cat sat", "the cat sat down"),
        Some(compute_wer("the cat sat", "the cat sat down"))
    );
    assert_eq!(compute_wer_checked("", "x"), Some(None));
    assert_eq!(
        compute_cer_checked("abc", "abd"),
        Some(Some(ErrorCounts { distance: 1, reference_len: 3 }))
    );
    assert_eq!(compute_cer_checked("", "abc"), Some(None));
}

#[test]
fn model_file_paths_are_the_directory_joined_with_each_name() {
    let paths = model_file_paths("/m");
    assert_eq!(paths.tokens, "/m/tokens.txt");
    assert_eq!(paths.encoder_int8, "/m/encoder-epoch-99-avg-1.int8.onnx");
    assert_eq!(paths.encoder, "/m/encoder-epoch-99-avg-1.onnx");
    assert_eq!(paths.joiner_int8, "/m/joiner-epoch-99-avg-1.int8.onnx");
    assert_eq!(paths.joiner, "/m/joiner-epoch-99-avg-1.onnx");
    assert_eq!(paths.decoder_int8, "/m/decoder-epoch-99-avg-1.int8.onnx");
    assert_eq!(paths.decoder, "/m/decoder-epoch-99-avg-1.onnx");
    assert_eq!(model_file_paths("models/").tokens, "models/tokens.txt");
}

#[test]
fn whisper_arguments_are_checked() {
    assert_eq!(check_whisper_args(" en ", 1, None), Ok("en".to_string()));
    assert_eq!(check_whisper_args("  ", 1, None), Err("Whisper language must not be empty.".to_string()));
    assert_eq!(check_whisper_args("en", 0, None), Err("--whisper-best-of must be at least 1.".to_string()));
    assert_eq!(check_whisper_args("en", 9, None), Err("--whisper-best-of must be at most 8.".to_string()));
    assert_eq!(
        check_whisper_args("en", 2, Some(0)),
        Err("--whisper-beam-size must be at least 1.".to_string())
    );
}

#[test]
fn missing_files_are_listed() {
    let lines = vec!["encoder: /m/e.onnx".to_string(), "joiner: /m/j.onnx".to_string()];
    assert_eq!(
        missing_files_message(&lines),
        "Missing required sherpa model files:\n- encoder: /m/e.onnx\n- joiner: /m/j.onnx"
    );
}

#[test]
fn edit_distance_counts_edits() {
    let a: Vec<char> = "kitten".chars().collect();
    let b: Vec<char> = "sitting".chars().collect();
    assert_eq!(edit_distance(&a, &b), 3);
    assert_eq!(edit_distance(&b, &a), 3);
    assert_eq!(edit_distance(&a, &a), 0);
    let empty: Vec<char> = Vec::new();
    assert_eq!(edit_distance(&empty, &a), 6);
}

#[test]
fn edit_distance_is_zero_only_for_equal_and_at_least_the_length_gap() {
    let a: Vec<char> = "abcdef".chars().collect();
    let b: Vec<char> = "abcdeg".chars().collect();
    let c: Vec<char> = "ab".chars().collect();
    assert_ne!(edit_distance(&a, &b), 0);
    assert_eq!(edit_distance(&a, &a.clone()), 0);
    assert!(edit_distance(&a, &c) >= a.len() - c.len());
    assert_eq!(edit_distance(&a, &c), 4);
    let words_a = vec!["one".to_string(), "two".to_string()];
    let words_b = vec!["one".to_string(), "two".to_string(), "three".to_string()];
    assert_eq!(edit_distance(&words_a, &words_b), 1);
}

#[test]
fn word_and_char_normalisation() {
    assert_eq!(tokenize_words("Hello, World! It's"), vec!["hello", "world", "it's"]);
    assert_eq!(normalize_chars("A-b c!"), vec!['a', 'b', 'c']);
}

#[test]
fn error_counts() {
    assert_eq!(
        compute_wer("the cat sat", "the cat sat down"),
        Some(ErrorCounts { distance: 1, reference_len: 3 })
    );
    assert_eq!(compute_wer("  !! ", "anything"), None);
    assert_eq!(compute_cer("abc", "abd"), Some(ErrorCounts { distance: 1, reference_len: 3 }));
    assert_eq!(compute_cer("", "abc"), None);
}
