use inkflow::runs::{
    check_wav_format, default_threads_from, should_print_tick, wav_not_found_message,
    window_run_samples, window_ticks, SegmentSpan, TwoPassTracker,
};

#[test]
fn two_pass_segments_follow_the_audio() {
    let mut run = TwoPassTracker::new();
    run.accept_chunk(2720);
    assert_eq!(run.partial_to_print(true, "  hello "), Some("hello".to_string()));
    assert_eq!(run.partial_to_print(true, "hello"), None);
    assert_eq!(run.partial_to_print(false, "hello there"), None);
    run.accept_chunk(2720);
    let span = run.close_segment();
    assert_eq!(span, SegmentSpan { index: 1, start_samples: 0, end_samples: 5440 });
    assert_eq!(run.last_partial, "");
    run.record_texts("hello".to_string(), "   ".to_string());
    run.accept_chunk(100);
    let span = run.close_segment();
    assert_eq!(span, SegmentSpan { index: 2, start_samples: 5440, end_samples: 5540 });
    run.record_texts(" world ".to_string(), "Hello world.".to_string());
    let (sherpa, whisper) = run.final_texts();
    assert_eq!(sherpa, "hello world");
    assert_eq!(whisper, "Hello world.");
}

#[test]
fn fed_samples_saturate() {
    let mut run = TwoPassTracker::new();
    run.accept_chunk(usize::MAX);
    run.accept_chunk(10);
    assert_eq!(run.processed_samples, usize::MAX);
}

#[test]
fn window_ticks_cover_the_audio() {
    let ticks = window_ticks(20_000, 6_400, 6_400);
    assert_eq!(ticks, vec![(0, 6_400), (6_400, 12_800), (12_800, 19_200)]);
    let ticks = window_ticks(10_000, 8_000, 4_000);
    assert_eq!(ticks, vec![(0, 4_000), (0, 8_000)]);
    assert!(window_ticks(100, 10, 200).is_empty());
}

#[test]
fn ticks_are_printed_on_change_or_schedule() {
    assert!(should_print_tick(true, "a", "b", 7, 5));
    assert!(!should_print_tick(true, "a", "a", 1, 5));
    assert!(should_print_tick(false, "a", "a", 1, 5));
    assert!(should_print_tick(false, "a", "b", 10, 5));
    assert!(!should_print_tick(false, "a", "b", 7, 5));
    assert!(!should_print_tick(false, "a", "b", 1, 0));
}

#[test]
fn window_run_sizes() {
    assert_eq!(window_run_samples(4000, 400), Ok((64_000, 6_400)));
    assert_eq!(window_run_samples(50, 400), Ok((1_600, 6_400)));
    assert_eq!(
        window_run_samples(4000, 0),
        Err("Chunk size must be greater than zero.".to_string())
    );
}

#[test]
fn default_thread_count_is_half_the_cpus() {
    assert_eq!(default_threads_from(8), 4);
    assert_eq!(default_threads_from(1), 1);
    assert_eq!(default_threads_from(0), 1);
    assert_eq!(default_threads_from(usize::MAX), 1);
}

#[test]
fn missing_recording_message_lists_candidates() {
    let msg = wav_not_found_message("refs/m.toml", "a.wav", &["refs/a.wav".to_string(), "/cwd/a.wav".to_string()]);
    assert_eq!(
        msg,
        "WAV path not found.\nmanifest=refs/m.toml\nwav=a.wav\nTried:\n- refs/a.wav\n- /cwd/a.wav\n"
    );
    let msg = wav_not_found_message("m.toml", "a.wav", &[]);
    assert_eq!(msg, "WAV path not found.\nmanifest=m.toml\nwav=a.wav\n");
}

#[test]
fn wav_format_checks() {
    assert_eq!(check_wav_format(16, true, 2, 44_100), Ok(()));
    assert_eq!(
        check_wav_format(24, true, 1, 16_000),
        Err("WAV bits per sample must be 16, got 24.".to_string())
    );
    assert_eq!(
        check_wav_format(16, false, 1, 16_000),
        Err("WAV sample format must be integer PCM, got Float.".to_string())
    );
    assert_eq!(
        check_wav_format(16, true, 6, 16_000),
        Err("WAV channel count must be 1 (mono) or 2 (stereo), got 6.".to_string())
    );
    assert_eq!(
        check_wav_format(16, true, 1, 0),
        Err("WAV sample rate must be greater than zero.".to_string())
    );
}
