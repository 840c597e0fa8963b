use inkflow::error::AppError;
use inkflow::settings::{
    check_sherpa_settings, check_stt_settings, check_window_settings, MergeSettings,
    WhisperProfiles, WhisperSettings, WindowSchedule,
};

fn default_sherpa_check() -> Result<(), AppError> {
    check_sherpa_settings("cpu", "greedy_search", None, 4, true, true, true, 170)
}

fn check_with(window: &WindowSchedule, capacity: usize) -> Result<(), AppError> {
    let checked = check_window_settings(window, true, true, true, true);
    check_stt_settings(
        default_sherpa_check(),
        &WhisperSettings::default(),
        checked,
        window,
        &MergeSettings::default(),
        &WhisperProfiles::default(),
        capacity,
    )
}

#[test]
fn settings_whisper_default_language_is_auto() {
    let settings = WhisperSettings::default();
    assert_eq!(settings.language, "auto");
}

#[test]
fn mod_whisper_default_language_is_auto() {
    let settings = WhisperSettings::default();
    assert_eq!(settings.language, "auto");
}

#[test]
fn window_backpressure_high_watermark_must_be_positive() {
    let mut window = WindowSchedule::default();
    window.window_backpressure_high_watermark = 0;
    assert!(check_with(&window, 16).is_err());
}

#[test]
fn second_pass_queue_capacity_must_be_positive() {
    let window = WindowSchedule::default();
    assert!(check_with(&window, 0).is_err());
}

#[test]
fn default_settings_are_valid() {
    assert!(default_sherpa_check().is_ok());
    assert!(check_with(&WindowSchedule::default(), 16).is_ok());
}

#[test]
fn default_values_match_documented_defaults() {
    let merge = MergeSettings::default();
    assert_eq!(merge.stable_ticks, 3);
    assert_eq!(merge.rollback_threshold_tokens, 8);
    assert_eq!(merge.overlap_k_words, 30);
    assert_eq!(merge.overlap_k_chars, 100);
    let profiles = WhisperProfiles::default();
    assert_eq!(profiles.window_best_of, 1);
    assert_eq!(profiles.second_pass_best_of, 5);
    let window = WindowSchedule::default();
    assert_eq!(window.window_ms, 4000);
    assert_eq!(window.step_ms, 400);
    assert_eq!(window.context_ms, 800);
    assert_eq!(window.endpoint_tail_ms, 200);
}

#[test]
fn window_shorter_than_step_is_rejected() {
    let mut window = WindowSchedule::default();
    window.window_ms = 300;
    window.step_ms = 400;
    let err = check_with(&window, 16).unwrap_err();
    assert_eq!(err.code, "settings_invalid");
    assert_eq!(err.message, "window_ms must be greater than or equal to step_ms.");
}

#[test]
fn zero_step_is_rejected() {
    let mut window = WindowSchedule::default();
    window.step_ms = 0;
    let err = check_window_settings(&window, true, true, true, true).unwrap_err();
    assert_eq!(err.message, "step_ms must be greater than zero.");
}

#[test]
fn short_window_is_rejected() {
    let mut window = WindowSchedule::default();
    window.window_ms = 99;
    let err = check_window_settings(&window, true, true, true, true).unwrap_err();
    assert_eq!(err.message, "window_ms must be at least 100.");
}

#[test]
fn merge_limits_must_be_positive() {
    let mut merge = MergeSettings::default();
    merge.stable_ticks = 0;
    assert_eq!(merge.validate().unwrap_err().message, "stable_ticks must be greater than zero.");
    let mut merge = MergeSettings::default();
    merge.overlap_k_chars = 0;
    assert_eq!(merge.validate().unwrap_err().message, "Overlap limits must be greater than zero.");
}

#[test]
fn profile_best_of_must_be_in_range() {
    let mut profiles = WhisperProfiles::default();
    profiles.second_pass_best_of = 9;
    assert_eq!(
        profiles.validate().unwrap_err().message,
        "second_pass_best_of must be within 1..=8."
    );
    let mut profiles = WhisperProfiles::default();
    profiles.window_best_of = 0;
    assert_eq!(profiles.validate().unwrap_err().message, "window_best_of must be within 1..=8.");
}

#[test]
fn whisper_settings_reject_nul_and_bad_threads() {
    let mut whisper = WhisperSettings::default();
    whisper.language = "e\0n".to_string();
    assert_eq!(
        whisper.validate().unwrap_err().message,
        "Whisper language must not contain NUL bytes."
    );
    let mut whisper = WhisperSettings::default();
    whisper.num_threads = Some(0);
    assert_eq!(
        whisper.validate().unwrap_err().message,
        "Whisper num_threads must be a positive integer when set."
    );
}

#[test]
fn sherpa_settings_errors() {
    assert_eq!(
        check_sherpa_settings("  ", "greedy_search", None, 4, true, true, true, 170).unwrap_err().message,
        "Sherpa provider must not be empty."
    );
    assert_eq!(
        check_sherpa_settings("cpu", "beam", None, 4, true, true, true, 170).unwrap_err().message,
        "Invalid sherpa decoding method: \"beam\". Expected \"greedy_search\" or \"modified_beam_search\"."
    );
    assert_eq!(
        check_sherpa_settings("cpu", "greedy_search", Some(0), 4, true, true, true, 170)
            .unwrap_err()
            .message,
        "Sherpa num_threads must be a positive integer when set."
    );
    assert_eq!(
        check_sherpa_settings("cpu", "greedy_search", None, 0, true, true, true, 170).unwrap_err().message,
        "Sherpa max_active_paths must be a positive integer."
    );
    assert_eq!(
        check_sherpa_settings("cpu", "greedy_search", None, 4, true, true, true, 39).unwrap_err().message,
        "Sherpa chunk_ms must be between 40 and 400."
    );
    assert_eq!(
        check_sherpa_settings("cpu", "greedy_search", None, 4, false, true, true, 170)
            .unwrap_err()
            .message,
        "Sherpa rule1_min_trailing_silence must be a positive, finite number."
    );
}
