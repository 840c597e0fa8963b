use inkflow::engine::{
    check_submission, endpoint_commits, forced_finalize_fallback_text, lock_sample_rate,
    ms_to_samples, samples_per_read, speech_is_recent, DecodeMode, InferenceMode, ModeRouter,
    SpeechActivity, WindowState,
};
use inkflow::settings::WindowSchedule;

#[test]
fn forced_finalize_fallback_text_uses_last_text_when_final_empty() {
    let resolved = forced_finalize_fallback_text("", "hello");
    assert_eq!(resolved, "hello");
}

#[test]
fn forced_finalize_prefers_the_final_text_trimmed() {
    assert_eq!(forced_finalize_fallback_text("  final words ", "partial"), "final words");
    assert_eq!(forced_finalize_fallback_text("   ", "  partial "), "partial");
}

#[test]
fn mode_router_defaults_to_local_stream_second_pass() {
    let settings = WindowSchedule::default();
    let plan = ModeRouter::resolve(&settings);
    assert_eq!(plan.decode_mode, DecodeMode::StreamSecondPass);
    assert_eq!(plan.inference, InferenceMode::LocalOnly);
    assert_eq!(plan.window_enabled, settings.enabled);
}

#[test]
fn window_state_tracks_total_and_ring_len() {
    let settings = WindowSchedule::default();
    let mut state = WindowState::new(&settings, true, 0);
    let samples = vec![0.1_f32; 320];
    state.push_samples(&samples);
    assert_eq!(state.total_16k_samples(), samples.len() as u64);
    assert_eq!(state.ring_len(), samples.len());
}

#[test]
fn window_state_advances_generation() {
    let settings = WindowSchedule::default();
    let mut state: WindowState<f32> = WindowState::new(&settings, true, 0);
    let g1 = state.advance_generation();
    let g2 = state.advance_generation();
    assert!(g2 > g1);
}

#[test]
fn window_ring_keeps_only_the_window() {
    let mut settings = WindowSchedule::default();
    settings.window_ms = 100;
    settings.context_ms = 0;
    let mut state = WindowState::new(&settings, true, 0);
    state.push_samples(&vec![1u8; 1000]);
    state.push_samples(&vec![2u8; 1000]);
    assert_eq!(state.total_16k_samples(), 2000);
    assert_eq!(state.ring_len(), 1600);
}

#[test]
fn disabled_window_holds_no_audio() {
    let settings = WindowSchedule::default();
    let mut state = WindowState::new(&settings, false, 0);
    state.push_samples(&vec![1u8; 100]);
    assert_eq!(state.ring_len(), 0);
    assert!(state.drain_ready_jobs(1, true, true, 10_000).is_empty());
}

#[test]
fn ticks_emit_window_jobs_when_due() {
    let settings = WindowSchedule::default();
    let mut state = WindowState::new(&settings, true, 0);
    state.push_samples(&vec![3u8; 320]);
    assert!(state.drain_ready_jobs(1, true, true, 399).is_empty());
    let jobs = state.drain_ready_jobs(1, true, true, 400);
    assert_eq!(jobs.len(), 1);
    let (snapshot, audio) = &jobs[0];
    assert_eq!(snapshot.engine_generation, 1);
    assert_eq!(snapshot.job_id, 1);
    assert_eq!(snapshot.window_end_16k_samples, 320);
    assert_eq!(audio.len(), 320);
    assert!(state.drain_ready_jobs(1, false, true, 800).is_empty());
    assert!(state.drain_ready_jobs(1, true, false, 1200).is_empty());
}

#[test]
fn drain_bound_is_checked() {
    let settings = WindowSchedule::default();
    let state: WindowState<u8> = WindowState::new(&settings, true, 0);
    assert!(state.drain_fits(0));
    assert!(state.drain_fits(400));
    assert!(state.drain_fits(u64::MAX - settings.step_ms));
    assert!(!state.drain_fits(u64::MAX - settings.step_ms + 1));
    assert!(!state.drain_fits(u64::MAX));
}

#[test]
fn sample_arithmetic() {
    assert_eq!(ms_to_samples(16_000, 200), 3200);
    assert_eq!(ms_to_samples(0, 200), 0);
    assert_eq!(ms_to_samples(48_000, 0), 0);
    assert_eq!(samples_per_read(16_000, 170), 2720);
    assert_eq!(samples_per_read(16_000, 0), 1);
}

#[test]
fn endpoint_commits_only_voiced_text() {
    assert!(endpoint_commits(true, " hello "));
    assert!(!endpoint_commits(false, "hello"));
    assert!(!endpoint_commits(true, "   "));
}

#[test]
fn speech_activity_is_recent_within_hold() {
    let mut activity = SpeechActivity::new();
    assert!(!activity.is_recent(100, 400));
    activity.mark(1000);
    assert!(activity.is_recent(2200, 400));
    assert!(!activity.is_recent(2201, 400));
    assert!(speech_is_recent(1000, 1200, 10));
    assert!(!speech_is_recent(1000, 1201, 10));
    assert!(!speech_is_recent(0, 10, 10));
}

#[test]
fn sample_rate_is_locked_for_the_session() {
    assert_eq!(lock_sample_rate(None, 48_000).unwrap(), 48_000);
    assert_eq!(lock_sample_rate(Some(48_000), 48_000).unwrap(), 48_000);
    let err = lock_sample_rate(Some(48_000), 16_000).unwrap_err();
    assert_eq!(err.code, "audio_invalid");
    assert_eq!(err.message, "Sample rate must remain constant for the session.");
}

#[test]
fn submission_checks() {
    assert_eq!(check_submission(0, 0).unwrap(), false);
    assert_eq!(check_submission(10, 16_000).unwrap(), true);
    let err = check_submission(10, 0).unwrap_err();
    assert_eq!(err.message, "Sample rate must be greater than zero.");
}
