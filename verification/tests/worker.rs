use inkflow::render::WhisperDecodeResult;
use inkflow::worker::{
    activity_allows, activity_start, window_activity_ms, ActivityChecks, GateStep, PartialStep,
    PendingReader, SegmentState, StreamTracker, WindowGate,
};

#[test]
fn segment_state_allocates_ids_monotonically() {
    let mut state: SegmentState<f32> = SegmentState::new();
    let first = state.next_segment_id();
    let second = state.next_segment_id();
    assert!(second > first);
}

#[test]
fn segment_state_collects_and_hands_over_audio() {
    let mut state = SegmentState::new();
    assert!(state.is_empty());
    state.push_samples(&[0.1_f32, -0.2, 0.05]);
    assert!(!state.is_empty());
    let taken = state.take();
    assert_eq!(taken, vec![0.1_f32, -0.2, 0.05]);
    assert!(state.is_empty());
    state.push_samples(&[1.0_f32]);
    state.reset();
    assert!(state.is_empty());
    assert_eq!(state.next_segment_id(), 1);
}

#[test]
fn reader_hands_out_fixed_reads_in_order() {
    let mut reader = PendingReader::new();
    reader.extend(&[1u32, 2, 3]);
    assert_eq!(reader.next_read(2), Some(vec![1, 2]));
    assert_eq!(reader.next_read(2), None);
    reader.extend(&[4, 5]);
    assert_eq!(reader.next_read(2), Some(vec![3, 4]));
    assert_eq!(reader.take_rest(), Some(vec![5]));
    assert_eq!(reader.take_rest(), None);
}

#[test]
fn reader_survives_compaction() {
    let mut reader = PendingReader::new();
    let all: Vec<u32> = (0..20_000).collect();
    reader.extend(&all);
    let mut seen = Vec::new();
    while let Some(chunk) = reader.next_read(1000) {
        seen.extend(chunk);
    }
    assert_eq!(seen, all);
    assert_eq!(reader.take_rest(), None);
}

#[test]
fn tracker_keeps_new_text_and_shows_it_when_voiced() {
    let mut tracker = StreamTracker::new();
    assert_eq!(tracker.on_text("", true), PartialStep::Unchanged);
    assert_eq!(tracker.on_text("hello", false), PartialStep::Heard);
    assert_eq!(tracker.last_text, "hello");
    assert_eq!(tracker.on_text("hello", true), PartialStep::Unchanged);
    assert_eq!(tracker.on_text("hello there", true), PartialStep::Emit);
    assert_eq!(tracker.endpoint_text(""), "hello there");
    assert_eq!(tracker.endpoint_text("final"), "final");
    tracker.clear_text();
    assert_eq!(tracker.last_text, "");
}

#[test]
fn backpressure_reports_changes_only() {
    let mut tracker = StreamTracker::new();
    assert_eq!(tracker.update_backpressure(3, 16), (true, false));
    assert_eq!(tracker.update_backpressure(16, 16), (false, true));
    assert_eq!(tracker.update_backpressure(20, 16), (false, false));
    assert_eq!(tracker.update_backpressure(0, 16), (true, true));
}

#[test]
fn activity_window_is_clamped() {
    assert_eq!(window_activity_ms(10), 80);
    assert_eq!(window_activity_ms(400), 400);
    assert_eq!(window_activity_ms(5000), 600);
    assert_eq!(activity_start(10_000, 6400), 3600);
    assert_eq!(activity_start(100, 6400), 0);
    assert_eq!(activity_start(100, 0), 99);
}

fn checks() -> ActivityChecks {
    ActivityChecks {
        noise_ok: true,
        energy_ok: true,
        energy_relaxed: true,
        band_check: true,
        band_ok: false,
        low_noise: false,
        mean_boost: false,
        rms_boost: false,
    }
}

fn checks_for(mean_abs: f32, rms: f32, zcr: f32, band: f32) -> ActivityChecks {
    let (min_mean_abs, min_rms, max_zcr, min_band) = (0.001_f32, 0.001_f32, 0.35_f32, 0.15_f32);
    ActivityChecks {
        noise_ok: zcr <= max_zcr,
        energy_ok: mean_abs >= min_mean_abs && rms >= min_rms,
        energy_relaxed: mean_abs >= min_mean_abs * 0.6 && rms >= min_rms * 0.6,
        band_check: min_band > 0.0,
        band_ok: band >= min_band,
        low_noise: zcr <= max_zcr * 0.8,
        mean_boost: min_mean_abs > 0.0 && mean_abs >= min_mean_abs * 1.5,
        rms_boost: min_rms > 0.0 && rms >= min_rms * 1.5,
    }
}

#[test]
fn activity_gate_allows_high_energy_even_with_low_band_ratio() {
    let c = checks_for(0.001 * 2.0, 0.001 * 2.0, 0.35 * 0.5, 0.15 * 0.5);
    assert!(c.mean_boost && c.rms_boost && !c.band_ok);
    assert!(activity_allows(&c));
}

#[test]
fn activity_gate_allows_low_noise_with_low_band_ratio() {
    let c = checks_for(0.001 * 1.1, 0.001 * 1.1, 0.35 * 0.2, 0.15 * 0.1);
    assert!(c.low_noise && !c.mean_boost && !c.rms_boost && !c.band_ok);
    assert!(activity_allows(&c));
}

#[test]
fn activity_gate_refuses_noise_and_silence() {
    let mut c = checks();
    c.band_ok = true;
    c.noise_ok = false;
    assert!(!activity_allows(&c));
    let mut c = checks();
    c.band_ok = true;
    c.energy_ok = false;
    c.energy_relaxed = false;
    assert!(!activity_allows(&c));
    assert!(!activity_allows(&checks()));
    let mut c = checks();
    c.band_check = false;
    assert!(activity_allows(&c));
}

#[test]
fn window_gate_reports_transitions_and_caches() {
    let mut gate = WindowGate::new();
    assert_eq!(gate.pass_gate(false, false), GateStep::Suppressed { newly: true });
    assert_eq!(gate.pass_gate(false, false), GateStep::Suppressed { newly: false });
    assert_eq!(gate.pass_gate(true, false), GateStep::Open { resumed: true });
    assert_eq!(gate.pass_gate(false, true), GateStep::Open { resumed: false });
    assert!(gate.cached(1, 10).is_none());
    gate.store(1, 10, WhisperDecodeResult { text: "hi".into(), segments: Vec::new(), has_timestamps: false });
    assert_eq!(gate.cached(1, 10).map(|r| r.text.clone()), Some("hi".to_string()));
    assert!(gate.cached(1, 11).is_none());
    assert!(gate.cached(2, 10).is_none());
}
