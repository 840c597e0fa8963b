use inkflow::render::{
    render_preview, window_tail_text, AsrUpdate, RenderState, WhisperDecodeResult,
    WhisperDecodedSegment, WindowJobSnapshot,
};
use inkflow::settings::{MergeSettings, WindowSchedule};

fn snapshot(window_generation: u64, end: u64) -> WindowJobSnapshot {
    WindowJobSnapshot {
        engine_generation: 1,
        window_generation,
        job_id: 1,
        window_end_16k_samples: end,
        window_len_16k_samples: end as usize,
        context_len_16k_samples: 0,
    }
}

fn result(text: &str, t1_ms: u64, segment_text: &str) -> WhisperDecodeResult {
    WhisperDecodeResult {
        text: text.to_string(),
        segments: vec![WhisperDecodedSegment { t0_ms: 0, t1_ms, text: segment_text.to_string() }],
        has_timestamps: true,
    }
}

fn handle(state: &mut RenderState, update: &AsrUpdate, merge: &MergeSettings) -> Option<AsrUpdate> {
    state.handle_update(update, merge, &WindowSchedule::default(), 0)
}

fn collect_render_updates(state: &mut RenderState, updates: &[AsrUpdate], merge: &MergeSettings) -> Vec<String> {
    let mut out = Vec::new();
    for update in updates {
        if let Some(AsrUpdate::LiveRender { text }) = handle(state, update, merge) {
            out.push(text);
        }
    }
    out
}

#[test]
fn drops_stale_window_generations() {
    let mut state = RenderState::new();
    let merge = MergeSettings::default();
    handle(
        &mut state,
        &AsrUpdate::SegmentEnd {
            segment_id: 1,
            sherpa_text: "hello".into(),
            committed_end_16k_samples: 1600,
            window_generation_after: 2,
        },
        &merge,
    );
    let out = handle(
        &mut state,
        &AsrUpdate::WindowResult { snapshot: snapshot(0, 1600), result: result("hello", 100, "hello") },
        &merge,
    );
    assert!(out.is_none());
}

#[test]
fn segment_end_emits_display_text() {
    let mut state = RenderState::new();
    let merge = MergeSettings::default();
    let out = handle(
        &mut state,
        &AsrUpdate::SegmentEnd {
            segment_id: 1,
            sherpa_text: "hello world".into(),
            committed_end_16k_samples: 1600,
            window_generation_after: 1,
        },
        &merge,
    );
    let Some(AsrUpdate::LiveRender { text }) = out else {
        panic!("expected live render update");
    };
    assert_eq!(text, "hello world");
}

#[test]
fn duplicate_second_pass_updates_are_ignored() {
    let mut state = RenderState::new();
    let merge = MergeSettings::default();
    let _ = handle(
        &mut state,
        &AsrUpdate::SegmentEnd {
            segment_id: 1,
            sherpa_text: "hello world".into(),
            committed_end_16k_samples: 1600,
            window_generation_after: 1,
        },
        &merge,
    );
    let out = handle(
        &mut state,
        &AsrUpdate::SecondPass { segment_id: 1, text: "hello whisper".into() },
        &merge,
    );
    assert!(out.is_some());
    let out = handle(
        &mut state,
        &AsrUpdate::SecondPass { segment_id: 1, text: "hello whisper".into() },
        &merge,
    );
    assert!(out.is_none());
}

#[test]
fn segment_end_prefers_window_tail_when_available() {
    let mut state = RenderState::new();
    let merge = MergeSettings::default();
    let out = handle(
        &mut state,
        &AsrUpdate::WindowResult {
            snapshot: snapshot(0, 3200),
            result: result("hello window", 200, "hello window"),
        },
        &merge,
    );
    assert!(out.is_some());
    let out = handle(
        &mut state,
        &AsrUpdate::SegmentEnd {
            segment_id: 1,
            sherpa_text: "GOODBYE".into(),
            committed_end_16k_samples: 3200,
            window_generation_after: 1,
        },
        &merge,
    );
    let display = match out {
        Some(AsrUpdate::LiveRender { text }) => text,
        None => state.compose_display_text(),
        _ => panic!("expected live render update or no update"),
    };
    assert!(display.contains("hello window"));
}

#[test]
fn window_updates_are_throttled_until_interval() {
    let mut state = RenderState::new();
    let merge = MergeSettings::default();
    let mut outputs = Vec::new();
    for text in ["hello", "hello a", "hello ab"] {
        outputs.push(handle(
            &mut state,
            &AsrUpdate::WindowResult { snapshot: snapshot(0, 3200), result: result(text, 200, text) },
            &merge,
        ));
    }
    assert!(outputs[0].is_some());
    assert!(outputs[1].is_none());
    assert!(outputs[2].is_none());
}

#[test]
fn stabilizes_after_multiple_matches() {
    let mut state = RenderState::new();
    let merge = MergeSettings::default();
    let mut out = None;
    for _ in 0..merge.stable_ticks {
        out = handle(
            &mut state,
            &AsrUpdate::WindowResult { snapshot: snapshot(0, 3200), result: result("hello world", 200, "hello") },
            &merge,
        );
    }
    let Some(AsrUpdate::LiveRender { text }) = out else {
        panic!("expected live render update");
    };
    assert!(!text.is_empty());
}

#[test]
fn repeated_window_renders_again_once_stable() {
    let mut state = RenderState::new();
    let merge = MergeSettings::default();
    let update = AsrUpdate::WindowResult { snapshot: snapshot(0, 3200), result: result("hello world", 200, "hello") };
    let outs: Vec<Option<AsrUpdate>> = (0..3).map(|_| handle(&mut state, &update, &merge)).collect();
    assert!(matches!(&outs[0], Some(AsrUpdate::LiveRender { text }) if text == "hello"));
    assert!(outs[1].is_none());
    assert!(matches!(&outs[2], Some(AsrUpdate::LiveRender { text }) if text == "hello"));
}

#[test]
fn window_shrink_without_stable_advance_is_ignored() {
    let mut state = RenderState::new();
    let mut merge = MergeSettings::default();
    merge.stable_ticks = 1;
    let out = handle(
        &mut state,
        &AsrUpdate::WindowResult {
            snapshot: snapshot(0, 3200),
            result: result("hi how are you", 200, "hi how are you"),
        },
        &merge,
    );
    assert!(out.is_some());
    let out = handle(
        &mut state,
        &AsrUpdate::WindowResult { snapshot: snapshot(0, 3200), result: result("hi how", 200, "hi how") },
        &merge,
    );
    assert!(out.is_none());
}

#[test]
fn committed_prefix_is_preserved_across_window_updates() {
    let mut state = RenderState::new();
    let merge = MergeSettings::default();
    let _ = handle(
        &mut state,
        &AsrUpdate::SegmentEnd {
            segment_id: 1,
            sherpa_text: "hello".into(),
            committed_end_16k_samples: 1600,
            window_generation_after: 1,
        },
        &merge,
    );
    let updates = [
        AsrUpdate::WindowResult {
            snapshot: snapshot(1, 3200),
            result: result("hello one two", 200, "hello one two"),
        },
        AsrUpdate::WindowResult {
            snapshot: snapshot(1, 3200),
            result: result("hello one two three", 200, "hello one two three"),
        },
    ];
    let renders = collect_render_updates(&mut state, &updates, &merge);
    let latest = renders.last().expect("expected live render update");
    assert!(latest.starts_with("hello"));
}

#[test]
fn stale_window_results_are_not_forwarded() {
    let mut state = RenderState::new();
    let merge = MergeSettings::default();
    let window = WindowSchedule::default();
    let _ = state.route_update(
        AsrUpdate::SegmentEnd {
            segment_id: 1,
            sherpa_text: "hello".into(),
            committed_end_16k_samples: 1600,
            window_generation_after: 2,
        },
        &merge,
        &window,
        0,
    );
    let stale = AsrUpdate::WindowResult { snapshot: snapshot(1, 3200), result: result("x", 200, "x") };
    assert!(!state.should_forward(&stale));
    let routed = state.route_update(stale, &merge, &window, 0);
    assert!(routed.is_empty());
    let routed = state.route_update(
        AsrUpdate::SecondPass { segment_id: 1, text: "hello there".into() },
        &merge,
        &window,
        0,
    );
    assert_eq!(routed.len(), 2);
    assert!(matches!(&routed[0], AsrUpdate::LiveRender { text } if text == "hello there"));
    assert!(matches!(&routed[1], AsrUpdate::SecondPass { segment_id: 1, .. }));
}

#[test]
fn partial_is_shown_until_window_output_arrives() {
    let mut state = RenderState::new();
    let merge = MergeSettings::default();
    let out = handle(&mut state, &AsrUpdate::SherpaPartial("  good morning ".into()), &merge);
    assert!(matches!(out, Some(AsrUpdate::LiveRender { text }) if text == "good morning"));
    let out = handle(&mut state, &AsrUpdate::SherpaPartial("good morning".into()), &merge);
    assert!(out.is_none());
}

#[test]
fn endpoint_reset_clears_live_text() {
    let mut state = RenderState::new();
    let merge = MergeSettings::default();
    let _ = handle(&mut state, &AsrUpdate::SherpaPartial("hello".into()), &merge);
    let out = handle(&mut state, &AsrUpdate::EndpointReset { window_generation_after: 2 }, &merge);
    assert!(matches!(out, Some(AsrUpdate::LiveRender { text }) if text.is_empty()));
    assert_eq!(state.compose_display_text(), "");
}

#[test]
fn preview_and_tail_helpers() {
    assert_eq!(render_preview("hello world", 5), "hello…");
    assert_eq!(render_preview("hi", 5), "hi");
    let decoded = WhisperDecodeResult {
        text: "old new".into(),
        segments: vec![
            WhisperDecodedSegment { t0_ms: 0, t1_ms: 100, text: "old".into() },
            WhisperDecodedSegment { t0_ms: 100, t1_ms: 300, text: "new".into() },
        ],
        has_timestamps: true,
    };
    assert_eq!(window_tail_text(&snapshot(0, 3200), &decoded, 1600), "new");
    assert_eq!(window_tail_text(&snapshot(0, 3200), &decoded, 0), "old new");
}
