//! The live display: turns the stream of recogniser updates into the text
//! shown to the user, committed segment by committed segment.
use vstd::prelude::*;

use std::collections::HashMap;

use crate::settings::{MergeSettings, WindowSchedule};
use crate::strings::{
    ascii_lower, from_chars, has_ws, is_ascii_text, lowercase, push_char, to_chars, trim, trim_chars,
    trim_end, trim_start,
};
use crate::text::{append_norm, append_normalized, law_append_extends};
use crate::transcript::{
    accept_spec, choose_segment_provisional_text, dedup_spec, dedup_tail, join, merge_step,
    merged_tokens, mode_for, ms_to_samples_16k, ms_to_samples_16k_spec, provisional_spec,
    should_accept_second_pass_replacement, token_mode_for_language, tokens, MergeState, TokV,
};

verus! {

broadcast use vstd::std_specs::hash::group_hash_axioms;

/// Where a window decode job sits in the audio stream.
#[derive(Clone, Copy, Debug)]
pub struct WindowJobSnapshot {
    pub engine_generation: u64,
    pub window_generation: u64,
    pub job_id: u64,
    pub window_end_16k_samples: u64,
    pub window_len_16k_samples: usize,
    pub context_len_16k_samples: usize,
}

/// One timed piece of a whisper transcript.
#[derive(Clone, Debug)]
pub struct WhisperDecodedSegment {
    pub t0_ms: u64,
    pub t1_ms: u64,
    pub text: String,
}

/// A whisper transcript with its timed pieces.
#[derive(Clone, Debug)]
pub struct WhisperDecodeResult {
    pub text: String,
    pub segments: Vec<WhisperDecodedSegment>,
    pub has_timestamps: bool,
}

/// An update from the recognisers, or a rendered display text.
#[derive(Debug)]
pub enum AsrUpdate {
    LiveRender { text: String },
    SherpaPartial(String),
    WindowScheduled(WindowJobSnapshot),
    WindowResult { snapshot: WindowJobSnapshot, result: WhisperDecodeResult },
    SegmentEnd {
        segment_id: u64,
        sherpa_text: String,
        committed_end_16k_samples: u64,
        window_generation_after: u64,
    },
    EndpointReset { window_generation_after: u64 },
    SecondPass { segment_id: u64, text: String },
}

/// `a + b`, saturating at `u64::MAX`.
pub open spec fn sat_add(a: u64, b: u64) -> u64 {
    if a + b > u64::MAX {
        u64::MAX
    } else {
        (a + b) as u64
    }
}

/// `a - b`, saturating at zero.
pub open spec fn sat_sub(a: u64, b: u64) -> u64 {
    if a >= b {
        (a - b) as u64
    } else {
        0
    }
}

fn add_sat(a: u64, b: u64) -> (r: u64)
    ensures
        r == sat_add(a, b),
{
    match a.checked_add(b) {
        Some(v) => v,
        None => u64::MAX,
    }
}

fn sub_sat(a: u64, b: u64) -> (r: u64)
    ensures
        r == sat_sub(a, b),
{
    if a >= b {
        a - b
    } else {
        0
    }
}

/// The end times and texts of decoded pieces.
pub open spec fn seg_views(segs: Seq<WhisperDecodedSegment>) -> Seq<(u64, Seq<char>)> {
    segs.map_values(|s: WhisperDecodedSegment| (s.t1_ms, s.text@))
}

/// The first sample of a window, at 16 kHz.
pub open spec fn window_start(s: WindowJobSnapshot) -> u64 {
    sat_sub(s.window_end_16k_samples, s.window_len_16k_samples as u64)
}

/// The pieces of a window transcript that end after `committed`, appended in order.
pub open spec fn tail_from(segs: Seq<(u64, Seq<char>)>, start: u64, committed: u64) -> Seq<char>
    decreases segs.len(),
{
    if segs.len() == 0 {
        seq![]
    } else {
        let prev = tail_from(segs.drop_last(), start, committed);
        let s = segs.last();
        if sat_add(start, ms_to_samples_16k_spec(s.0)) <= committed {
            prev
        } else {
            append_norm(prev, s.1)
        }
    }
}

/// The part of a window transcript that lies past the committed audio.
pub fn window_tail_text(
    snapshot: &WindowJobSnapshot,
    result: &WhisperDecodeResult,
    committed_end_16k: u64,
) -> (r: String)
    ensures
        r@ == tail_from(seg_views(result.segments@), window_start(*snapshot), committed_end_16k),
{
    let window_start_16k = sub_sat(
        snapshot.window_end_16k_samples,
        snapshot.window_len_16k_samples as u64,
    );
    let ghost segs = seg_views(result.segments@);
    let mut out = String::new();
    let mut i: usize = 0;
    while i < result.segments.len()
        invariant
            i <= result.segments@.len(),
            segs == seg_views(result.segments@),
            window_start_16k == window_start(*snapshot),
            out@ == tail_from(segs.take(i as int), window_start_16k, committed_end_16k),
        decreases result.segments@.len() - i,
    {
        let segment = &result.segments[i];
        assert(segs.take(i + 1).drop_last() =~= segs.take(i as int));
        assert(segs.take(i + 1).last() == (segment.t1_ms, segment.text@));
        let end = add_sat(window_start_16k, ms_to_samples_16k(segment.t1_ms));
        if end > committed_end_16k {
            append_normalized(&mut out, segment.text.as_str());
        }
        i += 1;
    }
    assert(segs.take(result.segments@.len() as int) =~= segs);
    out
}

/// What `render_preview` returns: the first `max` characters, with an
/// ellipsis when text was cut.
pub open spec fn preview_spec(s: Seq<char>, max: usize) -> Seq<char> {
    if max == 0 {
        seq![]
    } else if s.len() > max {
        s.take(max as int).push('…')
    } else {
        s
    }
}

/// A shortened copy of a text for logs.
pub fn render_preview(text: &str, max_chars: usize) -> (r: String)
    ensures
        r@ == preview_spec(text@, max_chars),
{
    if max_chars == 0 {
        return String::new();
    }
    let v = to_chars(text);
    let mut out = String::new();
    let mut idx: usize = 0;
    while idx < v.len()
        invariant
            idx <= v@.len(),
            idx <= max_chars,
            v@ == text@,
            max_chars > 0,
            out@ == v@.take(idx as int),
        decreases v@.len() - idx,
    {
        if idx >= max_chars {
            assert(idx == max_chars);
            assert(text@.len() > max_chars);
            push_char(&mut out, '…');
            assert(out@ == text@.take(max_chars as int).push('…'));
            return out;
        }
        push_char(&mut out, v[idx]);
        assert(v@.take(idx + 1) =~= v@.take(idx as int).push(v@[idx as int]));
        idx += 1;
    }
    assert(v@.take(v@.len() as int) =~= v@);
    out
}

/// The committed segments appended one after another.
pub open spec fn compose_segs(segs: Seq<Seq<char>>) -> Seq<char>
    decreases segs.len(),
{
    if segs.len() == 0 {
        seq![]
    } else {
        append_norm(compose_segs(segs.drop_last()), segs.last())
    }
}

/// The display text: the committed segments, then the live tail.
pub open spec fn compose(segs: Seq<Seq<char>>, live: Seq<char>) -> Seq<char> {
    append_norm(compose_segs(segs), live)
}

/// The abstract state of the display.
#[verifier::ext_equal]
pub ghost struct RenderModel {
    pub stable: Seq<TokV>,
    pub recent: Seq<Seq<TokV>>,
    pub last_window_text: Seq<char>,
    pub last_window_end_16k: u64,
    pub committed_end_16k: u64,
    pub current_window_generation: u64,
    pub last_window_update: Option<u64>,
    pub last_sherpa_partial: Seq<char>,
    pub live_tail: Seq<char>,
    pub committed_segments: Seq<Seq<char>>,
    pub segment_index: Map<u64, usize>,
    pub last_display_text: Seq<char>,
    pub has_window_output: bool,
    pub last_second_pass_text: Map<u64, Seq<char>>,
    pub window_tick: u64,
    pub last_emit_tick: u64,
    pub last_stable_len: usize,
}

/// Every known segment id points at its own committed segment.
pub open spec fn model_wf(m: RenderModel) -> bool {
    &&& forall|id: u64| #[trigger]
        m.segment_index.contains_key(id) ==> m.segment_index[id] < m.committed_segments.len()
    &&& forall|a: u64, b: u64|
        #[trigger] m.segment_index.contains_key(a) && #[trigger] m.segment_index.contains_key(b)
            && a != b ==> m.segment_index[a] != m.segment_index[b]
}

/// The display after an update: a render is emitted when the composed text
/// differs from the last one emitted.
pub open spec fn emit(m: RenderModel) -> (RenderModel, Option<Seq<char>>) {
    let d = compose(m.committed_segments, m.live_tail);
    if d == m.last_display_text {
        (m, None)
    } else {
        (RenderModel { last_display_text: d, ..m }, Some(d))
    }
}

/// The display after an update that must be shown: it is emitted even when
/// it equals the last one emitted.
pub open spec fn emit_always(m: RenderModel) -> (RenderModel, Option<Seq<char>>) {
    let d = compose(m.committed_segments, m.live_tail);
    (RenderModel { last_display_text: d, ..m }, Some(d))
}

/// The candidate a window tail yields: the tail with its overlap against the
/// previous window text removed, or the whole tail when it repeats that text
/// entirely, so that a repeated window still counts as a confirmation.
pub open spec fn window_candidate(
    last_window_text: Seq<char>,
    tail: Seq<char>,
    mode: crate::transcript::TokenMode,
    merge: MergeSettings,
) -> Seq<char> {
    let deduped = dedup_spec(
        last_window_text,
        tail,
        mode,
        merge.overlap_k_words as usize,
        merge.overlap_k_chars as usize,
    );
    if deduped.len() == 0 {
        tail
    } else {
        deduped
    }
}

/// The state with the live part (merge, window text, tail, ticks) cleared.
pub open spec fn cleared(m: RenderModel) -> RenderModel {
    RenderModel {
        stable: seq![],
        recent: seq![],
        last_window_text: seq![],
        last_sherpa_partial: seq![],
        last_window_update: None,
        live_tail: seq![],
        has_window_output: false,
        window_tick: 0,
        last_emit_tick: 0,
        last_stable_len: 0,
        ..m
    }
}

/// Records a segment's text: replaced in place if the id is known, appended otherwise.
pub open spec fn upsert(m: RenderModel, id: u64, text: Seq<char>) -> RenderModel {
    if m.segment_index.contains_key(id) {
        let i = m.segment_index[id];
        if i < m.committed_segments.len() {
            RenderModel { committed_segments: m.committed_segments.update(i as int, text), ..m }
        } else {
            m
        }
    } else {
        RenderModel {
            committed_segments: m.committed_segments.push(text),
            segment_index: m.segment_index.insert(id, m.committed_segments.len() as usize),
            ..m
        }
    }
}

/// No window result has arrived within two window steps.
pub open spec fn window_stale(m: RenderModel, step_ms: u64, now_ms: u64) -> bool {
    let twice = if step_ms * 2 > u64::MAX {
        u64::MAX as int
    } else {
        step_ms * 2
    };
    let freshness = if twice < 1 {
        1
    } else {
        twice
    };
    match m.last_window_update {
        None => true,
        Some(t) => sat_sub(now_ms, t) >= freshness,
    }
}

/// A window result from an older generation, or ending before the last one, is dropped.
pub open spec fn drops_window(m: RenderModel, s: WindowJobSnapshot) -> bool {
    s.window_generation < m.current_window_generation || s.window_end_16k_samples
        < m.last_window_end_16k
}

/// The token mode used for text of unknown language.
pub open spec fn auto_mode(text: Seq<char>) -> crate::transcript::TokenMode {
    mode_for(lowercase(trim("auto"@)), text)
}

/// Window text is split into words when it holds whitespace, into
/// characters otherwise.
pub proof fn law_auto_mode(text: Seq<char>)
    ensures
        auto_mode(text) == (if has_ws(text) {
            crate::transcript::TokenMode::Words
        } else {
            crate::transcript::TokenMode::Chars
        }),
{
    reveal_strlit("auto");
    let a = "auto"@;
    assert(a =~= seq!['a', 'u', 't', 'o']);
    assert(trim_start(a) == a);
    assert(trim_end(a) == a);
    assert(is_ascii_text(a));
    assert(a.map_values(|c: char| ascii_lower(c)) =~= a);
}

/// A streaming partial: shown as the live tail only while no fresh window output exists.
pub open spec fn step_partial(m: RenderModel, text: Seq<char>, w: WindowSchedule, now_ms: u64) -> (
    RenderModel,
    Option<Seq<char>>,
) {
    let m1 = RenderModel { last_sherpa_partial: text, ..m };
    if m.has_window_output || !window_stale(m, w.step_ms, now_ms) {
        (m1, None)
    } else {
        let c = trim(text);
        if c.len() == 0 || c == m.live_tail {
            (m1, None)
        } else {
            emit(RenderModel { live_tail: c, ..m1 })
        }
    }
}

/// A window decode: its new tail is de-duplicated against the previous one,
/// merged, and shown when the stable prefix grows or the emit interval has
/// passed. A growth of the stable prefix is always rendered, even when the
/// display reads as before, so that agreement across `stable_ticks` windows
/// shows.
pub open spec fn step_window(
    m: RenderModel,
    snapshot: WindowJobSnapshot,
    segs: Seq<(u64, Seq<char>)>,
    merge: MergeSettings,
    now_ms: u64,
) -> (RenderModel, Option<Seq<char>>) {
    if drops_window(m, snapshot) {
        (m, None)
    } else {
        let tail = tail_from(segs, window_start(snapshot), m.committed_end_16k);
        if tail.len() == 0 {
            (m, None)
        } else {
            let mode = auto_mode(tail);
            let deduped = window_candidate(m.last_window_text, tail, mode, merge);
            let cand = tokens(deduped, mode);
            let (s2, r2) = merge_step(
                m.stable,
                m.recent,
                cand,
                merge.stable_ticks as usize,
                merge.rollback_threshold_tokens as usize,
            );
            let merged = join(merged_tokens(s2, cand), mode);
            let tick = sat_add(m.window_tick, 1);
            let interval: u64 = if merge.stable_ticks == 0 {
                1
            } else {
                merge.stable_ticks as u64
            };
            let due = m.last_emit_tick == 0 || s2.len() > m.last_stable_len || sat_sub(
                tick,
                m.last_emit_tick,
            ) >= interval;
            let m1 = RenderModel {
                stable: s2,
                recent: r2,
                window_tick: tick,
                last_stable_len: s2.len() as usize,
                last_window_text: deduped,
                last_window_end_16k: snapshot.window_end_16k_samples,
                last_window_update: Some(now_ms),
                has_window_output: true,
                ..m
            };
            if !due {
                (m1, None)
            } else {
                let m2 = RenderModel { last_emit_tick: tick, ..m1 };
                if trim(merged).len() == 0 {
                    (m2, None)
                } else if s2.len() > m.last_stable_len {
                    emit_always(RenderModel { live_tail: merged, ..m2 })
                } else {
                    emit(RenderModel { live_tail: merged, ..m2 })
                }
            }
        }
    }
}

/// The end of a segment: its provisional text is committed and the live part cleared.
pub open spec fn step_segment_end(
    m: RenderModel,
    segment_id: u64,
    sherpa_text: Seq<char>,
    committed_end: u64,
    generation_after: u64,
) -> (RenderModel, Option<Seq<char>>) {
    let lt = trim(m.live_tail);
    let prov = if m.has_window_output && lt.len() > 0 {
        lt
    } else {
        provisional_spec(sherpa_text, m.live_tail, m.has_window_output)
    };
    let p = trim(prov);
    let m1 = if p.len() > 0 {
        upsert(m, segment_id, p)
    } else {
        m
    };
    emit(
        RenderModel {
            committed_end_16k: committed_end,
            current_window_generation: generation_after,
            last_window_end_16k: committed_end,
            ..cleared(m1)
        },
    )
}

/// A reset at an endpoint without speech: the live part is cleared.
pub open spec fn step_reset(m: RenderModel, generation_after: u64) -> (
    RenderModel,
    Option<Seq<char>>,
) {
    emit(RenderModel { current_window_generation: generation_after, ..cleared(m) })
}

/// A second-pass transcript replaces its committed segment, unless it is a
/// repeat of the last one for that segment or is refused as a fragment.
pub open spec fn step_second_pass(m: RenderModel, segment_id: u64, text: Seq<char>) -> (
    RenderModel,
    Option<Seq<char>>,
) {
    let inc = trim(text);
    if inc.len() == 0 || !m.segment_index.contains_key(segment_id) {
        (m, None)
    } else if m.last_second_pass_text.contains_key(segment_id)
        && m.last_second_pass_text[segment_id] == inc {
        (m, None)
    } else {
        let idx = m.segment_index[segment_id];
        let current = if idx < m.committed_segments.len() {
            m.committed_segments[idx as int]
        } else {
            seq![]
        };
        if !accept_spec(current, inc, auto_mode(inc)) {
            (m, None)
        } else {
            emit(
                RenderModel {
                    committed_segments: m.committed_segments.update(idx as int, inc),
                    last_second_pass_text: m.last_second_pass_text.insert(segment_id, inc),
                    ..m
                },
            )
        }
    }
}

/// The effect of one update on the display state, and the text rendered, if any.
pub open spec fn step(
    m: RenderModel,
    u: AsrUpdate,
    merge: MergeSettings,
    w: WindowSchedule,
    now_ms: u64,
) -> (RenderModel, Option<Seq<char>>) {
    match u {
        AsrUpdate::SherpaPartial(text) => step_partial(m, text@, w, now_ms),
        AsrUpdate::WindowResult { snapshot, result } => step_window(
            m,
            snapshot,
            seg_views(result.segments@),
            merge,
            now_ms,
        ),
        AsrUpdate::SegmentEnd {
            segment_id,
            sherpa_text,
            committed_end_16k_samples,
            window_generation_after,
        } => step_segment_end(
            m,
            segment_id,
            sherpa_text@,
            committed_end_16k_samples,
            window_generation_after,
        ),
        AsrUpdate::EndpointReset { window_generation_after } => step_reset(
            m,
            window_generation_after,
        ),
        AsrUpdate::SecondPass { segment_id, text } => step_second_pass(m, segment_id, text@),
        _ => (m, None),
    }
}

/// A second-pass transcript delivered twice changes nothing the second time.
pub proof fn law_second_pass_repeat_is_ignored(m: RenderModel, segment_id: u64, text: Seq<char>)
    ensures
        ({
            let (m1, _) = step_second_pass(m, segment_id, text);
            step_second_pass(m1, segment_id, text) == (m1, None::<Seq<char>>)
        }),
{
    let (m1, o1) = step_second_pass(m, segment_id, text);
    let inc = trim(text);
    if inc.len() > 0 && m.segment_index.contains_key(segment_id) && !(
    m.last_second_pass_text.contains_key(segment_id) && m.last_second_pass_text[segment_id]
        == inc) {
        let idx = m.segment_index[segment_id];
        let current = if idx < m.committed_segments.len() {
            m.committed_segments[idx as int]
        } else {
            seq![]
        };
        if accept_spec(current, inc, auto_mode(inc)) {
            let x = RenderModel {
                committed_segments: m.committed_segments.update(idx as int, inc),
                last_second_pass_text: m.last_second_pass_text.insert(segment_id, inc),
                ..m
            };
            assert(m1.segment_index == x.segment_index);
            assert(m1.last_second_pass_text == x.last_second_pass_text);
            assert(m1.last_second_pass_text[segment_id] == inc);
        }
    }
}

/// A display emitted on change differs from the one shown before, and
/// becomes the one shown.
pub proof fn lemma_emit(m: RenderModel)
    ensures
        emit(m).0.last_display_text == (match emit(m).1 {
            Some(d) => d,
            None => m.last_display_text,
        }),
        emit(m).1 matches Some(d) ==> d != m.last_display_text,
{
}

/// Every update either leaves the shown display as it was and renders
/// nothing, or renders a display that then becomes the one shown. A render
/// that repeats the display already shown comes only from a window result
/// that grew the stable prefix.
pub proof fn law_render_becomes_display(
    m: RenderModel,
    u: AsrUpdate,
    merge: MergeSettings,
    w: WindowSchedule,
    now_ms: u64,
)
    ensures
        ({
            let (m2, o) = step(m, u, merge, w, now_ms);
            &&& m2.last_display_text == (match o {
                Some(d) => d,
                None => m.last_display_text,
            })
            &&& (o matches Some(d) && d == m.last_display_text ==> u is WindowResult
                && m2.stable.len() > m.last_stable_len)
        }),
{
    match u {
        AsrUpdate::SherpaPartial(text) => {
            let m1 = RenderModel { last_sherpa_partial: text@, ..m };
            lemma_emit(RenderModel { live_tail: trim(text@), ..m1 });
        },
        AsrUpdate::WindowResult { snapshot, result } => {
            let segs = seg_views(result.segments@);
            if !drops_window(m, snapshot) {
                let tail = tail_from(segs, window_start(snapshot), m.committed_end_16k);
                if tail.len() > 0 {
                    let mode = auto_mode(tail);
                    let deduped = window_candidate(m.last_window_text, tail, mode, merge);
                    let cand = tokens(deduped, mode);
                    let (s2, r2) = merge_step(
                        m.stable,
                        m.recent,
                        cand,
                        merge.stable_ticks as usize,
                        merge.rollback_threshold_tokens as usize,
                    );
                    let merged = join(merged_tokens(s2, cand), mode);
                    let tick = sat_add(m.window_tick, 1);
                    let m1 = RenderModel {
                        stable: s2,
                        recent: r2,
                        window_tick: tick,
                        last_stable_len: s2.len() as usize,
                        last_window_text: deduped,
                        last_window_end_16k: snapshot.window_end_16k_samples,
                        last_window_update: Some(now_ms),
                        has_window_output: true,
                        ..m
                    };
                    let m2 = RenderModel { last_emit_tick: tick, ..m1 };
                    lemma_emit(RenderModel { live_tail: merged, ..m2 });
                }
            }
        },
        AsrUpdate::SegmentEnd {
            segment_id,
            sherpa_text,
            committed_end_16k_samples,
            window_generation_after,
        } => {
            let lt = trim(m.live_tail);
            let prov = if m.has_window_output && lt.len() > 0 {
                lt
            } else {
                provisional_spec(sherpa_text@, m.live_tail, m.has_window_output)
            };
            let p = trim(prov);
            let m1 = if p.len() > 0 {
                upsert(m, segment_id, p)
            } else {
                m
            };
            assert(m1.last_display_text == m.last_display_text);
            lemma_emit(
                RenderModel {
                    committed_end_16k: committed_end_16k_samples,
                    current_window_generation: window_generation_after,
                    last_window_end_16k: committed_end_16k_samples,
                    ..cleared(m1)
                },
            );
        },
        AsrUpdate::EndpointReset { window_generation_after } => {
            lemma_emit(RenderModel { current_window_generation: window_generation_after, ..cleared(m) });
        },
        AsrUpdate::SecondPass { segment_id, text } => {
            let inc = trim(text@);
            if inc.len() > 0 && m.segment_index.contains_key(segment_id) {
                let idx = m.segment_index[segment_id];
                lemma_emit(
                    RenderModel {
                        committed_segments: m.committed_segments.update(idx as int, inc),
                        last_second_pass_text: m.last_second_pass_text.insert(segment_id, inc),
                        ..m
                    },
                );
            }
        },
        _ => {},
    }
}

/// A window result that is stale (older generation, or ending before the
/// last one shown) changes nothing and renders nothing.
pub proof fn law_stale_window_ignored(
    m: RenderModel,
    snapshot: WindowJobSnapshot,
    result: WhisperDecodeResult,
    merge: MergeSettings,
    w: WindowSchedule,
    now_ms: u64,
)
    requires
        snapshot.window_generation < m.current_window_generation || snapshot.window_end_16k_samples
            < m.last_window_end_16k,
    ensures
        step(m, AsrUpdate::WindowResult { snapshot, result }, merge, w, now_ms) == (
            m,
            None::<Seq<char>>,
        ),
{
}

/// Partials and window results never change the committed segments, and
/// every display they render begins with the committed text.
pub proof fn law_live_updates_keep_committed(
    m: RenderModel,
    u: AsrUpdate,
    merge: MergeSettings,
    w: WindowSchedule,
    now_ms: u64,
)
    requires
        u is SherpaPartial || u is WindowResult || u is WindowScheduled || u is LiveRender,
    ensures
        ({
            let (m2, o) = step(m, u, merge, w, now_ms);
            &&& m2.committed_segments == m.committed_segments
            &&& (o matches Some(d) ==> compose_segs(m.committed_segments).is_prefix_of(d))
        }),
{
    let (m2, o) = step(m, u, merge, w, now_ms);
    if o is Some {
        law_append_extends(compose_segs(m.committed_segments), m2.live_tail);
    }
}

/// A segment end with a non-blank provisional text for a new segment id
/// appends that text as a committed segment, clears the live part, and the
/// display becomes the committed segments alone.
pub proof fn law_segment_end_commits(
    m: RenderModel,
    segment_id: u64,
    sherpa_text: Seq<char>,
    committed_end: u64,
    generation_after: u64,
)
    requires
        !m.segment_index.contains_key(segment_id),
    ensures
        ({
            let lt = trim(m.live_tail);
            let prov = if m.has_window_output && lt.len() > 0 {
                lt
            } else {
                provisional_spec(sherpa_text, m.live_tail, m.has_window_output)
            };
            let p = trim(prov);
            let (m2, o) = step_segment_end(m, segment_id, sherpa_text, committed_end, generation_after);
            &&& m2.live_tail.len() == 0
            &&& !m2.has_window_output
            &&& m2.committed_segments == (if p.len() > 0 {
                m.committed_segments.push(p)
            } else {
                m.committed_segments
            })
            &&& p.len() > 0 ==> m2.segment_index.contains_key(segment_id)
                && m2.segment_index[segment_id] == m.committed_segments.len() as usize
            &&& m2.last_display_text == compose_segs(m2.committed_segments)
            &&& (o matches Some(d) ==> d == compose_segs(m2.committed_segments))
        }),
{
    let (m2, o) = step_segment_end(m, segment_id, sherpa_text, committed_end, generation_after);
    assert(trim(Seq::<char>::empty()).len() == 0) by {
        reveal_with_fuel(crate::strings::trim_start, 2);
        reveal_with_fuel(crate::strings::trim_end, 2);
    }
    assert(append_norm(compose_segs(m2.committed_segments), seq![]) == compose_segs(
        m2.committed_segments,
    ));
}

/// Window jobs scheduled before an endpoint are ignored after it: once a
/// segment end or a reset moves the display to the next window generation,
/// a result for a job of the previous generation changes nothing.
pub proof fn law_endpoint_invalidates_earlier_windows(
    m: RenderModel,
    u: AsrUpdate,
    generation_after: u64,
    snapshot: WindowJobSnapshot,
    result: WhisperDecodeResult,
    merge: MergeSettings,
    w: WindowSchedule,
    now_ms: u64,
)
    requires
        snapshot.window_generation < generation_after,
        (u matches AsrUpdate::SegmentEnd { window_generation_after, .. } && window_generation_after
            == generation_after) || (u matches AsrUpdate::EndpointReset { window_generation_after }
            && window_generation_after == generation_after),
    ensures
        ({
            let (m1, _) = step(m, u, merge, w, now_ms);
            step(m1, AsrUpdate::WindowResult { snapshot, result }, merge, w, now_ms) == (
                m1,
                None::<Seq<char>>,
            )
        }),
{
}

/// Whether an update result is the render of `o`.
pub open spec fn renders(r: Option<AsrUpdate>, o: Option<Seq<char>>) -> bool {
    match o {
        None => r is None,
        Some(d) => r matches Some(AsrUpdate::LiveRender { text }) && text@ == d,
    }
}

/// The display state.
pub struct RenderState {
    merge: MergeState,
    last_window_text: String,
    last_window_end_16k: u64,
    committed_end_16k: u64,
    current_window_generation: u64,
    last_window_update: Option<u64>,
    last_sherpa_partial: String,
    live_tail: String,
    committed_segments: Vec<String>,
    segment_index: HashMap<u64, usize>,
    last_display_text: String,
    has_window_output: bool,
    last_second_pass_text: HashMap<u64, String>,
    window_tick: u64,
    last_emit_tick: u64,
    last_stable_len: usize,
}

impl RenderState {
    /// The abstract state.
    pub closed spec fn model(&self) -> RenderModel {
        RenderModel {
            stable: self.merge.stable_view(),
            recent: self.merge.recent_view(),
            last_window_text: self.last_window_text@,
            last_window_end_16k: self.last_window_end_16k,
            committed_end_16k: self.committed_end_16k,
            current_window_generation: self.current_window_generation,
            last_window_update: self.last_window_update,
            last_sherpa_partial: self.last_sherpa_partial@,
            live_tail: self.live_tail@,
            committed_segments: self.committed_segments@.map_values(|s: String| s@),
            segment_index: self.segment_index@,
            last_display_text: self.last_display_text@,
            has_window_output: self.has_window_output,
            last_second_pass_text: self.last_second_pass_text@.map_values(|s: String| s@),
            window_tick: self.window_tick,
            last_emit_tick: self.last_emit_tick,
            last_stable_len: self.last_stable_len,
        }
    }

    /// The state is well formed.
    pub open spec fn wf(&self) -> bool {
        model_wf(self.model())
    }

    /// An empty display.
    pub fn new() -> (r: Self)
        ensures
            r.wf(),
            r.model() == (RenderModel {
                stable: seq![],
                recent: seq![],
                last_window_text: seq![],
                last_window_end_16k: 0,
                committed_end_16k: 0,
                current_window_generation: 0,
                last_window_update: None,
                last_sherpa_partial: seq![],
                live_tail: seq![],
                committed_segments: seq![],
                segment_index: Map::empty(),
                last_display_text: seq![],
                has_window_output: false,
                last_second_pass_text: Map::empty(),
                window_tick: 0,
                last_emit_tick: 0,
                last_stable_len: 0,
            }),
    {
        let r = RenderState {
            merge: MergeState::new(),
            last_window_text: String::new(),
            last_window_end_16k: 0,
            committed_end_16k: 0,
            current_window_generation: 0,
            last_window_update: None,
            last_sherpa_partial: String::new(),
            live_tail: String::new(),
            committed_segments: Vec::new(),
            segment_index: HashMap::new(),
            last_display_text: String::new(),
            has_window_output: false,
            last_second_pass_text: HashMap::new(),
            window_tick: 0,
            last_emit_tick: 0,
            last_stable_len: 0,
        };
        assert(r.model().committed_segments =~= Seq::<Seq<char>>::empty());
        assert(r.model().last_second_pass_text =~= Map::<u64, Seq<char>>::empty());
        r
    }

    /// Applies one update and returns the display text to show, if one is due.
    #[verifier::rlimit(40)]
    pub fn handle_update(
        &mut self,
        update: &AsrUpdate,
        merge: &MergeSettings,
        window: &WindowSchedule,
        now_ms: u64,
    ) -> (r: Option<AsrUpdate>)
        requires
            old(self).wf(),
        ensures
            final(self).wf(),
            ({
                let (m2, o) = step(old(self).model(), *update, *merge, *window, now_ms);
                final(self).model() == m2 && renders(r, o)
            }),
    {
        match update {
            AsrUpdate::SherpaPartial(text) => self.on_partial(text, window, now_ms),
            AsrUpdate::WindowResult { snapshot, result } => self.on_window(
                snapshot,
                result,
                merge,
                now_ms,
            ),
            AsrUpdate::SegmentEnd {
                segment_id,
                sherpa_text,
                committed_end_16k_samples,
                window_generation_after,
            } => self.on_segment_end(
                *segment_id,
                sherpa_text,
                *committed_end_16k_samples,
                *window_generation_after,
            ),
            AsrUpdate::EndpointReset { window_generation_after } => self.on_reset(
                *window_generation_after,
            ),
            AsrUpdate::SecondPass { segment_id, text } => self.on_second_pass(*segment_id, text),
            _ => None,
        }
    }

    fn on_partial(&mut self, text: &String, window: &WindowSchedule, now_ms: u64) -> (r: Option<
        AsrUpdate,
    >)
        requires
            old(self).wf(),
        ensures
            final(self).wf(),
            ({
                let (m2, o) = step_partial(old(self).model(), text@, *window, now_ms);
                final(self).model() == m2 && renders(r, o)
            }),
    {
        let ghost m = self.model();
        self.last_sherpa_partial = text.clone();
        let ghost m1 = self.model();
        assert(m1 =~= RenderModel { last_sherpa_partial: text@, ..m });
        if self.has_window_output {
            return None;
        }
        if self.window_is_stale(window.step_ms, now_ms) {
            let tv = to_chars(text.as_str());
            let cleaned = trim_chars(tv.as_slice());
            if cleaned.len() == 0 {
                return None;
            }
            let lv = to_chars(self.live_tail.as_str());
            if !crate::strings::chars_eq(cleaned.as_slice(), lv.as_slice()) {
                self.live_tail = from_chars(cleaned.as_slice());
                assert(self.model() =~= RenderModel { live_tail: trim(text@), ..m1 });
                return self.emit_render();
            }
        }
        None
    }

    #[verifier::rlimit(60)]
    fn on_window(
        &mut self,
        snapshot: &WindowJobSnapshot,
        result: &WhisperDecodeResult,
        merge: &MergeSettings,
        now_ms: u64,
    ) -> (r: Option<AsrUpdate>)
        requires
            old(self).wf(),
        ensures
            final(self).wf(),
            ({
                let (m2, o) = step_window(
                    old(self).model(),
                    *snapshot,
                    seg_views(result.segments@),
                    *merge,
                    now_ms,
                );
                final(self).model() == m2 && renders(r, o)
            }),
    {
        let ghost m = self.model();
        if self.should_drop_window(snapshot) {
            return None;
        }
        let tail = window_tail_text(snapshot, result, self.committed_end_16k);
        let tail_v = to_chars(tail.as_str());
        if tail_v.len() == 0 {
            return None;
        }
        let mode = token_mode_for_language("auto", tail.as_str());
        let trimmed_overlap = dedup_tail(
            self.last_window_text.as_str(),
            tail.as_str(),
            mode,
            merge.overlap_k_words as usize,
            merge.overlap_k_chars as usize,
        );
        let deduped = if to_chars(trimmed_overlap.as_str()).len() == 0 {
            tail
        } else {
            trimmed_overlap
        };
        assert(deduped@ == window_candidate(m.last_window_text, tail_v@, mode, *merge));
        let merged = self.merge.apply_candidate(
            deduped.as_str(),
            mode,
            merge.stable_ticks as usize,
            merge.rollback_threshold_tokens as usize,
        );
        self.window_tick = add_sat(self.window_tick, 1);
        let stable_len = self.merge.stable_len();
        let stable_advanced = stable_len > self.last_stable_len;
        self.last_stable_len = stable_len;
        let interval: u64 = if merge.stable_ticks == 0 {
            1
        } else {
            merge.stable_ticks as u64
        };
        let emit_due = self.last_emit_tick == 0 || stable_advanced || sub_sat(
            self.window_tick,
            self.last_emit_tick,
        ) >= interval;
        self.last_window_text = deduped;
        self.last_window_end_16k = snapshot.window_end_16k_samples;
        self.last_window_update = Some(now_ms);
        self.has_window_output = true;
        let ghost cand = tokens(self.last_window_text@, mode);
        let ghost s2 = self.merge.stable_view();
        let ghost m1 = RenderModel {
            stable: s2,
            recent: self.merge.recent_view(),
            window_tick: self.window_tick,
            last_stable_len: s2.len() as usize,
            last_window_text: self.last_window_text@,
            last_window_end_16k: snapshot.window_end_16k_samples,
            last_window_update: Some(now_ms),
            has_window_output: true,
            ..m
        };
        assert(self.model() =~= m1);
        if !emit_due {
            return None;
        }
        self.last_emit_tick = self.window_tick;
        let ghost m2 = RenderModel { last_emit_tick: self.window_tick, ..m1 };
        assert(self.model() =~= m2);
        let mv = to_chars(merged.as_str());
        let mt = trim_chars(mv.as_slice());
        if mt.len() == 0 {
            return None;
        }
        self.live_tail = merged;
        assert(self.model() =~= RenderModel { live_tail: self.live_tail@, ..m2 });
        if stable_advanced {
            self.emit_render_always()
        } else {
            self.emit_render()
        }
    }

    fn on_segment_end(
        &mut self,
        segment_id: u64,
        sherpa_text: &String,
        committed_end_16k_samples: u64,
        window_generation_after: u64,
    ) -> (r: Option<AsrUpdate>)
        requires
            old(self).wf(),
        ensures
            final(self).wf(),
            ({
                let (m2, o) = step_segment_end(
                    old(self).model(),
                    segment_id,
                    sherpa_text@,
                    committed_end_16k_samples,
                    window_generation_after,
                );
                final(self).model() == m2 && renders(r, o)
            }),
    {
        let ghost m = self.model();
        let lv = to_chars(self.live_tail.as_str());
        let lt = trim_chars(lv.as_slice());
        let provisional = if self.has_window_output && lt.len() != 0 {
            from_chars(lt.as_slice())
        } else {
            choose_segment_provisional_text(
                sherpa_text.as_str(),
                self.live_tail.as_str(),
                self.has_window_output,
            )
        };
        let pv = to_chars(provisional.as_str());
        let p = trim_chars(pv.as_slice());
        if p.len() != 0 {
            self.upsert_segment(segment_id, from_chars(p.as_slice()));
        }
        let ghost m1 = self.model();
        self.committed_end_16k = committed_end_16k_samples;
        self.current_window_generation = window_generation_after;
        self.last_window_end_16k = committed_end_16k_samples;
        self.clear_live();
        assert(self.model() =~= RenderModel {
            committed_end_16k: committed_end_16k_samples,
            current_window_generation: window_generation_after,
            last_window_end_16k: committed_end_16k_samples,
            ..cleared(m1)
        });
        self.emit_render()
    }

    fn on_reset(&mut self, window_generation_after: u64) -> (r: Option<AsrUpdate>)
        requires
            old(self).wf(),
        ensures
            final(self).wf(),
            ({
                let (m2, o) = step_reset(old(self).model(), window_generation_after);
                final(self).model() == m2 && renders(r, o)
            }),
    {
        let ghost m = self.model();
        self.current_window_generation = window_generation_after;
        self.clear_live();
        assert(self.model() =~= RenderModel {
            current_window_generation: window_generation_after,
            ..cleared(m)
        });
        self.emit_render()
    }

    fn on_second_pass(&mut self, segment_id: u64, text: &String) -> (r: Option<AsrUpdate>)
        requires
            old(self).wf(),
        ensures
            final(self).wf(),
            ({
                let (m2, o) = step_second_pass(old(self).model(), segment_id, text@);
                final(self).model() == m2 && renders(r, o)
            }),
    {
        let ghost m = self.model();
        let tv = to_chars(text.as_str());
        let inc = trim_chars(tv.as_slice());
        if inc.len() == 0 {
            return None;
        }
        let index = match self.segment_index.get(&segment_id) {
            Some(i) => *i,
            None => {
                return None;
            },
        };
        let incoming = from_chars(inc.as_slice());
        match self.last_second_pass_text.get(&segment_id) {
            Some(existing) => {
                if *existing == incoming {
                    return None;
                }
            },
            None => {},
        }
        assert(index < self.committed_segments@.len());
        let current = self.committed_segments[index].as_str();
        let mode = token_mode_for_language("auto", incoming.as_str());
        if !should_accept_second_pass_replacement(current, incoming.as_str(), mode) {
            return None;
        }
        let copy = incoming.clone();
        self.committed_segments.set(index, incoming);
        self.last_second_pass_text.insert(segment_id, copy);
        assert(self.model() =~= RenderModel {
            committed_segments: m.committed_segments.update(index as int, inc@),
            last_second_pass_text: m.last_second_pass_text.insert(segment_id, inc@),
            ..m
        });
        self.emit_render()
    }

    /// Clears the live part of the state.
    fn clear_live(&mut self)
        ensures
            final(self).model() == cleared(old(self).model()),
    {
        self.merge.reset();
        self.last_window_text = String::new();
        self.last_sherpa_partial = String::new();
        self.last_window_update = None;
        self.live_tail = String::new();
        self.has_window_output = false;
        self.window_tick = 0;
        self.last_emit_tick = 0;
        self.last_stable_len = 0;
        assert(self.model() =~= cleared(old(self).model()));
    }

    /// Routes one incoming update: the new display text first, when one is
    /// due, then the update itself unless it is a stale window result.
    pub fn route_update(
        &mut self,
        update: AsrUpdate,
        merge: &MergeSettings,
        window: &WindowSchedule,
        now_ms: u64,
    ) -> (r: Vec<AsrUpdate>)
        requires
            old(self).wf(),
        ensures
            final(self).wf(),
            ({
                let (m2, o) = step(old(self).model(), update, *merge, *window, now_ms);
                let forward = match update {
                    AsrUpdate::WindowResult { snapshot, .. } => !drops_window(m2, snapshot),
                    _ => true,
                };
                &&& final(self).model() == m2
                &&& r@.len() == (if o is Some {
                    1int
                } else {
                    0int
                }) + (if forward {
                    1int
                } else {
                    0int
                })
                &&& (o matches Some(d) ==> (r@[0] matches AsrUpdate::LiveRender { text } && text@
                    == d))
                &&& (forward ==> r@.last() == update)
            }),
    {
        let mut out: Vec<AsrUpdate> = Vec::new();
        let rendered = self.handle_update(&update, merge, window, now_ms);
        match rendered {
            Some(u) => out.push(u),
            None => {},
        }
        if self.should_forward(&update) {
            out.push(update);
        }
        out
    }

    /// Whether the update should also be passed on to the caller: every
    /// update except a window result that is dropped.
    pub fn should_forward(&self, update: &AsrUpdate) -> (r: bool)
        ensures
            r == (match *update {
                AsrUpdate::WindowResult { snapshot, .. } => !drops_window(self.model(), snapshot),
                _ => true,
            }),
    {
        match update {
            AsrUpdate::WindowResult { snapshot, .. } => !self.should_drop_window(snapshot),
            _ => true,
        }
    }

    /// Whether a window result is stale.
    pub fn should_drop_window(&self, snapshot: &WindowJobSnapshot) -> (r: bool)
        ensures
            r == drops_window(self.model(), *snapshot),
    {
        if snapshot.window_generation < self.current_window_generation {
            return true;
        }
        snapshot.window_end_16k_samples < self.last_window_end_16k
    }

    /// Whether no window result has arrived within two window steps.
    pub fn window_is_stale(&self, step_ms: u64, now_ms: u64) -> (r: bool)
        ensures
            r == window_stale(self.model(), step_ms, now_ms),
    {
        let twice = match step_ms.checked_mul(2) {
            Some(v) => v,
            None => u64::MAX,
        };
        let freshness = if twice < 1 {
            1
        } else {
            twice
        };
        match self.last_window_update {
            None => true,
            Some(last) => sub_sat(now_ms, last) >= freshness,
        }
    }

    /// Records a segment's text.
    fn upsert_segment(&mut self, segment_id: u64, text: String)
        requires
            old(self).wf(),
        ensures
            final(self).wf(),
            final(self).model() == upsert(old(self).model(), segment_id, text@),
    {
        let ghost m = self.model();
        match self.segment_index.get(&segment_id) {
            Some(i) => {
                let index = *i;
                if index < self.committed_segments.len() {
                    self.committed_segments.set(index, text);
                    assert(self.model() =~= upsert(m, segment_id, text@));
                }
                return ;
            },
            None => {},
        }
        let index = self.committed_segments.len();
        self.committed_segments.push(text);
        self.segment_index.insert(segment_id, index);
        assert(self.model() =~= upsert(m, segment_id, text@));
    }

    /// Emits the display text if it changed since the last emission.
    fn render_if_changed(&mut self) -> (r: Option<AsrUpdate>)
        ensures
            ({
                let (m2, o) = emit(old(self).model());
                final(self).model() == m2 && renders(r, o)
            }),
    {
        let display = self.compose_display_text();
        if display == self.last_display_text {
            return None;
        }
        self.last_display_text = display.clone();
        assert(self.model() =~= emit(old(self).model()).0);
        Some(AsrUpdate::LiveRender { text: display })
    }

    /// Emits the display text if it changed since the last emission.
    fn emit_render(&mut self) -> (r: Option<AsrUpdate>)
        ensures
            ({
                let (m2, o) = emit(old(self).model());
                final(self).model() == m2 && renders(r, o)
            }),
    {
        self.render_if_changed()
    }

    /// Emits the display text, whether or not it changed since the last emission.
    fn emit_render_always(&mut self) -> (r: Option<AsrUpdate>)
        ensures
            ({
                let (m2, o) = emit_always(old(self).model());
                final(self).model() == m2 && renders(r, o)
            }),
    {
        let display = self.compose_display_text();
        self.last_display_text = display.clone();
        assert(self.model() =~= emit_always(old(self).model()).0);
        Some(AsrUpdate::LiveRender { text: display })
    }

    /// The committed segments, then the live tail, joined for display.
    pub fn compose_display_text(&self) -> (r: String)
        ensures
            r@ == compose(self.model().committed_segments, self.model().live_tail),
    {
        let ghost segs = self.model().committed_segments;
        let mut out = String::new();
        let mut i: usize = 0;
        while i < self.committed_segments.len()
            invariant
                i <= self.committed_segments@.len(),
                segs == self.model().committed_segments,
                out@ == compose_segs(segs.take(i as int)),
            decreases self.committed_segments@.len() - i,
        {
            assert(segs.take(i + 1).drop_last() =~= segs.take(i as int));
            assert(segs.take(i + 1).last() == self.committed_segments@[i as int]@);
            append_normalized(&mut out, self.committed_segments[i].as_str());
            i += 1;
        }
        assert(segs.take(segs.len() as int) =~= segs);
        append_normalized(&mut out, self.live_tail.as_str());
        out
    }
}

} // verus!
