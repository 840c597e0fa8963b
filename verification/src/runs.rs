//! Bookkeeping of the comparison runs: the segments of a two-pass run, the
//! ticks of a sliding-window run, and the checks on their inputs.
use vstd::prelude::*;

use crate::compare::{chunk_size_samples, join_text_parts, nonblank_trimmed};
use crate::strings::{
    chars_eq, copy_str, decimal, from_chars, push_char, push_decimal, push_str, push_tried, to_chars,
    tried_block, trim, trim_chars,
};
use crate::transcript::{join_pieces, TokenMode};

verus! {

/// `a + b`, held at `usize::MAX`.
pub open spec fn sat_add_usize(a: usize, b: usize) -> usize {
    if a + b > usize::MAX {
        usize::MAX
    } else {
        (a + b) as usize
    }
}

/// `a + 1`, held at `u32::MAX`.
pub open spec fn sat_inc_u32(a: u32) -> u32 {
    if a == u32::MAX {
        u32::MAX
    } else {
        (a + 1) as u32
    }
}

/// A closed segment of a two-pass run, in input samples.
#[derive(Clone, Copy, Debug, PartialEq, Eq, Structural)]
pub struct SegmentSpan {
    pub index: u32,
    pub start_samples: usize,
    pub end_samples: usize,
}

/// The progress of a two-pass run: where the open segment starts, how much
/// audio was fed, the last partial printed and the texts of closed segments.
pub struct TwoPassTracker {
    pub segment_start_samples: usize,
    pub processed_samples: usize,
    pub segment_index: u32,
    pub last_partial: String,
    pub sherpa_parts: Vec<String>,
    pub whisper_parts: Vec<String>,
}

/// The parts with one more text appended, when it is not blank.
pub open spec fn with_nonblank(parts: Seq<Seq<char>>, text: Seq<char>) -> Seq<Seq<char>> {
    if trim(text).len() > 0 {
        parts.push(text)
    } else {
        parts
    }
}

impl TwoPassTracker {
    /// The texts of the streaming recogniser's closed segments.
    pub open spec fn sherpa_view(&self) -> Seq<Seq<char>> {
        self.sherpa_parts@.map_values(|p: String| p@)
    }

    /// The texts of the second pass's closed segments.
    pub open spec fn whisper_view(&self) -> Seq<Seq<char>> {
        self.whisper_parts@.map_values(|p: String| p@)
    }

    /// A run at its start.
    pub fn new() -> (r: Self)
        ensures
            r.segment_start_samples == 0,
            r.processed_samples == 0,
            r.segment_index == 0,
            r.last_partial@.len() == 0,
            r.sherpa_view().len() == 0,
            r.whisper_view().len() == 0,
    {
        TwoPassTracker {
            segment_start_samples: 0,
            processed_samples: 0,
            segment_index: 0,
            last_partial: String::new(),
            sherpa_parts: Vec::new(),
            whisper_parts: Vec::new(),
        }
    }

    /// Counts a chunk of audio fed to the recogniser.
    pub fn accept_chunk(&mut self, chunk_len: usize)
        ensures
            final(self).processed_samples == sat_add_usize(old(self).processed_samples, chunk_len),
            final(self).segment_start_samples == old(self).segment_start_samples,
            final(self).segment_index == old(self).segment_index,
            final(self).last_partial@ == old(self).last_partial@,
            final(self).sherpa_view() == old(self).sherpa_view(),
            final(self).whisper_view() == old(self).whisper_view(),
    {
        self.processed_samples = match self.processed_samples.checked_add(chunk_len) {
            Some(v) => v,
            None => usize::MAX,
        };
    }

    /// The partial to print for the recogniser's current text: its trimmed
    /// form when partials are printed and it is neither blank nor the last one
    /// printed, which it then becomes.
    pub fn partial_to_print(&mut self, print_partials: bool, text: &str) -> (r: Option<String>)
        ensures
            ({
                let t = trim(text@);
                if print_partials && t.len() > 0 && t != old(self).last_partial@ {
                    r matches Some(p) && p@ == t && final(self).last_partial@ == t
                } else {
                    r is None && final(self).last_partial@ == old(self).last_partial@
                }
            }),
            final(self).processed_samples == old(self).processed_samples,
            final(self).segment_start_samples == old(self).segment_start_samples,
            final(self).segment_index == old(self).segment_index,
            final(self).sherpa_view() == old(self).sherpa_view(),
            final(self).whisper_view() == old(self).whisper_view(),
    {
        if !print_partials {
            return None;
        }
        let v = to_chars(text);
        let t = trim_chars(v.as_slice());
        if t.len() == 0 {
            return None;
        }
        let last = to_chars(self.last_partial.as_str());
        if chars_eq(t.as_slice(), last.as_slice()) {
            return None;
        }
        self.last_partial = from_chars(t.as_slice());
        Some(from_chars(t.as_slice()))
    }

    /// Closes the open segment at the audio fed so far and numbers it; the
    /// next segment starts there, with no partial printed yet.
    pub fn close_segment(&mut self) -> (r: SegmentSpan)
        ensures
            r.index == sat_inc_u32(old(self).segment_index),
            r.start_samples == old(self).segment_start_samples,
            r.end_samples == old(self).processed_samples,
            final(self).segment_index == r.index,
            final(self).segment_start_samples == old(self).processed_samples,
            final(self).processed_samples == old(self).processed_samples,
            final(self).last_partial@.len() == 0,
            final(self).sherpa_view() == old(self).sherpa_view(),
            final(self).whisper_view() == old(self).whisper_view(),
    {
        self.segment_index = if self.segment_index == u32::MAX {
            u32::MAX
        } else {
            self.segment_index + 1
        };
        let span = SegmentSpan {
            index: self.segment_index,
            start_samples: self.segment_start_samples,
            end_samples: self.processed_samples,
        };
        self.segment_start_samples = self.processed_samples;
        self.last_partial = String::new();
        span
    }

    /// Keeps the texts of a closed segment, each only when not blank.
    pub fn record_texts(&mut self, sherpa_text: String, whisper_text: String)
        ensures
            final(self).sherpa_view() == with_nonblank(old(self).sherpa_view(), sherpa_text@),
            final(self).whisper_view() == with_nonblank(old(self).whisper_view(), whisper_text@),
            final(self).processed_samples == old(self).processed_samples,
            final(self).segment_start_samples == old(self).segment_start_samples,
            final(self).segment_index == old(self).segment_index,
            final(self).last_partial@ == old(self).last_partial@,
    {
        let sv = to_chars(sherpa_text.as_str());
        let st = trim_chars(sv.as_slice());
        if st.len() > 0 {
            self.sherpa_parts.push(sherpa_text);
            assert(self.sherpa_view() =~= with_nonblank(old(self).sherpa_view(), sv@));
        }
        let wv = to_chars(whisper_text.as_str());
        let wt = trim_chars(wv.as_slice());
        if wt.len() > 0 {
            self.whisper_parts.push(whisper_text);
            assert(self.whisper_view() =~= with_nonblank(old(self).whisper_view(), wv@));
        }
    }

    /// The final transcripts of both engines: the kept texts joined.
    pub fn final_texts(&self) -> (r: (String, String))
        ensures
            r.0@ == join_pieces(nonblank_trimmed(self.sherpa_view()), TokenMode::Words),
            r.1@ == join_pieces(nonblank_trimmed(self.whisper_view()), TokenMode::Words),
    {
        (join_text_parts(self.sherpa_parts.as_slice()), join_text_parts(self.whisper_parts.as_slice()))
    }
}

/// The first sample of the tick window ending at `end`: `window` samples
/// back, or the start of the audio.
pub open spec fn tick_start(end: int, window: int) -> int {
    if end >= window {
        end - window
    } else {
        0
    }
}

/// The windows of a sliding-window run over `total` samples: one tick every
/// `step` samples while the tick's end lies within the audio, each window
/// reaching `window` samples back.
pub fn window_ticks(total: usize, window: usize, step: usize) -> (r: Vec<(usize, usize)>)
    requires
        step > 0,
    ensures
        r@.len() == total / step,
        forall|k: int|
            0 <= k < r@.len() ==> (#[trigger] r@[k]).1 == (k + 1) * step && r@[k].0 == tick_start(
                (k + 1) * step,
                window as int,
            ),
{
    let count = total / step;
    let mut out: Vec<(usize, usize)> = Vec::new();
    let mut prev: usize = 0;
    let mut k: usize = 0;
    while k < count
        invariant
            step > 0,
            count == total / step,
            k <= count,
            out@.len() == k,
            prev == k * step,
            forall|j: int|
                0 <= j < k ==> (#[trigger] out@[j]).1 == (j + 1) * step && out@[j].0 == tick_start(
                    (j + 1) * step,
                    window as int,
                ),
        decreases count - k,
    {
        assert((k + 1) * step <= count * step) by (nonlinear_arith)
            requires
                k + 1 <= count,
                step > 0,
        ;
        assert(count * step <= total) by (nonlinear_arith)
            requires
                count == total / step,
                step > 0,
        ;
        assert((k + 1) * step == k * step + step) by (nonlinear_arith);
        let end = prev + step;
        let start = if end >= window {
            end - window
        } else {
            0
        };
        out.push((start, end));
        prev = end;
        k += 1;
    }
    out
}

/// Whether a tick is printed: a changed text when partials are printed,
/// else the first tick and every `tick_every`-th one (never for zero).
pub fn should_print_tick(
    print_partials: bool,
    text: &str,
    last_partial: &str,
    tick_index: u32,
    tick_every: u32,
) -> (r: bool)
    ensures
        r == (if print_partials {
            text@ != last_partial@
        } else {
            tick_every > 0 && (tick_index == 1 || tick_index % tick_every == 0)
        }),
{
    if print_partials {
        let a = to_chars(text);
        let b = to_chars(last_partial);
        !chars_eq(a.as_slice(), b.as_slice())
    } else {
        tick_every > 0 && (tick_index == 1 || tick_index % tick_every == 0)
    }
}

/// The window and step of a sliding-window run, in 16 kHz samples: the
/// window is at least 100 ms; a zero step is an error, and so is a step
/// whose sample count wraps to zero in a `usize`.
pub fn window_run_samples(window_ms: u32, step_ms: u32) -> (r: Result<(usize, usize), String>)
    ensures
        step_ms == 0 ==> (r matches Err(m) && m@ == "Chunk size must be greater than zero."@),
        step_ms > 0 && (16 * step_ms) as usize == 0 ==> (r matches Err(m) && m@
            == "--whisper-step-ms must be greater than zero."@),
        step_ms > 0 && (16 * step_ms) as usize != 0 ==> r == Ok::<(usize, usize), String>(
            (
                (16 * (if window_ms < 100 {
                    100
                } else {
                    window_ms
                })) as usize,
                (16 * step_ms) as usize,
            ),
        ),
{
    let w_ms = if window_ms < 100 {
        100
    } else {
        window_ms
    };
    assert((16000 * w_ms) / 1000 == 16 * w_ms);
    assert((16000 * step_ms) / 1000 == 16 * step_ms);
    let window = match chunk_size_samples(16000, w_ms) {
        Ok(v) => v,
        Err(e) => {
            return Err(e);
        },
    };
    let step = match chunk_size_samples(16000, step_ms) {
        Ok(v) => v,
        Err(e) => {
            return Err(e);
        },
    };
    if step == 0 {
        return Err(copy_str("--whisper-step-ms must be greater than zero."));
    }
    Ok((window, step))
}

/// The default thread count of the streaming recogniser: half the CPUs, at
/// least one, and one when that does not fit in an `i32`.
pub fn default_threads_from(cpus: usize) -> (r: i32)
    ensures
        r == (if cpus / 2 < 1 {
            1
        } else if cpus / 2 <= i32::MAX {
            (cpus / 2) as i32
        } else {
            1
        }),
{
    let half = cpus / 2;
    let h = if half < 1 {
        1
    } else {
        half
    };
    if h <= 2147483647usize {
        h as i32
    } else {
        1
    }
}

/// The message when a manifest's recording is found nowhere.
pub open spec fn wav_not_found_text(
    manifest: Seq<char>,
    wav: Seq<char>,
    candidates: Seq<Seq<char>>,
) -> Seq<char> {
    "WAV path not found.\n"@ + "manifest="@ + manifest + "\n"@ + "wav="@ + wav + "\n"@
        + tried_block(candidates)
}

/// The message when a manifest's recording is found nowhere, with the
/// places tried.
pub fn wav_not_found_message(manifest: &str, wav: &str, candidates: &[String]) -> (r: String)
    ensures
        r@ == wav_not_found_text(manifest@, wav@, candidates@.map_values(|c: String| c@)),
{
    let mut m = copy_str("WAV path not found.\n");
    push_str(&mut m, "manifest=");
    push_str(&mut m, manifest);
    push_str(&mut m, "\n");
    push_str(&mut m, "wav=");
    push_str(&mut m, wav);
    push_str(&mut m, "\n");
    push_tried(&mut m, candidates);
    m
}

/// Checks the format of a WAV recording: 16-bit integer PCM, one or two
/// channels, a positive sample rate.
pub fn check_wav_format(bits_per_sample: u16, integer_pcm: bool, channels: u16, sample_rate: u32) -> (r:
    Result<(), String>)
    ensures
        bits_per_sample != 16 ==> (r matches Err(m) && m@ == "WAV bits per sample must be 16, got "@
            + decimal(bits_per_sample as nat) + "."@),
        bits_per_sample == 16 && !integer_pcm ==> (r matches Err(m) && m@
            == "WAV sample format must be integer PCM, got Float."@),
        bits_per_sample == 16 && integer_pcm && channels != 1 && channels != 2 ==> (r matches Err(m)
            && m@ == "WAV channel count must be 1 (mono) or 2 (stereo), got "@ + decimal(
            channels as nat,
        ) + "."@),
        bits_per_sample == 16 && integer_pcm && (channels == 1 || channels == 2) && sample_rate == 0
            ==> (r matches Err(m) && m@ == "WAV sample rate must be greater than zero."@),
        bits_per_sample == 16 && integer_pcm && (channels == 1 || channels == 2) && sample_rate > 0
            ==> r is Ok,
{
    if bits_per_sample != 16 {
        let mut m = copy_str("WAV bits per sample must be 16, got ");
        push_decimal(&mut m, bits_per_sample as u64);
        push_str(&mut m, ".");
        return Err(m);
    }
    if !integer_pcm {
        return Err(copy_str("WAV sample format must be integer PCM, got Float."));
    }
    if channels != 1 && channels != 2 {
        let mut m = copy_str("WAV channel count must be 1 (mono) or 2 (stereo), got ");
        push_decimal(&mut m, channels as u64);
        push_str(&mut m, ".");
        return Err(m);
    }
    if sample_rate == 0 {
        return Err(copy_str("WAV sample rate must be greater than zero."));
    }
    Ok(())
}

} // verus!
