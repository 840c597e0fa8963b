//! Decisions of the streaming engine: audio bookkeeping, the sliding window
//! of recent audio, speech activity, and what a segment end commits.
use vstd::prelude::*;

use std::collections::VecDeque;

use crate::error::AppError;
use crate::render::{sat_add, WindowJobSnapshot};
use crate::settings::WindowSchedule;
use crate::strings::{from_chars, to_chars, trim, trim_chars};
use crate::transcript::{ms_to_samples_16k, ms_to_samples_16k_spec};

verus! {

/// `rate * ms / 1000`, the multiplication saturating at `u64::MAX`.
pub open spec fn scaled_ms(rate: u64, ms: u64) -> u64 {
    let p = rate * ms;
    (if p > u64::MAX {
        u64::MAX as int
    } else {
        p
    } / 1000) as u64
}

fn scale_ms(rate: u64, ms: u64) -> (r: u64)
    ensures
        r == scaled_ms(rate, ms),
{
    let p = match rate.checked_mul(ms) {
        Some(v) => v,
        None => u64::MAX,
    };
    p / 1000
}

/// The number of samples in `ms` milliseconds at `sample_rate_hz` (zero for
/// a zero rate or duration).
pub fn ms_to_samples(sample_rate_hz: u32, ms: u64) -> (r: usize)
    ensures
        r == (if sample_rate_hz == 0 || ms == 0 {
            0
        } else {
            scaled_ms(sample_rate_hz as u64, ms) as usize
        }),
{
    if sample_rate_hz == 0 || ms == 0 {
        return 0;
    }
    scale_ms(sample_rate_hz as u64, ms) as usize
}

/// How many samples the streaming worker reads at a time: one chunk, at least one sample.
pub fn samples_per_read(sample_rate_hz: u32, chunk_ms: u32) -> (r: usize)
    ensures
        r == (if scaled_ms(sample_rate_hz as u64, chunk_ms as u64) < 1 {
            1
        } else {
            scaled_ms(sample_rate_hz as u64, chunk_ms as u64) as usize
        }),
{
    let n = scale_ms(sample_rate_hz as u64, chunk_ms as u64);
    if n < 1 {
        1
    } else {
        n as usize
    }
}

/// The text committed when the stream is finished: the final result, or the
/// last partial if the final result is blank (both trimmed).
pub fn forced_finalize_fallback_text(final_text: &str, last_text: &str) -> (r: String)
    ensures
        r@ == (if trim(final_text@).len() == 0 {
            trim(last_text@)
        } else {
            trim(final_text@)
        }),
{
    let fv = to_chars(final_text);
    let t = trim_chars(fv.as_slice());
    if t.len() == 0 {
        let lv = to_chars(last_text);
        let l = trim_chars(lv.as_slice());
        from_chars(l.as_slice())
    } else {
        from_chars(t.as_slice())
    }
}

/// At an endpoint the segment is committed only if it had voice and its text is not blank.
pub fn endpoint_commits(has_voice: bool, sherpa_text: &str) -> (r: bool)
    ensures
        r == (has_voice && trim(sherpa_text@).len() > 0),
{
    let v = to_chars(sherpa_text);
    let t = trim_chars(v.as_slice());
    has_voice && t.len() != 0
}

/// Moment of the last speech, in milliseconds since the engine started (zero: none yet).
pub struct SpeechActivity {
    last_ms: u64,
}

/// Whether speech was heard recently: within three activity windows, and at
/// least 200 ms.
pub open spec fn recent_spec(last_ms: u64, now_ms: u64, window_activity_ms: u64) -> bool {
    if last_ms == 0 {
        false
    } else {
        let t = if window_activity_ms * 3 > u64::MAX {
            u64::MAX as int
        } else {
            window_activity_ms * 3
        };
        let hold = if t < 200 {
            200
        } else {
            t
        };
        (if now_ms >= last_ms {
            now_ms - last_ms
        } else {
            0
        }) <= hold
    }
}

impl SpeechActivity {
    /// The moment of the last speech.
    pub closed spec fn last(&self) -> u64 {
        self.last_ms
    }

    /// No speech yet.
    pub fn new() -> (r: Self)
        ensures
            r.last() == 0,
    {
        SpeechActivity { last_ms: 0 }
    }

    /// Records speech at `now_ms`.
    pub fn mark(&mut self, now_ms: u64)
        ensures
            final(self).last() == now_ms,
    {
        self.last_ms = now_ms;
    }

    /// Whether speech was heard recently.
    pub fn is_recent(&self, now_ms: u64, window_activity_ms: u64) -> (r: bool)
        ensures
            r == recent_spec(self.last(), now_ms, window_activity_ms),
    {
        speech_is_recent(self.last_ms, now_ms, window_activity_ms)
    }
}

/// Whether speech last heard at `last_ms` is recent at `now_ms`.
pub fn speech_is_recent(last_ms: u64, now_ms: u64, window_activity_ms: u64) -> (r: bool)
    ensures
        r == recent_spec(last_ms, now_ms, window_activity_ms),
{
    if last_ms == 0 {
        return false;
    }
    let t = match window_activity_ms.checked_mul(3) {
        Some(v) => v,
        None => u64::MAX,
    };
    let hold = if t < 200 {
        200
    } else {
        t
    };
    let elapsed = if now_ms >= last_ms {
        now_ms - last_ms
    } else {
        0
    };
    elapsed <= hold
}

/// How the pipeline decodes.
#[derive(Clone, Copy, Debug, PartialEq, Eq, Structural)]
pub enum DecodeMode {
    StreamSecondPass,
}

/// Where inference runs.
#[derive(Clone, Copy, Debug, PartialEq, Eq, Structural)]
pub enum InferenceMode {
    LocalOnly,
}

/// The pipeline chosen for a configuration.
#[derive(Clone, Copy, Debug, PartialEq, Eq, Structural)]
pub struct PipelinePlan {
    pub decode_mode: DecodeMode,
    pub inference: InferenceMode,
    pub window_enabled: bool,
}

/// Chooses the pipeline.
pub struct ModeRouter;

impl ModeRouter {
    /// Streaming with a local second pass, the window as configured.
    pub fn resolve(window: &WindowSchedule) -> (r: PipelinePlan)
        ensures
            r.decode_mode == DecodeMode::StreamSecondPass,
            r.inference == InferenceMode::LocalOnly,
            r.window_enabled == window.enabled,
    {
        PipelinePlan {
            decode_mode: DecodeMode::StreamSecondPass,
            inference: InferenceMode::LocalOnly,
            window_enabled: window.enabled,
        }
    }
}

/// Checks a sample rate against the one the session is locked to, locking it
/// on first use. Returns the session's rate.
pub fn lock_sample_rate(current: Option<u32>, incoming: u32) -> (r: Result<u32, AppError>)
    ensures
        current matches Some(c) && c != incoming ==> (r matches Err(e) && e.code@ == "audio_invalid"@
            && e.message@ == "Sample rate must remain constant for the session."@),
        current matches Some(c) && c == incoming ==> r == Ok::<u32, AppError>(incoming),
        current is None ==> r == Ok::<u32, AppError>(incoming),
{
    match current {
        Some(existing) => {
            if existing != incoming {
                return Err(
                    AppError::new("audio_invalid", "Sample rate must remain constant for the session."),
                );
            }
            Ok(incoming)
        },
        None => Ok(incoming),
    }
}

/// Checks submitted audio: nothing to do for an empty buffer, an error for a zero rate.
/// `Ok(true)` means the audio is to be sent on.
pub fn check_submission(sample_count: usize, sample_rate_hz: u32) -> (r: Result<bool, AppError>)
    ensures
        sample_count == 0 ==> r == Ok::<bool, AppError>(false),
        sample_count != 0 && sample_rate_hz == 0 ==> (r matches Err(e) && e.code@
            == "audio_invalid"@ && e.message@ == "Sample rate must be greater than zero."@),
        sample_count != 0 && sample_rate_hz != 0 ==> r == Ok::<bool, AppError>(true),
{
    if sample_count == 0 {
        return Ok(false);
    }
    if sample_rate_hz == 0 {
        return Err(AppError::new("audio_invalid", "Sample rate must be greater than zero."));
    }
    Ok(true)
}

/// The sliding window of recent 16 kHz audio and its decode schedule.
pub struct WindowState<S> {
    enabled: bool,
    step_ms: u64,
    emit_every: u64,
    window_len_16k_samples: usize,
    context_len_16k_samples: usize,
    window_ring: VecDeque<S>,
    total_16k_samples: u64,
    window_generation: u64,
    window_job_id: u64,
    tick_index: u64,
    next_tick_ms: u64,
}

/// The last `n` elements of a sequence (all of it if it is shorter).
pub open spec fn last_n<A>(s: Seq<A>, n: nat) -> Seq<A> {
    if s.len() > n {
        s.skip(s.len() - n)
    } else {
        s
    }
}

/// The number of window ticks due at `now`: those at `next`, `next + step`, ...
pub open spec fn ticks_due(next: u64, step: u64, now: u64) -> nat {
    if now < next || step == 0 {
        0
    } else {
        ((now - next) / (step as int) + 1) as nat
    }
}

/// The number of tick indices in `(from, from + count]` that are multiples of `every`.
pub open spec fn emitting_ticks(from: int, count: int, every: int) -> nat
    decreases count,
{
    if count <= 0 || every <= 0 {
        0
    } else {
        emitting_ticks(from, count - 1, every) + (if (from + count) % every == 0 {
            1nat
        } else {
            0nat
        })
    }
}

impl<S: Copy> WindowState<S> {
    /// Whether the window is in use.
    pub closed spec fn is_enabled(&self) -> bool {
        self.enabled
    }

    /// The tick period in milliseconds.
    pub closed spec fn step(&self) -> u64 {
        self.step_ms
    }

    /// A job is emitted every `every()` ticks.
    pub closed spec fn every(&self) -> u64 {
        self.emit_every
    }

    /// The window length in 16 kHz samples.
    pub closed spec fn window_len(&self) -> nat {
        self.window_len_16k_samples as nat
    }

    /// The context length in 16 kHz samples.
    pub closed spec fn context_len(&self) -> nat {
        self.context_len_16k_samples as nat
    }

    /// The audio in the window, oldest first.
    pub closed spec fn ring(&self) -> Seq<S> {
        self.window_ring@
    }

    /// The total number of 16 kHz samples seen.
    pub closed spec fn total(&self) -> u64 {
        self.total_16k_samples
    }

    /// The window generation.
    pub closed spec fn generation(&self) -> u64 {
        self.window_generation
    }

    /// The id of the last job emitted.
    pub closed spec fn job_id(&self) -> u64 {
        self.window_job_id
    }

    /// The number of ticks elapsed.
    pub closed spec fn tick(&self) -> u64 {
        self.tick_index
    }

    /// The moment of the next tick, in milliseconds.
    pub closed spec fn next_tick(&self) -> u64 {
        self.next_tick_ms
    }

    /// The window never holds more than its length, and its step and emit
    /// period are positive.
    pub open spec fn wf(&self) -> bool {
        &&& self.ring().len() <= self.window_len()
        &&& self.window_len() >= 1
        &&& self.step() > 0
        &&& self.every() > 0
    }

    /// A window sized from the settings (window plus context), the first tick
    /// one step after `now_ms`.
    pub fn new(settings: &WindowSchedule, enabled: bool, now_ms: u64) -> (r: Self)
        requires
            settings.step_ms > 0,
            now_ms + settings.step_ms <= u64::MAX,
        ensures
            r.wf(),
            r.is_enabled() == enabled,
            r.step() == settings.step_ms,
            r.every() == (if settings.emit_every == 0 {
                1
            } else {
                settings.emit_every as u64
            }),
            r.window_len() == (if (ms_to_samples_16k_spec(
                sat_add(settings.window_ms, settings.context_ms),
            ) as usize) < 1 {
                1
            } else {
                ms_to_samples_16k_spec(sat_add(settings.window_ms, settings.context_ms)) as usize
                    as nat
            }),
            r.context_len() == ms_to_samples_16k_spec(settings.context_ms) as usize as nat,
            r.ring() == Seq::<S>::empty(),
            r.total() == 0,
            r.generation() == 0,
            r.job_id() == 0,
            r.tick() == 0,
            r.next_tick() == now_ms + settings.step_ms,
    {
        let emit_every: u64 = if settings.emit_every == 0 {
            1
        } else {
            settings.emit_every as u64
        };
        let span = match settings.window_ms.checked_add(settings.context_ms) {
            Some(v) => v,
            None => u64::MAX,
        };
        let len16 = ms_to_samples_16k(span) as usize;
        let window_len: usize = if len16 < 1 {
            1
        } else {
            len16
        };
        let context_len = ms_to_samples_16k(settings.context_ms) as usize;
        WindowState {
            enabled,
            step_ms: settings.step_ms,
            emit_every,
            window_len_16k_samples: window_len,
            context_len_16k_samples: context_len,
            window_ring: VecDeque::new(),
            total_16k_samples: 0,
            window_generation: 0,
            window_job_id: 0,
            tick_index: 0,
            next_tick_ms: now_ms + settings.step_ms,
        }
    }

    /// Adds 16 kHz audio to the window (when enabled), keeping its last
    /// `window_len()` samples.
    pub fn push_samples(&mut self, samples_16k: &[S])
        requires
            old(self).wf(),
        ensures
            final(self).wf(),
            final(self).is_enabled() == old(self).is_enabled(),
            final(self).step() == old(self).step(),
            final(self).every() == old(self).every(),
            final(self).window_len() == old(self).window_len(),
            final(self).context_len() == old(self).context_len(),
            final(self).generation() == old(self).generation(),
            final(self).job_id() == old(self).job_id(),
            final(self).tick() == old(self).tick(),
            final(self).next_tick() == old(self).next_tick(),
            !old(self).is_enabled() || samples_16k@.len() == 0 ==> final(self).ring() == old(self).ring() && final(self).total() == old(self).total(),
            old(self).is_enabled() && samples_16k@.len() > 0 ==> final(self).ring() == last_n(
                old(self).ring() + samples_16k@,
                old(self).window_len(),
            ) && final(self).total() == sat_add(old(self).total(), samples_16k@.len() as u64),
    {
        if !self.enabled || samples_16k.len() == 0 {
            return;
        }
        let n = samples_16k.len() as u64;
        self.total_16k_samples = match self.total_16k_samples.checked_add(n) {
            Some(v) => v,
            None => u64::MAX,
        };
        let ghost all = old(self).window_ring@ + samples_16k@;
        let ghost window = self.window_len_16k_samples as nat;
        let ghost total = self.total_16k_samples;
        let mut i: usize = 0;
        while i < samples_16k.len()
            invariant
                i <= samples_16k@.len(),
                self.enabled == old(self).enabled,
                self.step_ms == old(self).step_ms,
                self.emit_every == old(self).emit_every,
                self.window_len_16k_samples == old(self).window_len_16k_samples,
                self.context_len_16k_samples == old(self).context_len_16k_samples,
                self.window_generation == old(self).window_generation,
                self.window_job_id == old(self).window_job_id,
                self.tick_index == old(self).tick_index,
                self.next_tick_ms == old(self).next_tick_ms,
                self.total_16k_samples == total,
                all == old(self).window_ring@ + samples_16k@,
                window == self.window_len_16k_samples as nat,
                window >= 1,
                self.window_ring@ == last_n(all.take(old(self).window_ring@.len() + i), window),
            decreases samples_16k@.len() - i,
        {
            let ghost before = self.window_ring@;
            self.window_ring.push_back(samples_16k[i]);
            let ghost k = old(self).window_ring@.len() + i;
            assert(all.take(k + 1) =~= all.take(k).push(all[k]));
            if self.window_ring.len() > self.window_len_16k_samples {
                let _ = self.window_ring.pop_front();
                assert(self.window_ring@ =~= last_n(all.take(k + 1), window));
            } else {
                assert(self.window_ring@ =~= last_n(all.take(k + 1), window));
            }
            i += 1;
        }
        assert(all.take((old(self).window_ring@.len() + samples_16k@.len()) as int) =~= all);
    }

    /// Starts a new window generation and returns it.
    pub fn advance_generation(&mut self) -> (r: u64)
        ensures
            r == final(self).generation(),
            r == sat_add(old(self).generation(), 1),
            final(self).ring() == old(self).ring(),
            final(self).total() == old(self).total(),
            final(self).job_id() == old(self).job_id(),
            final(self).tick() == old(self).tick(),
            final(self).next_tick() == old(self).next_tick(),
            final(self).wf() == old(self).wf(),
    {
        self.window_generation = match self.window_generation.checked_add(1) {
            Some(v) => v,
            None => u64::MAX,
        };
        self.window_generation
    }

    /// The total number of 16 kHz samples seen.
    pub fn total_16k_samples(&self) -> (r: u64)
        ensures
            r == self.total(),
    {
        self.total_16k_samples
    }

    /// The number of samples in the window.
    pub fn ring_len(&self) -> (r: usize)
        ensures
            r == self.ring().len(),
    {
        self.window_ring.len()
    }

    /// Whether the ticks due at `now_ms` can be run without the clock, the
    /// tick counter or the job id passing `u64::MAX`: the bound that
    /// `drain_ready_jobs` needs.
    pub fn drain_fits(&self, now_ms: u64) -> (r: bool)
        ensures
            r == (now_ms + self.step() <= u64::MAX && self.tick() + ticks_due(
                self.next_tick(),
                self.step(),
                now_ms,
            ) <= u64::MAX && self.job_id() + ticks_due(self.next_tick(), self.step(), now_ms)
                <= u64::MAX),
    {
        if now_ms > u64::MAX - self.step_ms {
            return false;
        }
        let due: u64 = if now_ms < self.next_tick_ms || self.step_ms == 0 {
            0
        } else {
            (now_ms - self.next_tick_ms) / self.step_ms + 1
        };
        assert(due == ticks_due(self.next_tick(), self.step(), now_ms));
        due <= u64::MAX - self.tick_index && due <= u64::MAX - self.window_job_id
    }

    /// Runs the ticks due at `now_ms`; every `every()`-th tick emits a job
    /// (when emission is wanted and allowed) holding a copy of the window.
    #[verifier::rlimit(30)]
    pub fn drain_ready_jobs(
        &mut self,
        engine_generation: u64,
        should_emit: bool,
        allow_emit: bool,
        now_ms: u64,
    ) -> (r: Vec<(WindowJobSnapshot, Vec<S>)>)
        requires
            old(self).wf(),
            now_ms + old(self).step() <= u64::MAX,
            old(self).tick() + ticks_due(old(self).next_tick(), old(self).step(), now_ms)
                <= u64::MAX,
            old(self).job_id() + ticks_due(old(self).next_tick(), old(self).step(), now_ms)
                <= u64::MAX,
        ensures
            final(self).wf(),
            final(self).ring() == old(self).ring(),
            final(self).total() == old(self).total(),
            final(self).generation() == old(self).generation(),
            !old(self).is_enabled() || old(self).ring().len() == 0 ==> r@.len() == 0 && final(self).tick() == old(self).tick() && final(self).next_tick() == old(self).next_tick()
                && final(self).job_id() == old(self).job_id(),
            old(self).is_enabled() && old(self).ring().len() > 0 ==> ({
                let count = ticks_due(old(self).next_tick(), old(self).step(), now_ms);
                let jobs = if allow_emit && should_emit {
                    emitting_ticks(old(self).tick() as int, count as int, old(self).every() as int)
                } else {
                    0
                };
                &&& final(self).tick() == old(self).tick() + count
                &&& final(self).next_tick() == old(self).next_tick() + count * old(self).step()
                &&& final(self).job_id() == old(self).job_id() + jobs
                &&& r@.len() == jobs
                &&& forall|j: int|
                    0 <= j < r@.len() ==> {
                        let (s, a) = #[trigger] r@[j];
                        &&& a@ == old(self).ring()
                        &&& s.engine_generation == engine_generation
                        &&& s.window_generation == old(self).generation()
                        &&& s.job_id == old(self).job_id() + j + 1
                        &&& s.window_end_16k_samples == old(self).total()
                        &&& s.window_len_16k_samples == a@.len()
                        &&& s.context_len_16k_samples == (if old(self).context_len() < a@.len() {
                            old(self).context_len()
                        } else {
                            a@.len() as nat
                        })
                    }
            }),
    {
        let mut jobs: Vec<(WindowJobSnapshot, Vec<S>)> = Vec::new();
        if !self.enabled || self.window_ring.len() == 0 {
            return jobs;
        }
        let ghost count = ticks_due(old(self).next_tick(), old(self).step(), now_ms);
        let ghost emit = allow_emit && should_emit;
        let ghost every = self.emit_every as int;
        let ghost t0 = self.tick_index as int;
        while now_ms >= self.next_tick_ms
            invariant
                self.wf(),
                self.window_ring@ == old(self).window_ring@,
                self.total_16k_samples == old(self).total_16k_samples,
                self.window_generation == old(self).window_generation,
                self.step_ms == old(self).step_ms,
                self.emit_every == old(self).emit_every,
                self.enabled == old(self).enabled,
                self.window_len_16k_samples == old(self).window_len_16k_samples,
                self.context_len_16k_samples == old(self).context_len_16k_samples,
                now_ms + self.step_ms <= u64::MAX,
                every == self.emit_every as int,
                emit == (allow_emit && should_emit),
                t0 == old(self).tick_index as int,
                count == ticks_due(old(self).next_tick_ms, self.step_ms, now_ms),
                t0 + count <= u64::MAX,
                old(self).window_job_id + count <= u64::MAX,
                self.tick_index >= old(self).tick_index,
                self.tick_index - t0 <= count,
                self.next_tick_ms == old(self).next_tick_ms + (self.tick_index - t0) * self.step_ms,
                self.tick_index - t0 < count ==> self.next_tick_ms <= now_ms,
                self.tick_index - t0 == count ==> self.next_tick_ms > now_ms,
                self.window_job_id == old(self).window_job_id + (if emit {
                    emitting_ticks(t0, self.tick_index - t0, every)
                } else {
                    0
                }),
                jobs@.len() == self.window_job_id - old(self).window_job_id,
                forall|j: int|
                    0 <= j < jobs@.len() ==> {
                        let (s, a) = #[trigger] jobs@[j];
                        &&& a@ == old(self).window_ring@
                        &&& s.engine_generation == engine_generation
                        &&& s.window_generation == old(self).window_generation
                        &&& s.job_id == old(self).window_job_id + j + 1
                        &&& s.window_end_16k_samples == old(self).total_16k_samples
                        &&& s.window_len_16k_samples == a@.len()
                        &&& s.context_len_16k_samples == (if old(self).context_len_16k_samples
                            < a@.len() {
                            old(self).context_len_16k_samples as nat
                        } else {
                            a@.len() as nat
                        })
                    },
            decreases count - (self.tick_index - t0),
        {
            let ghost k = self.tick_index - t0;
            proof {
                assert(k < count) by {
                    if k == count {
                        assert(self.next_tick_ms > now_ms);
                    }
                }
                lemma_ticks_due_step(old(self).next_tick_ms, self.step_ms, now_ms, k);
                lemma_emitting_ticks_bound(t0, k, every);
                lemma_emitting_ticks_bound(t0, k + 1, every);
                assert((k + 1) * self.step_ms == k * self.step_ms + self.step_ms) by (nonlinear_arith);
            }
            self.tick_index = self.tick_index + 1;
            assert(emitting_ticks(t0, k + 1, every) == emitting_ticks(t0, k, every) + (if (t0 + k
                + 1) % every == 0 {
                1nat
            } else {
                0nat
            }));
            if allow_emit && should_emit && self.tick_index % self.emit_every == 0 {
                self.window_job_id = self.window_job_id + 1;
                let audio = copy_ring(&self.window_ring);
                let len = audio.len();
                let ctx = if self.context_len_16k_samples < len {
                    self.context_len_16k_samples
                } else {
                    len
                };
                let snapshot = WindowJobSnapshot {
                    engine_generation,
                    window_generation: self.window_generation,
                    job_id: self.window_job_id,
                    window_end_16k_samples: self.total_16k_samples,
                    window_len_16k_samples: len,
                    context_len_16k_samples: ctx,
                };
                jobs.push((snapshot, audio));
            }
            self.next_tick_ms = self.next_tick_ms + self.step_ms;
        }
        jobs
    }
}

proof fn lemma_emitting_ticks_bound(from: int, count: int, every: int)
    requires
        count >= 0,
    ensures
        emitting_ticks(from, count, every) <= count,
    decreases count,
{
    if count > 0 {
        lemma_emitting_ticks_bound(from, count - 1, every);
    }
}

proof fn lemma_ticks_due_step(next: u64, step: u64, now: u64, k: int)
    requires
        step > 0,
        k >= 0,
        next + k * step <= now,
    ensures
        k < ticks_due(next, step, now),
        next + (k + 1) * step > now ==> k + 1 == ticks_due(next, step, now),
        next + (k + 1) * step <= now ==> k + 1 < ticks_due(next, step, now),
{
    let d = now - next;
    assert(k * step <= d);
    assert(k <= d / (step as int)) by (nonlinear_arith)
        requires
            k * step <= d,
            step > 0,
            k >= 0,
    ;
    if next + (k + 1) * step > now {
        assert(d / (step as int) <= k) by (nonlinear_arith)
            requires
                (k + 1) * step > d,
                step > 0,
                d >= 0,
        ;
    } else {
        assert(k + 1 <= d / (step as int)) by (nonlinear_arith)
            requires
                (k + 1) * step <= d,
                step > 0,
                k >= 0,
        ;
    }
}

/// A copy of the window's audio.
fn copy_ring<S: Copy>(ring: &VecDeque<S>) -> (r: Vec<S>)
    ensures
        r@ == ring@,
{
    let mut out: Vec<S> = Vec::new();
    let mut i: usize = 0;
    while i < ring.len()
        invariant
            i <= ring@.len(),
            out@ == ring@.take(i as int),
        decreases ring@.len() - i,
    {
        out.push(ring[i]);
        assert(ring@.take(i + 1) =~= ring@.take(i as int).push(ring@[i as int]));
        i += 1;
    }
    assert(ring@.take(ring@.len() as int) =~= ring@);
    out
}

} // verus!
