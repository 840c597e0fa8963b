//! Decisions of the two engine workers: how the streaming worker reads its
//! audio and reacts to the recogniser's text, and when the whisper worker
//! decodes a window.
use vstd::prelude::*;

use crate::render::WhisperDecodeResult;
use crate::strings::{chars_eq, copy_str, from_chars, to_chars};

verus! {

/// Audio received but not yet read, consumed in reads of a fixed size; the
/// consumed part is dropped once it is large.
pub struct PendingReader<S> {
    pending: Vec<S>,
    start: usize,
}

/// The consumed prefix is dropped once it holds at least this many samples
/// and at least half the buffer.
pub const COMPACT_AT: usize = 8192;

impl<S: Copy> PendingReader<S> {
    /// The samples received and not read yet, oldest first.
    pub closed spec fn unread(&self) -> Seq<S> {
        self.pending@.skip(self.start as int)
    }

    /// The read position lies within the buffer.
    pub closed spec fn wf(&self) -> bool {
        self.start <= self.pending@.len()
    }

    /// Nothing received yet.
    pub fn new() -> (r: Self)
        ensures
            r.wf(),
            r.unread() == Seq::<S>::empty(),
    {
        let r = PendingReader { pending: Vec::new(), start: 0 };
        assert(r.unread() =~= Seq::<S>::empty());
        r
    }

    /// Receives a chunk of samples.
    pub fn extend(&mut self, chunk: &[S])
        requires
            old(self).wf(),
        ensures
            final(self).wf(),
            final(self).unread() == old(self).unread() + chunk@,
    {
        let ghost before = self.unread();
        let mut i: usize = 0;
        while i < chunk.len()
            invariant
                i <= chunk@.len(),
                self.wf(),
                self.unread() == before + chunk@.take(i as int),
            decreases chunk@.len() - i,
        {
            let ghost p = self.pending@;
            self.pending.push(chunk[i]);
            assert(self.pending@.skip(self.start as int) =~= p.skip(self.start as int).push(chunk@[i as int]));
            assert(chunk@.take(i + 1) =~= chunk@.take(i as int).push(chunk@[i as int]));
            i += 1;
        }
        assert(chunk@.take(chunk@.len() as int) =~= chunk@);
    }

    /// The next `n` unread samples, if that many were received.
    pub fn next_read(&mut self, n: usize) -> (r: Option<Vec<S>>)
        requires
            old(self).wf(),
            n > 0,
        ensures
            final(self).wf(),
            old(self).unread().len() >= n ==> (r matches Some(v) && v@ == old(self).unread().take(
                n as int,
            ) && final(self).unread() == old(self).unread().skip(n as int)),
            old(self).unread().len() < n ==> r is None && final(self).unread() == old(self).unread(),
    {
        if self.pending.len() - self.start < n {
            return None;
        }
        let ghost before = self.unread();
        let end = self.start + n;
        let mut out: Vec<S> = Vec::new();
        let mut i: usize = self.start;
        while i < end
            invariant
                self.start <= i <= end,
                end == self.start + n,
                end <= self.pending@.len(),
                before == self.pending@.skip(self.start as int),
                out@ == self.pending@.subrange(self.start as int, i as int),
            decreases end - i,
        {
            out.push(self.pending[i]);
            assert(self.pending@.subrange(self.start as int, i + 1) =~= self.pending@.subrange(
                self.start as int,
                i as int,
            ).push(self.pending@[i as int]));
            i += 1;
        }
        assert(out@ =~= before.take(n as int));
        self.start = end;
        assert(self.unread() =~= before.skip(n as int));
        if self.start >= COMPACT_AT && self.start >= self.pending.len() / 2 {
            self.compact();
        }
        Some(out)
    }

    /// What is left unread, taken all at once; none when nothing is left.
    pub fn take_rest(&mut self) -> (r: Option<Vec<S>>)
        requires
            old(self).wf(),
        ensures
            final(self).wf(),
            final(self).unread() == Seq::<S>::empty(),
            old(self).unread().len() == 0 ==> r is None,
            old(self).unread().len() > 0 ==> (r matches Some(v) && v@ == old(self).unread()),
    {
        if self.start >= self.pending.len() {
            assert(self.unread() =~= Seq::<S>::empty());
            return None;
        }
        self.compact();
        let mut rest: Vec<S> = Vec::new();
        std::mem::swap(&mut rest, &mut self.pending);
        assert(self.unread() =~= Seq::<S>::empty());
        Some(rest)
    }

    /// Drops the consumed prefix.
    fn compact(&mut self)
        requires
            old(self).wf(),
        ensures
            final(self).wf(),
            final(self).start == 0,
            final(self).unread() == old(self).unread(),
    {
        let ghost before = self.unread();
        let mut rest: Vec<S> = Vec::new();
        let mut i: usize = self.start;
        while i < self.pending.len()
            invariant
                self.start <= i <= self.pending@.len(),
                before == self.pending@.skip(self.start as int),
                rest@ == self.pending@.subrange(self.start as int, i as int),
            decreases self.pending@.len() - i,
        {
            rest.push(self.pending[i]);
            assert(self.pending@.subrange(self.start as int, i + 1) =~= self.pending@.subrange(
                self.start as int,
                i as int,
            ).push(self.pending@[i as int]));
            i += 1;
        }
        assert(rest@ =~= before);
        self.pending = rest;
        self.start = 0;
        assert(self.unread() =~= before);
    }
}

/// What the streaming worker does with the recogniser's current text.
#[derive(Clone, Copy, Debug, PartialEq, Eq, Structural)]
pub enum PartialStep {
    /// Blank or unchanged: nothing happens.
    Unchanged,
    /// New text, kept and counted as speech, but not shown: the segment has no voice.
    Heard,
    /// New text, kept, counted as speech and shown as a partial.
    Emit,
}

/// The streaming worker's memory of the recogniser's text and of the window
/// backpressure.
pub struct StreamTracker {
    pub last_text: String,
    pub backpressure: bool,
}

impl StreamTracker {
    /// No text yet, no backpressure.
    pub fn new() -> (r: Self)
        ensures
            r.last_text@.len() == 0,
            !r.backpressure,
    {
        StreamTracker { last_text: String::new(), backpressure: false }
    }

    /// Takes the recogniser's (trimmed) text: a non-blank text that differs
    /// from the last one is kept, and shown when the segment has voice.
    pub fn on_text(&mut self, text: &str, has_voice: bool) -> (r: PartialStep)
        ensures
            (text@.len() == 0 || text@ == old(self).last_text@) ==> r == PartialStep::Unchanged
                && final(self).last_text@ == old(self).last_text@,
            (text@.len() > 0 && text@ != old(self).last_text@) ==> final(self).last_text@ == text@
                && r == (if has_voice {
                PartialStep::Emit
            } else {
                PartialStep::Heard
            }),
            final(self).backpressure == old(self).backpressure,
    {
        let t = to_chars(text);
        let l = to_chars(self.last_text.as_str());
        if t.len() == 0 || chars_eq(t.as_slice(), l.as_slice()) {
            return PartialStep::Unchanged;
        }
        self.last_text = from_chars(t.as_slice());
        if has_voice {
            PartialStep::Emit
        } else {
            PartialStep::Heard
        }
    }

    /// Whether windows may be decoded with `queue_len` second-pass jobs
    /// waiting, and whether that answer changed since the last call.
    pub fn update_backpressure(&mut self, queue_len: usize, high_watermark: usize) -> (r: (
        bool,
        bool,
    ))
        ensures
            r.0 == (queue_len < high_watermark),
            final(self).backpressure == !r.0,
            r.1 == (final(self).backpressure != old(self).backpressure),
            final(self).last_text@ == old(self).last_text@,
    {
        let allow = queue_len < high_watermark;
        let changed = !allow != self.backpressure;
        self.backpressure = !allow;
        (allow, changed)
    }

    /// The text committed at an endpoint: the current text, or the last
    /// one when the current one is blank.
    pub fn endpoint_text(&self, text: &str) -> (r: String)
        ensures
            r@ == (if text@.len() == 0 {
                self.last_text@
            } else {
                text@
            }),
    {
        let t = to_chars(text);
        if t.len() == 0 {
            copy_str(self.last_text.as_str())
        } else {
            from_chars(t.as_slice())
        }
    }

    /// Forgets the text, after a segment ends.
    pub fn clear_text(&mut self)
        ensures
            final(self).last_text@.len() == 0,
            final(self).backpressure == old(self).backpressure,
    {
        self.last_text = String::new();
    }
}

/// The activity window of the whisper worker: the window step held
/// between 80 and 600 ms.
pub fn window_activity_ms(step_ms: u64) -> (r: u64)
    ensures
        r == (if step_ms < 80 {
            80
        } else if step_ms > 600 {
            600
        } else {
            step_ms
        }),
{
    if step_ms < 80 {
        80
    } else if step_ms > 600 {
        600
    } else {
        step_ms
    }
}

/// Where the activity of a window is measured: its last
/// `activity_samples` samples (at least one).
pub fn activity_start(len: usize, activity_samples: usize) -> (r: usize)
    ensures
        r == (if activity_samples < 1 {
            if len >= 1 {
                len - 1
            } else {
                0
            }
        } else if len >= activity_samples {
            len - activity_samples
        } else {
            0
        }),
{
    let a = if activity_samples < 1 {
        1
    } else {
        activity_samples
    };
    if len >= a {
        len - a
    } else {
        0
    }
}

/// The comparisons of a window's activity measures against their
/// thresholds, made by the caller.
#[derive(Clone, Copy, Debug)]
pub struct ActivityChecks {
    /// The zero-crossing rate is at most the maximum.
    pub noise_ok: bool,
    /// Mean level and RMS reach their minimums.
    pub energy_ok: bool,
    /// Mean level and RMS reach 60% of their minimums.
    pub energy_relaxed: bool,
    /// A positive minimum band-energy ratio is set.
    pub band_check: bool,
    /// The band-energy ratio reaches its minimum.
    pub band_ok: bool,
    /// The zero-crossing rate is at most 80% of the maximum.
    pub low_noise: bool,
    /// A positive minimum mean level is set and the mean reaches 1.5 times it.
    pub mean_boost: bool,
    /// A positive minimum RMS is set and the RMS reaches 1.5 times it.
    pub rms_boost: bool,
}

/// Whether the activity gate lets a window through: not noisy, enough
/// energy, and, when a band check is set, speech-band energy or one of its
/// substitutes.
pub fn activity_allows(c: &ActivityChecks) -> (r: bool)
    ensures
        r == (c.noise_ok && (c.energy_ok || c.energy_relaxed) && (!c.band_check || c.band_ok || (
        c.low_noise && c.energy_relaxed) || c.mean_boost || c.rms_boost)),
{
    if !c.noise_ok {
        return false;
    }
    if !c.energy_ok && !c.energy_relaxed {
        return false;
    }
    if !c.band_check {
        return true;
    }
    c.band_ok || (c.low_noise && c.energy_relaxed) || c.mean_boost || c.rms_boost
}

/// What the whisper worker does with a window job after the activity gate.
#[derive(Clone, Copy, Debug, PartialEq, Eq, Structural)]
pub enum GateStep {
    /// Not decoded; `newly` when decoding was running until now.
    Suppressed { newly: bool },
    /// Decoded; `resumed` when decoding was suppressed until now.
    Open { resumed: bool },
}

/// The last window decoded, found again by its audio hash and length.
pub struct WindowCacheEntry {
    pub hash: u64,
    pub len: usize,
    pub result: WhisperDecodeResult,
}

/// The whisper worker's window gate and its one-entry result cache.
pub struct WindowGate {
    pub blocked: bool,
    pub cache: Option<WindowCacheEntry>,
}

impl WindowGate {
    /// Open, nothing cached.
    pub fn new() -> (r: Self)
        ensures
            !r.blocked,
            r.cache is None,
    {
        WindowGate { blocked: false, cache: None }
    }

    /// A window is decoded when speech was recent or its activity passes
    /// the activity check.
    pub fn pass_gate(&mut self, speech_recent: bool, activity_passes: bool) -> (r: GateStep)
        ensures
            (!speech_recent && !activity_passes) ==> r == (GateStep::Suppressed {
                newly: !old(self).blocked,
            }) && final(self).blocked,
            (speech_recent || activity_passes) ==> r == (GateStep::Open {
                resumed: old(self).blocked,
            }) && !final(self).blocked,
            final(self).cache == old(self).cache,
    {
        if !speech_recent && !activity_passes {
            let newly = !self.blocked;
            self.blocked = true;
            GateStep::Suppressed { newly }
        } else {
            let resumed = self.blocked;
            self.blocked = false;
            GateStep::Open { resumed }
        }
    }

    /// The cached result for a window of this hash and length, if any.
    pub fn cached(&self, hash: u64, len: usize) -> (r: Option<&WhisperDecodeResult>)
        ensures
            r == (match self.cache {
                Some(e) => if e.hash == hash && e.len == len {
                    Some(&e.result)
                } else {
                    None
                },
                None => None,
            }),
    {
        match &self.cache {
            Some(e) => {
                if e.hash == hash && e.len == len {
                    Some(&e.result)
                } else {
                    None
                }
            },
            None => None,
        }
    }

    /// Remembers the result of the window just decoded.
    pub fn store(&mut self, hash: u64, len: usize, result: WhisperDecodeResult)
        ensures
            final(self).cache == Some((WindowCacheEntry { hash, len, result })),
            final(self).blocked == old(self).blocked,
    {
        self.cache = Some(WindowCacheEntry { hash, len, result });
    }
}

/// The audio of the open segment and the id of the last segment committed.
pub struct SegmentState<S> {
    segment_id: u64,
    buffer: Vec<S>,
}

impl<S: Copy> SegmentState<S> {
    /// The audio of the open segment.
    pub closed spec fn samples(&self) -> Seq<S> {
        self.buffer@
    }

    /// The id of the last segment committed (zero: none yet).
    pub closed spec fn last_id(&self) -> u64 {
        self.segment_id
    }

    /// No audio, no segment yet.
    pub fn new() -> (r: Self)
        ensures
            r.samples() == Seq::<S>::empty(),
            r.last_id() == 0,
    {
        SegmentState { segment_id: 0, buffer: Vec::new() }
    }

    /// Adds audio to the open segment.
    pub fn push_samples(&mut self, samples: &[S])
        ensures
            final(self).samples() == old(self).samples() + samples@,
            final(self).last_id() == old(self).last_id(),
    {
        let mut i: usize = 0;
        while i < samples.len()
            invariant
                i <= samples@.len(),
                self.buffer@ == old(self).buffer@ + samples@.take(i as int),
                self.segment_id == old(self).segment_id,
            decreases samples@.len() - i,
        {
            self.buffer.push(samples[i]);
            assert(samples@.take(i + 1) =~= samples@.take(i as int).push(samples@[i as int]));
            i += 1;
        }
        assert(samples@.take(samples@.len() as int) =~= samples@);
    }

    /// Drops the open segment's audio.
    pub fn reset(&mut self)
        ensures
            final(self).samples() == Seq::<S>::empty(),
            final(self).last_id() == old(self).last_id(),
    {
        self.buffer = Vec::new();
    }

    /// Whether the open segment has no audio.
    pub fn is_empty(&self) -> (r: bool)
        ensures
            r == (self.samples().len() == 0),
    {
        self.buffer.len() == 0
    }

    /// A new segment id: one more than the last, held at `u64::MAX`.
    pub fn next_segment_id(&mut self) -> (r: u64)
        ensures
            r == (if old(self).last_id() == u64::MAX {
                u64::MAX
            } else {
                (old(self).last_id() + 1) as u64
            }),
            final(self).last_id() == r,
            final(self).samples() == old(self).samples(),
    {
        self.segment_id = if self.segment_id == u64::MAX {
            u64::MAX
        } else {
            self.segment_id + 1
        };
        self.segment_id
    }

    /// Takes the open segment's audio, leaving it empty.
    pub fn take(&mut self) -> (r: Vec<S>)
        ensures
            r@ == old(self).samples(),
            final(self).samples() == Seq::<S>::empty(),
            final(self).last_id() == old(self).last_id(),
    {
        let mut out: Vec<S> = Vec::new();
        std::mem::swap(&mut out, &mut self.buffer);
        out
    }
}

} // verus!
