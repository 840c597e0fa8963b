//! Second-pass scheduling: a finished segment waits for a short tail of the
//! audio that follows it before it is decoded again.
use vstd::prelude::*;

verus! {

/// A segment ready for the second pass: its audio and its peak energy.
#[derive(Debug)]
pub struct SecondPassJob<S, P> {
    pub segment_id: u64,
    pub sample_rate_hz: u32,
    pub samples: Vec<S>,
    pub peak_mean_abs: P,
}

/// A segment still collecting its tail.
#[derive(Debug)]
pub struct PendingSecondPass<S, P> {
    pub segment_id: u64,
    pub sample_rate_hz: u32,
    pub samples: Vec<S>,
    pub peak_mean_abs: P,
    pub remaining_tail_samples: usize,
}

/// The smaller of two counts.
pub open spec fn min_nat(a: nat, b: nat) -> nat {
    if a < b {
        a
    } else {
        b
    }
}

impl<S: Copy, P> PendingSecondPass<S, P> {
    /// Appends as much of `samples` as the tail still lacks and tells whether
    /// the tail is complete.
    pub fn append_tail(&mut self, samples: &[S]) -> (complete: bool)
        ensures
            ({
                let take = min_nat(old(self).remaining_tail_samples as nat, samples@.len());
                &&& final(self).samples@ == old(self).samples@ + samples@.take(take as int)
                &&& final(self).remaining_tail_samples == old(self).remaining_tail_samples - take
                &&& final(self).segment_id == old(self).segment_id
                &&& final(self).sample_rate_hz == old(self).sample_rate_hz
                &&& final(self).peak_mean_abs == old(self).peak_mean_abs
                &&& complete == (final(self).remaining_tail_samples == 0)
            }),
    {
        if self.remaining_tail_samples == 0 || samples.len() == 0 {
            assert(samples@.take(0) =~= Seq::<S>::empty());
            assert(self.samples@ =~= old(self).samples@ + samples@.take(0));
            return self.remaining_tail_samples == 0;
        }
        let take = if self.remaining_tail_samples < samples.len() {
            self.remaining_tail_samples
        } else {
            samples.len()
        };
        let mut i: usize = 0;
        while i < take
            invariant
                take <= samples@.len(),
                i <= take,
                self.samples@ == old(self).samples@ + samples@.take(i as int),
                self.segment_id == old(self).segment_id,
                self.sample_rate_hz == old(self).sample_rate_hz,
                self.peak_mean_abs == old(self).peak_mean_abs,
                self.remaining_tail_samples == old(self).remaining_tail_samples,
            decreases take - i,
        {
            self.samples.push(samples[i]);
            assert(samples@.take(i + 1) =~= samples@.take(i as int).push(samples@[i as int]));
            assert(self.samples@ =~= old(self).samples@ + samples@.take(i + 1));
            i += 1;
        }
        self.remaining_tail_samples = self.remaining_tail_samples - take;
        self.remaining_tail_samples == 0
    }
}

impl<S, P> PendingSecondPass<S, P> {
    /// The job made from the collected audio.
    pub fn into_job(self) -> (r: SecondPassJob<S, P>)
        ensures
            r.segment_id == self.segment_id,
            r.sample_rate_hz == self.sample_rate_hz,
            r.samples == self.samples,
            r.peak_mean_abs == self.peak_mean_abs,
    {
        SecondPassJob {
            segment_id: self.segment_id,
            sample_rate_hz: self.sample_rate_hz,
            samples: self.samples,
            peak_mean_abs: self.peak_mean_abs,
        }
    }
}

/// Holds at most one segment waiting for its tail.
#[derive(Debug)]
pub struct SecondPassScheduler<S, P> {
    pub pending: Option<PendingSecondPass<S, P>>,
}

impl<S: Copy, P> SecondPassScheduler<S, P> {
    /// A scheduler with nothing pending.
    pub fn new() -> (r: Self)
        ensures
            r.pending is None,
    {
        SecondPassScheduler { pending: None }
    }

    /// Schedules a finished segment: it is released at once when no tail is
    /// wanted, and otherwise waits (replacing whatever was pending).
    pub fn schedule(
        &mut self,
        segment_id: u64,
        sample_rate_hz: u32,
        samples: Vec<S>,
        peak_mean_abs: P,
        tail_samples: usize,
    ) -> (r: Option<SecondPassJob<S, P>>)
        ensures
            tail_samples == 0 ==> final(self).pending == old(self).pending && r == Some(
                SecondPassJob { segment_id, sample_rate_hz, samples, peak_mean_abs },
            ),
            tail_samples != 0 ==> r is None && final(self).pending == Some(
                PendingSecondPass {
                    segment_id,
                    sample_rate_hz,
                    samples,
                    peak_mean_abs,
                    remaining_tail_samples: tail_samples,
                },
            ),
    {
        if tail_samples == 0 {
            return Some(SecondPassJob { segment_id, sample_rate_hz, samples, peak_mean_abs });
        }
        self.pending = Some(
            PendingSecondPass {
                segment_id,
                sample_rate_hz,
                samples,
                peak_mean_abs,
                remaining_tail_samples: tail_samples,
            },
        );
        None
    }

    /// Feeds audio that follows the pending segment; releases the segment
    /// once its tail is complete.
    pub fn append_tail(&mut self, samples: &[S]) -> (r: Option<SecondPassJob<S, P>>)
        ensures
            old(self).pending is None ==> r is None && final(self).pending is None,
            old(self).pending matches Some(p) ==> ({
                let take = min_nat(p.remaining_tail_samples as nat, samples@.len());
                let rem = p.remaining_tail_samples - take;
                if rem == 0 {
                    final(self).pending is None && (r matches Some(j) && j.segment_id
                        == p.segment_id && j.sample_rate_hz == p.sample_rate_hz && j.samples@
                        == p.samples@ + samples@.take(take as int) && j.peak_mean_abs
                        == p.peak_mean_abs)
                } else {
                    r is None && (final(self).pending matches Some(q) && q.segment_id
                        == p.segment_id && q.sample_rate_hz == p.sample_rate_hz && q.samples@
                        == p.samples@ + samples@.take(take as int) && q.peak_mean_abs
                        == p.peak_mean_abs && q.remaining_tail_samples == rem)
                }
            }),
    {
        let mut pending = match self.pending.take() {
            Some(p) => p,
            None => {
                return None;
            },
        };
        if !pending.append_tail(samples) {
            self.pending = Some(pending);
            return None;
        }
        Some(pending.into_job())
    }

    /// Releases the pending segment if its tail is complete, or in any case
    /// when `force` is set.
    pub fn flush(&mut self, force: bool) -> (r: Option<SecondPassJob<S, P>>)
        ensures
            old(self).pending is None ==> r is None && final(self).pending is None,
            old(self).pending matches Some(p) ==> (if p.remaining_tail_samples == 0 || force {
                final(self).pending is None && (r matches Some(j) && j.segment_id == p.segment_id
                    && j.sample_rate_hz == p.sample_rate_hz && j.samples == p.samples
                    && j.peak_mean_abs == p.peak_mean_abs)
            } else {
                r is None && final(self).pending == old(self).pending
            }),
    {
        let pending = match self.pending.take() {
            Some(p) => p,
            None => {
                return None;
            },
        };
        if pending.remaining_tail_samples == 0 || force {
            return Some(pending.into_job());
        }
        self.pending = Some(pending);
        None
    }
}

/// A segment scheduled with a tail of `n` samples and then fed two chunks of
/// audio is released with exactly its own audio followed by the first `n`
/// samples of the two chunks, as soon as they hold `n` samples.
pub proof fn law_tail_collected_across_chunks<S>(seg: Seq<S>, n: nat, c1: Seq<S>, c2: Seq<S>)
    requires
        n > 0,
        c1.len() < n,
        c1.len() + c2.len() >= n,
    ensures
        ({
            let after1 = seg + c1.take(c1.len() as int);
            let rem1 = n - c1.len();
            let take2 = min_nat(rem1 as nat, c2.len());
            &&& rem1 > 0
            &&& n - c1.len() - take2 == 0
            &&& after1 + c2.take(take2 as int) == seg + (c1 + c2).take(n as int)
        }),
{
    let take2 = min_nat((n - c1.len()) as nat, c2.len());
    assert(c1.take(c1.len() as int) =~= c1);
    assert((seg + c1) + c2.take(take2 as int) =~= seg + (c1 + c2).take(n as int));
}

} // verus!
