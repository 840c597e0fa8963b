//! The bounded queue of second-pass jobs: when full, the job with the least
//! speech energy gives way to a more energetic one.
use vstd::prelude::*;

use std::collections::VecDeque;

verus! {

/// The position of the first entry of least energy among the first `k` entries.
pub open spec fn min_index_upto<T>(s: Seq<(T, u32)>, k: int) -> int
    decreases k,
{
    if k <= 1 {
        0
    } else {
        let p = min_index_upto(s, k - 1);
        if s[k - 1].1 < s[p].1 {
            k - 1
        } else {
            p
        }
    }
}

/// The position of the first entry of least energy.
pub open spec fn min_index<T>(s: Seq<(T, u32)>) -> int {
    min_index_upto(s, s.len() as int)
}

/// `min_index_upto` picks an entry of least energy, the first such.
pub proof fn lemma_min_index_upto<T>(s: Seq<(T, u32)>, k: int)
    requires
        1 <= k <= s.len(),
    ensures
        0 <= min_index_upto(s, k) < k,
        forall|j: int| 0 <= j < k ==> s[min_index_upto(s, k)].1 <= #[trigger] s[j].1,
        forall|j: int| 0 <= j < min_index_upto(s, k) ==> s[min_index_upto(s, k)].1 < #[trigger] s[j].1,
    decreases k,
{
    if k > 1 {
        lemma_min_index_upto(s, k - 1);
    }
}

/// A bounded FIFO of jobs, each carried with its energy rank (a larger rank
/// means more speech energy).
pub struct SecondPassQueue<T> {
    capacity: usize,
    inner: VecDeque<(T, u32)>,
}

impl<T> SecondPassQueue<T> {
    /// The queued jobs with their ranks, oldest first.
    pub closed spec fn view_items(&self) -> Seq<(T, u32)> {
        self.inner@
    }

    /// The capacity.
    pub closed spec fn cap(&self) -> nat {
        self.capacity as nat
    }

    /// The queue holds at most its capacity, which is at least one.
    pub open spec fn wf(&self) -> bool {
        1 <= self.cap() && self.view_items().len() <= self.cap()
    }

    /// An empty queue of the given capacity (at least one).
    pub fn new(capacity: usize) -> (r: Self)
        ensures
            r.wf(),
            r.cap() == (if capacity == 0 {
                1
            } else {
                capacity as nat
            }),
            r.view_items() == Seq::<(T, u32)>::empty(),
    {
        let c = if capacity == 0 {
            1
        } else {
            capacity
        };
        SecondPassQueue { capacity: c, inner: VecDeque::new() }
    }

    /// Adds a job. A full queue drops the first job of least rank in favour of
    /// the new one if the new one ranks strictly higher, and otherwise refuses
    /// the new job. Returns whether the job was queued.
    pub fn push(&mut self, job: T, rank: u32) -> (accepted: bool)
        requires
            old(self).wf(),
        ensures
            final(self).wf(),
            final(self).cap() == old(self).cap(),
            ({
                let s = old(self).view_items();
                if s.len() < old(self).cap() {
                    accepted && final(self).view_items() == s.push((job, rank))
                } else {
                    let i = min_index(s);
                    if rank <= s[i].1 {
                        !accepted && final(self).view_items() == s
                    } else {
                        accepted && final(self).view_items() == s.remove(i).push((job, rank))
                    }
                }
            }),
    {
        let ghost s = self.inner@;
        if self.inner.len() < self.capacity {
            self.inner.push_back((job, rank));
            return true;
        }
        let n = self.inner.len();
        let mut drop_index: usize = 0;
        let mut drop_rank: u32 = self.inner[0].1;
        let mut i: usize = 1;
        while i < n
            invariant
                1 <= i <= n,
                n == s.len(),
                s == self.inner@,
                drop_index == min_index_upto(s, i as int),
                drop_rank == s[drop_index as int].1,
                0 <= drop_index < i,
            decreases n - i,
        {
            if self.inner[i].1 < drop_rank {
                drop_index = i;
                drop_rank = self.inner[i].1;
            }
            i += 1;
        }
        if rank <= drop_rank {
            return false;
        }
        let _ = self.inner.remove(drop_index);
        self.inner.push_back((job, rank));
        assert(self.inner@ =~= s.remove(drop_index as int).push((job, rank)));
        true
    }

    /// Takes the oldest job.
    pub fn pop(&mut self) -> (r: Option<T>)
        requires
            old(self).wf(),
        ensures
            final(self).wf(),
            final(self).cap() == old(self).cap(),
            old(self).view_items().len() == 0 ==> r is None && final(self).view_items()
                == old(self).view_items(),
            old(self).view_items().len() > 0 ==> r == Some(old(self).view_items()[0].0)
                && final(self).view_items() == old(self).view_items().drop_first(),
    {
        match self.inner.pop_front() {
            Some(entry) => Some(entry.0),
            None => None,
        }
    }

    /// The number of jobs the queue holds at most.
    pub fn capacity(&self) -> (r: usize)
        ensures
            r == self.cap(),
    {
        self.capacity
    }

    /// The number of queued jobs.
    pub fn len(&self) -> (r: usize)
        ensures
            r == self.view_items().len(),
    {
        self.inner.len()
    }
}

/// A full queue never loses its most energetic job: after a push into a full
/// queue, every rank in the queue is at least the least rank that was there before.
pub proof fn law_full_push_keeps_higher_ranks<T>(s: Seq<(T, u32)>, job: T, rank: u32)
    requires
        s.len() >= 1,
    ensures
        ({
            let i = min_index(s);
            let after = if rank <= s[i].1 {
                s
            } else {
                s.remove(i).push((job, rank))
            };
            &&& after.len() == s.len()
            &&& forall|j: int| 0 <= j < after.len() ==> s[i].1 <= #[trigger] after[j].1
        }),
{
    lemma_min_index_upto(s, s.len() as int);
    let i = min_index(s);
    if rank > s[i].1 {
        let after = s.remove(i).push((job, rank));
        assert forall|j: int| 0 <= j < after.len() implies s[i].1 <= #[trigger] after[j].1 by {
            if j < s.len() - 1 {
                if j < i {
                    assert(after[j] == s[j]);
                } else {
                    assert(after[j] == s[j + 1]);
                }
            }
        }
    }
}

} // verus!
