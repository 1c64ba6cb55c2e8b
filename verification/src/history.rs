//! Capped, time-ordered history of samples and its eviction policy.
//!
//! The buffer is an append-only, oldest-first sequence of records. Once its
//! length exceeds the flush threshold, an eviction pass keeps only the most
//! recently appended flush-target records, in their original relative order.

use vstd::prelude::*;

verus! {

/// One ingested sample: a monotonic arrival instant in milliseconds and the
/// raw readings of the three sensors in canonical order.
#[derive(Clone, Copy)]
pub struct SampleRecord {
    pub t_ms: u64,
    pub vals: [u16; 3],
}

/// Append-only, capacity-bounded, oldest-first sample history.
pub struct HistoryBuffer {
    pub samps: Vec<SampleRecord>,
    /// Flush threshold: eviction runs once the length exceeds this.
    pub t_high: usize,
    /// Flush target: the length an eviction pass drains the buffer to.
    pub t_low: usize,
}

/// Arrival instants are non-decreasing from oldest to newest.
pub open spec fn times_sorted(s: Seq<SampleRecord>) -> bool {
    forall|i: int, j: int| 0 <= i <= j < s.len() ==> s[i].t_ms <= s[j].t_ms
}

impl HistoryBuffer {
    /// Configuration is sane and the records are in arrival order.
    pub open spec fn wf(self) -> bool {
        &&& 0 < self.t_low < self.t_high
        &&& times_sorted(self.samps@)
    }

    /// An empty buffer with the given flush threshold and flush target.
    pub fn new(t_high: usize, t_low: usize) -> (r: HistoryBuffer)
        requires
            0 < t_low < t_high,
        ensures
            r.wf(),
            r.samps@.len() == 0,
            r.t_high == t_high,
            r.t_low == t_low,
    {
        HistoryBuffer { samps: Vec::new(), t_high, t_low }
    }

    /// Append one record at the newest end, preserving arrival order.
    pub fn append(&mut self, rec: SampleRecord)
        requires
            old(self).wf(),
            old(self).samps@.len() < usize::MAX,
            old(self).samps@.len() > 0 ==> old(self).samps@.last().t_ms <= rec.t_ms,
        ensures
            final(self).wf(),
            final(self).samps@ == old(self).samps@.push(rec),
            final(self).t_high == old(self).t_high,
            final(self).t_low == old(self).t_low,
    {
        self.samps.push(rec);
        proof {
            assert forall|i: int, j: int| 0 <= i <= j < self.samps@.len() implies self.samps@[i].t_ms
                <= self.samps@[j].t_ms by {
                if j < self.samps@.len() - 1 {
                    assert(old(self).samps@[i].t_ms <= old(self).samps@[j].t_ms);
                } else if i < j {
                    assert(old(self).samps@[i].t_ms <= old(self).samps@.last().t_ms);
                }
            }
        }
    }

    /// Sliding-window drain: when the length exceeds the flush threshold,
    /// keep exactly the most recent flush-target records, in their original
    /// relative order; otherwise leave the buffer untouched.
    pub fn evict_if_needed(&mut self)
        requires
            old(self).wf(),
        ensures
            final(self).wf(),
            final(self).t_high == old(self).t_high,
            final(self).t_low == old(self).t_low,
            old(self).samps@.len() > old(self).t_high ==> final(self).samps@ == old(
                self,
            ).samps@.subrange(
                old(self).samps@.len() - old(self).t_low,
                old(self).samps@.len() as int,
            ),
            old(self).samps@.len() <= old(self).t_high ==> final(self).samps@ == old(self).samps@,
    {
        if self.samps.len() > self.t_high {
            let start = self.samps.len() - self.t_low;
            let mut kept: Vec<SampleRecord> = Vec::new();
            let mut i: usize = 0;
            while i < self.t_low
                invariant
                    start + self.t_low == self.samps@.len(),
                    start + self.t_low <= usize::MAX,
                    i <= self.t_low,
                    kept@ =~= self.samps@.subrange(start as int, start + i),
                decreases self.t_low - i,
            {
                kept.push(self.samps[start + i]);
                proof {
                    assert(kept@ =~= self.samps@.subrange(start as int, start + i + 1));
                }
                i += 1;
            }
            self.samps = kept;
        }
    }
}

} // verus!
