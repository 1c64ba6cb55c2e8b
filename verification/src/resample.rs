//! Logarithmic-offset resampling of the history buffer.
//!
//! For every lookback offset the buffer is scanned from oldest to newest and
//! the first record whose age lies within a fixed tolerance of the offset
//! supplies that slot's readings. A slot is valid only if the oldest record
//! is at least as old as its offset; a slot with no record inside the
//! tolerance keeps the all-bits-set sentinel, whether or not it is valid.

use vstd::prelude::*;
use crate::history::{HistoryBuffer, SampleRecord};

verus! {

/// All-bits-set reading meaning "no matching sample".
pub const SENTINEL: u16 = 0xFFFF;

/// Largest accepted lookback offset in seconds; keeps the millisecond
/// conversion inside `u64`.
pub const MAX_OFFSET_S: u64 = 0xFFFF_FFFF;

/// A whole row of sentinel readings.
pub open spec fn sentinel_row() -> Seq<u16> {
    seq![SENTINEL, SENTINEL, SENTINEL]
}

/// Age in milliseconds of the oldest buffered record.
pub open spec fn oldest_age_ms(samps: Seq<SampleRecord>, now_ms: int) -> int {
    now_ms - samps[0].t_ms
}

/// A slot is valid when the oldest record is at least as old as its offset.
pub open spec fn slot_valid(offset_s: u64, oldest_ms: int) -> bool {
    offset_s * 1000 <= oldest_ms
}

/// A record of age `now_ms - t_ms` lies within `tol_ms` of the lookback
/// target `target_ms`.
pub open spec fn in_tol(now_ms: int, t_ms: int, target_ms: int, tol_ms: int) -> bool {
    let d = now_ms - t_ms - target_ms;
    -tol_ms < d && d < tol_ms
}

/// What one matrix row must hold: the readings of the oldest record within
/// tolerance of the target, or the sentinel row when no record qualifies.
pub open spec fn row_ok(
    samps: Seq<SampleRecord>,
    now_ms: int,
    target_ms: int,
    tol_ms: int,
    row: Seq<u16>,
) -> bool {
    (exists|j: int|
        0 <= j < samps.len() && #[trigger] in_tol(now_ms, samps[j].t_ms as int, target_ms, tol_ms)
            && row == samps[j].vals@ && (forall|k: int|
            0 <= k < j ==> !in_tol(now_ms, samps[k].t_ms as int, target_ms, tol_ms))) || (row
        == sentinel_row() && (forall|j: int|
        0 <= j < samps.len() ==> !in_tol(now_ms, samps[j].t_ms as int, target_ms, tol_ms)))
}

/// Scan the buffer oldest to newest for the first record within `tol_ms` of
/// `target_ms`; sentinel row if none qualifies.
fn scan_row(samps: &Vec<SampleRecord>, now_ms: u64, target_ms: u64, tol_ms: u64) -> (row: [u16; 3])
    requires
        forall|j: int| 0 <= j < samps@.len() ==> #[trigger] samps@[j].t_ms <= now_ms,
    ensures
        row_ok(samps@, now_ms as int, target_ms as int, tol_ms as int, row@),
{
    let mut j: usize = 0;
    while j < samps.len()
        invariant
            j <= samps@.len(),
            forall|j2: int| 0 <= j2 < samps@.len() ==> #[trigger] samps@[j2].t_ms <= now_ms,
            forall|k: int|
                0 <= k < j ==> !in_tol(now_ms as int, samps@[k].t_ms as int, target_ms as int, tol_ms as int),
        decreases samps@.len() - j,
    {
        let age: u64 = now_ms - samps[j].t_ms;
        let d: u64 = if age >= target_ms {
            age - target_ms
        } else {
            target_ms - age
        };
        if d < tol_ms {
            let row = samps[j].vals;
            proof {
                assert(in_tol(now_ms as int, samps@[j as int].t_ms as int, target_ms as int, tol_ms as int));
            }
            return row;
        }
        j += 1;
    }
    let row = [SENTINEL, SENTINEL, SENTINEL];
    proof {
        assert(row@ =~= sentinel_row());
    }
    row
}

/// Resample the buffer at every lookback offset.
///
/// Returns the history matrix (one row of three readings per offset) and the
/// validity mask. The mask is exactly `offset[i] <= oldest age`; every valid
/// row satisfies [`row_ok`] for its target, and every invalid row is the
/// sentinel row.
pub fn resample(samps: &Vec<SampleRecord>, now_ms: u64, offsets: &Vec<u64>, tol_ms: u64) -> (r: (
    Vec<[u16; 3]>,
    Vec<bool>,
))
    requires
        samps@.len() > 0,
        forall|j: int| 0 <= j < samps@.len() ==> #[trigger] samps@[j].t_ms <= now_ms,
        forall|i: int| 0 <= i < offsets@.len() ==> #[trigger] offsets@[i] <= MAX_OFFSET_S,
    ensures
        r.0@.len() == offsets@.len(),
        r.1@.len() == offsets@.len(),
        forall|i: int|
            0 <= i < offsets@.len() ==> r.1@[i] == slot_valid(
                #[trigger] offsets@[i],
                oldest_age_ms(samps@, now_ms as int),
            ),
        forall|i: int|
            0 <= i < offsets@.len() && r.1@[i] ==> row_ok(
                samps@,
                now_ms as int,
                #[trigger] offsets@[i] * 1000,
                tol_ms as int,
                r.0@[i]@,
            ),
        forall|i: int| 0 <= i < offsets@.len() && !r.1@[i] ==> #[trigger] r.0@[i]@ == sentinel_row(),
{
    let oldest: u64 = now_ms - samps[0].t_ms;
    let mut matrix: Vec<[u16; 3]> = Vec::new();
    let mut mask: Vec<bool> = Vec::new();
    let mut i: usize = 0;
    while i < offsets.len()
        invariant
            i <= offsets@.len(),
            matrix@.len() == i,
            mask@.len() == i,
            samps@.len() > 0,
            oldest == oldest_age_ms(samps@, now_ms as int),
            forall|j: int| 0 <= j < samps@.len() ==> #[trigger] samps@[j].t_ms <= now_ms,
            forall|i2: int| 0 <= i2 < offsets@.len() ==> #[trigger] offsets@[i2] <= MAX_OFFSET_S,
            forall|i2: int|
                0 <= i2 < i ==> mask@[i2] == slot_valid(
                    #[trigger] offsets@[i2],
                    oldest_age_ms(samps@, now_ms as int),
                ),
            forall|i2: int|
                0 <= i2 < i && mask@[i2] ==> row_ok(
                    samps@,
                    now_ms as int,
                    #[trigger] offsets@[i2] * 1000,
                    tol_ms as int,
                    matrix@[i2]@,
                ),
            forall|i2: int| 0 <= i2 < i && !mask@[i2] ==> #[trigger] matrix@[i2]@ == sentinel_row(),
        decreases offsets@.len() - i,
    {
        let target_ms: u64 = offsets[i] * 1000;
        if target_ms <= oldest {
            mask.push(true);
            let row = scan_row(samps, now_ms, target_ms, tol_ms);
            matrix.push(row);
        } else {
            mask.push(false);
            let row = [SENTINEL, SENTINEL, SENTINEL];
            proof {
                assert(row@ =~= sentinel_row());
            }
            matrix.push(row);
        }
        i += 1;
    }
    (matrix, mask)
}

/// Evict if over threshold, then resample: one ingestion cycle's work on an
/// already-updated buffer. Returns the history matrix and validity mask,
/// both computed against the buffer as it stands after eviction.
pub fn process_samples(buf: &mut HistoryBuffer, now_ms: u64, offsets: &Vec<u64>, tol_ms: u64) -> (r:
    (Vec<[u16; 3]>, Vec<bool>))
    requires
        old(buf).wf(),
        old(buf).samps@.len() > 0,
        forall|j: int| 0 <= j < old(buf).samps@.len() ==> #[trigger] old(buf).samps@[j].t_ms <= now_ms,
        forall|i: int| 0 <= i < offsets@.len() ==> #[trigger] offsets@[i] <= MAX_OFFSET_S,
    ensures
        final(buf).wf(),
        final(buf).t_high == old(buf).t_high,
        final(buf).t_low == old(buf).t_low,
        old(buf).samps@.len() > old(buf).t_high ==> final(buf).samps@ == old(
            buf,
        ).samps@.subrange(
            old(buf).samps@.len() - old(buf).t_low,
            old(buf).samps@.len() as int,
        ),
        old(buf).samps@.len() <= old(buf).t_high ==> final(buf).samps@ == old(buf).samps@,
        final(buf).samps@.len() > 0,
        r.0@.len() == offsets@.len(),
        r.1@.len() == offsets@.len(),
        forall|i: int|
            0 <= i < offsets@.len() ==> r.1@[i] == slot_valid(
                #[trigger] offsets@[i],
                oldest_age_ms(final(buf).samps@, now_ms as int),
            ),
        forall|i: int|
            0 <= i < offsets@.len() && r.1@[i] ==> row_ok(
                final(buf).samps@,
                now_ms as int,
                #[trigger] offsets@[i] * 1000,
                tol_ms as int,
                r.0@[i]@,
            ),
        forall|i: int| 0 <= i < offsets@.len() && !r.1@[i] ==> #[trigger] r.0@[i]@ == sentinel_row(),
{
    buf.evict_if_needed();
    resample(&buf.samps, now_ms, offsets, tol_ms)
}

/// Validity moves monotonically with the oldest record's age: a slot valid
/// at age `age1` is still valid at any later age `age2`.
pub proof fn lemma_validity_monotonic(offsets: Seq<u64>, age1: int, age2: int)
    requires
        age1 <= age2,
    ensures
        forall|i: int|
            0 <= i < offsets.len() && slot_valid(#[trigger] offsets[i], age1) ==> slot_valid(
                offsets[i],
                age2,
            ),
{
}

/// With several records inside the tolerance window of one target, the scan
/// selects the oldest qualifying record, never a later (possibly
/// time-closer) one: the chosen record stands no later in the buffer than
/// any qualifying record.
pub proof fn lemma_first_match_tie_break(
    samps: Seq<SampleRecord>,
    now_ms: int,
    target_ms: int,
    tol_ms: int,
    row: Seq<u16>,
    j1: int,
    j2: int,
)
    requires
        row_ok(samps, now_ms, target_ms, tol_ms, row),
        0 <= j1 < j2 < samps.len(),
        in_tol(now_ms, samps[j1].t_ms as int, target_ms, tol_ms),
        in_tol(now_ms, samps[j2].t_ms as int, target_ms, tol_ms),
    ensures
        exists|j: int|
            0 <= j <= j1 && #[trigger] in_tol(now_ms, samps[j].t_ms as int, target_ms, tol_ms)
                && row == samps[j].vals@,
{
    let j = choose|j: int|
        0 <= j < samps.len() && #[trigger] in_tol(now_ms, samps[j].t_ms as int, target_ms, tol_ms)
            && row == samps[j].vals@ && (forall|k: int|
            0 <= k < j ==> !in_tol(now_ms, samps[k].t_ms as int, target_ms, tol_ms));
    assert(j <= j1);
}

/// A target with no record inside tolerance yields the sentinel row, never
/// a stale or extrapolated value, even when the validity mask says coverage
/// exists that far back.
pub proof fn lemma_sentinel_when_no_match(
    samps: Seq<SampleRecord>,
    now_ms: int,
    target_ms: int,
    tol_ms: int,
    row: Seq<u16>,
)
    requires
        row_ok(samps, now_ms, target_ms, tol_ms, row),
        forall|j: int|
            0 <= j < samps.len() ==> !in_tol(now_ms, samps[j].t_ms as int, target_ms, tol_ms),
    ensures
        row == sentinel_row(),
{
}

} // verus!
