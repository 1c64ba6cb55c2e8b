//! One ingestion cycle: everything the relay does with a received line
//! short of reading it and publishing the snapshot.
//!
//! A malformed line or an incomplete sensor set drops the sample and leaves
//! the buffer untouched; a good line is appended, the buffer is drained if
//! over threshold, and the history matrix and validity mask are recomputed.

use vstd::prelude::*;
use crate::history::{HistoryBuffer, SampleRecord};
use crate::parse::{map_to_canonical, map_tr_to_arr, parse_line, string_to_temps};
use crate::resample::{oldest_age_ms, process_samples, row_ok, sentinel_row, slot_valid, MAX_OFFSET_S};

verus! {

/// Run one cycle on a trimmed line: parse, reorder, append, evict if
/// needed, resample.
///
/// Returns `None`, with the buffer untouched, exactly when the line fails
/// to parse or the canonical reordering fails; otherwise the new record
/// (stamped `now_ms`, holding the canonical values) is the newest in the
/// buffer, older records stand as the eviction policy leaves them, and the
/// returned matrix and mask are the resampling of the post-eviction buffer.
pub fn ingest_line(
    buf: &mut HistoryBuffer,
    line: &str,
    now_ms: u64,
    addr_arr: [u8; 3],
    offsets: &Vec<u64>,
    tol_ms: u64,
) -> (r: Option<(Vec<[u16; 3]>, Vec<bool>)>)
    requires
        old(buf).wf(),
        old(buf).samps@.len() < usize::MAX,
        old(buf).samps@.len() > 0 ==> old(buf).samps@.last().t_ms <= now_ms,
        forall|i: int| 0 <= i < offsets@.len() ==> #[trigger] offsets@[i] <= MAX_OFFSET_S,
    ensures
        final(buf).wf(),
        final(buf).t_high == old(buf).t_high,
        final(buf).t_low == old(buf).t_low,
        r is Some <==> (parse_line(line@) is Some && map_to_canonical(
            parse_line(line@)->Some_0,
            addr_arr@,
        ) is Some),
        r is None ==> *final(buf) == *old(buf),
        r is Some ==> ({
            let vals = map_to_canonical(parse_line(line@)->Some_0, addr_arr@)->Some_0;
            let s = final(buf).samps@;
            let n1 = old(buf).samps@.len() + 1;
            &&& s.len() > 0
            &&& s.last().t_ms == now_ms
            &&& s.last().vals@ == vals
            &&& (n1 > old(buf).t_high ==> s.drop_last() == old(buf).samps@.subrange(
                n1 - old(buf).t_low,
                n1 - 1,
            ))
            &&& (n1 <= old(buf).t_high ==> s.drop_last() == old(buf).samps@)
        }),
        r is Some ==> ({
            let (matrix, mask) = r->Some_0;
            let s = final(buf).samps@;
            &&& matrix@.len() == offsets@.len()
            &&& mask@.len() == offsets@.len()
            &&& (forall|i: int|
                0 <= i < offsets@.len() ==> mask@[i] == slot_valid(
                    #[trigger] offsets@[i],
                    oldest_age_ms(s, now_ms as int),
                ))
            &&& (forall|i: int|
                0 <= i < offsets@.len() && mask@[i] ==> row_ok(
                    s,
                    now_ms as int,
                    #[trigger] offsets@[i] * 1000,
                    tol_ms as int,
                    matrix@[i]@,
                ))
            &&& (forall|i: int|
                0 <= i < offsets@.len() && !mask@[i] ==> #[trigger] matrix@[i]@ == sentinel_row())
        }),
{
    let pairs = match string_to_temps(line) {
        Some(p) => p,
        None => {
            return None;
        },
    };
    let vals = match map_tr_to_arr(pairs, addr_arr) {
        Some(v) => v,
        None => {
            return None;
        },
    };
    let rec = SampleRecord { t_ms: now_ms, vals };
    let ghost before = buf.samps@;
    buf.append(rec);
    proof {
        assert forall|j: int| 0 <= j < buf.samps@.len() implies #[trigger] buf.samps@[j].t_ms
            <= now_ms by {
            if j < buf.samps@.len() - 1 {
                assert(before[j].t_ms <= before[before.len() - 1].t_ms);
            }
        }
    }
    let (matrix, mask) = process_samples(buf, now_ms, offsets, tol_ms);
    proof {
        let n1 = before.len() + 1;
        let pushed = before.push(rec);
        if n1 > buf.t_high {
            assert(buf.samps@ == pushed.subrange(n1 - buf.t_low, n1 as int));
            assert(buf.samps@.last() == rec);
            assert(buf.samps@.drop_last() =~= before.subrange(n1 - buf.t_low, n1 - 1));
        } else {
            assert(buf.samps@.last() == rec);
            assert(buf.samps@.drop_last() =~= before);
        }
    }
    Some((matrix, mask))
}

} // verus!
