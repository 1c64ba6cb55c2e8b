use mt_relay::history::HistoryBuffer;
use mt_relay::history::SampleRecord;
use mt_relay::resample::process_samples;
use mt_relay::resample::resample;
use mt_relay::resample::SENTINEL;

fn rec(t_ms: u64, vals: [u16; 3]) -> SampleRecord {
    SampleRecord { t_ms, vals }
}

const SENTINEL_ROW: [u16; 3] = [SENTINEL; 3];

#[test]
fn validity_mask_is_exactly_coverage() {
    // Oldest record is 4500 ms old.
    let samps = vec![rec(500, [1, 1, 1]), rec(4000, [2, 2, 2])];
    let offsets: Vec<u64> = vec![0, 1, 2, 4, 8, 16];
    let (_, mask) = resample(&samps, 5000, &offsets, 750);
    assert_eq!(mask, vec![true, true, true, true, false, false]);
}

#[test]
fn validity_boundary_moves_monotonically_with_age() {
    let offsets: Vec<u64> = vec![0, 1, 2, 4, 8];
    let samps = vec![rec(1000, [1, 1, 1])];
    let (_, early) = resample(&samps, 2000, &offsets, 750);
    let (_, late) = resample(&samps, 6000, &offsets, 750);
    assert_eq!(early, vec![true, true, false, false, false]);
    assert_eq!(late, vec![true, true, true, true, false]);
    for i in 0..offsets.len() {
        // a slot valid early stays valid as the buffer ages
        assert!(!early[i] || late[i]);
    }
}

#[test]
fn tie_break_selects_the_older_record_not_the_nearer() {
    // Target 1000 ms, tolerance 750 ms: both records qualify (ages 1700 and
    // 1050 ms), and the newer one is much closer to the target.
    let older = rec(300, [10, 10, 10]);
    let newer = rec(950, [20, 20, 20]);
    let samps = vec![older, newer];
    let offsets: Vec<u64> = vec![1];
    let (matrix, mask) = resample(&samps, 2000, &offsets, 750);
    assert_eq!(mask, vec![true]);
    assert_eq!(matrix[0], [10, 10, 10]);
}

#[test]
fn valid_slot_without_a_match_keeps_the_sentinel() {
    // The only record is 5000 ms old: offset 1 s is valid (coverage exists)
    // but nothing lies within 750 ms of the target.
    let samps = vec![rec(0, [7, 7, 7])];
    let offsets: Vec<u64> = vec![0, 1];
    let (matrix, mask) = resample(&samps, 5000, &offsets, 750);
    assert_eq!(mask, vec![true, true]);
    assert_eq!(matrix[0], SENTINEL_ROW);
    assert_eq!(matrix[1], SENTINEL_ROW);
}

#[test]
fn end_to_end_two_line_scenario() {
    // First line arrives, then a second 1.2 s later; lookbacks 0,1,2,...
    let mut buf = HistoryBuffer::new(1500, 1025);
    let offsets: Vec<u64> = vec![0, 1, 2, 4, 8, 16];
    buf.append(rec(0, [0x1606, 0x1665, 0x1314]));
    buf.append(rec(1200, [0x1600, 0x1660, 0x1310]));
    let (matrix, mask) = process_samples(&mut buf, 1200, &offsets, 750);
    // slot 0 (offset 0 s): the fresh sample
    assert_eq!(matrix[0], [0x1600, 0x1660, 0x1310]);
    // slot 1 (offset 1 s): the earlier sample, 1.2 s old, within 750 ms
    assert_eq!(matrix[1], [0x1606, 0x1665, 0x1314]);
    // offsets at or past the oldest record's age stay invalid and sentinel
    assert_eq!(mask, vec![true, true, false, false, false, false]);
    for i in 2..offsets.len() {
        assert_eq!(matrix[i], SENTINEL_ROW);
    }
}

#[test]
fn process_samples_evicts_before_resampling() {
    let mut buf = HistoryBuffer::new(5, 3);
    for t in 0..6u64 {
        buf.append(rec(t * 1000, [t as u16; 3]));
    }
    let offsets: Vec<u64> = vec![0, 8];
    let (matrix, mask) = process_samples(&mut buf, 5000, &offsets, 750);
    // the drain kept records at 3000, 4000, 5000 ms, so the oldest is
    // 2000 ms old and the 8 s lookback is no longer covered
    assert_eq!(buf.samps.len(), 3);
    assert_eq!(buf.samps[0].t_ms, 3000);
    assert_eq!(mask, vec![true, false]);
    assert_eq!(matrix[0], [5, 5, 5]);
    assert_eq!(matrix[1], SENTINEL_ROW);
}
