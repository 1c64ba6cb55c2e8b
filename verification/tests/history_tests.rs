use mt_relay::history::HistoryBuffer;
use mt_relay::history::SampleRecord;

fn rec(t_ms: u64, v: u16) -> SampleRecord {
    SampleRecord { t_ms, vals: [v, v, v] }
}

#[test]
fn eviction_keeps_the_most_recent_target_count() {
    let mut buf = HistoryBuffer::new(5, 3);
    for t in 0..7u64 {
        buf.append(rec(t * 100, t as u16));
        buf.evict_if_needed();
    }
    // 7 appends with a threshold of 5: the last eviction ran at length 6
    // and kept the 3 most recent records, then one more was appended.
    assert_eq!(buf.samps.len(), 4);
    let times: Vec<u64> = buf.samps.iter().map(|r| r.t_ms).collect();
    assert_eq!(times, vec![300, 400, 500, 600]);
}

#[test]
fn eviction_drains_to_exactly_the_flush_target() {
    let mut buf = HistoryBuffer::new(5, 3);
    for t in 0..6u64 {
        buf.append(rec(t, t as u16));
    }
    assert_eq!(buf.samps.len(), 6);
    buf.evict_if_needed();
    assert_eq!(buf.samps.len(), 3);
    let kept: Vec<(u64, u16)> = buf.samps.iter().map(|r| (r.t_ms, r.vals[0])).collect();
    assert_eq!(kept, vec![(3, 3), (4, 4), (5, 5)]);
}

#[test]
fn eviction_leaves_a_small_buffer_alone() {
    let mut buf = HistoryBuffer::new(5, 3);
    for t in 0..5u64 {
        buf.append(rec(t, t as u16));
    }
    buf.evict_if_needed();
    assert_eq!(buf.samps.len(), 5);
    assert_eq!(buf.samps[0].t_ms, 0);
}
