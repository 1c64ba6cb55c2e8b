use mt_relay::history::HistoryBuffer;
use mt_relay::ingest::ingest_line;

const ADDRS: [u8; 3] = [0x48, 0x49, 0x4A];

#[test]
fn malformed_line_does_not_mutate_the_buffer() {
    let mut buf = HistoryBuffer::new(5, 3);
    let offsets: Vec<u64> = vec![0, 1];
    let r = ingest_line(&mut buf, "not a sample line at all", 100, ADDRS, &offsets, 750);
    assert!(r.is_none());
    assert_eq!(buf.samps.len(), 0);
    // a good sample is buffered, then a malformed line leaves it alone
    let r = ingest_line(&mut buf, "[48:1606][49:1665][4a:1314]", 100, ADDRS, &offsets, 750);
    assert!(r.is_some());
    assert_eq!(buf.samps.len(), 1);
    let r = ingest_line(&mut buf, "[48:16z6][49:1665][4a:1314]", 200, ADDRS, &offsets, 750);
    assert!(r.is_none());
    assert_eq!(buf.samps.len(), 1);
    assert_eq!(buf.samps[0].t_ms, 100);
}

#[test]
fn incomplete_sensor_set_drops_the_sample() {
    let mut buf = HistoryBuffer::new(5, 3);
    let offsets: Vec<u64> = vec![0];
    let r = ingest_line(&mut buf, "[48:1606][49:1665][47:1314]", 0, ADDRS, &offsets, 750);
    assert!(r.is_none());
    assert_eq!(buf.samps.len(), 0);
}

#[test]
fn full_cycle_on_the_example_lines() {
    let mut buf = HistoryBuffer::new(1500, 1025);
    let offsets: Vec<u64> = vec![0, 1, 2, 4];
    let (matrix1, mask1) =
        ingest_line(&mut buf, "[48:1606][49:1665][4a:1314]", 0, ADDRS, &offsets, 750)
            .expect("first line is valid");
    assert_eq!(mask1, vec![true, false, false, false]);
    assert_eq!(matrix1[0], [0x1606, 0x1665, 0x1314]);
    let (matrix2, mask2) =
        ingest_line(&mut buf, "[48:1600][49:1660][4a:1310]", 1200, ADDRS, &offsets, 750)
            .expect("second line is valid");
    assert_eq!(matrix2[0], [0x1600, 0x1660, 0x1310]);
    assert_eq!(matrix2[1], [0x1606, 0x1665, 0x1314]);
    assert_eq!(mask2, vec![true, true, false, false]);
}
