use tmez::counters::{sum_counters, DiskCounters, NetCounters};

#[test]
fn sums_of_counters() {
    assert_eq!(sum_counters(&vec![]), Some(0));
    assert_eq!(sum_counters(&vec![1, 2, 3]), Some(6));
    assert_eq!(sum_counters(&vec![u64::MAX, 0]), Some(u64::MAX));
    assert_eq!(sum_counters(&vec![u64::MAX, 1]), None);
}

#[test]
fn network_deltas() {
    let mut c = NetCounters::new();
    assert_eq!(c.observe(1000, 500), None);
    assert_eq!(c.observe(1500, 700), Some((500, 200)));
    // Counters that went back (an adapter vanished) count as no bytes.
    assert_eq!(c.observe(1200, 900), Some((0, 200)));
    assert_eq!(c.prev_rx, 1200);
    assert_eq!(c.prev_tx, 900);
    // Nothing received yet: no rate.
    let mut z = NetCounters::new();
    assert_eq!(z.observe(0, 10), None);
    assert_eq!(z.observe(0, 20), None);
}

#[test]
fn disk_readings() {
    let mut c = DiskCounters::new(2);
    let o = c.observe(&vec![10, 0], &vec![1, 2]);
    assert!(!o.resized);
    assert_eq!(o.rates_ready, vec![false, false]);
    assert_eq!((o.total_read, o.total_write), (10, 3));
    assert!(!o.totals_ready);
    let o = c.observe(&vec![5, 7], &vec![0, 0]);
    assert_eq!(o.rates_ready, vec![true, false]);
    assert!(o.totals_ready);
    assert_eq!(o.total_read, 12);
    // A third disk appears: everything per disk starts over.
    let o = c.observe(&vec![1, 2, 3], &vec![4, 5, 6]);
    assert!(o.resized);
    assert_eq!(o.rates_ready, vec![false, false, false]);
    assert!(o.totals_ready);
    assert_eq!((o.total_read, o.total_write), (6, 15));
}
