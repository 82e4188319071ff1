use tmez::history::{push_sample, record_series, MAX_POINTS};

#[test]
fn history_keeps_newest() {
    let mut h: Vec<u32> = Vec::new();
    for k in 0..200u32 {
        push_sample(&mut h, k);
        assert!(h.len() <= MAX_POINTS);
        assert_eq!(*h.last().unwrap(), k);
    }
    let expected: Vec<u32> = (120..200).collect();
    assert_eq!(h, expected);
}

#[test]
fn overfull_history_shrinks_by_none() {
    let mut h: Vec<u32> = (0..90).collect();
    push_sample(&mut h, 90);
    assert_eq!(h.len(), 90);
    assert_eq!(h[0], 1);
}

#[test]
fn series_are_recorded() {
    let mut hs: Vec<Vec<u8>> = vec![vec![1], vec![2, 3]];
    record_series(&mut hs, &vec![7, 8]);
    assert_eq!(hs, vec![vec![1, 7], vec![2, 3, 8]]);
    record_series(&mut hs, &vec![9, 9, 9]);
    assert_eq!(hs, vec![vec![9], vec![9], vec![9]]);
    record_series(&mut hs, &vec![]);
    assert!(hs.is_empty());
}
