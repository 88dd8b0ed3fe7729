use spz_sandpile::shape::{build_window_table, ShapeAccumulator};

#[test]
fn window_table_without_width() {
    let groups = vec![vec![3u64, 5], vec![5u64]];
    let table = build_window_table(&groups, 0);
    assert_eq!(table.len(), 6);
    assert_eq!(table[3], vec![(0, 0)]);
    assert_eq!(table[5], vec![(0, 1), (1, 0)]);
    assert!(table[4].is_empty());
    assert!(table[0].is_empty());
}

#[test]
fn window_table_with_width() {
    let groups = vec![vec![1u64, 4]];
    let table = build_window_table(&groups, 2);
    assert_eq!(table.len(), 7);
    assert_eq!(table[0], vec![(0, 0)]);
    assert_eq!(table[2], vec![(0, 0), (0, 1)]);
    assert_eq!(table[3], vec![(0, 0), (0, 1)]);
    assert_eq!(table[6], vec![(0, 1)]);
}

#[test]
fn accumulates_matching_durations() {
    let mut acc = ShapeAccumulator::new(vec![vec![2u64, 3], vec![3u64]], 0, 2);
    acc.record(&vec![1, 2], 2);
    acc.record(&vec![4, 5, 6], 3);
    acc.record(&vec![1, 1, 1, 1], 4);
    acc.record(&vec![2, 2, 2], 3);
    acc.record(&vec![3, 3, 3], 3);
    assert_eq!(acc.num_recorded(), 5);
    assert_eq!(acc.counts(), &vec![vec![1, 3], vec![3]]);
    assert_eq!(acc.sums(), &vec![vec![vec![1, 2], vec![9, 10, 11]], vec![vec![9, 10, 11]]]);
    // group 0 samples duration 2, group 1 samples duration 3 (at most two).
    assert_eq!(acc.samples(), &vec![vec![vec![1, 2]], vec![vec![4, 5, 6], vec![2, 2, 2]]]);
}

#[test]
fn window_clips_to_target_length() {
    let mut acc = ShapeAccumulator::new(vec![vec![2u64]], 1, 7);
    acc.record(&vec![1, 2, 3], 3);
    acc.record(&vec![5], 1);
    assert_eq!(acc.counts(), &vec![vec![2]]);
    assert_eq!(acc.sums(), &vec![vec![vec![6, 2]]]);
    assert!(acc.samples()[0].is_empty());
}
