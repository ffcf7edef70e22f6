use barrier_coord::throughput::{
    TableWriteThroughputStatistic, TableWriteThroughputStatisticManager,
};

fn stat(throughput: u64, timestamp_secs: i64) -> TableWriteThroughputStatistic {
    TableWriteThroughputStatistic {
        throughput,
        timestamp_secs,
    }
}

#[test]
fn expired_samples_are_dropped() {
    let mut m = TableWriteThroughputStatisticManager::new(10);
    m.add_table_throughput_with_ts(1, 100, 0);
    m.add_table_throughput_with_ts(1, 200, 5);
    m.add_table_throughput_with_ts(2, 300, 5);
    assert_eq!(
        m.get_table_throughput_at(1, 100, 5),
        vec![stat(100, 0), stat(200, 5)]
    );
    // At 11, the sample of 0 is more than 10 seconds old.
    m.add_table_throughput_with_ts(1, 400, 11);
    assert_eq!(
        m.get_table_throughput_at(1, 100, 11),
        vec![stat(200, 5), stat(400, 11)]
    );
    assert_eq!(m.get_table_throughput_at(2, 100, 11), vec![stat(300, 5)]);
}

#[test]
fn window_filters_reads() {
    let mut m = TableWriteThroughputStatisticManager::new(100);
    m.add_table_throughput_with_ts(1, 1, 0);
    m.add_table_throughput_with_ts(1, 2, 10);
    m.add_table_throughput_with_ts(1, 3, 20);
    assert_eq!(m.get_table_throughput_at(1, 10, 20), vec![stat(2, 10), stat(3, 20)]);
    assert_eq!(m.get_table_throughput_at(1, 0, 20), vec![stat(3, 20)]);
    assert!(m.get_table_throughput_at(9, 10, 20).is_empty());
}

#[test]
fn sample_older_than_expiry_leaves_table_empty() {
    let mut m = TableWriteThroughputStatisticManager::new(-1);
    m.add_table_throughput_with_ts(1, 5, 7);
    assert!(m.get_table_throughput_at(1, 1000, 7).is_empty());
}
