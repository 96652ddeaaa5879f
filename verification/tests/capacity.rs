use log_writer::capacity::FsStats;

#[test]
fn figures_are_block_size_times_count() {
    let stats = FsStats::from_block_counts(4096, 10, 8, 100).unwrap();
    assert_eq!(stats.free_space, 40_960);
    assert_eq!(stats.available_space, 32_768);
    assert_eq!(stats.total_space, 409_600);
    assert_eq!(stats.allocation_granularity, 4096);
}

#[test]
fn empty_filesystem_has_zero_figures() {
    let stats = FsStats::from_block_counts(512, 0, 0, 0).unwrap();
    assert_eq!(
        stats,
        FsStats { free_space: 0, available_space: 0, total_space: 0, allocation_granularity: 512 }
    );
}

#[test]
fn figures_that_do_not_fit_give_nothing() {
    assert!(FsStats::from_block_counts(u64::MAX, 1, 1, 2).is_none());
    assert!(FsStats::from_block_counts(2, u64::MAX, 1, 1).is_none());
    assert!(FsStats::from_block_counts(2, 1, u64::MAX, 1).is_none());
    assert!(FsStats::from_block_counts(1 << 32, 1, 1, 1 << 32).is_none());
}

#[test]
fn largest_figures_that_fit_are_told() {
    let stats = FsStats::from_block_counts(1, u64::MAX, u64::MAX, u64::MAX).unwrap();
    assert_eq!(stats.total_space, u64::MAX);
    assert_eq!(stats.free_space, u64::MAX);
}
