use near_rust_allocator_proxy::counters::{
    bucket_for, counters_report, thread_memory_count, thread_memory_usage, total_memory_usage,
    BucketUsage, UsageCounters, COUNTERS_SIZE,
};

#[test]
fn bucket_wraps_at_table_size() {
    assert_eq!(bucket_for(5), 5);
    assert_eq!(bucket_for(COUNTERS_SIZE + 5), 5);
    assert_eq!(bucket_for(COUNTERS_SIZE), 0);
}

#[test]
fn alloc_adds_exactly_its_size() {
    let mut c = UsageCounters::new();
    assert_eq!(total_memory_usage(&c), 0);
    assert_eq!(c.account_alloc(7, 100), 100);
    assert_eq!(total_memory_usage(&c), 100);
    assert_eq!(c.account_alloc(7, 28), 128);
    assert_eq!(c.account_alloc(9, 1), 1);
    assert_eq!(total_memory_usage(&c), 129);
    assert_eq!(thread_memory_usage(&c, 7), 128);
    assert_eq!(thread_memory_count(&c, 7), 2);
    assert_eq!(thread_memory_count(&c, 9), 1);
}

#[test]
fn alloc_then_free_restores_totals() {
    let mut c = UsageCounters::new();
    c.account_alloc(3, 50);
    let before_total = total_memory_usage(&c);
    let before_count = thread_memory_count(&c, 3);
    c.account_alloc(3, 4096);
    assert!(c.account_free(3, 4096));
    assert_eq!(total_memory_usage(&c), before_total);
    assert_eq!(thread_memory_count(&c, 3), before_count);
    assert_eq!(thread_memory_usage(&c, 3), 50);
}

#[test]
fn threads_sharing_a_bucket_share_counters() {
    let mut c = UsageCounters::new();
    c.account_alloc(1, 10);
    c.account_alloc(1 + COUNTERS_SIZE, 20);
    assert_eq!(thread_memory_usage(&c, 1), 30);
    assert_eq!(thread_memory_count(&c, 1 + COUNTERS_SIZE), 2);
}

#[test]
fn free_of_unaccounted_block_is_refused() {
    let mut c = UsageCounters::new();
    assert!(!c.account_free(3, 1));
    c.account_alloc(3, 10);
    assert!(!c.account_free(3, 11));
    assert_eq!(total_memory_usage(&c), 10);
    assert!(c.account_free(3, 10));
    assert!(!c.account_free(3, 0));
}

#[test]
fn report_lists_nonempty_buckets() {
    let mut c = UsageCounters::new();
    c.account_alloc(20, 5);
    c.account_alloc(2, 7);
    c.account_alloc(2, 1);
    let r = counters_report(&c);
    assert_eq!(
        r.buckets,
        vec![
            BucketUsage { index: 2, count: 2, size: 8 },
            BucketUsage { index: 20, count: 1, size: 5 },
        ]
    );
    assert_eq!(r.total_count, 3);
    assert_eq!(r.total_size, 13);
}
