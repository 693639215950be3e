use near_rust_allocator_proxy::counters::UsageCounters;
use near_rust_allocator_proxy::tracking::{
    current_thread_memory_usage, current_thread_peak_memory_usage, end_trace, get_tid, note_usage,
    reset_memory_usage_max, should_sample, ThreadState, MIN_BLOCK_SIZE,
};

#[test]
fn tid_is_looked_up_once() {
    let mut t = ThreadState::new();
    let first = get_tid(&mut t);
    assert_ne!(first, 0);
    assert_eq!(t.tid, first);
    assert_eq!(get_tid(&mut t), first);
    let mut u = ThreadState::new();
    u.tid = 77;
    assert_eq!(get_tid(&mut u), 77);
}

#[test]
fn usage_and_peak_follow_the_bucket() {
    let mut c = UsageCounters::new();
    let mut t = ThreadState::new();
    t.tid = 12;
    c.account_alloc(12, 300);
    assert_eq!(current_thread_memory_usage(&mut t, &c), 300);
    assert_eq!(current_thread_peak_memory_usage(&t), 0);
    reset_memory_usage_max(&mut t, &c);
    assert_eq!(current_thread_peak_memory_usage(&t), 300);
}

#[test]
fn spike_is_reported_past_the_interval() {
    let mut t = ThreadState::new();
    assert_eq!(note_usage(&mut t, 100, 100), None);
    assert_eq!(t.peak, 100);
    assert_eq!(note_usage(&mut t, 101, 100), Some(101));
    assert!(t.in_trace);
    assert_eq!(t.last_report, 101);
    // While the report is under way no other is made.
    assert_eq!(note_usage(&mut t, 1000, 100), None);
    assert_eq!(t.peak, 1000);
    end_trace(&mut t);
    assert!(!t.in_trace);
    assert_eq!(note_usage(&mut t, 201, 100), None);
    assert_eq!(note_usage(&mut t, 202, 100), Some(202));
    assert_eq!(t.peak, 1000);
}

#[test]
fn spike_with_largest_interval_never_reported() {
    let mut t = ThreadState::new();
    assert_eq!(note_usage(&mut t, usize::MAX, usize::MAX), None);
    assert_eq!(t.peak, usize::MAX);
}

#[test]
fn large_allocations_are_always_sampled() {
    let mut t = ThreadState::new();
    for _ in 0..1000 {
        assert!(should_sample(&mut t, MIN_BLOCK_SIZE));
    }
    assert_eq!(t.alloc_count, 1000);
}

#[test]
fn small_allocations_sampled_by_counter_hash() {
    let mut t = ThreadState::new();
    // The hash of counter 0 is 0, in the sampled percentage; that of 1 is not.
    assert!(should_sample(&mut t, 8));
    assert!(!should_sample(&mut t, 8));
    t.alloc_count = 139;
    assert!(should_sample(&mut t, 8));
    let mut passed = 0;
    let mut u = ThreadState::new();
    for _ in 0..100000 {
        if should_sample(&mut u, 8) {
            passed += 1;
        }
    }
    assert!(passed > 500 && passed < 1500);
}
