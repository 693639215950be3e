use near_rust_allocator_proxy::config::AllocatorConfig;
use near_rust_allocator_proxy::counters::{total_memory_usage, thread_memory_count, UsageCounters};
use near_rust_allocator_proxy::header::{AllocHeader, MISSING_TRACE, SKIPPED_TRACE};
use near_rust_allocator_proxy::proxy::{
    begin_sampling, frame_without_walk, record_alloc, record_dealloc, DeallocError, MyAllocator,
    Sampling,
};
use near_rust_allocator_proxy::tracking::ThreadState;

#[test]
fn allocator_keeps_inner() {
    let a = MyAllocator::new(5u8);
    assert_eq!(a.inner, 5);
}

#[test]
fn alloc_then_dealloc_leaves_totals_unchanged() {
    let mut counters = UsageCounters::new();
    let mut thread = ThreadState::new();
    thread.tid = 33;
    let config = AllocatorConfig::default();
    let before = total_memory_usage(&counters);
    let rec = record_alloc(&mut counters, &mut thread, &config, 1 << 20).unwrap();
    assert_eq!(rec.tid, 33);
    assert_eq!(rec.usage, 1 << 20);
    assert_eq!(rec.report, None);
    assert_eq!(total_memory_usage(&counters), before + (1 << 20));
    assert_eq!(thread.peak, 1 << 20);
    let mut h = AllocHeader::allocated(1 << 20, rec.tid as u64, MISSING_TRACE);
    assert_eq!(record_dealloc(&mut counters, &mut h, 1 << 20), Ok(()));
    assert!(h.is_freed());
    assert_eq!(total_memory_usage(&counters), before);
    assert_eq!(thread_memory_count(&counters, 33), 0);
}

#[test]
fn dealloc_charges_the_owner_not_the_freeing_thread() {
    let mut counters = UsageCounters::new();
    let mut owner = ThreadState::new();
    owner.tid = 4;
    let config = AllocatorConfig::default();
    record_alloc(&mut counters, &mut owner, &config, 64).unwrap();
    let mut h = AllocHeader::allocated(64, 4, SKIPPED_TRACE);
    assert_eq!(record_dealloc(&mut counters, &mut h, 64), Ok(()));
    assert_eq!(total_memory_usage(&counters), 0);
}

#[test]
fn double_free_is_refused() {
    let mut counters = UsageCounters::new();
    let mut thread = ThreadState::new();
    thread.tid = 9;
    let config = AllocatorConfig::default();
    record_alloc(&mut counters, &mut thread, &config, 10).unwrap();
    let mut h = AllocHeader::allocated(10, 9, MISSING_TRACE);
    assert_eq!(record_dealloc(&mut counters, &mut h, 10), Ok(()));
    assert_eq!(record_dealloc(&mut counters, &mut h, 10), Err(DeallocError::NotAllocated));
    let mut stray = AllocHeader::allocated(10, 9, MISSING_TRACE);
    assert_eq!(record_dealloc(&mut counters, &mut stray, 10), Err(DeallocError::Unaccounted));
    assert!(stray.is_allocated());
}

#[test]
fn spike_report_is_requested_past_the_interval() {
    let mut counters = UsageCounters::new();
    let mut thread = ThreadState::new();
    thread.tid = 2;
    let config = AllocatorConfig::default().set_report_usage_interval(1000);
    let rec = record_alloc(&mut counters, &mut thread, &config, 1000).unwrap();
    assert_eq!(rec.report, None);
    let rec = record_alloc(&mut counters, &mut thread, &config, 1).unwrap();
    assert_eq!(rec.report, Some(1001));
    assert!(thread.in_trace);
}

#[test]
fn sampling_respects_switch_guard_and_size() {
    let on = AllocatorConfig::default();
    let off = AllocatorConfig::default().enable_stack_trace(false);
    let mut t = ThreadState::new();
    assert_eq!(begin_sampling(&mut t, &off, 5000), Sampling::Guarded);
    assert_eq!(begin_sampling(&mut t, &on, 5000), Sampling::Walk);
    assert!(t.in_trace);
    assert_eq!(begin_sampling(&mut t, &on, 5000), Sampling::Guarded);
    t.in_trace = false;
    t.alloc_count = 1;
    assert_eq!(begin_sampling(&mut t, &on, 8), Sampling::Skipped);
    assert_eq!(frame_without_walk(Sampling::Skipped), SKIPPED_TRACE);
    assert_eq!(frame_without_walk(Sampling::Guarded), MISSING_TRACE);
}

#[test]
fn alloc_fails_when_counters_are_full() {
    let mut counters = UsageCounters::new();
    let mut thread = ThreadState::new();
    thread.tid = 5;
    let config = AllocatorConfig::default();
    assert!(record_alloc(&mut counters, &mut thread, &config, usize::MAX).is_some());
    let mut other = ThreadState::new();
    other.tid = 6;
    assert!(record_alloc(&mut counters, &mut other, &config, 1).is_none());
    assert_eq!(total_memory_usage(&counters), usize::MAX);
    assert_eq!(thread_memory_count(&counters, 6), 0);
}
