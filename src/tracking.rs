//! State that each thread keeps for itself: its id, the re-entrancy guard,
//! its peak usage, the watermark of the last spike report and the counter
//! that drives the sampling of small allocations.
use vstd::prelude::*;
use crate::counters::{bucket_spec, UsageCounters};
use crate::sampler::{murmur64, murmur64_spec};

verus! {

/// Allocations of at least this many bytes always have their stack sampled.
pub const MIN_BLOCK_SIZE: usize = 1000;

/// Percentage of smaller allocations whose stack is sampled.
pub const SMALL_BLOCK_TRACE_PROBABILITY: u64 = 1;

/// Per-thread state. A thread only ever touches its own.
#[derive(Clone, Copy, Debug, PartialEq, Eq, Structural)]
pub struct ThreadState {
    /// The thread's id, or 0 while it has not been looked up.
    pub tid: usize,
    /// Set while the thread samples its stack or reports a spike; any
    /// allocation made meanwhile skips both.
    pub in_trace: bool,
    /// Highest bucket usage seen by this thread since the last reset.
    pub peak: usize,
    /// Bucket usage at the last spike report.
    pub last_report: usize,
    /// Number of sampling decisions taken so far, modulo 2^64.
    pub alloc_count: u64,
}

/// Whether an allocation of `size` bytes, decided with counter value
/// `count`, has its stack sampled.
pub open spec fn sampled_spec(size: usize, count: u64) -> bool {
    size >= MIN_BLOCK_SIZE || murmur64_spec(count) % 100 < SMALL_BLOCK_TRACE_PROBABILITY
}

/// Relies on nix::unistd::gettid: the kernel's id of the calling thread.
/// The call always succeeds (gettid(2)), and Linux thread ids, like process
/// ids, are positive, so the id is never 0.
#[verifier::external_body]
fn os_thread_id() -> (r: usize)
    ensures
        r != 0,
{
    nix::unistd::gettid().as_raw() as usize
}

impl ThreadState {
    /// The state of a thread that has not allocated yet.
    pub fn new() -> (r: ThreadState)
        ensures
            r == (ThreadState { tid: 0, in_trace: false, peak: 0, last_report: 0, alloc_count: 0 }),
    {
        ThreadState { tid: 0, in_trace: false, peak: 0, last_report: 0, alloc_count: 0 }
    }
}

/// The calling thread's id, looked up once and kept in `thread`: later
/// calls on the same state return the same id.
pub fn get_tid(thread: &mut ThreadState) -> (r: usize)
    ensures
        r != 0,
        old(thread).tid != 0 ==> r == old(thread).tid && *final(thread) == *old(thread),
        final(thread).tid == r,
        *final(thread) == (ThreadState { tid: r, ..*old(thread) }),
{
    if thread.tid == 0 {
        thread.tid = os_thread_id();
    }
    thread.tid
}

/// Bytes allocated by the bucket of the calling thread.
pub fn current_thread_memory_usage(thread: &mut ThreadState, counters: &UsageCounters) -> (r:
    usize)
    requires
        counters.wf(),
    ensures
        *final(thread) == (ThreadState { tid: final(thread).tid, ..*old(thread) }),
        final(thread).tid != 0,
        old(thread).tid != 0 ==> final(thread).tid == old(thread).tid,
        r == counters@.sizes[bucket_spec(final(thread).tid)],
{
    let tid = get_tid(thread);
    counters.bucket_bytes(tid)
}

/// The calling thread's peak usage since the last reset.
pub fn current_thread_peak_memory_usage(thread: &ThreadState) -> (r: usize)
    ensures
        r == thread.peak,
{
    thread.peak
}

/// Restarts peak tracking from the thread's current usage.
pub fn reset_memory_usage_max(thread: &mut ThreadState, counters: &UsageCounters)
    requires
        counters.wf(),
    ensures
        final(thread).tid != 0,
        old(thread).tid != 0 ==> final(thread).tid == old(thread).tid,
        final(thread).peak == counters@.sizes[bucket_spec(final(thread).tid)],
        *final(thread) == (ThreadState { tid: final(thread).tid, peak: final(thread).peak, ..*old(thread) }),
{
    let usage = current_thread_memory_usage(thread, counters);
    thread.peak = usage;
}

/// Takes note of the thread's bucket usage after an allocation: raises the
/// peak, and decides whether a spike report is due. A report is due when the
/// usage exceeds the last reported watermark by more than `interval` and no
/// sampling or report is under way on this thread. Then the watermark moves
/// to `usage`, the guard is set (the caller clears it with `end_trace` once
/// the report is out) and `Some(usage)` is returned.
pub fn note_usage(thread: &mut ThreadState, usage: usize, interval: usize) -> (r: Option<usize>)
    ensures
        final(thread).peak == if usage > old(thread).peak { usage } else { old(thread).peak },
        final(thread).peak >= old(thread).peak,
        final(thread).tid == old(thread).tid,
        final(thread).alloc_count == old(thread).alloc_count,
        r is Some <==> (!old(thread).in_trace && usage > old(thread).last_report && usage
            - old(thread).last_report > interval),
        r is Some ==> r == Some(usage) && final(thread).last_report == usage
            && final(thread).in_trace,
        r is None ==> final(thread).last_report == old(thread).last_report
            && final(thread).in_trace == old(thread).in_trace,
{
    let mut report: Option<usize> = None;
    if !thread.in_trace && usage > thread.last_report && usage - thread.last_report > interval {
        thread.in_trace = true;
        thread.last_report = usage;
        report = Some(usage);
    }
    if usage > thread.peak {
        thread.peak = usage;
    }
    report
}

/// Clears the re-entrancy guard.
pub fn end_trace(thread: &mut ThreadState)
    ensures
        *final(thread) == (ThreadState { in_trace: false, ..*old(thread) }),
{
    thread.in_trace = false;
}

/// Whether an allocation has its stack sampled: every allocation of at least `MIN_BLOCK_SIZE` bytes
/// passes, and a smaller one passes when the hash of the thread's decision
/// counter falls in the sampled percentage. The counter moves on by one.
pub fn should_sample(thread: &mut ThreadState, size: usize) -> (r: bool)
    ensures
        r == sampled_spec(size, old(thread).alloc_count),
        size >= MIN_BLOCK_SIZE ==> r,
        *final(thread) == (ThreadState {
            alloc_count: old(thread).alloc_count.wrapping_add(1),
            ..*old(thread)
        }),
{
    let count = thread.alloc_count;
    thread.alloc_count = count.wrapping_add(1);
    size >= MIN_BLOCK_SIZE || murmur64(count) % 100 < SMALL_BLOCK_TRACE_PROBABILITY
}

} // verus!
