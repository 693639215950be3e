//! The decisions of the allocation proxy. The proxy forwards each request to
//! an inner allocator, enlarged by a header; these functions account the
//! block, decide on spike reports and stack sampling, and retire the header
//! when the block comes back.
use vstd::prelude::*;
use crate::config::AllocatorConfig;
use crate::counters::{bucket_spec, UsageCounters, UsageView};
use crate::header::{
    header_at, header_bytes, lemma_header_round_trip, AllocHeader, MAGIC_ALLOCATED, MAGIC_FREED,
    MISSING_TRACE, SKIPPED_TRACE,
};
use crate::tracking::{sampled_spec, get_tid, note_usage, should_sample, ThreadState};

verus! {

/// The proxy: an inner allocator that does the actual work.
pub struct MyAllocator<A> {
    pub inner: A,
}

impl<A> MyAllocator<A> {
    pub fn new(inner: A) -> (r: MyAllocator<A>)
        ensures
            r.inner == inner,
    {
        MyAllocator { inner }
    }
}

/// What the accounting of one allocation produced.
#[derive(Clone, Copy, Debug, PartialEq, Eq, Structural)]
pub struct AllocRecord {
    /// The allocating thread, whose id goes into the header.
    pub tid: usize,
    /// That thread's bucket usage after the allocation.
    pub usage: usize,
    /// A new watermark to report, with a stack trace, before the guard is
    /// cleared again; `None` when no report is due.
    pub report: Option<usize>,
}

/// Accounts an allocation of `size` bytes to the calling thread: its bucket
/// and the total grow by `size` and its count by one, its peak follows, and
/// a spike report is decided (see `note_usage`). `None`, with the counters
/// unchanged, when the counters have no room left for the block.
pub fn record_alloc(
    counters: &mut UsageCounters,
    thread: &mut ThreadState,
    config: &AllocatorConfig,
    size: usize,
) -> (r: Option<AllocRecord>)
    requires
        old(counters).wf(),
    ensures
        final(counters).wf(),
        final(thread).tid != 0,
        old(thread).tid != 0 ==> final(thread).tid == old(thread).tid,
        final(thread).alloc_count == old(thread).alloc_count,
        r is Some <==> old(counters)@.can_alloc(bucket_spec(final(thread).tid), size),
        r is None ==> final(counters)@ == old(counters)@ && *final(thread) == (ThreadState {
            tid: final(thread).tid,
            ..*old(thread)
        }),
        r is Some ==> {
            let rec = r->0;
            let b = bucket_spec(rec.tid);
            &&& rec.tid == final(thread).tid
            &&& final(counters)@ == old(counters)@.after_alloc(b, size)
            &&& final(counters)@.total() == old(counters)@.total() + size
            &&& rec.usage == final(counters)@.sizes[b]
            &&& final(thread).peak == if rec.usage > old(thread).peak {
                rec.usage
            } else {
                old(thread).peak
            }
            &&& (rec.report is Some <==> (!old(thread).in_trace && rec.usage
                > old(thread).last_report && rec.usage - old(thread).last_report
                > config.report_usage_interval))
            &&& (rec.report is Some ==> rec.report == Some(rec.usage) && final(thread).in_trace
                && final(thread).last_report == rec.usage)
            &&& (rec.report is None ==> final(thread).in_trace == old(thread).in_trace
                && final(thread).last_report == old(thread).last_report)
        },
{
    let tid = get_tid(thread);
    proof {
        counters.lemma_wf_len();
    }
    let total = counters.total();
    let count = counters.bucket_count(tid);
    if total > usize::MAX - size || count == usize::MAX {
        return None;
    }
    let usage = counters.account_alloc(tid, size);
    let report = note_usage(thread, usage, config.report_usage_interval);
    Some(AllocRecord { tid, usage, report })
}

/// How an allocation's frame is to be obtained.
#[derive(Clone, Copy, Debug, PartialEq, Eq, Structural)]
pub enum Sampling {
    /// Sampling is off, or the thread is already inside a sampling or a
    /// report: the frame is `MISSING_TRACE`.
    Guarded,
    /// This allocation is not sampled: its frame is `SKIPPED_TRACE`.
    Skipped,
    /// Walk the stack; the guard is now set, and the caller clears it with
    /// `end_trace` when the walk is over.
    Walk,
}

/// Decides whether the stack of an allocation of `size` bytes is walked.
pub fn begin_sampling(thread: &mut ThreadState, config: &AllocatorConfig, size: usize) -> (r:
    Sampling)
    ensures
        final(thread).tid == old(thread).tid,
        final(thread).peak == old(thread).peak,
        final(thread).last_report == old(thread).last_report,
        (!config.stack_trace || old(thread).in_trace) <==> r == Sampling::Guarded,
        r == Sampling::Guarded ==> *final(thread) == *old(thread),
        r != Sampling::Guarded ==> final(thread).alloc_count == old(thread).alloc_count.wrapping_add(1)
            && (r == Sampling::Walk <==> sampled_spec(size, old(thread).alloc_count)),
        r == Sampling::Walk ==> final(thread).in_trace,
        r == Sampling::Skipped ==> final(thread).in_trace == old(thread).in_trace,
        config.stack_trace && !old(thread).in_trace && size >= crate::tracking::MIN_BLOCK_SIZE
            ==> r == Sampling::Walk,
{
    if !config.stack_trace || thread.in_trace {
        return Sampling::Guarded;
    }
    if should_sample(thread, size) {
        thread.in_trace = true;
        Sampling::Walk
    } else {
        Sampling::Skipped
    }
}

/// The frame value stored for an allocation that was not walked.
pub fn frame_without_walk(s: Sampling) -> (r: u64)
    ensures
        s == Sampling::Skipped ==> r == SKIPPED_TRACE,
        s != Sampling::Skipped ==> r == MISSING_TRACE,
{
    match s {
        Sampling::Skipped => SKIPPED_TRACE,
        _ => MISSING_TRACE,
    }
}

/// Why a returned block was refused.
#[derive(Clone, Copy, Debug, PartialEq, Eq, Structural)]
pub enum DeallocError {
    /// The header is not in the allocated state: a double free, or memory
    /// that the proxy did not hand out.
    NotAllocated,
    /// The owner's bucket does not hold the block: the counters and the
    /// header disagree.
    Unaccounted,
}

/// Retires the header of a block of `size` bytes that comes back, and
/// reverses its accounting in the bucket of the thread recorded in the
/// header, whichever thread frees it. On an error nothing changes.
pub fn record_dealloc(counters: &mut UsageCounters, header: &mut AllocHeader, size: usize) -> (r:
    Result<(), DeallocError>)
    requires
        old(counters).wf(),
    ensures
        final(counters).wf(),
        !old(header).allocated_spec() ==> r == Err::<(), DeallocError>(DeallocError::NotAllocated),
        old(header).allocated_spec() && !old(counters)@.can_free(
            bucket_spec(old(header).tid as usize),
            size,
        ) ==> r == Err::<(), DeallocError>(DeallocError::Unaccounted),
        r is Err ==> final(counters)@ == old(counters)@ && *final(header) == *old(header),
        r is Ok <==> old(header).allocated_spec() && old(counters)@.can_free(
            bucket_spec(old(header).tid as usize),
            size,
        ),
        r is Ok ==> final(counters)@ == old(counters)@.after_free(
            bucket_spec(old(header).tid as usize),
            size,
        ) && final(counters)@.total() == old(counters)@.total() - size && *final(header) == (
        AllocHeader { magic: MAGIC_FREED, ..*old(header) }),
{
    if !header.is_allocated() {
        return Err(DeallocError::NotAllocated);
    }
    let tid = header.tid() as usize;
    if !counters.account_free(tid, size) {
        return Err(DeallocError::Unaccounted);
    }
    header.mark_freed();
    Ok(())
}

/// An allocation followed by the free of the same block leaves every
/// bucket, the counts and the total as they were: the header carries the
/// owner back to the bucket that was charged.
pub proof fn lemma_alloc_then_dealloc_restores(
    v: UsageView,
    tid: usize,
    size: usize,
    frame: u64,
)
    requires
        v.sizes.len() == crate::counters::COUNTERS_SIZE,
        v.counts.len() == crate::counters::COUNTERS_SIZE,
        v.can_alloc(bucket_spec(tid), size),
    ensures
        ({
            let h = AllocHeader { magic: MAGIC_ALLOCATED, size: size as u64, tid: tid as u64, frame };
            let after = v.after_alloc(bucket_spec(tid), size);
            &&& h.allocated_spec()
            &&& bucket_spec(h.tid as usize) == bucket_spec(tid)
            &&& after.can_free(bucket_spec(h.tid as usize), size)
            &&& after.after_free(bucket_spec(h.tid as usize), size) == v
            &&& after.total() == v.total() + size
            &&& after.after_free(bucket_spec(h.tid as usize), size).total() == v.total()
        }),
{
    crate::counters::lemma_alloc_free_restores(v, bucket_spec(tid), size);
    crate::counters::lemma_alloc_adds_size(v, bucket_spec(tid), size);
}

/// A header written for an allocation reads back as allocated, with the
/// requested size, the owner and the frame; once retired it reads back as
/// freed, with the rest unchanged.
pub proof fn lemma_header_lifecycle(size: u64, tid: u64, frame: u64)
    ensures
        ({
            let h = AllocHeader { magic: MAGIC_ALLOCATED, size, tid, frame };
            let f = AllocHeader { magic: MAGIC_FREED, ..h };
            &&& header_at(header_bytes(h), 0).allocated_spec()
            &&& !header_at(header_bytes(h), 0).freed_spec()
            &&& header_at(header_bytes(h), 0).size == size
            &&& header_at(header_bytes(h), 0).tid == tid
            &&& header_at(header_bytes(h), 0).frame == frame
            &&& header_at(header_bytes(f), 0).freed_spec()
            &&& !header_at(header_bytes(f), 0).allocated_spec()
            &&& header_at(header_bytes(f), 0).size == size
        }),
{
    let h = AllocHeader { magic: MAGIC_ALLOCATED, size, tid, frame };
    lemma_header_round_trip(h);
    lemma_header_round_trip(AllocHeader { magic: MAGIC_FREED, ..h });
}

} // verus!
