//! Per-thread usage accounting: bytes and allocation counts kept in a fixed
//! table of buckets, indexed by thread id modulo the table size.
use vstd::prelude::*;

verus! {

/// Number of buckets. Threads whose ids agree modulo this share a bucket.
pub const COUNTERS_SIZE: usize = 16384;

/// Sum of a sequence of counters.
pub open spec fn seq_sum(s: Seq<usize>) -> int
    decreases s.len(),
{
    if s.len() == 0 {
        0
    } else {
        seq_sum(s.drop_last()) + s.last()
    }
}

/// The abstract content of a counter table.
pub ghost struct UsageView {
    /// Bytes currently allocated, per bucket.
    pub sizes: Seq<usize>,
    /// Live allocations, per bucket.
    pub counts: Seq<usize>,
}

impl UsageView {
    /// Bytes allocated over all buckets.
    pub open spec fn total(self) -> int {
        seq_sum(self.sizes)
    }

    /// The table after an allocation of `size` bytes accounted to `bucket`.
    pub open spec fn after_alloc(self, bucket: int, size: usize) -> UsageView {
        UsageView {
            sizes: self.sizes.update(bucket, (self.sizes[bucket] + size) as usize),
            counts: self.counts.update(bucket, (self.counts[bucket] + 1) as usize),
        }
    }

    /// The table after a block of `size` bytes accounted to `bucket` is freed.
    pub open spec fn after_free(self, bucket: int, size: usize) -> UsageView {
        UsageView {
            sizes: self.sizes.update(bucket, (self.sizes[bucket] - size) as usize),
            counts: self.counts.update(bucket, (self.counts[bucket] - 1) as usize),
        }
    }

    /// Room is left in `bucket` for `size` more bytes without overflow, the
    /// overall total included.
    pub open spec fn can_alloc(self, bucket: int, size: usize) -> bool {
        &&& self.total() + size <= usize::MAX
        &&& self.counts[bucket] < usize::MAX
    }

    /// `bucket` holds at least `size` bytes in at least one allocation.
    pub open spec fn can_free(self, bucket: int, size: usize) -> bool {
        &&& size <= self.sizes[bucket]
        &&& self.counts[bucket] >= 1
    }
}

/// The bucket of thread `tid`.
pub open spec fn bucket_spec(tid: usize) -> int {
    (tid % COUNTERS_SIZE) as int
}

/// The bucket of thread `tid`.
pub fn bucket_for(tid: usize) -> (r: usize)
    ensures
        r == bucket_spec(tid),
        r < COUNTERS_SIZE,
{
    tid % COUNTERS_SIZE
}

/// The table of per-bucket counters, with the running total of bytes.
pub struct UsageCounters {
    mem_size: Vec<usize>,
    mem_cnt: Vec<usize>,
    total: usize,
}

impl View for UsageCounters {
    type V = UsageView;

    closed spec fn view(&self) -> UsageView {
        UsageView { sizes: self.mem_size@, counts: self.mem_cnt@ }
    }
}

impl UsageCounters {
    /// Both tables have one slot per bucket and the total is their sum.
    pub closed spec fn wf(&self) -> bool {
        &&& self.mem_size@.len() == COUNTERS_SIZE
        &&& self.mem_cnt@.len() == COUNTERS_SIZE
        &&& self.total == seq_sum(self.mem_size@)
    }

    /// An empty table.
    pub fn new() -> (r: UsageCounters)
        ensures
            r.wf(),
            r@.sizes == Seq::new(COUNTERS_SIZE as nat, |i: int| 0usize),
            r@.counts == Seq::new(COUNTERS_SIZE as nat, |i: int| 0usize),
    {
        let mut mem_size: Vec<usize> = Vec::new();
        let mut mem_cnt: Vec<usize> = Vec::new();
        let mut i: usize = 0;
        while i < COUNTERS_SIZE
            invariant
                i <= COUNTERS_SIZE,
                mem_size@ == Seq::new(i as nat, |k: int| 0usize),
                mem_cnt@ == Seq::new(i as nat, |k: int| 0usize),
                seq_sum(mem_size@) == 0,
            decreases COUNTERS_SIZE - i,
        {
            proof {
                assert(mem_size@.push(0usize).drop_last() =~= mem_size@);
            }
            mem_size.push(0);
            mem_cnt.push(0);
            i = i + 1;
            assert(mem_size@ =~= Seq::new(i as nat, |k: int| 0usize));
            assert(mem_cnt@ =~= Seq::new(i as nat, |k: int| 0usize));
        }
        UsageCounters { mem_size, mem_cnt, total: 0 }
    }

    /// Accounts an allocation of `size` bytes to the bucket of `tid` and
    /// returns that bucket's byte count after the update.
    pub fn account_alloc(&mut self, tid: usize, size: usize) -> (r: usize)
        requires
            old(self).wf(),
            old(self)@.can_alloc(bucket_spec(tid), size),
        ensures
            final(self).wf(),
            final(self)@ == old(self)@.after_alloc(bucket_spec(tid), size),
            final(self)@.total() == old(self)@.total() + size,
            r == final(self)@.sizes[bucket_spec(tid)],
    {
        let b = bucket_for(tid);
        proof {
            lemma_sum_bounds_element(self.mem_size@, b as int);
            lemma_sum_update(self.mem_size@, b as int, (self.mem_size@[b as int] + size) as usize);
        }
        let v = self.mem_size[b] + size;
        let c = self.mem_cnt[b] + 1;
        self.mem_size.set(b, v);
        self.mem_cnt.set(b, c);
        self.total = self.total + size;
        v
    }

    /// Reverses the accounting of a block of `size` bytes owned by the bucket
    /// of `tid`. Returns `false`, with the table unchanged, when that bucket
    /// does not hold such a block: a sign of a double free or a corrupted
    /// header.
    pub fn account_free(&mut self, tid: usize, size: usize) -> (r: bool)
        requires
            old(self).wf(),
        ensures
            final(self).wf(),
            r == old(self)@.can_free(bucket_spec(tid), size),
            r ==> final(self)@ == old(self)@.after_free(bucket_spec(tid), size),
            r ==> final(self)@.total() == old(self)@.total() - size,
            !r ==> final(self)@ == old(self)@,
    {
        let b = bucket_for(tid);
        if self.mem_size[b] < size || self.mem_cnt[b] == 0 {
            return false;
        }
        proof {
            lemma_sum_bounds_element(self.mem_size@, b as int);
            lemma_sum_update(self.mem_size@, b as int, (self.mem_size@[b as int] - size) as usize);
        }
        let v = self.mem_size[b] - size;
        let c = self.mem_cnt[b] - 1;
        self.mem_size.set(b, v);
        self.mem_cnt.set(b, c);
        self.total = self.total - size;
        true
    }

    /// Bytes allocated over all buckets.
    pub fn total(&self) -> (r: usize)
        requires
            self.wf(),
        ensures
            r == self@.total(),
    {
        self.total
    }

    /// Bytes allocated in the bucket of `tid`.
    pub fn bucket_bytes(&self, tid: usize) -> (r: usize)
        requires
            self.wf(),
        ensures
            r == self@.sizes[bucket_spec(tid)],
    {
        self.mem_size[bucket_for(tid)]
    }

    /// Live allocations in the bucket of `tid`.
    pub fn bucket_count(&self, tid: usize) -> (r: usize)
        requires
            self.wf(),
        ensures
            r == self@.counts[bucket_spec(tid)],
    {
        self.mem_cnt[bucket_for(tid)]
    }

    pub proof fn lemma_wf_len(&self)
        requires
            self.wf(),
        ensures
            self@.sizes.len() == COUNTERS_SIZE,
            self@.counts.len() == COUNTERS_SIZE,
            self@.total() <= usize::MAX,
    {
    }
}

/// Bytes allocated by all threads.
pub fn total_memory_usage(counters: &UsageCounters) -> (r: usize)
    requires
        counters.wf(),
    ensures
        r == counters@.total(),
{
    counters.total()
}

/// Bytes allocated by the bucket of thread `tid`.
pub fn thread_memory_usage(counters: &UsageCounters, tid: usize) -> (r: usize)
    requires
        counters.wf(),
    ensures
        r == counters@.sizes[bucket_spec(tid)],
{
    counters.bucket_bytes(tid)
}

/// Live allocations of the bucket of thread `tid`.
pub fn thread_memory_count(counters: &UsageCounters, tid: usize) -> (r: usize)
    requires
        counters.wf(),
    ensures
        r == counters@.counts[bucket_spec(tid)],
{
    counters.bucket_count(tid)
}

/// One non-empty bucket of a counters report.
#[derive(Clone, Copy, Debug, PartialEq, Eq, Structural)]
pub struct BucketUsage {
    pub index: usize,
    pub count: usize,
    pub size: usize,
}

/// The non-empty buckets, in index order, with the sums of their counts and
/// sizes.
pub struct CountersReport {
    pub buckets: Vec<BucketUsage>,
    pub total_count: usize,
    pub total_size: usize,
}

/// Indexes of the buckets below `n` whose byte count is not zero.
pub open spec fn nonzero_buckets(v: UsageView, n: int) -> Seq<BucketUsage>
    decreases n,
{
    if n <= 0 {
        Seq::empty()
    } else if v.sizes[n - 1] != 0 {
        nonzero_buckets(v, n - 1).push(
            BucketUsage { index: (n - 1) as usize, count: v.counts[n - 1], size: v.sizes[n - 1] },
        )
    } else {
        nonzero_buckets(v, n - 1)
    }
}

/// Sum of the counts of a sequence of bucket rows.
pub open spec fn rows_count(s: Seq<BucketUsage>) -> int
    decreases s.len(),
{
    if s.len() == 0 {
        0
    } else {
        rows_count(s.drop_last()) + s.last().count
    }
}

/// Sum of the sizes of a sequence of bucket rows.
pub open spec fn rows_size(s: Seq<BucketUsage>) -> int
    decreases s.len(),
{
    if s.len() == 0 {
        0
    } else {
        rows_size(s.drop_last()) + s.last().size
    }
}

/// The rows of a counters dump: each non-empty bucket and the totals. The
/// sums saturate at `usize::MAX`.
pub fn counters_report(counters: &UsageCounters) -> (r: CountersReport)
    requires
        counters.wf(),
    ensures
        r.buckets@ == nonzero_buckets(counters@, COUNTERS_SIZE as int),
        r.total_size == rows_size(r.buckets@),
        rows_count(r.buckets@) <= usize::MAX ==> r.total_count == rows_count(r.buckets@),
        rows_count(r.buckets@) > usize::MAX ==> r.total_count == usize::MAX,
{
    let mut buckets: Vec<BucketUsage> = Vec::new();
    let mut total_count: usize = 0;
    let mut total_size: usize = 0;
    let mut i: usize = 0;
    proof {
        counters.lemma_wf_len();
    }
    while i < COUNTERS_SIZE
        invariant
            counters.wf(),
            counters@.sizes.len() == COUNTERS_SIZE,
            counters@.counts.len() == COUNTERS_SIZE,
            i <= COUNTERS_SIZE,
            buckets@ == nonzero_buckets(counters@, i as int),
            total_size == rows_size(buckets@),
            rows_size(buckets@) <= seq_sum(counters@.sizes.subrange(0, i as int)),
            rows_count(buckets@) <= usize::MAX ==> total_count == rows_count(buckets@),
            rows_count(buckets@) > usize::MAX ==> total_count == usize::MAX,
            seq_sum(counters@.sizes) <= usize::MAX,
        decreases COUNTERS_SIZE - i,
    {
        let size = counters.bucket_bytes(i);
        proof {
            let s = counters@.sizes;
            assert(s.subrange(0, i + 1).drop_last() =~= s.subrange(0, i as int));
            lemma_prefix_sum_bounded(s, i + 1);
        }
        if size != 0 {
            let count = counters.bucket_count(i);
            let row = BucketUsage { index: i, count, size };
            proof {
                assert(buckets@.push(row).drop_last() =~= buckets@);
            }
            buckets.push(row);
            total_count = total_count.saturating_add(count);
            total_size = total_size + size;
        }
        i = i + 1;
    }
    proof {
        assert(counters@.sizes.subrange(0, COUNTERS_SIZE as int) =~= counters@.sizes);
    }
    CountersReport { buckets, total_count, total_size }
}

/// A prefix of non-negative counters sums to no more than the whole.
proof fn lemma_prefix_sum_bounded(s: Seq<usize>, n: int)
    requires
        0 <= n <= s.len(),
    ensures
        seq_sum(s.subrange(0, n)) <= seq_sum(s),
    decreases s.len() - n,
{
    if n < s.len() {
        lemma_prefix_sum_bounded(s, n + 1);
        assert(s.subrange(0, n + 1).drop_last() =~= s.subrange(0, n));
    } else {
        assert(s.subrange(0, n) =~= s);
    }
}

/// One counter is bounded by the sum.
pub proof fn lemma_sum_bounds_element(s: Seq<usize>, i: int)
    requires
        0 <= i < s.len(),
    ensures
        s[i] <= seq_sum(s),
        seq_sum(s) >= 0,
    decreases s.len(),
{
    lemma_sum_nonneg(s.drop_last());
    if i < s.len() - 1 {
        lemma_sum_bounds_element(s.drop_last(), i);
    }
}

/// A sum of counters is never negative.
pub proof fn lemma_sum_nonneg(s: Seq<usize>)
    ensures
        seq_sum(s) >= 0,
    decreases s.len(),
{
    if s.len() > 0 {
        lemma_sum_nonneg(s.drop_last());
    }
}

/// Changing one counter changes the sum by the difference.
pub proof fn lemma_sum_update(s: Seq<usize>, i: int, v: usize)
    requires
        0 <= i < s.len(),
    ensures
        seq_sum(s.update(i, v)) == seq_sum(s) - s[i] + v,
    decreases s.len(),
{
    let t = s.update(i, v);
    if i == s.len() - 1 {
        assert(t.drop_last() =~= s.drop_last());
    } else {
        lemma_sum_update(s.drop_last(), i, v);
        assert(t.drop_last() =~= s.drop_last().update(i, v));
    }
}

/// An allocation followed by the free of the same block leaves every bucket,
/// and so the total, as it was.
pub proof fn lemma_alloc_free_restores(v: UsageView, bucket: int, size: usize)
    requires
        0 <= bucket < v.sizes.len(),
        v.sizes.len() == v.counts.len(),
        v.can_alloc(bucket, size),
    ensures
        v.after_alloc(bucket, size).can_free(bucket, size),
        v.after_alloc(bucket, size).after_free(bucket, size) == v,
        v.after_alloc(bucket, size).after_free(bucket, size).total() == v.total(),
{
    lemma_sum_bounds_element(v.sizes, bucket);
    let a = v.after_alloc(bucket, size);
    assert(a.after_free(bucket, size).sizes =~= v.sizes);
    assert(a.after_free(bucket, size).counts =~= v.counts);
}

/// An allocation raises the total by exactly its size.
pub proof fn lemma_alloc_adds_size(v: UsageView, bucket: int, size: usize)
    requires
        0 <= bucket < v.sizes.len(),
        v.can_alloc(bucket, size),
    ensures
        v.after_alloc(bucket, size).total() == v.total() + size,
{
    lemma_sum_bounds_element(v.sizes, bucket);
    lemma_sum_update(v.sizes, bucket, (v.sizes[bucket] + size) as usize);
}

} // verus!
