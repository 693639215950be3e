//! Deciding which return address an allocation keeps.
use vstd::prelude::*;
use vstd::string::StringSliceAdditionalSpecFns;
use vstd::utf8::encode_utf8;
use crate::header::{MISSING_TRACE, SKIPPED_TRACE};

verus! {

/// First multiplier of the 64-bit finaliser.
pub const MURMUR_C1: u64 = 0xff51afd7ed558ccd;

/// Second multiplier of the 64-bit finaliser.
pub const MURMUR_C2: u64 = 0xc4ceb9fe1a85ec53;

/// `h ^ (h >> 33)`, the shift-xor step of the finaliser.
pub open spec fn fold_high(h: u64) -> u64 {
    h ^ (h >> 33u64)
}

/// Product of two words modulo 2^64.
pub open spec fn mul_mod64(a: u64, b: u64) -> u64 {
    ((a as nat * b as nat) % 0x1_0000_0000_0000_0000nat) as u64
}

/// The 64-bit finaliser of MurmurHash3.
pub open spec fn murmur64_spec(h: u64) -> u64 {
    fold_high(mul_mod64(fold_high(mul_mod64(fold_high(h), MURMUR_C1)), MURMUR_C2))
}

/// Mixes the bits of `h` so that nearby addresses and counters spread evenly.
pub fn murmur64(h: u64) -> (r: u64)
    ensures
        r == murmur64_spec(h),
{
    let mut h = h;
    h = h ^ (h >> 33u64);
    h = h.wrapping_mul(MURMUR_C1);
    h = h ^ (h >> 33u64);
    h = h.wrapping_mul(MURMUR_C2);
    h = h ^ (h >> 33u64);
    h
}


/// Return addresses at or above this lie outside ordinarily mapped code and
/// are never retained.
pub const SKIP_ADDR: u64 = 0x700000000000;

/// Bytes in each bitmap of the address cache.
pub const CACHE_BYTES: usize = 1048576;

/// Bits in each bitmap of the address cache.
pub const CACHE_BITS: u64 = 8388608;

/// Deepest stack position that the walk looks at.
pub const MAX_STACK: usize = 15;

/// Bit `i` of a byte string, bit 0 being the low bit of byte 0.
pub open spec fn bit_of(bytes: Seq<u8>, i: int) -> bool {
    (bytes[i / 8] >> ((i % 8) as u8)) & 1u8 == 1u8
}

/// The bit of the cache that stands for `addr`.
pub open spec fn cache_slot(addr: u64) -> int {
    (murmur64_spec(addr) % CACHE_BITS) as int
}

/// An address that is never worth a lookup: null, one of the two frame
/// sentinels, or at or above the cutoff.
pub open spec fn uninteresting(addr: u64) -> bool {
    addr <= MISSING_TRACE || addr >= SKIP_ADDR
}

/// What the cache says of an address.
#[derive(Clone, Copy, Debug, PartialEq, Eq, Structural)]
pub enum Probe {
    /// Not worth a lookup at all.
    Uninteresting,
    /// Classified earlier as an internal frame.
    Noise,
    /// Classified earlier as a meaningful frame.
    Known,
    /// Not classified yet.
    Unknown,
}

/// The content of the cache: the two bitmaps.
pub ghost struct CacheView {
    pub skip: Seq<u8>,
    pub checked: Seq<u8>,
}

impl CacheView {
    /// What `probe` answers for `addr`.
    pub open spec fn probe(self, addr: u64) -> Probe {
        if uninteresting(addr) {
            Probe::Uninteresting
        } else if bit_of(self.skip, cache_slot(addr)) {
            Probe::Noise
        } else if bit_of(self.checked, cache_slot(addr)) {
            Probe::Known
        } else {
            Probe::Unknown
        }
    }

    /// The cache after `addr` was classified, as noise or not.
    pub open spec fn recorded(self, addr: u64, noise: bool) -> CacheView {
        let slot = cache_slot(addr);
        let byte = slot / 8;
        let mask = 1u8 << ((slot % 8) as u8);
        if noise {
            CacheView { skip: self.skip.update(byte, self.skip[byte] | mask), ..self }
        } else {
            CacheView { checked: self.checked.update(byte, self.checked[byte] | mask), ..self }
        }
    }
}

/// Two bitmaps that remember, per hashed address, whether the frame was
/// classified as internal ("skip") or as meaningful ("checked"). Distinct
/// addresses may share a bit: the cache is a heuristic and only saves work.
pub struct AddressCache {
    skip: Vec<u8>,
    checked: Vec<u8>,
}

impl View for AddressCache {
    type V = CacheView;

    closed spec fn view(&self) -> CacheView {
        CacheView { skip: self.skip@, checked: self.checked@ }
    }
}

fn zeroed(n: usize) -> (r: Vec<u8>)
    ensures
        r@ == Seq::new(n as nat, |i: int| 0u8),
{
    let mut v: Vec<u8> = Vec::new();
    let mut i: usize = 0;
    while i < n
        invariant
            i <= n,
            v@ == Seq::new(i as nat, |k: int| 0u8),
        decreases n - i,
    {
        v.push(0);
        i = i + 1;
        assert(v@ =~= Seq::new(i as nat, |k: int| 0u8));
    }
    v
}

/// The bitmap bit of `slot`: its byte and the mask within it.
fn slot_position(addr: u64) -> (r: (usize, u8))
    ensures
        r.0 == cache_slot(addr) / 8,
        r.0 < CACHE_BYTES,
        r.1 == 1u8 << ((cache_slot(addr) % 8) as u8),
{
    let slot = murmur64(addr) % CACHE_BITS;
    ((slot / 8) as usize, 1u8 << ((slot % 8) as u8))
}

proof fn lemma_mask_bit(b: u8, k: u8)
    requires
        k < 8,
    ensures
        ((b & (1u8 << k)) != 0) == ((b >> k) & 1u8 == 1u8),
        ((b | (1u8 << k)) >> k) & 1u8 == 1u8,
{
    assert(((b & (1u8 << k)) != 0) == ((b >> k) & 1u8 == 1u8)) by (bit_vector)
        requires
            k < 8,
    ;
    assert(((b | (1u8 << k)) >> k) & 1u8 == 1u8) by (bit_vector)
        requires
            k < 8,
    ;
}

impl AddressCache {
    /// Both bitmaps have `CACHE_BYTES` bytes.
    pub closed spec fn wf(&self) -> bool {
        &&& self.skip@.len() == CACHE_BYTES
        &&& self.checked@.len() == CACHE_BYTES
    }

    /// A well-formed cache has both bitmaps at full size.
    pub proof fn lemma_wf_len(&self)
        requires
            self.wf(),
        ensures
            self@.skip.len() == CACHE_BYTES,
            self@.checked.len() == CACHE_BYTES,
    {
    }

    /// An empty cache: nothing classified.
    pub fn new() -> (r: AddressCache)
        ensures
            r.wf(),
            forall|a: u64| !uninteresting(a) ==> #[trigger] r@.probe(a) == Probe::Unknown,
    {
        let r = AddressCache { skip: zeroed(CACHE_BYTES), checked: zeroed(CACHE_BYTES) };
        assert forall|a: u64| !uninteresting(a) implies #[trigger] r@.probe(a) == Probe::Unknown by {
            let slot = cache_slot(a);
            let k = (slot % 8) as u8;
            assert(0 <= slot / 8 < CACHE_BYTES);
            assert((0u8 >> k) & 1u8 == 0u8) by (bit_vector);
        }
        r
    }

    /// What the cache says of `addr`.
    pub fn probe(&self, addr: u64) -> (r: Probe)
        requires
            self.wf(),
        ensures
            r == self@.probe(addr),
    {
        if addr <= MISSING_TRACE || addr >= SKIP_ADDR {
            return Probe::Uninteresting;
        }
        let (byte, mask) = slot_position(addr);
        proof {
            lemma_mask_bit(self.skip@[byte as int], (cache_slot(addr) % 8) as u8);
            lemma_mask_bit(self.checked@[byte as int], (cache_slot(addr) % 8) as u8);
        }
        if self.skip[byte] & mask != 0 {
            Probe::Noise
        } else if self.checked[byte] & mask != 0 {
            Probe::Known
        } else {
            Probe::Unknown
        }
    }

    /// Remembers that `addr` was classified as noise, or as meaningful.
    pub fn record(&mut self, addr: u64, noise: bool)
        requires
            old(self).wf(),
        ensures
            final(self).wf(),
            final(self)@ == old(self)@.recorded(addr, noise),
            final(self)@.probe(addr) != Probe::Unknown,
    {
        proof {
            lemma_recorded_is_settled(self@, addr, noise);
        }
        let (byte, mask) = slot_position(addr);
        if noise {
            let v = self.skip[byte] | mask;
            self.skip.set(byte, v);
        } else {
            let v = self.checked[byte] | mask;
            self.checked.set(byte, v);
        }
    }
}

/// Once an address has been classified, the cache answers for it without
/// another classification: a second resolution of the same address stops at
/// the cache.
pub proof fn lemma_recorded_is_settled(v: CacheView, addr: u64, noise: bool)
    requires
        v.skip.len() == CACHE_BYTES,
        v.checked.len() == CACHE_BYTES,
    ensures
        v.recorded(addr, noise).probe(addr) != Probe::Unknown,
        !uninteresting(addr) && noise ==> v.recorded(addr, noise).probe(addr) == Probe::Noise,
        !uninteresting(addr) && !noise && v.probe(addr) != Probe::Noise ==> v.recorded(
            addr,
            noise,
        ).probe(addr) == Probe::Known,
{
    let slot = cache_slot(addr);
    let k = (slot % 8) as u8;
    assert(0 <= slot / 8 < CACHE_BYTES);
    lemma_mask_bit(v.skip[slot / 8], k);
    lemma_mask_bit(v.checked[slot / 8], k);
}


/// Symbol prefixes of runtime and library internals: a frame whose symbol
/// starts with one of them is noise.
pub open spec fn ignore_start() -> Seq<&'static str> {
    seq![
        "__rg_",
        "_ZN5actix",
        "_ZN5alloc",
        "_ZN6base64",
        "_ZN6cached",
        "_ZN4core",
        "_ZN9hashbrown",
        "_ZN20reed_solomon_erasure",
        "_ZN5tokio",
        "_ZN10tokio_util",
        "_ZN3std",
        "_ZN8smallvec",
    ]
}

/// Fragments of generic instantiations over library types: a frame whose
/// symbol holds one of them is noise.
pub open spec fn ignore_inside() -> Seq<&'static str> {
    seq![
        "$LT$actix..",
        "$LT$alloc..",
        "$LT$base64..",
        "$LT$cached..",
        "$LT$core..",
        "$LT$hashbrown..",
        "$LT$reed_solomon_erasure..",
        "$LT$tokio..",
        "$LT$tokio_util..",
        "$LT$serde_json..",
        "$LT$std..",
        "$LT$tracing_subscriber..",
    ]
}

fn ignore_start_list() -> (r: Vec<&'static str>)
    ensures
        r@ == ignore_start(),
{
    let r = vec![
        "__rg_",
        "_ZN5actix",
        "_ZN5alloc",
        "_ZN6base64",
        "_ZN6cached",
        "_ZN4core",
        "_ZN9hashbrown",
        "_ZN20reed_solomon_erasure",
        "_ZN5tokio",
        "_ZN10tokio_util",
        "_ZN3std",
        "_ZN8smallvec",
    ];
    assert(r@ =~= ignore_start());
    r
}

fn ignore_inside_list() -> (r: Vec<&'static str>)
    ensures
        r@ == ignore_inside(),
{
    let r = vec![
        "$LT$actix..",
        "$LT$alloc..",
        "$LT$base64..",
        "$LT$cached..",
        "$LT$core..",
        "$LT$hashbrown..",
        "$LT$reed_solomon_erasure..",
        "$LT$tokio..",
        "$LT$tokio_util..",
        "$LT$serde_json..",
        "$LT$std..",
        "$LT$tracing_subscriber..",
    ];
    assert(r@ =~= ignore_inside());
    r
}

/// `pat` occurs in `hay` starting at `k`.
pub open spec fn occurs_at(hay: Seq<u8>, pat: Seq<u8>, k: int) -> bool {
    0 <= k && k + pat.len() <= hay.len() && hay.subrange(k, k + pat.len()) == pat
}

/// `pat` occurs somewhere in `hay`.
pub open spec fn occurs(hay: Seq<u8>, pat: Seq<u8>) -> bool {
    exists|k: int| occurs_at(hay, pat, k)
}

/// A symbol name, as UTF-8 bytes, that marks a frame as noise.
pub open spec fn ignored_name(name: Seq<u8>) -> bool {
    ||| exists|i: int|
        0 <= i < ignore_start().len() && #[trigger] occurs_at(
            name,
            ignore_start()[i].spec_bytes(),
            0,
        )
    ||| exists|i: int|
        0 <= i < ignore_inside().len() && #[trigger] occurs(name, ignore_inside()[i].spec_bytes())
}

/// Whether `pat` occurs in `hay` at `k`.
fn matches_at(hay: &[u8], pat: &[u8], k: usize) -> (r: bool)
    ensures
        r == occurs_at(hay@, pat@, k as int),
{
    let n = hay.len();
    let m = pat.len();
    if k > n || m > n - k {
        return false;
    }
    let mut j: usize = 0;
    while j < m
        invariant
            k + m <= n,
            n == hay@.len(),
            m == pat@.len(),
            j <= m,
            forall|t: int| 0 <= t < j ==> hay@[k + t] == pat@[t],
        decreases m - j,
    {
        if hay[k + j] != pat[j] {
            assert(hay@.subrange(k as int, k + m)[j as int] != pat@[j as int]);
            return false;
        }
        j = j + 1;
    }
    assert(hay@.subrange(k as int, k + m) =~= pat@);
    true
}

/// Whether `pat` occurs anywhere in `hay`.
fn contains_bytes(hay: &[u8], pat: &[u8]) -> (r: bool)
    ensures
        r == occurs(hay@, pat@),
{
    let n = hay.len();
    let m = pat.len();
    if m > n {
        return false;
    }
    if m == 0 {
        assert(hay@.subrange(0, 0) =~= pat@);
        assert(occurs_at(hay@, pat@, 0));
        return true;
    }
    let mut k: usize = 0;
    while k <= n - m
        invariant
            0 < m <= n,
            n == hay@.len(),
            m == pat@.len(),
            forall|t: int| 0 <= t < k ==> !occurs_at(hay@, pat@, t),
        decreases n - m + 1 - k,
    {
        if matches_at(hay, pat, k) {
            return true;
        }
        k = k + 1;
    }
    false
}

/// Whether a symbol name marks its frame as runtime or library internals.
pub fn is_ignored_symbol(name: &str) -> (r: bool)
    ensures
        r == ignored_name(name.spec_bytes()),
{
    let bytes = name.as_bytes();
    let starts = ignore_start_list();
    let inside = ignore_inside_list();
    let mut i: usize = 0;
    while i < starts.len()
        invariant
            starts@ == ignore_start(),
            bytes@ == name.spec_bytes(),
            forall|t: int| 0 <= t < i ==> !occurs_at(bytes@, ignore_start()[t].spec_bytes(), 0),
        decreases starts.len() - i,
    {
        if matches_at(bytes, starts[i].as_bytes(), 0) {
            return true;
        }
        i = i + 1;
    }
    let mut j: usize = 0;
    while j < inside.len()
        invariant
            inside@ == ignore_inside(),
            bytes@ == name.spec_bytes(),
            forall|t: int| 0 <= t < ignore_start().len() ==> !#[trigger] occurs_at(bytes@, ignore_start()[t].spec_bytes(), 0),
            forall|t: int| 0 <= t < j ==> !#[trigger] occurs(bytes@, ignore_inside()[t].spec_bytes()),
        decreases inside.len() - j,
    {
        if contains_bytes(bytes, inside[j].as_bytes()) {
            return true;
        }
        j = j + 1;
    }
    false
}

/// Whether any of the names that a return address resolves to marks it as
/// noise. An address that resolves to no name is kept.
pub fn is_noise_frame(names: &Vec<String>) -> (r: bool)
    ensures
        r == exists|i: int| 0 <= i < names@.len() && ignored_name(encode_utf8(#[trigger] names@[i]@)),
{
    let mut i: usize = 0;
    while i < names.len()
        invariant
            forall|t: int| 0 <= t < i ==> !ignored_name(encode_utf8(#[trigger] names@[t]@)),
        decreases names.len() - i,
    {
        if is_ignored_symbol(names[i].as_str()) {
            return true;
        }
        i = i + 1;
    }
    false
}

/// One step of the stack walk.
#[derive(Clone, Copy, Debug, PartialEq, Eq, Structural)]
pub enum WalkStep {
    /// This address needs a classification; hand it to `FrameWalk::settle`.
    Classify(u64),
    /// The walk is over and retains this frame value.
    Done(u64),
}

/// The abstract state of a walk.
pub ghost struct WalkView {
    pub frames: Seq<u64>,
    pub pos: int,
    pub end: int,
}

/// A walk over a captured stack, innermost frame first, that picks the first
/// meaningful return address. Position 0 is the allocator's own frame and is
/// never looked at, nor anything past `MAX_STACK`.
pub struct FrameWalk {
    frames: Vec<u64>,
    pos: usize,
    end: usize,
}

impl View for FrameWalk {
    type V = WalkView;

    closed spec fn view(&self) -> WalkView {
        WalkView { frames: self.frames@, pos: self.pos as int, end: self.end as int }
    }
}

/// Frames that the walk passes over without a lookup.
pub open spec fn passed_over(p: Probe) -> bool {
    p == Probe::Uninteresting || p == Probe::Noise
}

impl FrameWalk {
    pub closed spec fn wf(&self) -> bool {
        self.pos <= self.end <= self.frames@.len()
    }

    /// A walk over `frames`, starting at position 1.
    pub fn new(frames: Vec<u64>) -> (r: FrameWalk)
        ensures
            r.wf(),
            r@.frames == frames@,
            r@.end == if frames@.len() < MAX_STACK { frames@.len() as int } else { MAX_STACK as int },
            r@.pos == if r@.end >= 1 { 1 } else { r@.end },
    {
        let end = if frames.len() < MAX_STACK { frames.len() } else { MAX_STACK };
        let pos = if end >= 1 { 1 } else { end };
        FrameWalk { frames, pos, end }
    }

    /// Moves past the frames that the cache or the cutoff dismiss, and stops
    /// at the first frame the cache knows as meaningful (the walk is then
    /// over) or at the first that needs a classification. When no frame is
    /// left, the walk ends with `MISSING_TRACE`.
    pub fn step(&mut self, cache: &AddressCache) -> (r: WalkStep)
        requires
            old(self).wf(),
            cache.wf(),
        ensures
            final(self).wf(),
            final(self)@.frames == old(self)@.frames,
            final(self)@.end == old(self)@.end,
            old(self)@.pos <= final(self)@.pos <= final(self)@.end,
            forall|k: int|
                old(self)@.pos <= k < final(self)@.pos ==> passed_over(
                    cache@.probe(#[trigger] old(self)@.frames[k]),
                ),
            match r {
                WalkStep::Classify(a) => final(self)@.pos < final(self)@.end && a
                    == final(self)@.frames[final(self)@.pos] && cache@.probe(a)
                    == Probe::Unknown,
                WalkStep::Done(a) => (final(self)@.pos == final(self)@.end && a == MISSING_TRACE)
                    || (final(self)@.pos < final(self)@.end && a
                    == final(self)@.frames[final(self)@.pos] && cache@.probe(a)
                    == Probe::Known),
            },
            r != WalkStep::Done(SKIPPED_TRACE),
            r matches WalkStep::Classify(a) ==> a != SKIPPED_TRACE && a != MISSING_TRACE,
    {
        while self.pos < self.end
            invariant
                self.wf(),
                cache.wf(),
                self@.frames == old(self)@.frames,
                self@.end == old(self)@.end,
                old(self)@.pos <= self@.pos,
                forall|k: int|
                    old(self)@.pos <= k < self@.pos ==> passed_over(
                        cache@.probe(#[trigger] old(self)@.frames[k]),
                    ),
            decreases self.end - self.pos,
        {
            let addr = self.frames[self.pos];
            match cache.probe(addr) {
                Probe::Known => {
                    return WalkStep::Done(addr);
                },
                Probe::Unknown => {
                    return WalkStep::Classify(addr);
                },
                _ => {
                    self.pos = self.pos + 1;
                },
            }
        }
        WalkStep::Done(MISSING_TRACE)
    }

    /// Takes the classification of the frame that `step` asked about, and
    /// records it in the cache. A meaningful frame ends the walk and is
    /// returned; a noise frame is passed over.
    pub fn settle(&mut self, cache: &mut AddressCache, noise: bool) -> (r: Option<u64>)
        requires
            old(self).wf(),
            old(self)@.pos < old(self)@.end,
            old(cache).wf(),
        ensures
            final(self).wf(),
            final(cache).wf(),
            final(cache)@ == old(cache)@.recorded(old(self)@.frames[old(self)@.pos], noise),
            final(self)@.frames == old(self)@.frames,
            final(self)@.end == old(self)@.end,
            noise ==> r is None && final(self)@.pos == old(self)@.pos + 1,
            !noise ==> r == Some(old(self)@.frames[old(self)@.pos]) && final(self)@.pos
                == old(self)@.pos,
    {
        let addr = self.frames[self.pos];
        cache.record(addr, noise);
        if noise {
            self.pos = self.pos + 1;
            None
        } else {
            Some(addr)
        }
    }
}

} // verus!
