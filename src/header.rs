//! The fixed-layout record that precedes every block handed out by the proxy.
//!
//! A header is four little-endian 64-bit words: the state tag, the requested
//! payload size, the owning thread id and the sampled return address.
use vstd::prelude::*;

verus! {

/// Base of the state tag.
pub const MAGIC_RUST: u64 = 0x12345678991100;

/// Number of return addresses kept per allocation.
pub const STACK_SIZE: u64 = 1;

/// Tag of a live allocation.
pub const MAGIC_ALLOCATED: u64 = 0x12345678991101;

/// Tag of a block that has been returned: the live tag plus `0x100`.
pub const MAGIC_FREED: u64 = 0x12345678991201;

/// Width of a header in bytes: four 64-bit words.
pub const HEADER_SIZE: usize = 32;

/// Frame value of an allocation whose stack was not sampled.
pub const SKIPPED_TRACE: u64 = 1;

/// Frame value of a sampled allocation for which no frame was retained.
pub const MISSING_TRACE: u64 = 2;

/// The header record. Any 32 bytes decode to one; the tag tells whether the
/// other fields can be trusted.
#[derive(Clone, Copy, Debug, PartialEq, Eq, Structural)]
pub struct AllocHeader {
    pub magic: u64,
    pub size: u64,
    pub tid: u64,
    pub frame: u64,
}

/// The eight little-endian bytes of `v`.
pub open spec fn word_bytes(v: u64) -> Seq<u8> {
    seq![
        v as u8,
        (v >> 8u64) as u8,
        (v >> 16u64) as u8,
        (v >> 24u64) as u8,
        (v >> 32u64) as u8,
        (v >> 40u64) as u8,
        (v >> 48u64) as u8,
        (v >> 56u64) as u8,
    ]
}

/// The little-endian word stored in `b` at `at .. at + 8`.
pub open spec fn word_at(b: Seq<u8>, at: int) -> u64 {
    (b[at] as u64) | ((b[at + 1] as u64) << 8u64) | ((b[at + 2] as u64) << 16u64) | ((b[at
        + 3] as u64) << 24u64) | ((b[at + 4] as u64) << 32u64) | ((b[at + 5] as u64) << 40u64)
        | ((b[at + 6] as u64) << 48u64) | ((b[at + 7] as u64) << 56u64)
}

/// The 32 bytes that represent `h`.
pub open spec fn header_bytes(h: AllocHeader) -> Seq<u8> {
    word_bytes(h.magic) + word_bytes(h.size) + word_bytes(h.tid) + word_bytes(h.frame)
}

/// The header stored in `b` at `at .. at + HEADER_SIZE`.
pub open spec fn header_at(b: Seq<u8>, at: int) -> AllocHeader {
    AllocHeader {
        magic: word_at(b, at),
        size: word_at(b, at + 8),
        tid: word_at(b, at + 16),
        frame: word_at(b, at + 24),
    }
}

/// `a` is a power of two.
pub open spec fn is_power_of_two(a: usize) -> bool {
    a != 0 && a & ((a - 1) as usize) == 0
}

/// Distance from the start of the enlarged block to the payload: the header
/// width, or the alignment when that is larger, so that the payload keeps
/// the caller's alignment. The header sits right before the payload.
pub open spec fn header_offset_spec(align: usize) -> usize {
    if align > HEADER_SIZE {
        align
    } else {
        HEADER_SIZE
    }
}

/// The size of the enlarged request for a payload of `size` bytes aligned to
/// `align`, when that request is a valid layout.
pub open spec fn padded_spec(size: usize, align: usize) -> Option<usize> {
    if is_power_of_two(align) && size + header_offset_spec(align) + (align - 1) <= isize::MAX {
        Some((size + header_offset_spec(align)) as usize)
    } else {
        None
    }
}

impl AllocHeader {
    /// The tag is the live tag.
    pub open spec fn allocated_spec(&self) -> bool {
        self.magic == MAGIC_ALLOCATED
    }

    /// The tag is the freed tag.
    pub open spec fn freed_spec(&self) -> bool {
        self.magic == MAGIC_FREED
    }

    /// A header for a fresh allocation of `size` bytes by thread `tid`.
    pub fn allocated(size: u64, tid: u64, frame: u64) -> (r: AllocHeader)
        ensures
            r == (AllocHeader { magic: MAGIC_ALLOCATED, size, tid, frame }),
            r.allocated_spec(),
    {
        AllocHeader { magic: MAGIC_ALLOCATED, size, tid, frame }
    }

    pub fn is_allocated(&self) -> (r: bool)
        ensures
            r == self.allocated_spec(),
    {
        self.magic == MAGIC_ALLOCATED
    }

    pub fn is_freed(&self) -> (r: bool)
        ensures
            r == self.freed_spec(),
    {
        self.magic == MAGIC_FREED
    }

    /// The tag is one of the two known tags; any other value marks memory
    /// that the proxy did not write.
    pub fn is_valid(&self) -> (r: bool)
        ensures
            r == (self.allocated_spec() || self.freed_spec()),
    {
        self.magic == MAGIC_ALLOCATED || self.magic == MAGIC_FREED
    }

    pub fn size(&self) -> (r: u64)
        ensures
            r == self.size,
    {
        self.size
    }

    pub fn tid(&self) -> (r: u64)
        ensures
            r == self.tid,
    {
        self.tid
    }

    /// The sampled return address, or one of the two sentinels.
    pub fn frame(&self) -> (r: u64)
        ensures
            r == self.frame,
    {
        self.frame
    }

    /// Retires a live header: only the tag changes.
    pub fn mark_freed(&mut self)
        ensures
            *final(self) == (AllocHeader { magic: MAGIC_FREED, ..*old(self) }),
            final(self).freed_spec(),
    {
        self.magic = MAGIC_FREED;
    }

    /// The 32 bytes of the header.
    pub fn encode(&self) -> (r: Vec<u8>)
        ensures
            r@ == header_bytes(*self),
    {
        let mut out: Vec<u8> = Vec::new();
        push_word(&mut out, self.magic);
        push_word(&mut out, self.size);
        push_word(&mut out, self.tid);
        push_word(&mut out, self.frame);
        out
    }

    /// Reads the header stored in `bytes` at `at`.
    pub fn decode(bytes: &[u8], at: usize) -> (r: AllocHeader)
        requires
            at + HEADER_SIZE <= bytes@.len(),
        ensures
            r == header_at(bytes@, at as int),
    {
        let _n = bytes.len();
        AllocHeader {
            magic: read_word(bytes, at),
            size: read_word(bytes, at + 8),
            tid: read_word(bytes, at + 16),
            frame: read_word(bytes, at + 24),
        }
    }
}

fn push_word(out: &mut Vec<u8>, v: u64)
    ensures
        final(out)@ == old(out)@ + word_bytes(v),
{
    out.push(v as u8);
    out.push((v >> 8u64) as u8);
    out.push((v >> 16u64) as u8);
    out.push((v >> 24u64) as u8);
    out.push((v >> 32u64) as u8);
    out.push((v >> 40u64) as u8);
    out.push((v >> 48u64) as u8);
    out.push((v >> 56u64) as u8);
    assert(final(out)@ =~= old(out)@ + word_bytes(v));
}

fn read_word(b: &[u8], at: usize) -> (r: u64)
    requires
        at + 8 <= b@.len(),
    ensures
        r == word_at(b@, at as int),
{
    (b[at] as u64) | ((b[at + 1] as u64) << 8u64) | ((b[at + 2] as u64) << 16u64) | ((b[at
        + 3] as u64) << 24u64) | ((b[at + 4] as u64) << 32u64) | ((b[at + 5] as u64) << 40u64)
        | ((b[at + 6] as u64) << 48u64) | ((b[at + 7] as u64) << 56u64)
}

/// The size of the enlarged request that makes room for a header in front of
/// `size` payload bytes, keeping the caller's alignment. `None` when no valid
/// layout of that size and alignment exists: the allocation then fails.
pub fn padded_size(size: usize, align: usize) -> (r: Option<usize>)
    ensures
        r == padded_spec(size, align),
{
    if align == 0 || align & (align - 1) != 0 {
        return None;
    }
    let offset = header_offset(align);
    let limit: usize = isize::MAX as usize;
    if size > limit || limit - size < offset || limit - size - offset < align - 1 {
        None
    } else {
        Some(size + offset)
    }
}

/// Distance from the start of the enlarged block to the payload; a multiple
/// of `align` when that is a power of two.
pub fn header_offset(align: usize) -> (r: usize)
    ensures
        r == header_offset_spec(align),
        r >= HEADER_SIZE,
        is_power_of_two(align) ==> r % align == 0,
{
    proof {
        if is_power_of_two(align) && align <= HEADER_SIZE {
            assert(align != 0 && align & ((align - 1) as usize) == 0 && align <= 32usize ==> 32usize % align
                == 0) by (bit_vector);
        }
    }
    if align > HEADER_SIZE {
        align
    } else {
        HEADER_SIZE
    }
}

/// Bytes written for a word read back as that word.
pub proof fn lemma_word_round_trip(v: u64)
    ensures
        word_at(word_bytes(v), 0) == v,
{
    let b = word_bytes(v);
    assert(b[0] == v as u8 && b[1] == (v >> 8u64) as u8 && b[2] == (v >> 16u64) as u8 && b[3]
        == (v >> 24u64) as u8 && b[4] == (v >> 32u64) as u8 && b[5] == (v >> 40u64) as u8 && b[6]
        == (v >> 48u64) as u8 && b[7] == (v >> 56u64) as u8);
    assert(((v as u8) as u64) | ((((v >> 8u64) as u8) as u64) << 8u64) | ((((v >> 16u64) as u8)
        as u64) << 16u64) | ((((v >> 24u64) as u8) as u64) << 24u64) | ((((v >> 32u64) as u8)
        as u64) << 32u64) | ((((v >> 40u64) as u8) as u64) << 40u64) | ((((v >> 48u64) as u8)
        as u64) << 48u64) | ((((v >> 56u64) as u8) as u64) << 56u64) == v) by (bit_vector);
}

/// A header that is encoded and decoded again comes back unchanged.
pub proof fn lemma_header_round_trip(h: AllocHeader)
    ensures
        header_at(header_bytes(h), 0) == h,
{
    let b = header_bytes(h);
    lemma_word_round_trip(h.magic);
    lemma_word_round_trip(h.size);
    lemma_word_round_trip(h.tid);
    lemma_word_round_trip(h.frame);
    assert(b.subrange(0, 8) =~= word_bytes(h.magic));
    assert(b.subrange(8, 16) =~= word_bytes(h.size));
    assert(b.subrange(16, 24) =~= word_bytes(h.tid));
    assert(b.subrange(24, 32) =~= word_bytes(h.frame));
    assert(word_at(b, 0) == word_at(b.subrange(0, 8), 0));
    assert(word_at(b, 8) == word_at(b.subrange(8, 16), 0));
    assert(word_at(b, 16) == word_at(b.subrange(16, 24), 0));
    assert(word_at(b, 24) == word_at(b.subrange(24, 32), 0));
}

} // verus!
