//! The region listing of a process and the residency of its pages.
use vstd::prelude::*;
use vstd::string::StringSliceAdditionalSpecFns;
use vstd::utf8::encode_utf8;
use crate::text::{
    field, field_bounds, field_end, field_start, has_field, hex_or_zero, lemma_field_bounds,
    parse_hex, piece,
};

verus! {

/// One mebibyte.
pub const MIB: u64 = 1048576;

/// Bytes per entry of the page residency table.
pub const PAGE_MAP_ENTRY_SIZE: u64 = 8;

/// The `-` between the two addresses of a region.
pub const DASH: u8 = 45;

/// A mergeable pair: a number of allocations and their bytes.
#[derive(Clone, Copy, Debug, PartialEq, Eq, Structural)]
pub struct Counter {
    pub cnt: usize,
    pub size: usize,
}

/// Pointwise sum, each side held at `usize::MAX`.
pub open spec fn combine(a: Counter, b: Counter) -> Counter {
    Counter {
        cnt: if a.cnt + b.cnt > usize::MAX { usize::MAX } else { (a.cnt + b.cnt) as usize },
        size: if a.size + b.size > usize::MAX { usize::MAX } else { (a.size + b.size) as usize },
    }
}

impl Default for Counter {
    fn default() -> (r: Counter)
        ensures
            r == (Counter { cnt: 0, size: 0 }),
    {
        Counter { cnt: 0, size: 0 }
    }
}

impl Counter {
    /// One allocation of `size` bytes.
    pub fn with_size(size: usize) -> (r: Counter)
        ensures
            r == (Counter { cnt: 1, size }),
    {
        Counter { cnt: 1, size }
    }

    /// Adds `other` into `self`.
    pub fn merge(&mut self, other: Counter)
        ensures
            *final(self) == combine(*old(self), other),
    {
        self.cnt = self.cnt.saturating_add(other.cnt);
        self.size = self.size.saturating_add(other.size);
    }
}

/// Merging is associative.
pub proof fn lemma_combine_associative(a: Counter, b: Counter, c: Counter)
    ensures
        combine(combine(a, b), c) == combine(a, combine(b, c)),
{
}

/// Merging is commutative.
pub proof fn lemma_combine_commutative(a: Counter, b: Counter)
    ensures
        combine(a, b) == combine(b, a),
{
}

/// A region of the address space, as the region listing gives it.
pub struct Smap {
    pub from: u64,
    pub to: u64,
    pub mapped_file: Option<String>,
    pub is_stack: bool,
    pub offset: u64,
}

/// The content of a region: the mapped file as its UTF-8 bytes.
pub ghost struct RegionView {
    pub from: u64,
    pub to: u64,
    pub offset: u64,
    pub mapped_file: Option<Seq<u8>>,
}

impl View for Smap {
    type V = RegionView;

    open spec fn view(&self) -> RegionView {
        RegionView {
            from: self.from,
            to: self.to,
            offset: self.offset,
            mapped_file: match self.mapped_file {
                Some(s) => Some(encode_utf8(s@)),
                None => None,
            },
        }
    }
}

impl Smap {
    pub fn new(from: u64, to: u64, mapped_file: Option<String>, offset: u64) -> (r: Smap)
        ensures
            r.from == from,
            r.to == to,
            r.mapped_file == mapped_file,
            r.offset == offset,
    {
        Smap { from, to, mapped_file, is_stack: false, offset }
    }

    /// A copy of the region.
    pub fn duplicate(&self) -> (r: Smap)
        ensures
            r@ == self@,
            r.mapped_file is Some == self.mapped_file is Some,
            r.mapped_file is Some ==> r.mapped_file->0@ == self.mapped_file->0@,
    {
        let mapped_file = match &self.mapped_file {
            Some(s) => Some(s.clone()),
            None => None,
        };
        Smap { from: self.from, to: self.to, mapped_file, is_stack: self.is_stack, offset: self.offset }
    }

    /// Whether the region is backed by a file.
    pub fn is_file_backed(&self) -> (r: bool)
        ensures
            r == self.mapped_file is Some,
    {
        self.mapped_file.is_some()
    }

    /// Number of whole pages in the region; 0 for an inverted range.
    pub fn page_count(&self, page_size: u64) -> (r: u64)
        requires
            page_size > 0,
        ensures
            r == page_count_spec(self@, page_size),
    {
        if self.to < self.from {
            0
        } else {
            (self.to - self.from) / page_size
        }
    }

    /// Byte position in the residency table of the entry of the region's
    /// first page; `None` when it does not fit in 64 bits.
    pub fn pagemap_offset(&self, page_size: u64) -> (r: Option<u64>)
        requires
            page_size > 0,
        ensures
            r is Some <==> (self.from / page_size) * PAGE_MAP_ENTRY_SIZE <= u64::MAX,
            r is Some ==> r->0 == (self.from / page_size) * PAGE_MAP_ENTRY_SIZE,
    {
        (self.from / page_size).checked_mul(PAGE_MAP_ENTRY_SIZE)
    }
}

/// Number of whole pages in a region.
pub open spec fn page_count_spec(r: RegionView, page_size: u64) -> u64 {
    if r.to < r.from {
        0
    } else {
        ((r.to - r.from) / page_size as int) as u64
    }
}

/// First position in `lo .. hi` that holds `c`.
pub open spec fn find_byte(b: Seq<u8>, lo: int, hi: int, c: u8) -> Option<int>
    decreases hi - lo,
{
    if lo >= hi {
        None
    } else if b[lo] == c {
        Some(lo)
    } else {
        find_byte(b, lo + 1, hi, c)
    }
}

proof fn lemma_find_byte_bounds(b: Seq<u8>, lo: int, hi: int, c: u8)
    ensures
        find_byte(b, lo, hi, c) is Some ==> lo <= find_byte(b, lo, hi, c)->0 < hi && b[find_byte(
            b,
            lo,
            hi,
            c,
        )->0] == c,
    decreases hi - lo,
{
    if lo < hi && b[lo] != c {
        lemma_find_byte_bounds(b, lo + 1, hi, c);
    }
}

fn find_in(b: &[u8], lo: usize, hi: usize, c: u8) -> (r: Option<usize>)
    requires
        lo <= hi <= b@.len(),
    ensures
        r is Some <==> find_byte(b@, lo as int, hi as int, c) is Some,
        r is Some ==> r->0 == find_byte(b@, lo as int, hi as int, c)->0,
{
    let mut i = lo;
    while i < hi
        invariant
            lo <= i <= hi <= b@.len(),
            find_byte(b@, lo as int, hi as int, c) == find_byte(b@, i as int, hi as int, c),
        decreases hi - i,
    {
        if b[i] == c {
            return Some(i);
        }
        i = i + 1;
    }
    None
}

/// The region that a line of the listing describes, if it is a region line.
///
/// A region line has at least three space-separated fields, and its first
/// field holds a `-` between the start and end addresses. The third field is
/// the file offset. Addresses and offset are hexadecimal; one that does not
/// parse reads as 0. The mapped file is whatever follows the fifth field (the
/// inode), from its first non-space byte to the end of the line.
pub open spec fn region_line(b: Seq<u8>) -> Option<RegionView> {
    let e0 = field_end(b, 0);
    match find_byte(b, 0, e0, DASH) {
        None => None,
        Some(d) => if !has_field(b, 2) {
            None
        } else {
            Some(
                RegionView {
                    from: hex_or_zero(b.subrange(0, d)),
                    to: hex_or_zero(b.subrange(d + 1, e0)),
                    offset: hex_or_zero(field(b, 2)),
                    mapped_file: if has_field(b, 5) {
                        Some(b.subrange(field_start(b, 5), b.len() as int))
                    } else {
                        None
                    },
                },
            )
        },
    }
}

/// Parses one line of the region listing.
pub fn parse_region_line(line: &str) -> (r: Option<Smap>)
    ensures
        r is Some <==> region_line(line.spec_bytes()) is Some,
        r is Some ==> r->0@ == region_line(line.spec_bytes())->0,
{
    let b = line.as_bytes();
    let ghost bs = b@;
    let (_, e0) = field_bounds(b, 0);
    proof {
        lemma_field_bounds(bs, 0);
        lemma_field_bounds(bs, 2);
        lemma_field_bounds(bs, 5);
        lemma_find_byte_bounds(bs, 0, e0 as int, DASH);
    }
    let d = match find_in(b, 0, e0, DASH) {
        Some(d) => d,
        None => return None,
    };
    let (s2, e2) = field_bounds(b, 2);
    if s2 >= b.len() {
        return None;
    }
    let from = parse_hex(b, 0, d);
    let to = parse_hex(b, d + 1, e0);
    let offset = parse_hex(b, s2, e2);
    let (s5, _) = field_bounds(b, 5);
    let mapped_file = if s5 < b.len() {
        Some(piece(line, s5, b.len()))
    } else {
        None
    };
    Some(Smap { from, to, mapped_file, is_stack: false, offset })
}

/// The regions that a sequence of listing lines describes, in order.
pub open spec fn regions_of(lines: Seq<Seq<u8>>) -> Seq<RegionView>
    decreases lines.len(),
{
    if lines.len() == 0 {
        Seq::empty()
    } else {
        let p = regions_of(lines.drop_last());
        match region_line(lines.last()) {
            Some(r) => p.push(r),
            None => p,
        }
    }
}

/// The UTF-8 bytes of each line.
pub open spec fn line_bytes(lines: Seq<String>) -> Seq<Seq<u8>> {
    Seq::new(lines.len(), |i: int| encode_utf8(lines[i]@))
}

/// Parses the region listing, given as its lines; lines that do not
/// describe a region are passed over.
pub fn read_smaps(lines: &Vec<String>) -> (r: Vec<Smap>)
    ensures
        r@.len() == regions_of(line_bytes(lines@)).len(),
        forall|k: int| 0 <= k < r@.len() ==> #[trigger] r@[k]@ == regions_of(line_bytes(lines@))[k],
{
    let mut out: Vec<Smap> = Vec::new();
    let mut i: usize = 0;
    while i < lines.len()
        invariant
            i <= lines@.len(),
            out@.len() == regions_of(line_bytes(lines@.subrange(0, i as int))).len(),
            forall|k: int|
                0 <= k < out@.len() ==> #[trigger] out@[k]@ == regions_of(
                    line_bytes(lines@.subrange(0, i as int)),
                )[k],
        decreases lines@.len() - i,
    {
        let ghost prev = line_bytes(lines@.subrange(0, i as int));
        let ghost next = line_bytes(lines@.subrange(0, i + 1));
        assert(next.drop_last() =~= prev);
        let line = lines[i].as_str();
        assert(next.last() == line.spec_bytes());
        match parse_region_line(line) {
            Some(s) => {
                out.push(s);
            },
            None => {},
        }
        i = i + 1;
    }
    assert(lines@.subrange(0, lines@.len() as int) =~= lines@);
    out
}

/// Whether entry `i` of the residency table is present in `bytes` and has
/// its top bit set. Entries that the read did not reach count as absent.
pub open spec fn entry_present(bytes: Seq<u8>, i: int) -> bool {
    8 * i + 7 < bytes.len() && bytes[8 * i + 7] & 0x80u8 != 0
}

/// Addresses of the resident pages among the first `n` pages from `from`.
pub open spec fn present_pages_spec(from: u64, page_size: u64, bytes: Seq<u8>, n: int) -> Seq<u64>
    decreases n,
{
    if n <= 0 {
        Seq::empty()
    } else {
        let p = present_pages_spec(from, page_size, bytes, n - 1);
        if entry_present(bytes, n - 1) {
            p.push((from + (n - 1) * page_size) as u64)
        } else {
            p
        }
    }
}

/// The addresses of the resident pages of `region`, given the entries of
/// the residency table that were read for it (one 8-byte entry per page,
/// from the region's first page on).
pub fn region_pages(region: &Smap, page_size: u64, entries: &[u8]) -> (r: Vec<u64>)
    requires
        page_size > 0,
    ensures
        r@ == present_pages_spec(region.from, page_size, entries@, page_count_spec(region@, page_size) as int),
{
    let n = region.page_count(page_size);
    let mut out: Vec<u64> = Vec::new();
    let mut i: u64 = 0;
    proof {
        if region.to >= region.from {
            assert(n * page_size <= region.to - region.from) by (nonlinear_arith)
                requires
                    n == (region.to - region.from) / page_size as int,
                    page_size > 0,
                    region.to >= region.from,
            ;
        }
    }
    while i < n
        invariant
            i <= n,
            n == page_count_spec(region@, page_size),
            n > 0 ==> region.from + n * page_size <= u64::MAX,
            page_size > 0,
            out@ == present_pages_spec(region.from, page_size, entries@, i as int),
        decreases n - i,
    {
        proof {
            assert(i * page_size < n * page_size) by (nonlinear_arith)
                requires
                    i < n,
                    page_size > 0,
            ;
        }
        let present = i < entries.len() as u64 / 8 && entries[(8 * i + 7) as usize] & 0x80u8 != 0;
        if present {
            out.push(region.from + i * page_size);
        }
        i = i + 1;
    }
    out
}

/// The regions that are file-backed (`mapped`) or anonymous (`!mapped`),
/// in listing order.
pub open spec fn regions_with(regions: Seq<RegionView>, mapped: bool) -> Seq<RegionView>
    decreases regions.len(),
{
    if regions.len() == 0 {
        Seq::empty()
    } else {
        let p = regions_with(regions.drop_last(), mapped);
        if (regions.last().mapped_file is Some) == mapped {
            p.push(regions.last())
        } else {
            p
        }
    }
}

/// Keeps the file-backed regions (`mapped`) or the anonymous ones.
pub fn select_regions(smaps: &Vec<Smap>, mapped: bool) -> (r: Vec<Smap>)
    ensures
        r@.len() == regions_with(smaps@.map_values(|s: Smap| s@), mapped).len(),
        forall|k: int|
            0 <= k < r@.len() ==> #[trigger] r@[k]@ == regions_with(
                smaps@.map_values(|s: Smap| s@),
                mapped,
            )[k],
{
    let mut out: Vec<Smap> = Vec::new();
    let mut i: usize = 0;
    while i < smaps.len()
        invariant
            i <= smaps@.len(),
            out@.len() == regions_with(smaps@.subrange(0, i as int).map_values(|s: Smap| s@), mapped).len(),
            forall|k: int|
                0 <= k < out@.len() ==> #[trigger] out@[k]@ == regions_with(
                    smaps@.subrange(0, i as int).map_values(|s: Smap| s@),
                    mapped,
                )[k],
        decreases smaps@.len() - i,
    {
        let ghost prev = smaps@.subrange(0, i as int).map_values(|s: Smap| s@);
        let ghost next = smaps@.subrange(0, i + 1).map_values(|s: Smap| s@);
        assert(next.drop_last() =~= prev);
        if smaps[i].is_file_backed() == mapped {
            out.push(smaps[i].duplicate());
        }
        i = i + 1;
    }
    assert(smaps@.subrange(0, smaps@.len() as int) =~= smaps@);
    out
}

} // verus!
