//! Attribution of a live process's memory: headers are picked out of its
//! resident anonymous pages, their bytes are summed per sampled return
//! address, and each address is resolved to the symbol of the target binary
//! that holds it.
use std::collections::HashMap;
use vstd::prelude::*;
use vstd::string::StringSliceAdditionalSpecFns;
use vstd::utf8::encode_utf8;
use crate::header::{header_at, AllocHeader, HEADER_SIZE, MISSING_TRACE, SKIPPED_TRACE};
use crate::smaps::{combine, Counter, RegionView, Smap, MIB};
use crate::symbols::{offsets, owner_linear, owner_of, owner_sorted, sorted, Symbol};

verus! {

broadcast use {vstd::std_specs::hash::group_hash_axioms, vstd::utf8::group_utf8_lib};

/// Headers that claim this many bytes or more are taken for stray data.
pub const SIZE_LIMIT: u64 = 0xffff_ffff;

/// A header that the scan counts: allocated, with a plausible size and a
/// frame that is a real address rather than null, a sentinel or all ones.
pub open spec fn counted(h: AllocHeader) -> bool {
    &&& h.allocated_spec()
    &&& h.frame != 0
    &&& h.frame != SKIPPED_TRACE
    &&& h.frame != MISSING_TRACE
    &&& h.frame != u64::MAX
    &&& h.size < SIZE_LIMIT
}

/// The counted headers found at the first `n` 8-byte-aligned positions of
/// `b` whose header lies wholly inside `b`, in position order.
pub open spec fn page_hits(b: Seq<u8>, n: int) -> Seq<AllocHeader>
    decreases n,
{
    if n <= 0 {
        Seq::empty()
    } else {
        let p = page_hits(b, n - 1);
        let o = 8 * (n - 1);
        if o + HEADER_SIZE <= b.len() && counted(header_at(b, o)) {
            p.push(header_at(b, o))
        } else {
            p
        }
    }
}

/// The empty counter.
pub open spec fn zero_counter() -> Counter {
    Counter { cnt: 0, size: 0 }
}

/// `m` with `c` merged into the counter of `k`.
pub open spec fn merged<K>(m: Map<K, Counter>, k: K, c: Counter) -> Map<K, Counter> {
    m.insert(k, combine(if m.contains_key(k) { m[k] } else { zero_counter() }, c))
}

/// `m` with one allocation of each header merged in under its frame.
pub open spec fn tally_add(m: Map<u64, Counter>, hs: Seq<AllocHeader>) -> Map<u64, Counter>
    decreases hs.len(),
{
    if hs.len() == 0 {
        m
    } else {
        let h = hs.last();
        merged(tally_add(m, hs.drop_last()), h.frame, Counter { cnt: 1, size: h.size as usize })
    }
}

/// Whether the scan counts `h`.
pub fn is_counted(h: &AllocHeader) -> (r: bool)
    ensures
        r == counted(*h),
{
    h.is_allocated() && h.frame != 0 && h.frame != SKIPPED_TRACE && h.frame != MISSING_TRACE
        && h.frame != u64::MAX && h.size < SIZE_LIMIT
}

/// Scans the first `scan_len` bytes of a page image in 8-byte strides and
/// merges each counted header into `tally`, under its frame. `buf` may hold
/// a few bytes past the page so that a header at its tail is read whole.
pub fn scan_page(buf: &[u8], scan_len: usize, tally: &mut HashMap<u64, Counter>)
    ensures
        final(tally)@ == tally_add(old(tally)@, page_hits(buf@, (scan_len / 8) as int)),
{
    let n = scan_len / 8;
    let mut k: usize = 0;
    while k < n
        invariant
            k <= n,
            n == scan_len / 8,
            tally@ == tally_add(old(tally)@, page_hits(buf@, k as int)),
        decreases n - k,
    {
        let o = 8 * k;
        let ghost hits = page_hits(buf@, k as int);
        if o <= buf.len() && buf.len() - o >= HEADER_SIZE {
            let h = AllocHeader::decode(buf, o);
            if is_counted(&h) {
                let prev = match tally.get(&h.frame) {
                    Some(c) => *c,
                    None => Counter::default(),
                };
                let mut c = prev;
                c.merge(Counter::with_size(h.size as usize));
                tally.insert(h.frame, c);
                assert(page_hits(buf@, k + 1).drop_last() =~= hits);
            }
        }
        k = k + 1;
    }
}

/// Bytes over all tallied frames, held at `u64::MAX`.
pub open spec fn entries_bytes(entries: Seq<(u64, Counter)>) -> int
    decreases entries.len(),
{
    if entries.len() == 0 {
        0
    } else {
        entries_bytes(entries.drop_last()) + entries.last().1.size
    }
}

/// Sum of the sizes of the tallied frames, held at `u64::MAX`.
pub fn attributed_bytes(entries: &Vec<(u64, Counter)>) -> (r: u64)
    ensures
        entries_bytes(entries@) <= u64::MAX ==> r == entries_bytes(entries@),
        entries_bytes(entries@) > u64::MAX ==> r == u64::MAX,
{
    let mut total: u64 = 0;
    let mut i: usize = 0;
    while i < entries.len()
        invariant
            i <= entries@.len(),
            entries_bytes(entries@.subrange(0, i as int)) <= u64::MAX ==> total == entries_bytes(
                entries@.subrange(0, i as int),
            ),
            entries_bytes(entries@.subrange(0, i as int)) > u64::MAX ==> total == u64::MAX,
            entries_bytes(entries@.subrange(0, i as int)) >= 0,
        decreases entries@.len() - i,
    {
        assert(entries@.subrange(0, i + 1).drop_last() =~= entries@.subrange(0, i as int));
        total = total.saturating_add(entries[i].1.size as u64);
        i = i + 1;
    }
    assert(entries@.subrange(0, entries@.len() as int) =~= entries@);
    total
}

/// The regions mapped from the file at `exe`, in listing order.
pub open spec fn exe_regions_spec(regions: Seq<RegionView>, exe: Seq<u8>) -> Seq<RegionView>
    decreases regions.len(),
{
    if regions.len() == 0 {
        Seq::empty()
    } else {
        let p = exe_regions_spec(regions.drop_last(), exe);
        if regions.last().mapped_file == Some(exe) {
            p.push(regions.last())
        } else {
            p
        }
    }
}

/// The views of a list of regions.
pub open spec fn region_views(s: Seq<Smap>) -> Seq<RegionView> {
    Seq::new(s.len(), |i: int| s[i]@)
}

/// The regions that map the target's own executable, whose path is
/// `exe_path`.
pub fn get_mmaped_exe_regions(smaps: &Vec<Smap>, exe_path: &str) -> (r: Vec<Smap>)
    ensures
        region_views(r@) == exe_regions_spec(region_views(smaps@), exe_path.spec_bytes()),
{
    let exe = exe_path.to_owned();
    let mut out: Vec<Smap> = Vec::new();
    let mut i: usize = 0;
    while i < smaps.len()
        invariant
            i <= smaps@.len(),
            exe@ == exe_path@,
            region_views(out@) == exe_regions_spec(
                region_views(smaps@.subrange(0, i as int)),
                exe_path.spec_bytes(),
            ),
        decreases smaps@.len() - i,
    {
        let ghost prev = region_views(smaps@.subrange(0, i as int));
        let ghost next = region_views(smaps@.subrange(0, i + 1));
        assert(next.drop_last() =~= prev);
        let keep = match &smaps[i].mapped_file {
            Some(f) => {
                let same = *f == exe;
                proof {
                    if encode_utf8(f@) == encode_utf8(exe@) {
                        assert(vstd::utf8::decode_utf8(encode_utf8(f@)) == f@);
                        assert(vstd::utf8::decode_utf8(encode_utf8(exe@)) == exe@);
                    }
                }
                same
            },
            None => false,
        };
        if keep {
            let ghost before = region_views(out@);
            out.push(smaps[i].duplicate());
            assert(region_views(out@) =~= before.push(smaps@[i as int]@));
        }
        i = i + 1;
    }
    assert(smaps@.subrange(0, smaps@.len() as int) =~= smaps@);
    out
}

/// The offset in the file of address `addr`, when region `r` holds it and
/// the sum fits.
pub open spec fn file_offset(r: RegionView, addr: u64) -> Option<u64> {
    if r.from <= addr < r.to && addr - r.from + r.offset <= u64::MAX {
        Some((addr - r.from + r.offset) as u64)
    } else {
        None
    }
}

/// The owning symbols of `addr`, one for each region that holds it and
/// whose file offset for it has an owner, in region order.
pub open spec fn candidates(regions: Seq<RegionView>, offs: Seq<u64>, addr: u64) -> Seq<int>
    decreases regions.len(),
{
    if regions.len() == 0 {
        Seq::empty()
    } else {
        let p = candidates(regions.drop_last(), offs, addr);
        match file_offset(regions.last(), addr) {
            Some(fo) => match owner_of(offs, fo) {
                Some(k) => p.push(k),
                None => p,
            },
            None => p,
        }
    }
}

/// How an address resolves.
#[derive(Clone, Copy, Debug, PartialEq, Eq, Structural)]
pub enum Resolution {
    /// To exactly one symbol, by its position in the symbol list.
    Symbol(usize),
    /// To no symbol.
    Unresolved,
    /// To more than one symbol, through overlapping regions.
    Ambiguous,
}

/// How `addr` resolves against the executable regions and symbol offsets.
pub open spec fn resolution_spec(regions: Seq<RegionView>, offs: Seq<u64>, addr: u64) -> Resolution {
    let c = candidates(regions, offs, addr);
    if c.len() == 0 {
        Resolution::Unresolved
    } else if c.len() == 1 {
        Resolution::Symbol(c[0] as usize)
    } else {
        Resolution::Ambiguous
    }
}

proof fn lemma_candidates_bounds(regions: Seq<RegionView>, offs: Seq<u64>, addr: u64)
    ensures
        forall|j: int|
            0 <= j < candidates(regions, offs, addr).len() ==> 0 <= #[trigger] candidates(
                regions,
                offs,
                addr,
            )[j] < offs.len(),
    decreases regions.len(),
{
    if regions.len() > 0 {
        lemma_candidates_bounds(regions.drop_last(), offs, addr);
        let p = candidates(regions.drop_last(), offs, addr);
        let c = candidates(regions, offs, addr);
        match file_offset(regions.last(), addr) {
            Some(fo) => {
                crate::symbols::lemma_owner_is_nearest_bounds(offs, fo);
                assert forall|j: int| 0 <= j < c.len() implies 0 <= #[trigger] c[j] < offs.len() by {
                    if j < p.len() {
                        assert(c[j] == p[j]);
                    }
                }
            },
            None => {},
        }
    }
}

/// The file offset of `addr` in region `r`.
fn region_file_offset(r: &Smap, addr: u64) -> (o: Option<u64>)
    ensures
        o == file_offset(r@, addr),
{
    if r.from <= addr && addr < r.to && addr - r.from <= u64::MAX - r.offset {
        Some(addr - r.from + r.offset)
    } else {
        None
    }
}

/// Resolves `addr` against the executable regions and the symbol list.
/// `is_sorted` says whether the list is sorted by offset, which allows a
/// binary search.
pub fn resolve_address(addr: u64, regions: &Vec<Smap>, symbols: &Vec<Symbol>, is_sorted: bool) -> (r:
    Resolution)
    requires
        is_sorted ==> sorted(offsets(symbols@)),
    ensures
        r == resolution_spec(region_views(regions@), offsets(symbols@), addr),
{
    let ghost offs = offsets(symbols@);
    let mut found: usize = 0;
    let mut first: usize = 0;
    let mut i: usize = 0;
    while i < regions.len()
        invariant
            i <= regions@.len(),
            offs == offsets(symbols@),
            is_sorted ==> sorted(offs),
            found <= i,
            found == candidates(region_views(regions@.subrange(0, i as int)), offs, addr).len(),
            found > 0 ==> first == candidates(region_views(regions@.subrange(0, i as int)), offs, addr)[0],
        decreases regions@.len() - i,
    {
        let ghost prev = region_views(regions@.subrange(0, i as int));
        let ghost next = region_views(regions@.subrange(0, i + 1));
        assert(next.drop_last() =~= prev);
        match region_file_offset(&regions[i], addr) {
            Some(fo) => {
                let owner = if is_sorted {
                    owner_sorted(symbols, fo)
                } else {
                    owner_linear(symbols, fo)
                };
                match owner {
                    Some(k) => {
                        if found == 0 {
                            first = k;
                        }
                        found = found + 1;
                    },
                    None => {},
                }
            },
            None => {},
        }
        i = i + 1;
    }
    assert(regions@.subrange(0, regions@.len() as int) =~= regions@);
    if found == 0 {
        Resolution::Unresolved
    } else if found == 1 {
        Resolution::Symbol(first)
    } else {
        Resolution::Ambiguous
    }
}


/// What a report row is keyed by.
pub enum SymbolKey {
    /// A symbol name, raw or demangled.
    Name(String),
    /// A raw return address.
    Address(u64),
}

/// The content of a key.
pub ghost enum KeyView {
    Name(Seq<char>),
    Address(u64),
}

impl View for SymbolKey {
    type V = KeyView;

    open spec fn view(&self) -> KeyView {
        match self {
            SymbolKey::Name(s) => KeyView::Name(s@),
            SymbolKey::Address(a) => KeyView::Address(*a),
        }
    }
}

impl SymbolKey {
    /// A copy of the key.
    pub fn duplicate(&self) -> (r: SymbolKey)
        ensures
            r@ == self@,
    {
        match self {
            SymbolKey::Name(s) => SymbolKey::Name(s.clone()),
            SymbolKey::Address(a) => SymbolKey::Address(*a),
        }
    }

    /// Whether two keys are the same.
    pub fn same(&self, other: &SymbolKey) -> (r: bool)
        ensures
            r == (self@ == other@),
    {
        match (self, other) {
            (SymbolKey::Name(x), SymbolKey::Name(y)) => *x == *y,
            (SymbolKey::Address(x), SymbolKey::Address(y)) => *x == *y,
            _ => false,
        }
    }
}

/// How resolved addresses are keyed in the report.
#[derive(Clone, Copy, Debug, PartialEq, Eq, Structural)]
pub enum NameStyle {
    /// By the demangled symbol name.
    Demangled,
    /// By the symbol name as stored in the binary.
    Raw,
    /// By the return address itself.
    Address,
}

/// The key of a tallied address: its symbol's name in the chosen style when
/// it resolves to one symbol, the address itself otherwise.
pub open spec fn key_spec(res: Resolution, addr: u64, symbols: Seq<Symbol>, style: NameStyle) -> KeyView {
    match res {
        Resolution::Symbol(k) => match style {
            NameStyle::Demangled => KeyView::Name(symbols[k as int].symbol@),
            NameStyle::Raw => KeyView::Name(symbols[k as int].raw_symbol@),
            NameStyle::Address => KeyView::Address(addr),
        },
        _ => KeyView::Address(addr),
    }
}

fn key_for(res: Resolution, addr: u64, symbols: &Vec<Symbol>, style: NameStyle) -> (r: SymbolKey)
    requires
        res matches Resolution::Symbol(k) ==> k < symbols@.len(),
    ensures
        r@ == key_spec(res, addr, symbols@, style),
{
    match res {
        Resolution::Symbol(k) => match style {
            NameStyle::Demangled => SymbolKey::Name(symbols[k].symbol.clone()),
            NameStyle::Raw => SymbolKey::Name(symbols[k].raw_symbol.clone()),
            NameStyle::Address => SymbolKey::Address(addr),
        },
        _ => SymbolKey::Address(addr),
    }
}

/// The per-key totals of a list of tallied addresses.
pub open spec fn report_of(
    entries: Seq<(u64, Counter)>,
    regions: Seq<RegionView>,
    symbols: Seq<Symbol>,
    style: NameStyle,
) -> Map<KeyView, Counter>
    decreases entries.len(),
{
    if entries.len() == 0 {
        Map::empty()
    } else {
        let e = entries.last();
        merged(
            report_of(entries.drop_last(), regions, symbols, style),
            key_spec(resolution_spec(regions, offsets(symbols), e.0), e.0, symbols, style),
            e.1,
        )
    }
}

/// `rows` lists the entries of `m`, each key once.
pub open spec fn rows_match(rows: Seq<(SymbolKey, Counter)>, m: Map<KeyView, Counter>) -> bool {
    &&& keys_unique(rows)
    &&& forall|i: int|
        0 <= i < rows.len() ==> m.contains_key(#[trigger] rows[i].0@) && m[rows[i].0@]
            == rows[i].1
    &&& forall|k: KeyView| #[trigger]
        m.contains_key(k) ==> exists|i: int| 0 <= i < rows.len() && rows[i].0@ == k
}

/// Merges `c` into the row of `key`, adding the row when there is none.
fn merge_row(rows: &mut Vec<(SymbolKey, Counter)>, key: SymbolKey, c: Counter, Ghost(m): Ghost<
    Map<KeyView, Counter>,
>)
    requires
        rows_match(old(rows)@, m),
    ensures
        rows_match(final(rows)@, merged(m, key@, c)),
{
    reveal(keys_unique);
    let ghost m2 = merged(m, key@, c);
    let mut i: usize = 0;
    while i < rows.len()
        invariant
            i <= rows@.len(),
            rows@ == old(rows)@,
            rows_match(rows@, m),
            m2 == merged(m, key@, c),
            forall|t: int| 0 <= t < i ==> rows@[t].0@ != key@,
        decreases rows@.len() - i,
    {
        if rows[i].0.same(&key) {
            reveal(keys_unique);
            let k2 = rows[i].0.duplicate();
            let mut total = rows[i].1;
            total.merge(c);
            let ghost old_rows = rows@;
            rows.set(i, (k2, total));
            assert forall|k: KeyView| #[trigger] m2.contains_key(k) implies exists|t: int|
                0 <= t < rows@.len() && rows@[t].0@ == k by {
                if k == key@ {
                    assert(rows@[i as int].0@ == k);
                } else {
                    assert(m.contains_key(k));
                    let t = choose|t: int| 0 <= t < old_rows.len() && old_rows[t].0@ == k;
                    assert(rows@[t].0@ == k);
                }
            }
            assert forall|t: int| 0 <= t < rows@.len() implies m2.contains_key(
                #[trigger] rows@[t].0@,
            ) && m2[rows@[t].0@] == rows@[t].1 by {
                if t != i {
                    assert(rows@[t] == old_rows[t]);
                    if t < i {
                        assert(old_rows[t].0@ != old_rows[i as int].0@);
                    } else {
                        assert(old_rows[i as int].0@ != old_rows[t].0@);
                    }
                }
            }
            assert forall|a: int, b: int| 0 <= a < b < rows@.len() implies rows@[a].0@
                != rows@[b].0@ by {
                assert(rows@[a].0@ == old_rows[a].0@);
                assert(rows@[b].0@ == old_rows[b].0@);
            }
            return;
        }
        i = i + 1;
    }
    let ghost old_rows = rows@;
    assert(!m.contains_key(key@));
    rows.push((key, c));
    assert forall|k: KeyView| #[trigger] m2.contains_key(k) implies exists|t: int|
        0 <= t < rows@.len() && rows@[t].0@ == k by {
        if k == rows@[old_rows.len() as int].0@ {
        } else {
            assert(m.contains_key(k));
            let t = choose|t: int| 0 <= t < old_rows.len() && old_rows[t].0@ == k;
            assert(rows@[t].0@ == k);
        }
    }
    assert forall|t: int| 0 <= t < rows@.len() implies m2.contains_key(#[trigger] rows@[t].0@)
        && m2[rows@[t].0@] == rows@[t].1 by {
        if t < old_rows.len() {
            assert(rows@[t] == old_rows[t]);
        }
    }
}

/// Folds the tallied addresses into one row per key: each address resolves
/// against the executable regions and the symbols, and its counter is
/// merged into the row of its key (see `key_spec`).
pub fn attribute(
    entries: &Vec<(u64, Counter)>,
    regions: &Vec<Smap>,
    symbols: &Vec<Symbol>,
    style: NameStyle,
) -> (r: Vec<(SymbolKey, Counter)>)
    ensures
        rows_match(r@, report_of(entries@, region_views(regions@), symbols@, style)),
{
    let is_sorted = crate::symbols::offsets_sorted(symbols);
    let ghost regs = region_views(regions@);
    let mut rows: Vec<(SymbolKey, Counter)> = Vec::new();
    let mut i: usize = 0;
    proof {
        lemma_empty_rows(rows@);
    }
    while i < entries.len()
        invariant
            i <= entries@.len(),
            is_sorted == sorted(offsets(symbols@)),
            regs == region_views(regions@),
            rows_match(rows@, report_of(entries@.subrange(0, i as int), regs, symbols@, style)),
        decreases entries@.len() - i,
    {
        let ghost prev = report_of(entries@.subrange(0, i as int), regs, symbols@, style);
        assert(entries@.subrange(0, i + 1).drop_last() =~= entries@.subrange(0, i as int));
        let (addr, c) = entries[i];
        let res = resolve_address(addr, regions, symbols, is_sorted);
        proof {
            lemma_candidates_bounds(regs, offsets(symbols@), addr);
        }
        let key = key_for(res, addr, symbols, style);
        merge_row(&mut rows, key, c, Ghost(prev));
        i = i + 1;
    }
    assert(entries@.subrange(0, entries@.len() as int) =~= entries@);
    rows
}


/// Sizes never increase along the rows.
#[verifier::opaque]
pub open spec fn by_size_desc(rows: Seq<(SymbolKey, Counter)>) -> bool {
    forall|a: int, b: int| 0 <= a < b < rows.len() ==> rows[a].1.size >= rows[b].1.size
}

/// No key occurs twice.
#[verifier::opaque]
pub open spec fn keys_unique(rows: Seq<(SymbolKey, Counter)>) -> bool {
    forall|a: int, b: int| 0 <= a < b < rows.len() ==> rows[a].0@ != rows[b].0@
}

/// Every row of `out` is, key and counter, one of the first `i` of `rows`.
#[verifier::opaque]
pub open spec fn drawn_from(out: Seq<(SymbolKey, Counter)>, rows: Seq<(SymbolKey, Counter)>, i: int) -> bool {
    forall|j: int|
        0 <= j < out.len() ==> exists|t: int|
            0 <= t < i && rows[t].0@ == (#[trigger] out[j]).0@ && rows[t].1 == out[j].1
}

/// Every one of the first `i` of `rows` is, key and counter, a row of `out`.
#[verifier::opaque]
pub open spec fn covers(out: Seq<(SymbolKey, Counter)>, rows: Seq<(SymbolKey, Counter)>, i: int) -> bool {
    forall|t: int|
        0 <= t < i ==> exists|j: int|
            0 <= j < out.len() && out[j].0@ == (#[trigger] rows[t]).0@ && out[j].1 == rows[t].1
}

proof fn lemma_empty_rows(rows: Seq<(SymbolKey, Counter)>)
    ensures
        by_size_desc(Seq::empty()),
        keys_unique(Seq::empty()),
        drawn_from(Seq::empty(), rows, 0),
        covers(Seq::empty(), rows, 0),
        rows_match(Seq::empty(), Map::empty()),
{
    reveal(by_size_desc);
    reveal(keys_unique);
    reveal(drawn_from);
    reveal(covers);
}

proof fn lemma_insert_keeps_order(
    before: Seq<(SymbolKey, Counter)>,
    p: int,
    row: (SymbolKey, Counter),
)
    requires
        0 <= p <= before.len(),
        by_size_desc(before),
        forall|a: int| 0 <= a < p ==> before[a].1.size >= row.1.size,
        p < before.len() ==> before[p].1.size < row.1.size,
    ensures
        by_size_desc(before.insert(p, row)),
{
    reveal(by_size_desc);
    before.insert_ensures(p, row);
    let after = before.insert(p, row);
    assert forall|a: int, b: int| 0 <= a < b < after.len() implies after[a].1.size
        >= after[b].1.size by {
        if b <= p {
        } else if a < p {
            assert(after[b] == before[b - 1]);
            assert(before[p].1.size >= before[b - 1].1.size);
        } else if a == p {
            assert(after[b] == before[b - 1]);
            assert(before[p].1.size >= before[b - 1].1.size);
        } else {
            assert(after[a] == before[a - 1] && after[b] == before[b - 1]);
        }
    }
}

proof fn lemma_insert_keeps_keys(
    rows: Seq<(SymbolKey, Counter)>,
    i: int,
    before: Seq<(SymbolKey, Counter)>,
    p: int,
    row: (SymbolKey, Counter),
)
    requires
        0 <= i < rows.len(),
        0 <= p <= before.len(),
        keys_unique(rows),
        keys_unique(before),
        drawn_from(before, rows, i),
        covers(before, rows, i),
        row.0@ == rows[i].0@,
        row.1 == rows[i].1,
    ensures
        keys_unique(before.insert(p, row)),
        drawn_from(before.insert(p, row), rows, i + 1),
        covers(before.insert(p, row), rows, i + 1),
{
    reveal(keys_unique);
    reveal(drawn_from);
    reveal(covers);
    before.insert_ensures(p, row);
    let after = before.insert(p, row);
    assert(after[p] == row);
    assert forall|j: int| 0 <= j < before.len() implies before[j].0@ != row.0@ by {
        let t = choose|t: int|
            0 <= t < i && rows[t].0@ == (#[trigger] before[j]).0@ && rows[t].1 == before[j].1;
        assert(rows[t].0@ != rows[i].0@);
    }
    assert forall|a: int, b: int| 0 <= a < b < after.len() implies after[a].0@ != after[b].0@ by {
        if b < p {
        } else if b == p {
        } else if a < p {
            assert(after[b] == before[b - 1]);
        } else if a == p {
            assert(after[b] == before[b - 1]);
        } else {
            assert(after[a] == before[a - 1] && after[b] == before[b - 1]);
        }
    }
    assert forall|j: int| 0 <= j < after.len() implies exists|t: int|
        0 <= t < i + 1 && rows[t].0@ == (#[trigger] after[j]).0@ && rows[t].1 == after[j].1 by {
        if j < p {
            assert(after[j] == before[j]);
            let t = choose|t: int|
                0 <= t < i && rows[t].0@ == (#[trigger] before[j]).0@ && rows[t].1 == before[j].1;
        } else if j == p {
            assert(rows[i].0@ == after[j].0@);
        } else {
            assert(after[j] == before[j - 1]);
            let t = choose|t: int|
                0 <= t < i && rows[t].0@ == (#[trigger] before[j - 1]).0@ && rows[t].1 == before[j
                    - 1].1;
        }
    }
    assert forall|t: int| 0 <= t < i + 1 implies exists|j: int|
        0 <= j < after.len() && after[j].0@ == (#[trigger] rows[t]).0@ && after[j].1 == rows[t].1 by {
        if t == i {
            assert(after[p].0@ == rows[t].0@);
        } else {
            let j = choose|j: int|
                0 <= j < before.len() && before[j].0@ == (#[trigger] rows[t]).0@ && before[j].1
                    == rows[t].1;
            if j < p {
                assert(after[j] == before[j]);
            } else {
                assert(after[j + 1] == before[j]);
            }
        }
    }
}

proof fn lemma_reordered_rows_match(
    rows: Seq<(SymbolKey, Counter)>,
    out: Seq<(SymbolKey, Counter)>,
    m: Map<KeyView, Counter>,
)
    requires
        rows_match(rows, m),
        keys_unique(out),
        drawn_from(out, rows, rows.len() as int),
        covers(out, rows, rows.len() as int),
    ensures
        rows_match(out, m),
{
    reveal(drawn_from);
    reveal(covers);
    assert forall|j: int| 0 <= j < out.len() implies m.contains_key(#[trigger] out[j].0@)
        && m[out[j].0@] == out[j].1 by {
        let t = choose|t: int|
            0 <= t < rows.len() && rows[t].0@ == (#[trigger] out[j]).0@ && rows[t].1 == out[j].1;
        assert(m.contains_key(rows[t].0@));
    }
    assert forall|k: KeyView| #[trigger] m.contains_key(k) implies exists|j: int|
        0 <= j < out.len() && out[j].0@ == k by {
        let t = choose|t: int| 0 <= t < rows.len() && rows[t].0@ == k;
        let j = choose|j: int|
            0 <= j < out.len() && out[j].0@ == (#[trigger] rows[t]).0@ && out[j].1 == rows[t].1;
    }
}

/// Orders the rows by size, largest first; rows of equal size keep their
/// order. The rows themselves are unchanged.
pub fn sort_by_size(rows: &Vec<(SymbolKey, Counter)>) -> (r: Vec<(SymbolKey, Counter)>)
    requires
        keys_unique(rows@),
    ensures
        by_size_desc(r@),
        keys_unique(r@),
        r@.len() == rows@.len(),
        drawn_from(r@, rows@, rows@.len() as int),
        covers(r@, rows@, rows@.len() as int),
{
    let mut out: Vec<(SymbolKey, Counter)> = Vec::new();
    let mut i: usize = 0;
    proof {
        lemma_empty_rows(rows@);
    }
    while i < rows.len()
        invariant
            i <= rows@.len(),
            keys_unique(rows@),
            out@.len() == i,
            by_size_desc(out@),
            keys_unique(out@),
            drawn_from(out@, rows@, i as int),
            covers(out@, rows@, i as int),
        decreases rows@.len() - i,
    {
        let size = rows[i].1.size;
        let mut p: usize = 0;
        while p < out.len() && out[p].1.size >= size
            invariant
                p <= out@.len(),
                forall|a: int| 0 <= a < p ==> out@[a].1.size >= size,
            decreases out@.len() - p,
        {
            p = p + 1;
        }
        let row = (rows[i].0.duplicate(), rows[i].1);
        proof {
            lemma_insert_keeps_order(out@, p as int, row);
            lemma_insert_keeps_keys(rows@, i as int, out@, p as int, row);
        }
        out.insert(p, row);
        i = i + 1;
    }
    out
}

/// The report of a scan: one row per key with its merged counter (see
/// `attribute`), largest size first.
pub fn report(
    entries: &Vec<(u64, Counter)>,
    regions: &Vec<Smap>,
    symbols: &Vec<Symbol>,
    style: NameStyle,
) -> (r: Vec<(SymbolKey, Counter)>)
    ensures
        rows_match(r@, report_of(entries@, region_views(regions@), symbols@, style)),
        by_size_desc(r@),
{
    let rows = attribute(entries, regions, symbols, style);
    let sorted = sort_by_size(&rows);
    proof {
        lemma_reordered_rows_match(rows@, sorted@, report_of(entries@, region_views(regions@), symbols@, style));
    }
    sorted
}

/// The summary counters of a scan, in MiB.
#[derive(Clone, Copy, Debug, PartialEq, Eq, Structural)]
pub struct Summary {
    /// Resident anonymous memory that no counted header accounts for.
    pub resident_but_unaccounted_mb: u64,
    /// Memory that counted headers account for.
    pub allocated_with_proxy_mb: u64,
    /// Resident file-backed memory.
    pub mapped_files_mb: u64,
    /// The sum of the three.
    pub total_size_mb: u64,
}

/// The summary of a scan that found `present_pages` resident anonymous
/// pages, `mapped_file_pages` resident file-backed pages, and headers that
/// account for `attributed` bytes. `None` when a byte count does not fit in
/// 64 bits.
pub fn summarize(present_pages: u64, mapped_file_pages: u64, page_size: u64, attributed: u64) -> (r:
    Option<Summary>)
    ensures
        r is Some <==> present_pages * page_size <= u64::MAX && mapped_file_pages * page_size
            <= u64::MAX,
        r is Some ==> {
            let s = r->0;
            let resident = present_pages * page_size;
            &&& s.resident_but_unaccounted_mb == (if resident > attributed {
                resident - attributed
            } else {
                0
            }) / MIB as int
            &&& s.allocated_with_proxy_mb == attributed / MIB
            &&& s.mapped_files_mb == (mapped_file_pages * page_size) / MIB as int
            &&& s.total_size_mb == s.resident_but_unaccounted_mb + s.allocated_with_proxy_mb
                + s.mapped_files_mb
        },
{
    let resident = match present_pages.checked_mul(page_size) {
        Some(v) => v,
        None => return None,
    };
    let mapped = match mapped_file_pages.checked_mul(page_size) {
        Some(v) => v,
        None => return None,
    };
    let unaccounted_mb = resident.saturating_sub(attributed) / MIB;
    let allocated_mb = attributed / MIB;
    let mapped_mb = mapped / MIB;
    Some(
        Summary {
            resident_but_unaccounted_mb: unaccounted_mb,
            allocated_with_proxy_mb: allocated_mb,
            mapped_files_mb: mapped_mb,
            total_size_mb: unaccounted_mb + allocated_mb + mapped_mb,
        },
    )
}

} // verus!
