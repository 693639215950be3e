//! The symbol table of the target binary, as the symbol-dumping tool prints
//! it (`offset type name`, one symbol per line), and the lookup of the last
//! symbol at or before a file offset.
use vstd::prelude::*;
use vstd::string::StringSliceAdditionalSpecFns;
use vstd::utf8::encode_utf8;
use crate::smaps::line_bytes;
use crate::text::{field, field_bounds, has_field, hex_or_zero, lemma_field_bounds, parse_hex, piece};

verus! {

/// What demangling makes of a symbol name.
pub uninterp spec fn demangled(raw: Seq<char>) -> Seq<char>;

/// Relies on rustc_demangle::demangle, rendered with `Display`: the
/// readable form of a mangled Rust symbol, which depends on the name alone.
#[verifier::external_body]
fn demangle_name(raw: &str) -> (r: String)
    ensures
        r@ == demangled(raw@),
{
    rustc_demangle::demangle(raw).to_string()
}

/// One symbol of the binary.
pub struct Symbol {
    /// Its address in the file.
    pub offset: u64,
    /// The one-letter type that the dump gives it.
    pub unk: String,
    /// The name as stored in the binary.
    pub raw_symbol: String,
    /// The demangled name.
    pub symbol: String,
}

/// The fields of a symbol line, as UTF-8 bytes.
pub ghost struct SymbolLine {
    pub offset: u64,
    pub kind: Seq<u8>,
    pub raw: Seq<u8>,
}

/// The symbol that a line of the dump describes: a line with at least three
/// space-separated fields gives the offset (hexadecimal, 0 when it does not
/// parse), the type and the name.
pub open spec fn symbol_line(b: Seq<u8>) -> Option<SymbolLine> {
    if has_field(b, 2) {
        Some(SymbolLine { offset: hex_or_zero(field(b, 0)), kind: field(b, 1), raw: field(b, 2) })
    } else {
        None
    }
}

impl Symbol {
    /// A symbol from its parsed fields and its demangled name.
    pub fn from_parts(offset: u64, unk: String, raw_symbol: String, symbol: String) -> (r: Symbol)
        ensures
            r.offset == offset,
            r.unk@ == unk@,
            r.raw_symbol@ == raw_symbol@,
            r.symbol@ == symbol@,
    {
        Symbol { offset, unk, raw_symbol, symbol }
    }

    /// The line's fields, as `symbol_line` gives them.
    pub open spec fn matches_line(&self, l: SymbolLine) -> bool {
        &&& self.offset == l.offset
        &&& encode_utf8(self.unk@) == l.kind
        &&& encode_utf8(self.raw_symbol@) == l.raw
        &&& self.symbol@ == demangled(self.raw_symbol@)
    }
}

/// Parses one line of the symbol dump.
pub fn parse_symbol_line(line: &str) -> (r: Option<Symbol>)
    ensures
        r is Some <==> symbol_line(line.spec_bytes()) is Some,
        r is Some ==> r->0.matches_line(symbol_line(line.spec_bytes())->0),
{
    let b = line.as_bytes();
    proof {
        lemma_field_bounds(b@, 0);
        lemma_field_bounds(b@, 1);
        lemma_field_bounds(b@, 2);
    }
    let (s0, e0) = field_bounds(b, 0);
    let (s1, e1) = field_bounds(b, 1);
    let (s2, e2) = field_bounds(b, 2);
    if s2 >= b.len() {
        return None;
    }
    let offset = parse_hex(b, s0, e0);
    let unk = piece(line, s1, e1);
    let raw_symbol = piece(line, s2, e2);
    let symbol = demangle_name(raw_symbol.as_str());
    Some(Symbol::from_parts(offset, unk, raw_symbol, symbol))
}

/// The symbols that a sequence of dump lines describes, in order.
pub open spec fn symbols_of(lines: Seq<Seq<u8>>) -> Seq<SymbolLine>
    decreases lines.len(),
{
    if lines.len() == 0 {
        Seq::empty()
    } else {
        let p = symbols_of(lines.drop_last());
        match symbol_line(lines.last()) {
            Some(s) => p.push(s),
            None => p,
        }
    }
}

/// Parses the symbol dump, given as its lines; lines with fewer than three
/// fields are passed over. The symbols keep the dump's order: `owner_of`
/// finds the nearest symbol whatever that order, and a list found sorted
/// (`offsets_sorted`) is searched by bisection.
pub fn get_symbols(lines: &Vec<String>) -> (r: Vec<Symbol>)
    ensures
        r@.len() == symbols_of(line_bytes(lines@)).len(),
        forall|k: int|
            0 <= k < r@.len() ==> #[trigger] r@[k].matches_line(symbols_of(line_bytes(lines@))[k]),
{
    let mut out: Vec<Symbol> = Vec::new();
    let mut i: usize = 0;
    while i < lines.len()
        invariant
            i <= lines@.len(),
            out@.len() == symbols_of(line_bytes(lines@.subrange(0, i as int))).len(),
            forall|k: int|
                0 <= k < out@.len() ==> #[trigger] out@[k].matches_line(
                    symbols_of(line_bytes(lines@.subrange(0, i as int)))[k],
                ),
        decreases lines@.len() - i,
    {
        let ghost prev = line_bytes(lines@.subrange(0, i as int));
        let ghost next = line_bytes(lines@.subrange(0, i + 1));
        assert(next.drop_last() =~= prev);
        let line = lines[i].as_str();
        assert(next.last() == line.spec_bytes());
        match parse_symbol_line(line) {
            Some(s) => {
                out.push(s);
            },
            None => {},
        }
        i = i + 1;
    }
    assert(lines@.subrange(0, lines@.len() as int) =~= lines@);
    out
}

/// The offsets of a symbol list.
pub open spec fn offsets(symbols: Seq<Symbol>) -> Seq<u64> {
    Seq::new(symbols.len(), |i: int| symbols[i].offset)
}

/// Offsets never decrease along the list.
pub open spec fn sorted(offs: Seq<u64>) -> bool {
    forall|i: int, j: int| 0 <= i <= j < offs.len() ==> offs[i] <= offs[j]
}

/// The last position among the first `n` whose offset is at or before `q`.
pub open spec fn last_at_or_before(offs: Seq<u64>, q: u64, n: int) -> Option<int>
    decreases n,
{
    if n <= 0 {
        None
    } else if offs[n - 1] <= q {
        Some(n - 1)
    } else {
        last_at_or_before(offs, q, n - 1)
    }
}

/// Among the first `n` positions, the one with the largest offset at or
/// before `q`; of several with that offset, the last.
pub open spec fn nearest_upto(offs: Seq<u64>, q: u64, n: int) -> Option<int>
    decreases n,
{
    if n <= 0 {
        None
    } else {
        let p = nearest_upto(offs, q, n - 1);
        if offs[n - 1] <= q && (p is None || offs[p->0] <= offs[n - 1]) {
            Some(n - 1)
        } else {
            p
        }
    }
}

/// The symbol that owns file offset `q`: the nearest one at or before `q`,
/// that is the one with the largest offset not past `q` (the last of them
/// in list order when several share that offset).
pub open spec fn owner_of(offs: Seq<u64>, q: u64) -> Option<int> {
    nearest_upto(offs, q, offs.len() as int)
}

proof fn lemma_nearest_upto_bounds(offs: Seq<u64>, q: u64, n: int)
    requires
        n <= offs.len(),
    ensures
        nearest_upto(offs, q, n) is Some ==> {
            let k = nearest_upto(offs, q, n)->0;
            &&& 0 <= k < n
            &&& offs[k] <= q
            &&& forall|j: int| 0 <= j < n && offs[j] <= q ==> offs[j] <= offs[k]
            &&& forall|j: int| k < j < n && offs[j] <= q ==> offs[j] < offs[k]
        },
        nearest_upto(offs, q, n) is None ==> forall|j: int| 0 <= j < n ==> offs[j] > q,
    decreases n,
{
    if n > 0 {
        lemma_nearest_upto_bounds(offs, q, n - 1);
    }
}

proof fn lemma_last_at_or_before_bounds(offs: Seq<u64>, q: u64, n: int)
    requires
        n <= offs.len(),
    ensures
        last_at_or_before(offs, q, n) is Some ==> 0 <= last_at_or_before(offs, q, n)->0 < n
            && offs[last_at_or_before(offs, q, n)->0] <= q,
    decreases n,
{
    if n > 0 {
        lemma_last_at_or_before_bounds(offs, q, n - 1);
    }
}

/// In a sorted list the nearest symbol is simply the last one at or before
/// `q`, which a binary search finds.
proof fn lemma_sorted_nearest_is_last(offs: Seq<u64>, q: u64, n: int)
    requires
        sorted(offs),
        n <= offs.len(),
    ensures
        nearest_upto(offs, q, n) == last_at_or_before(offs, q, n),
    decreases n,
{
    if n > 0 {
        lemma_sorted_nearest_is_last(offs, q, n - 1);
        lemma_last_at_or_before_bounds(offs, q, n - 1);
    }
}

/// The owner of `q` is the nearest symbol at or before it: no symbol at or
/// before `q` starts later, and none exists when there is no owner. This
/// holds whatever the order of the list.
pub proof fn lemma_owner_is_nearest(offs: Seq<u64>, q: u64)
    ensures
        owner_of(offs, q) is Some ==> {
            let k = owner_of(offs, q)->0;
            &&& 0 <= k < offs.len()
            &&& offs[k] <= q
            &&& forall|j: int| 0 <= j < offs.len() && offs[j] <= q ==> offs[j] <= offs[k]
        },
        owner_of(offs, q) is None ==> forall|j: int| 0 <= j < offs.len() ==> offs[j] > q,
{
    lemma_nearest_upto_bounds(offs, q, offs.len() as int);
}

/// The owner of an offset is a position in the list.
pub proof fn lemma_owner_is_nearest_bounds(offs: Seq<u64>, q: u64)
    ensures
        owner_of(offs, q) is Some ==> 0 <= owner_of(offs, q)->0 < offs.len(),
{
    lemma_nearest_upto_bounds(offs, q, offs.len() as int);
}

proof fn lemma_split_point(offs: Seq<u64>, q: u64, lo: int, n: int)
    requires
        0 <= lo <= n <= offs.len(),
        forall|k: int| 0 <= k < lo ==> offs[k] <= q,
        forall|k: int| lo <= k < n ==> offs[k] > q,
    ensures
        last_at_or_before(offs, q, n) == if lo > 0 { Some(lo - 1) } else { None::<int> },
    decreases n,
{
    if n > lo {
        lemma_split_point(offs, q, lo, n - 1);
    }
}

/// Whether the offsets of `symbols` never decrease.
pub fn offsets_sorted(symbols: &Vec<Symbol>) -> (r: bool)
    ensures
        r == sorted(offsets(symbols@)),
{
    let n = symbols.len();
    if n == 0 {
        return true;
    }
    let mut i: usize = 1;
    while i < n
        invariant
            n == symbols@.len(),
            1 <= i <= n,
            sorted(offsets(symbols@.subrange(0, i as int))),
        decreases n - i,
    {
        if symbols[i - 1].offset > symbols[i].offset {
            assert(!sorted(offsets(symbols@)) ) by {
                let o = offsets(symbols@);
                assert(o[i - 1] > o[i as int]);
            }
            return false;
        }
        proof {
            let o = offsets(symbols@.subrange(0, i + 1));
            let p = offsets(symbols@.subrange(0, i as int));
            assert forall|a: int, b: int| 0 <= a <= b < o.len() implies o[a] <= o[b] by {
                if b < i {
                    assert(o[a] == p[a] && o[b] == p[b]);
                } else if a < i {
                    assert(o[a] == p[a] && p[a] <= p[i - 1]);
                }
            }
        }
        i = i + 1;
    }
    assert(symbols@.subrange(0, n as int) =~= symbols@);
    true
}

/// The owner of file offset `q`, found by a linear scan; the list need not
/// be sorted.
pub fn owner_linear(symbols: &Vec<Symbol>, q: u64) -> (r: Option<usize>)
    ensures
        r is Some <==> owner_of(offsets(symbols@), q) is Some,
        r is Some ==> r->0 == owner_of(offsets(symbols@), q)->0,
{
    let ghost o = offsets(symbols@);
    let mut best: Option<usize> = None;
    let mut i: usize = 0;
    while i < symbols.len()
        invariant
            i <= symbols@.len(),
            o == offsets(symbols@),
            best is Some <==> nearest_upto(o, q, i as int) is Some,
            best is Some ==> best->0 == nearest_upto(o, q, i as int)->0,
        decreases symbols@.len() - i,
    {
        proof {
            lemma_nearest_upto_bounds(o, q, i as int);
        }
        let off = symbols[i].offset;
        if off <= q {
            match best {
                Some(b) => {
                    if symbols[b].offset <= off {
                        best = Some(i);
                    }
                },
                None => {
                    best = Some(i);
                },
            }
        }
        i = i + 1;
    }
    best
}

/// The owner of file offset `q` in a list sorted by offset, found by binary
/// search: the nearest symbol at or before `q`.
pub fn owner_sorted(symbols: &Vec<Symbol>, q: u64) -> (r: Option<usize>)
    requires
        sorted(offsets(symbols@)),
    ensures
        r is Some <==> owner_of(offsets(symbols@), q) is Some,
        r is Some ==> r->0 == owner_of(offsets(symbols@), q)->0,
{
    let ghost o = offsets(symbols@);
    let mut lo: usize = 0;
    let mut hi: usize = symbols.len();
    while lo < hi
        invariant
            lo <= hi <= symbols@.len(),
            o == offsets(symbols@),
            sorted(o),
            forall|k: int| 0 <= k < lo ==> o[k] <= q,
            forall|k: int| hi <= k < o.len() ==> o[k] > q,
        decreases hi - lo,
    {
        let mid = lo + (hi - lo) / 2;
        if symbols[mid].offset <= q {
            assert(o[mid as int] <= q);
            lo = mid + 1;
        } else {
            assert(o[mid as int] > q);
            hi = mid;
        }
    }
    proof {
        lemma_split_point(o, q, lo as int, o.len() as int);
        lemma_sorted_nearest_is_last(o, q, o.len() as int);
    }
    if lo > 0 {
        Some(lo - 1)
    } else {
        None
    }
}

} // verus!
