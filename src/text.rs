//! Helpers for the line-oriented text that the introspection interfaces
//! produce: space-separated fields, hexadecimal numbers, and substrings
//! taken between field boundaries.
use vstd::prelude::*;
use vstd::string::{StrSliceExecFns, StringSliceAdditionalSpecFns};
use vstd::utf8::*;

verus! {

broadcast use vstd::utf8::group_utf8_lib;

/// The space character, which separates fields.
pub const SPACE: u8 = 32;

/// First position at or after `i` that does not hold a space.
pub open spec fn skip_spaces(b: Seq<u8>, i: int) -> int
    decreases b.len() - i,
{
    if i < 0 || i >= b.len() || b[i] != SPACE {
        i
    } else {
        skip_spaces(b, i + 1)
    }
}

/// First position at or after `i` that holds a space, or the end.
pub open spec fn skip_word(b: Seq<u8>, i: int) -> int
    decreases b.len() - i,
{
    if i < 0 || i >= b.len() || b[i] == SPACE {
        i
    } else {
        skip_word(b, i + 1)
    }
}

/// Start of field `k`. Field 0 starts the line (it is empty when the line
/// starts with a space); each later field starts after the run of spaces
/// that ends the one before.
pub open spec fn field_start(b: Seq<u8>, k: nat) -> int
    decreases k, 0nat,
{
    if k == 0 {
        0
    } else {
        skip_spaces(b, field_end(b, (k - 1) as nat))
    }
}

/// End of field `k`.
pub open spec fn field_end(b: Seq<u8>, k: nat) -> int
    decreases k, 1nat,
{
    if k == 0 {
        skip_word(b, 0)
    } else {
        skip_word(b, field_start(b, k))
    }
}

/// The bytes of field `k`.
pub open spec fn field(b: Seq<u8>, k: nat) -> Seq<u8> {
    b.subrange(field_start(b, k), field_end(b, k))
}

/// The line has a field `k` that starts before the end.
pub open spec fn has_field(b: Seq<u8>, k: nat) -> bool {
    field_start(b, k) < b.len()
}

pub proof fn lemma_skip_bounds(b: Seq<u8>, i: int)
    requires
        0 <= i <= b.len(),
    ensures
        i <= skip_spaces(b, i) <= b.len(),
        i <= skip_word(b, i) <= b.len(),
        skip_spaces(b, i) < b.len() ==> b[skip_spaces(b, i)] != SPACE,
        skip_word(b, i) < b.len() ==> b[skip_word(b, i)] == SPACE,
        skip_spaces(b, i) > i ==> b[skip_spaces(b, i) - 1] == SPACE,
    decreases b.len() - i,
{
    if i < b.len() {
        lemma_skip_bounds(b, i + 1);
    }
}

pub proof fn lemma_field_bounds(b: Seq<u8>, k: nat)
    ensures
        0 <= field_start(b, k) <= field_end(b, k) <= b.len(),
        field_end(b, k) < b.len() ==> b[field_end(b, k)] == SPACE,
        field_start(b, k) == 0 || (field_start(b, k) > 0 && (field_start(b, k) == b.len() || b[field_start(b, k) - 1] == SPACE)),
    decreases k,
{
    if k == 0 {
        lemma_skip_bounds(b, 0);
    } else {
        lemma_field_bounds(b, (k - 1) as nat);
        let e = field_end(b, (k - 1) as nat);
        lemma_skip_bounds(b, e);
        if e == skip_spaces(b, e) && e > 0 && e < b.len() {
            // e is the end of the previous field, so it holds a space, and
            // skip_spaces would have moved past it.
            assert(b[e] == SPACE);
            assert(false);
        }
        lemma_skip_bounds(b, field_start(b, k));
    }
}

/// Position of the first space at or after `i`, or the end.
pub fn word_end(b: &[u8], i: usize) -> (r: usize)
    requires
        i <= b@.len(),
    ensures
        r == skip_word(b@, i as int),
{
    let mut j = i;
    while j < b.len() && b[j] != SPACE
        invariant
            i <= j <= b@.len(),
            skip_word(b@, i as int) == skip_word(b@, j as int),
        decreases b@.len() - j,
    {
        j = j + 1;
    }
    j
}

/// Position of the first non-space at or after `i`, or the end.
pub fn spaces_end(b: &[u8], i: usize) -> (r: usize)
    requires
        i <= b@.len(),
    ensures
        r == skip_spaces(b@, i as int),
{
    let mut j = i;
    while j < b.len() && b[j] == SPACE
        invariant
            i <= j <= b@.len(),
            skip_spaces(b@, i as int) == skip_spaces(b@, j as int),
        decreases b@.len() - j,
    {
        j = j + 1;
    }
    j
}

/// Start and end of field `k` of the line.
pub fn field_bounds(b: &[u8], k: usize) -> (r: (usize, usize))
    ensures
        r.0 == field_start(b@, k as nat),
        r.1 == field_end(b@, k as nat),
{
    proof {
        lemma_field_bounds(b@, 0);
    }
    let mut start: usize = 0;
    let mut end = word_end(b, 0);
    let mut i: usize = 0;
    while i < k
        invariant
            i <= k,
            start == field_start(b@, i as nat),
            end == field_end(b@, i as nat),
            end <= b@.len(),
        decreases k - i,
    {
        start = spaces_end(b, end);
        proof {
            lemma_field_bounds(b@, (i + 1) as nat);
        }
        end = word_end(b, start);
        i = i + 1;
    }
    (start, end)
}

/// Value of a hexadecimal digit, upper or lower case.
pub open spec fn hex_digit(c: u8) -> Option<nat> {
    if 48 <= c <= 57 {
        Some((c - 48) as nat)
    } else if 97 <= c <= 102 {
        Some((c - 87) as nat)
    } else if 65 <= c <= 70 {
        Some((c - 55) as nat)
    } else {
        None
    }
}

/// Every byte of `s` is a hexadecimal digit.
pub open spec fn all_hex(s: Seq<u8>) -> bool {
    forall|i: int| 0 <= i < s.len() ==> (#[trigger] hex_digit(s[i])) is Some
}

/// The number that the hexadecimal digits of `s` spell.
pub open spec fn hex_value(s: Seq<u8>) -> nat
    decreases s.len(),
{
    if s.len() == 0 {
        0
    } else {
        hex_value(s.drop_last()) * 16 + hex_digit(s.last())->0
    }
}

/// `s` read as a hexadecimal number: its value when `s` is a non-empty run
/// of hexadecimal digits whose value fits in 64 bits, and 0 otherwise.
pub open spec fn hex_or_zero(s: Seq<u8>) -> u64 {
    if s.len() > 0 && all_hex(s) && hex_value(s) <= u64::MAX {
        hex_value(s) as u64
    } else {
        0
    }
}

fn digit_value(c: u8) -> (r: Option<u64>)
    ensures
        r is Some <==> hex_digit(c) is Some,
        r is Some ==> r->0 == hex_digit(c)->0,
{
    if 48 <= c && c <= 57 {
        Some((c - 48) as u64)
    } else if 97 <= c && c <= 102 {
        Some((c - 87) as u64)
    } else if 65 <= c && c <= 70 {
        Some((c - 55) as u64)
    } else {
        None
    }
}

proof fn lemma_hex_value_monotone(s: Seq<u8>, n: int)
    requires
        0 <= n <= s.len(),
        all_hex(s),
    ensures
        hex_value(s.subrange(0, n)) <= hex_value(s),
    decreases s.len() - n,
{
    if n < s.len() {
        lemma_hex_value_monotone(s, n + 1);
        assert(s.subrange(0, n + 1).drop_last() =~= s.subrange(0, n));
    } else {
        assert(s.subrange(0, n) =~= s);
    }
}

/// Reads `b[lo..hi]` as a hexadecimal number, 0 when it is not one.
pub fn parse_hex(b: &[u8], lo: usize, hi: usize) -> (r: u64)
    requires
        lo <= hi <= b@.len(),
    ensures
        r == hex_or_zero(b@.subrange(lo as int, hi as int)),
{
    let ghost s = b@.subrange(lo as int, hi as int);
    if lo == hi {
        return 0;
    }
    let mut v: u64 = 0;
    let mut i = lo;
    while i < hi
        invariant
            lo <= i <= hi <= b@.len(),
            s == b@.subrange(lo as int, hi as int),
            all_hex(s.subrange(0, i - lo)),
            v == hex_value(s.subrange(0, i - lo)),
        decreases hi - i,
    {
        let d = match digit_value(b[i]) {
            Some(d) => d,
            None => {
                assert(hex_digit(s[i - lo]) is None);
                return 0;
            },
        };
        let ghost prefix = s.subrange(0, i + 1 - lo);
        assert(prefix.drop_last() =~= s.subrange(0, i - lo));
        if v >= 0x1000_0000_0000_0000 {
            proof {
                assert(hex_value(prefix) >= 0x1000_0000_0000_0000 * 16);
                if all_hex(s) {
                    lemma_hex_value_monotone(s, i + 1 - lo);
                }
            }
            return 0;
        }
        v = v * 16 + d;
        i = i + 1;
    }
    assert(s.subrange(0, hi - lo) =~= s);
    v
}

proof fn lemma_ascii_boundary(b: Seq<u8>, i: int)
    requires
        valid_utf8(b),
        0 <= i < b.len(),
        b[i] == SPACE,
    ensures
        is_char_boundary(b, i),
{
    assert(!is_continuation_byte(b[i]));
}

proof fn lemma_after_ascii_boundary(b: Seq<u8>)
    requires
        valid_utf8(b),
        b.len() >= 1,
        b[0] == SPACE,
    ensures
        is_char_boundary(b, 1),
{
    reveal_with_fuel(is_char_boundary, 2);
    assert(is_leading_byte_width_1(b[0]));
}

/// The substring of `line` between byte positions `lo` and `hi`, which sit
/// at field boundaries: `lo` at the start or right after a space, `hi` at
/// the end or on a space.
pub fn piece(line: &str, lo: usize, hi: usize) -> (r: String)
    requires
        lo <= hi <= line.spec_bytes().len(),
        lo == 0 || line.spec_bytes()[lo - 1] == SPACE,
        hi == line.spec_bytes().len() || line.spec_bytes()[hi as int] == SPACE,
    ensures
        encode_utf8(r@) == line.spec_bytes().subrange(lo as int, hi as int),
{
    let ghost b = line.spec_bytes();
    proof {
        if hi < b.len() {
            lemma_ascii_boundary(b, hi as int);
        }
    }
    let (head, _) = line.split_at(hi);
    let ghost hb = head.spec_bytes();
    assert(hb =~= b.subrange(0, hi as int));
    if lo == 0 {
        return head.to_owned();
    }
    proof {
        lemma_ascii_boundary(hb, lo - 1);
    }
    let (_, rest) = head.split_at(lo - 1);
    let ghost rb = rest.spec_bytes();
    assert(rb =~= b.subrange(lo - 1, hi as int));
    proof {
        lemma_after_ascii_boundary(rb);
    }
    let (_, tail) = rest.split_at(1);
    assert(tail.spec_bytes() =~= b.subrange(lo as int, hi as int));
    tail.to_owned()
}


/// The pieces of `s` between occurrences of `c`, in order: one more piece
/// than there are occurrences, empty pieces included.
pub open spec fn split_spec(s: Seq<char>, c: char) -> Seq<Seq<char>>
    decreases s.len(),
{
    if s.len() == 0 {
        seq![Seq::empty()]
    } else {
        let p = split_spec(s.drop_last(), c);
        if s.last() == c {
            p.push(Seq::empty())
        } else {
            p.update(p.len() - 1, p.last().push(s.last()))
        }
    }
}

/// Splits `arg` at every occurrence of `split_char`.
pub fn split(arg: &str, split_char: char) -> (r: Vec<String>)
    ensures
        r@.len() == split_spec(arg@, split_char).len(),
        forall|k: int| 0 <= k < r@.len() ==> #[trigger] r@[k]@ == split_spec(arg@, split_char)[k],
{
    let n = arg.unicode_len();
    let mut pieces: Vec<String> = Vec::new();
    let mut start: usize = 0;
    let mut i: usize = 0;
    assert(arg@.subrange(0, 0) =~= Seq::<char>::empty());
    while i < n
        invariant
            n == arg@.len(),
            start <= i <= n,
            split_spec(arg@.subrange(0, i as int), split_char).len() == pieces@.len() + 1,
            forall|k: int|
                0 <= k < pieces@.len() ==> #[trigger] pieces@[k]@ == split_spec(
                    arg@.subrange(0, i as int),
                    split_char,
                )[k],
            split_spec(arg@.subrange(0, i as int), split_char).last() == arg@.subrange(
                start as int,
                i as int,
            ),
        decreases n - i,
    {
        let ch = arg.get_char(i);
        let ghost before = split_spec(arg@.subrange(0, i as int), split_char);
        assert(arg@.subrange(0, i + 1).drop_last() =~= arg@.subrange(0, i as int));
        if ch == split_char {
            let part = arg.substring_char(start, i).to_owned();
            pieces.push(part);
            start = i + 1;
            assert(arg@.subrange(start as int, i + 1) =~= Seq::<char>::empty());
        } else {
            assert(arg@.subrange(start as int, i + 1) =~= arg@.subrange(start as int, i as int).push(ch));
        }
        i = i + 1;
    }
    let last = arg.substring_char(start, n).to_owned();
    pieces.push(last);
    assert(arg@.subrange(0, n as int) =~= arg@);
    pieces
}

} // verus!
