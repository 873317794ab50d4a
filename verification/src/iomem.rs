//! Parsing of the kernel's I/O memory map: lines of the form
//! `HEXSTART-HEXEND : TAG`.  Lines carrying the configured tag yield the
//! half-open physical range `[HEXSTART, HEXEND + 1)`; malformed lines yield
//! nothing.

use vstd::prelude::*;
use vstd::slice::slice_subrange;
use vstd::string::*;
use vstd::utf8::encode_utf8;
use crate::lex::{
    spec_is_ws, spec_skip_ws, spec_token_end, spec_first_token, spec_is_hex_digit,
    spec_valid_hex_u64, spec_hex_value, spec_contains_sub, lemma_hex_value_nonneg,
    first_token, contains_subseq, parse_hex_u64,
};

verus! {

/// The kernel's I/O memory map.
pub const PROC_IOMEM: &'static str = "/proc/iomem";

/// The trailing annotation of an I/O memory map line describing ordinary
/// volatile memory.
pub const SEPARATOR_SYSTEM_RAM: &'static str = " : System RAM";

/// The byte separating the two bounds of a range (an ASCII hyphen).
pub const SEPARATOR_HYPHEN: u8 = 45;

/// A half-open interval `[start, end)` of 64-bit physical addresses.
#[derive(Clone, Copy, Debug, PartialEq, Eq, Structural)]
pub struct PhysRange {
    pub start: u64,
    pub end: u64,
}

/// A single range is well formed when it is nonempty.
pub open spec fn spec_range_wf(r: PhysRange) -> bool {
    r.start < r.end
}

/// A plan of ranges is well formed when each range is nonempty and the
/// ranges are disjoint and in ascending order.
pub open spec fn spec_ranges_wf(rs: Seq<PhysRange>) -> bool {
    &&& forall|i: int| 0 <= i < rs.len() ==> spec_range_wf(#[trigger] rs[i])
    &&& forall|i: int| 0 <= i < rs.len() - 1 ==> (#[trigger] rs[i].end) <= rs[i + 1].start
}

/// Executable check of [`spec_ranges_wf`].
pub fn ranges_well_formed(ranges: &Vec<PhysRange>) -> (b: bool)
    ensures
        b == spec_ranges_wf(ranges@),
{
    let n: usize = ranges.len();
    let mut i: usize = 0;
    while i < n
        invariant
            0 <= i <= n,
            n == ranges@.len(),
            forall|j: int| 0 <= j < i ==> spec_range_wf(#[trigger] ranges@[j]),
            forall|j: int| 0 <= j < i - 1 ==> (#[trigger] ranges@[j].end) <= ranges@[j + 1].start,
            i > 0 ==> spec_range_wf(ranges@[i - 1]),
        decreases n - i,
    {
        let r = ranges[i];
        if !(r.start < r.end) {
            return false;
        }
        if i > 0 && !(ranges[i - 1].end <= r.start) {
            return false;
        }
        i = i + 1;
    }
    true
}

/// Index of the first occurrence of `b` in `s` at or after `i`, or `s.len()`.
pub open spec fn spec_find_byte(s: Seq<u8>, b: u8, i: int) -> int
    decreases s.len() - i,
{
    if i < 0 || i >= s.len() {
        s.len() as int
    } else if s[i] == b {
        i
    } else {
        spec_find_byte(s, b, i + 1)
    }
}

/// Finds the first occurrence of `b` in `s` at or after `from`.
pub fn find_byte_from(s: &[u8], b: u8, from: usize) -> (r: usize)
    requires
        from <= s@.len(),
    ensures
        r == spec_find_byte(s@, b, from as int),
        from <= r <= s@.len(),
{
    let n: usize = s.len();
    let mut i: usize = from;
    while i < n && s[i] != b
        invariant
            from <= i <= n,
            n == s@.len(),
            spec_find_byte(s@, b, from as int) == spec_find_byte(s@, b, i as int),
        decreases n - i,
    {
        i = i + 1;
    }
    i
}

/// The bounds parsed from an I/O memory map line: the first
/// whitespace-delimited token must be two hexadecimal numerals separated by
/// exactly one hyphen, each fitting a `u64`.
pub open spec fn spec_parse_memory_range(s: Seq<u8>) -> Option<(u64, u64)> {
    let t = spec_first_token(s);
    let k = spec_find_byte(t, SEPARATOR_HYPHEN, 0);
    if k < t.len() && spec_find_byte(t, SEPARATOR_HYPHEN, k + 1) == t.len() {
        let left = t.subrange(0, k);
        let right = t.subrange(k + 1, t.len() as int);
        if spec_valid_hex_u64(left) && spec_valid_hex_u64(right) {
            Some((spec_hex_value(left) as u64, spec_hex_value(right) as u64))
        } else {
            None
        }
    } else {
        None
    }
}

/// Parses the two bounds out of an I/O memory map line.  Returns `Some`
/// exactly when the line's first token is `HEXSTART-HEXEND` with both bounds
/// fitting a `u64`.
pub fn parse_memory_range(line: &str) -> (r: Option<(u64, u64)>)
    ensures
        r == spec_parse_memory_range(line.spec_bytes()),
{
    let bytes: &[u8] = line.as_bytes();
    let t: &[u8] = first_token(bytes);
    let n: usize = t.len();
    let k: usize = find_byte_from(t, SEPARATOR_HYPHEN, 0);
    if k == n {
        return None;
    }
    let k2: usize = find_byte_from(t, SEPARATOR_HYPHEN, k + 1);
    if k2 != n {
        return None;
    }
    let left: &[u8] = slice_subrange(t, 0, k);
    let right: &[u8] = slice_subrange(t, k + 1, n);
    match (parse_hex_u64(left), parse_hex_u64(right)) {
        (Some(a), Some(b)) => Some((a, b)),
        _ => None,
    }
}

proof fn lemma_token_end_at(s: Seq<u8>, i: int, t: int)
    requires
        0 <= i <= t <= s.len(),
        forall|j: int| i <= j < t ==> !spec_is_ws(#[trigger] s[j]),
        t == s.len() || spec_is_ws(s[t]),
    ensures
        spec_token_end(s, i) == t,
    decreases t - i,
{
    if i < t {
        lemma_token_end_at(s, i + 1, t);
    }
}

proof fn lemma_find_byte_at(s: Seq<u8>, b: u8, i: int, t: int)
    requires
        0 <= i <= t <= s.len(),
        forall|j: int| i <= j < t ==> (#[trigger] s[j]) != b,
        t == s.len() || s[t] == b,
    ensures
        spec_find_byte(s, b, i) == t,
    decreases t - i,
{
    if i < t {
        lemma_find_byte_at(s, b, i + 1, t);
    }
}

/// I/O-map parsing round trip: a line written as two in-order hexadecimal
/// bounds joined by a hyphen, followed by nothing or by whitespace, parses
/// back to exactly the values it was written from.
pub proof fn lemma_parse_memory_range_round_trip(ha: Seq<u8>, hb: Seq<u8>, tail: Seq<u8>)
    requires
        spec_valid_hex_u64(ha),
        spec_valid_hex_u64(hb),
        tail.len() == 0 || spec_is_ws(tail[0]),
    ensures
        spec_parse_memory_range(ha + seq![SEPARATOR_HYPHEN] + hb + tail) == Some(
            (spec_hex_value(ha) as u64, spec_hex_value(hb) as u64),
        ),
{
    let line = ha + seq![SEPARATOR_HYPHEN] + hb + tail;
    let alen = ha.len() as int;
    let blen = hb.len() as int;
    let tlen = alen + 1 + blen;
    assert forall|j: int| 0 <= j < tlen implies !spec_is_ws(#[trigger] line[j]) by {
        if j < alen {
            assert(line[j] == ha[j]);
            assert(spec_is_hex_digit(ha[j]));
        } else if j == alen {
            assert(line[j] == SEPARATOR_HYPHEN);
        } else {
            assert(line[j] == hb[j - alen - 1]);
            assert(spec_is_hex_digit(hb[j - alen - 1]));
        }
    }
    assert(spec_is_hex_digit(ha[0]));
    assert(!spec_is_ws(line[0]));
    assert(spec_skip_ws(line, 0) == 0);
    assert(tlen == line.len() || spec_is_ws(line[tlen])) by {
        if tail.len() > 0 {
            assert(line[tlen] == tail[0]);
        }
    }
    lemma_token_end_at(line, 0, tlen);
    let t = spec_first_token(line);
    assert(t =~= ha + seq![SEPARATOR_HYPHEN] + hb);
    assert forall|j: int| 0 <= j < alen implies (#[trigger] t[j]) != SEPARATOR_HYPHEN by {
        assert(t[j] == ha[j]);
        assert(spec_is_hex_digit(ha[j]));
    }
    assert(t[alen] == SEPARATOR_HYPHEN);
    lemma_find_byte_at(t, SEPARATOR_HYPHEN, 0, alen);
    assert forall|j: int| alen + 1 <= j < tlen implies (#[trigger] t[j]) != SEPARATOR_HYPHEN by {
        assert(t[j] == hb[j - alen - 1]);
        assert(spec_is_hex_digit(hb[j - alen - 1]));
    }
    lemma_find_byte_at(t, SEPARATOR_HYPHEN, alen + 1, tlen);
    assert(t.subrange(0, alen) =~= ha);
    assert(t.subrange(alen + 1, t.len() as int) =~= hb);
    lemma_hex_value_nonneg(ha);
    lemma_hex_value_nonneg(hb);
}

/// The range a single line contributes: the line must carry the tag, parse,
/// have its bounds in order, and leave `end + 1` representable.
pub open spec fn spec_line_range(line: Seq<u8>, pat: Seq<u8>) -> Option<PhysRange> {
    if spec_contains_sub(line, pat) {
        match spec_parse_memory_range(line) {
            Some((a, b)) => if a <= b && b < u64::MAX {
                Some(PhysRange { start: a, end: (b + 1) as u64 })
            } else {
                None
            },
            None => None,
        }
    } else {
        None
    }
}

/// The ranges contributed by a sequence of lines, in order.
pub open spec fn spec_extract(lines: Seq<Seq<u8>>, pat: Seq<u8>) -> Seq<PhysRange>
    decreases lines.len(),
{
    if lines.len() == 0 {
        Seq::empty()
    } else {
        spec_extract(lines.drop_last(), pat) + match spec_line_range(lines.last(), pat) {
            Some(r) => seq![r],
            None => Seq::empty(),
        }
    }
}

/// Extracts the memory ranges of the entries tagged `identifier` from the
/// lines of an I/O memory map.  Each line containing `identifier` whose
/// first token parses as `a-b` with `a <= b < u64::MAX` contributes the
/// half-open range `[a, b + 1)`; all other lines contribute nothing.
pub fn extract_mem_range(lines: &Vec<String>, identifier: &str) -> (r: Vec<PhysRange>)
    ensures
        r@ == spec_extract(
            lines@.map_values(|l: String| encode_utf8(l@)),
            identifier.spec_bytes(),
        ),
{
    let ghost ml = lines@.map_values(|l: String| encode_utf8(l@));
    let pat: &[u8] = identifier.as_bytes();
    let mut out: Vec<PhysRange> = Vec::new();
    let n: usize = lines.len();
    let mut i: usize = 0;
    while i < n
        invariant
            0 <= i <= n,
            n == lines@.len(),
            ml == lines@.map_values(|l: String| encode_utf8(l@)),
            pat@ == identifier.spec_bytes(),
            out@ == spec_extract(ml.take(i as int), pat@),
        decreases n - i,
    {
        let line: &String = &lines[i];
        let lb: &[u8] = line.as_str().as_bytes();
        if contains_subseq(lb, pat) {
            match parse_memory_range(line.as_str()) {
                Some((a, b)) => {
                    if a <= b && b < u64::MAX {
                        out.push(PhysRange { start: a, end: b + 1 });
                    }
                },
                None => {},
            }
        }
        i = i + 1;
        proof {
            assert(ml.take(i as int).drop_last() =~= ml.take(i - 1));
            assert(ml.take(i as int).last() == encode_utf8(lines@[i - 1]@));
        }
    }
    proof {
        assert(ml.take(n as int) =~= ml);
    }
    out
}

/// Extracts the `System RAM` ranges from the lines of an I/O memory map.
pub fn extract_system_ram_ranges(lines: &Vec<String>) -> (r: Vec<PhysRange>)
    ensures
        r@ == spec_extract(
            lines@.map_values(|l: String| encode_utf8(l@)),
            SEPARATOR_SYSTEM_RAM.spec_bytes(),
        ),
{
    extract_mem_range(lines, SEPARATOR_SYSTEM_RAM)
}

/// Total number of bytes covered by a sequence of ranges.
pub open spec fn spec_total_size(rs: Seq<PhysRange>) -> int
    decreases rs.len(),
{
    if rs.len() == 0 {
        0
    } else {
        spec_total_size(rs.drop_last()) + rs.last().end - rs.last().start
    }
}

/// Sums the sizes of a well-formed plan of ranges.  Disjointness and
/// ascending order bound the total by the address space, so the sum cannot
/// overflow.
pub fn memory_size(ranges: &Vec<PhysRange>) -> (total: u64)
    requires
        spec_ranges_wf(ranges@),
    ensures
        total == spec_total_size(ranges@),
{
    let mut total: u64 = 0;
    let n: usize = ranges.len();
    let mut i: usize = 0;
    while i < n
        invariant
            0 <= i <= n,
            n == ranges@.len(),
            spec_ranges_wf(ranges@),
            total == spec_total_size(ranges@.take(i as int)),
            i > 0 ==> total <= ranges@[i - 1].end - ranges@[0].start,
            i == 0 ==> total == 0,
        decreases n - i,
    {
        let r = ranges[i];
        proof {
            if i > 0 {
                assert(ranges@[i - 1].end <= ranges@[i as int].start);
            }
        }
        total = total + (r.end - r.start);
        i = i + 1;
        proof {
            assert(ranges@.take(i as int).drop_last() =~= ranges@.take(i - 1));
        }
    }
    proof {
        assert(ranges@.take(n as int) =~= ranges@);
    }
    total
}

} // verus!
