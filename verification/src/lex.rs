//! Lexical helpers for the procfs text formats the acquirer reads: ASCII
//! whitespace, whitespace-delimited tokens, substring search, and unsigned
//! integers in hexadecimal and decimal notation.

use vstd::prelude::*;
use vstd::slice::slice_subrange;

verus! {

/// ASCII whitespace, the separator class of the procfs line formats.
pub open spec fn spec_is_ws(b: u8) -> bool {
    b == 32 || b == 9 || b == 10 || b == 13 || b == 11 || b == 12
}

/// Executable test for ASCII whitespace.
pub fn is_ws(b: u8) -> (r: bool)
    ensures
        r == spec_is_ws(b),
{
    b == 32 || b == 9 || b == 10 || b == 13 || b == 11 || b == 12
}

/// Index of the first non-whitespace byte at or after `i`, or `s.len()`.
pub open spec fn spec_skip_ws(s: Seq<u8>, i: int) -> int
    decreases s.len() - i,
{
    if i < 0 || i >= s.len() {
        s.len() as int
    } else if spec_is_ws(s[i]) {
        spec_skip_ws(s, i + 1)
    } else {
        i
    }
}

/// Index of the first whitespace byte at or after `i`, or `s.len()`.
pub open spec fn spec_token_end(s: Seq<u8>, i: int) -> int
    decreases s.len() - i,
{
    if i < 0 || i >= s.len() {
        s.len() as int
    } else if spec_is_ws(s[i]) {
        i
    } else {
        spec_token_end(s, i + 1)
    }
}

/// The first whitespace-delimited token of `s` (empty if `s` is all
/// whitespace or empty).
pub open spec fn spec_first_token(s: Seq<u8>) -> Seq<u8> {
    s.subrange(spec_skip_ws(s, 0), spec_token_end(s, spec_skip_ws(s, 0)))
}

proof fn lemma_skip_ws_bounds(s: Seq<u8>, i: int)
    requires
        0 <= i <= s.len(),
    ensures
        i <= spec_skip_ws(s, i) <= s.len(),
    decreases s.len() - i,
{
    if i < s.len() && spec_is_ws(s[i]) {
        lemma_skip_ws_bounds(s, i + 1);
    }
}

proof fn lemma_token_end_bounds(s: Seq<u8>, i: int)
    requires
        0 <= i <= s.len(),
    ensures
        i <= spec_token_end(s, i) <= s.len(),
    decreases s.len() - i,
{
    if i < s.len() && !spec_is_ws(s[i]) {
        lemma_token_end_bounds(s, i + 1);
    }
}

/// The bounds of the first whitespace-delimited token of `s`, as a pair
/// `(start, end)` of indices into `s`.
fn first_token_bounds(s: &[u8]) -> (r: (usize, usize))
    ensures
        r.0 == spec_skip_ws(s@, 0),
        r.1 == spec_token_end(s@, r.0 as int),
        r.0 <= r.1 <= s@.len(),
{
    let n: usize = s.len();
    let mut a: usize = 0;
    while a < n && is_ws(s[a])
        invariant
            0 <= a <= n,
            n == s@.len(),
            spec_skip_ws(s@, 0) == spec_skip_ws(s@, a as int),
        decreases n - a,
    {
        a = a + 1;
    }
    proof {
        lemma_skip_ws_bounds(s@, a as int);
    }
    let mut e: usize = a;
    while e < n && !is_ws(s[e])
        invariant
            a <= e <= n,
            n == s@.len(),
            spec_token_end(s@, a as int) == spec_token_end(s@, e as int),
        decreases n - e,
    {
        e = e + 1;
    }
    (a, e)
}

/// The first whitespace-delimited token of `s`.
pub fn first_token<'a>(s: &'a [u8]) -> (t: &'a [u8])
    ensures
        t@ == spec_first_token(s@),
{
    let (a, e) = first_token_bounds(s);
    slice_subrange(s, a, e)
}

/// `pat` occurs as a contiguous subsequence of `hay`.
pub open spec fn spec_contains_sub(hay: Seq<u8>, pat: Seq<u8>) -> bool {
    exists|i: int|
        0 <= i && i + pat.len() <= hay.len() && #[trigger] hay.subrange(i, i + pat.len()) == pat
}

fn match_at(hay: &[u8], pat: &[u8], i: usize) -> (r: bool)
    requires
        i + pat@.len() <= hay@.len(),
    ensures
        r == (hay@.subrange(i as int, i + pat@.len()) == pat@),
{
    let m: usize = pat.len();
    let hn: usize = hay.len();
    let mut j: usize = 0;
    while j < m
        invariant
            0 <= j <= m,
            m == pat@.len(),
            hn == hay@.len(),
            i + m <= hn,
            forall|k: int| 0 <= k < j ==> hay@[i + k] == pat@[k],
        decreases m - j,
    {
        if hay[i + j] != pat[j] {
            assert(hay@.subrange(i as int, i + pat@.len())[j as int] != pat@[j as int]);
            return false;
        }
        j = j + 1;
    }
    assert(hay@.subrange(i as int, i + pat@.len()) =~= pat@);
    true
}

/// Substring search: does `pat` occur anywhere in `hay`?
pub fn contains_subseq(hay: &[u8], pat: &[u8]) -> (r: bool)
    ensures
        r == spec_contains_sub(hay@, pat@),
{
    let n: usize = hay.len();
    let m: usize = pat.len();
    if m > n {
        return false;
    }
    if m == 0 {
        assert(spec_contains_sub(hay@, pat@)) by {
            assert(hay@.subrange(0, 0 + pat@.len() as int) =~= pat@);
        }
        return true;
    }
    let mut i: usize = 0;
    while i <= n - m
        invariant
            0 <= i <= n - m + 1,
            0 < m <= n,
            n == hay@.len(),
            m == pat@.len(),
            forall|k: int| 0 <= k < i ==> #[trigger] hay@.subrange(k, k + pat@.len()) != pat@,
        decreases n - i,
    {
        if match_at(hay, pat, i) {
            return true;
        }
        i = i + 1;
    }
    false
}

/// Index just past the last non-whitespace byte of `s` at or before `e`.
pub open spec fn spec_trim_end(s: Seq<u8>, e: int) -> int
    decreases e,
{
    if e <= 0 {
        0
    } else if spec_is_ws(s[e - 1]) {
        spec_trim_end(s, e - 1)
    } else {
        e
    }
}

/// `s` with leading and trailing ASCII whitespace removed.
pub open spec fn spec_trim(s: Seq<u8>) -> Seq<u8> {
    let a = spec_skip_ws(s, 0);
    let e = spec_trim_end(s, s.len() as int);
    if a <= e {
        s.subrange(a, e)
    } else {
        Seq::empty()
    }
}

/// Strips leading and trailing ASCII whitespace.
pub fn trim_ascii<'a>(s: &'a [u8]) -> (t: &'a [u8])
    ensures
        t@ == spec_trim(s@),
{
    let n: usize = s.len();
    let mut a: usize = 0;
    while a < n && is_ws(s[a])
        invariant
            0 <= a <= n,
            n == s@.len(),
            spec_skip_ws(s@, 0) == spec_skip_ws(s@, a as int),
        decreases n - a,
    {
        a = a + 1;
    }
    proof {
        lemma_skip_ws_bounds(s@, a as int);
    }
    if a == n {
        proof {
            lemma_trim_end_le(s@, n as int);
        }
        return slice_subrange(s, n, n);
    }
    let mut e: usize = n;
    while e > a && is_ws(s[e - 1])
        invariant
            a < e <= n,
            n == s@.len(),
            a < n && !spec_is_ws(s@[a as int]),
            spec_trim_end(s@, n as int) == spec_trim_end(s@, e as int),
        decreases e,
    {
        e = e - 1;
    }
    assert(spec_trim_end(s@, n as int) == e);
    slice_subrange(s, a, e)
}

proof fn lemma_trim_end_le(s: Seq<u8>, e: int)
    requires
        0 <= e <= s.len(),
    ensures
        0 <= spec_trim_end(s, e) <= e,
    decreases e,
{
    if e > 0 && spec_is_ws(s[e - 1]) {
        lemma_trim_end_le(s, e - 1);
    }
}

/// A hexadecimal digit.
pub open spec fn spec_is_hex_digit(b: u8) -> bool {
    (48 <= b && b <= 57) || (97 <= b && b <= 102) || (65 <= b && b <= 70)
}

/// Value of a hexadecimal digit.
pub open spec fn spec_hex_digit_value(b: u8) -> int {
    if 48 <= b && b <= 57 {
        b - 48
    } else if 97 <= b && b <= 102 {
        b - 97 + 10
    } else {
        b - 65 + 10
    }
}

/// Every byte of `s` is a hexadecimal digit.
pub open spec fn spec_all_hex(s: Seq<u8>) -> bool {
    forall|i: int| 0 <= i < s.len() ==> spec_is_hex_digit(#[trigger] s[i])
}

/// The number written in hexadecimal as `s`, most significant digit first.
pub open spec fn spec_hex_value(s: Seq<u8>) -> int
    decreases s.len(),
{
    if s.len() == 0 {
        0
    } else {
        spec_hex_value(s.drop_last()) * 16 + spec_hex_digit_value(s.last())
    }
}

/// `s` is a hexadecimal numeral that fits a `u64`: nonempty, all digits,
/// value at most `u64::MAX`.
pub open spec fn spec_valid_hex_u64(s: Seq<u8>) -> bool {
    s.len() > 0 && spec_all_hex(s) && spec_hex_value(s) <= u64::MAX
}

pub proof fn lemma_hex_value_nonneg(s: Seq<u8>)
    requires
        spec_all_hex(s),
    ensures
        spec_hex_value(s) >= 0,
    decreases s.len(),
{
    if s.len() > 0 {
        assert(spec_all_hex(s.drop_last())) by {
            assert(forall|i: int|
                0 <= i < s.len() - 1 ==> #[trigger] s.drop_last()[i] == s[i]);
        }
        lemma_hex_value_nonneg(s.drop_last());
    }
}

/// Extending a hexadecimal numeral to the right can only grow its value.
pub proof fn lemma_hex_value_prefix_le(s: Seq<u8>, k: int)
    requires
        spec_all_hex(s),
        0 <= k <= s.len(),
    ensures
        spec_hex_value(s.take(k)) <= spec_hex_value(s),
    decreases s.len() - k,
{
    if k == s.len() {
        assert(s.take(k) =~= s);
    } else {
        lemma_hex_value_prefix_le(s, k + 1);
        let t = s.take(k + 1);
        assert(t.drop_last() =~= s.take(k));
        assert(spec_all_hex(s.take(k))) by {
            assert(forall|i: int|
                0 <= i < k ==> #[trigger] s.take(k)[i] == s[i]);
        }
        lemma_hex_value_nonneg(s.take(k));
        assert(spec_is_hex_digit(s[k]));
        assert(spec_hex_digit_value(t.last()) >= 0);
        assert(spec_hex_value(t) >= spec_hex_value(s.take(k)));
    }
}

/// Parses a hexadecimal numeral into a `u64`.  Returns `Some` exactly on
/// nonempty all-digit inputs whose value fits.
pub fn parse_hex_u64(s: &[u8]) -> (r: Option<u64>)
    ensures
        r is Some <==> spec_valid_hex_u64(s@),
        r is Some ==> r->0 == spec_hex_value(s@),
{
    let n: usize = s.len();
    if n == 0 {
        return None;
    }
    let mut v: u64 = 0;
    let mut i: usize = 0;
    while i < n
        invariant
            0 <= i <= n,
            n == s@.len(),
            forall|j: int| 0 <= j < i ==> spec_is_hex_digit(#[trigger] s@[j]),
            v == spec_hex_value(s@.take(i as int)),
        decreases n - i,
    {
        let b = s[i];
        let d: u64 = if 48 <= b && b <= 57 {
            (b - 48) as u64
        } else if 97 <= b && b <= 102 {
            (b - 97 + 10) as u64
        } else if 65 <= b && b <= 70 {
            (b - 65 + 10) as u64
        } else {
            assert(!spec_is_hex_digit(s@[i as int]));
            return None;
        };
        assert(d == spec_hex_digit_value(s@[i as int]) && d < 16);
        if v > (u64::MAX - d) / 16 {
            proof {
                assert(s@.take(i + 1).drop_last() =~= s@.take(i as int));
                assert(spec_hex_value(s@.take(i + 1)) == v * 16 + d);
                assert(v * 16 + d > u64::MAX) by {
                    assert(v >= (u64::MAX - d) / 16 + 1);
                    assert(16 * ((u64::MAX - d) / 16 + 1) >= (u64::MAX - d) + 1) by {
                        vstd::arithmetic::div_mod::lemma_fundamental_div_mod(
                            (u64::MAX - d) as int,
                            16,
                        );
                    }
                    assert(v * 16 >= 16 * ((u64::MAX - d) / 16 + 1)) by {
                        vstd::arithmetic::mul::lemma_mul_inequality(
                            (u64::MAX - d) / 16 + 1,
                            v as int,
                            16,
                        );
                    }
                }
                if spec_all_hex(s@) {
                    lemma_hex_value_prefix_le(s@, i + 1);
                }
            }
            return None;
        }
        proof {
            assert(v * 16 + d <= u64::MAX) by {
                assert(v <= (u64::MAX - d) / 16);
                assert(16 * ((u64::MAX - d) / 16) <= u64::MAX - d) by {
                    vstd::arithmetic::div_mod::lemma_fundamental_div_mod(
                        (u64::MAX - d) as int,
                        16,
                    );
                }
                assert(v * 16 <= 16 * ((u64::MAX - d) / 16)) by {
                    vstd::arithmetic::mul::lemma_mul_inequality(
                        v as int,
                        (u64::MAX - d) / 16,
                        16,
                    );
                }
            }
            assert(s@.take(i + 1).drop_last() =~= s@.take(i as int));
        }
        v = v * 16 + d;
        i = i + 1;
    }
    proof {
        assert(s@.take(n as int) =~= s@);
    }
    Some(v)
}

/// A decimal digit.
pub open spec fn spec_is_dec_digit(b: u8) -> bool {
    48 <= b && b <= 57
}

/// Every byte of `s` is a decimal digit.
pub open spec fn spec_all_dec(s: Seq<u8>) -> bool {
    forall|i: int| 0 <= i < s.len() ==> spec_is_dec_digit(#[trigger] s[i])
}

/// The number written in decimal as `s`, most significant digit first.
pub open spec fn spec_dec_value(s: Seq<u8>) -> int
    decreases s.len(),
{
    if s.len() == 0 {
        0
    } else {
        spec_dec_value(s.drop_last()) * 10 + (s.last() - 48)
    }
}

/// `s` is a decimal numeral that fits a `u8`.
pub open spec fn spec_valid_dec_u8(s: Seq<u8>) -> bool {
    s.len() > 0 && spec_all_dec(s) && spec_dec_value(s) <= u8::MAX
}

proof fn lemma_dec_value_nonneg(s: Seq<u8>)
    requires
        spec_all_dec(s),
    ensures
        spec_dec_value(s) >= 0,
    decreases s.len(),
{
    if s.len() > 0 {
        assert(spec_all_dec(s.drop_last())) by {
            assert(forall|i: int|
                0 <= i < s.len() - 1 ==> #[trigger] s.drop_last()[i] == s[i]);
        }
        lemma_dec_value_nonneg(s.drop_last());
    }
}

proof fn lemma_dec_value_prefix_le(s: Seq<u8>, k: int)
    requires
        spec_all_dec(s),
        0 <= k <= s.len(),
    ensures
        spec_dec_value(s.take(k)) <= spec_dec_value(s),
    decreases s.len() - k,
{
    if k == s.len() {
        assert(s.take(k) =~= s);
    } else {
        lemma_dec_value_prefix_le(s, k + 1);
        let t = s.take(k + 1);
        assert(t.drop_last() =~= s.take(k));
        assert(spec_all_dec(s.take(k))) by {
            assert(forall|i: int|
                0 <= i < k ==> #[trigger] s.take(k)[i] == s[i]);
        }
        lemma_dec_value_nonneg(s.take(k));
        assert(spec_is_dec_digit(s[k]));
        assert(spec_dec_value(t) >= spec_dec_value(s.take(k)));
    }
}

/// Parses a decimal numeral into a `u8`.  Returns `Some` exactly on
/// nonempty all-digit inputs whose value fits.
pub fn parse_dec_u8(s: &[u8]) -> (r: Option<u8>)
    ensures
        r is Some <==> spec_valid_dec_u8(s@),
        r is Some ==> r->0 == spec_dec_value(s@),
{
    let n: usize = s.len();
    if n == 0 {
        return None;
    }
    let mut v: u16 = 0;
    let mut i: usize = 0;
    while i < n
        invariant
            0 <= i <= n,
            n == s@.len(),
            forall|j: int| 0 <= j < i ==> spec_is_dec_digit(#[trigger] s@[j]),
            v == spec_dec_value(s@.take(i as int)),
            v <= u8::MAX,
        decreases n - i,
    {
        let b = s[i];
        if !(48 <= b && b <= 57) {
            assert(!spec_is_dec_digit(s@[i as int]));
            return None;
        }
        let d: u16 = (b - 48) as u16;
        proof {
            assert(s@.take(i + 1).drop_last() =~= s@.take(i as int));
        }
        let w: u16 = v * 10 + d;
        if w > 255 {
            proof {
                if spec_all_dec(s@) {
                    lemma_dec_value_prefix_le(s@, i + 1);
                }
            }
            return None;
        }
        v = w;
        i = i + 1;
    }
    proof {
        assert(s@.take(n as int) =~= s@);
    }
    Some(v as u8)
}

} // verus!
