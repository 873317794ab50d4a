//! Rendering byte counts for humans: `1536` becomes `1.50KiB`.  The scale
//! steps by 1024, and the value is written with two decimal places
//! (truncated, not rounded).

use vstd::prelude::*;
use vstd::string::*;
use vstd::arithmetic::div_mod::{
    lemma_div_denominator, lemma_div_is_ordered, lemma_div_multiples_vanish,
    lemma_fundamental_div_mod,
};

verus! {

/// Rendering of byte counts for humans.
pub trait HumanReadable {
    /// The value rendered as a human-readable byte count.
    fn bytes_as_hrb(self) -> String;
}

impl HumanReadable for u64 {
    fn bytes_as_hrb(self) -> String {
        bytes_to_human(self)
    }
}

/// The decimal digit `d` as a character.
pub open spec fn spec_digit_char(d: int) -> char {
    "0123456789"@[d]
}

/// The decimal numeral of `v`, most significant digit first.
pub open spec fn spec_dec_chars(v: int) -> Seq<char>
    decreases v,
{
    if v < 10 {
        seq![spec_digit_char(v)]
    } else {
        spec_dec_chars(v / 10) + seq![spec_digit_char(v % 10)]
    }
}

/// How many times 1024 divides into `n` before the quotient drops below
/// 1024, counting from 1: the unit scale of `n`.
pub open spec fn spec_hrb_level(n: int) -> int
    decreases n,
{
    if n < 1024 {
        1
    } else {
        1 + spec_hrb_level(n / 1024)
    }
}

/// `1024^k`.
pub open spec fn spec_pow1024(k: int) -> int
    decreases k,
{
    if k <= 0 {
        1
    } else {
        1024 * spec_pow1024(k - 1)
    }
}

/// The unit suffix of scale `m`.
pub open spec fn spec_unit_str(m: int) -> Seq<char> {
    if m == 1 {
        "B"@
    } else if m == 2 {
        "KiB"@
    } else if m == 3 {
        "MiB"@
    } else if m == 4 {
        "GiB"@
    } else if m == 5 {
        "TiB"@
    } else if m == 6 {
        "PiB"@
    } else if m == 7 {
        "EiB"@
    } else if m == 8 {
        "ZiB"@
    } else {
        "YiB"@
    }
}

/// The human-readable rendering of `n` bytes: the value scaled into
/// `[0, 1024)` of its unit, with two truncated decimal places, then the
/// unit suffix.
pub open spec fn spec_hrb_chars(n: int) -> Seq<char> {
    let m = spec_hrb_level(n);
    let x100 = 100 * n / spec_pow1024(m - 1);
    spec_dec_chars(x100 / 100) + "."@ + seq![spec_digit_char((x100 % 100) / 10)] + seq![
        spec_digit_char(x100 % 10),
    ] + spec_unit_str(m)
}

/// The decimal digit `d` as a one-character string slice.
fn digit_str(d: u64) -> (c: &'static str)
    requires
        d < 10,
    ensures
        c@ == seq![spec_digit_char(d as int)],
{
    let digits: &str = "0123456789";
    proof {
        reveal_strlit("0123456789");
    }
    let c = digits.substring_char(d as usize, d as usize + 1);
    proof {
        assert(c@ =~= seq![spec_digit_char(d as int)]);
    }
    c
}

/// Appends the decimal numeral of `v`.
fn dec_append(s: &mut String, v: u64)
    ensures
        final(s)@ == old(s)@ + spec_dec_chars(v as int),
    decreases v,
{
    if v < 10 {
        s.append(digit_str(v));
        proof {
            assert(final(s)@ =~= old(s)@ + spec_dec_chars(v as int));
        }
    } else {
        dec_append(s, v / 10);
        s.append(digit_str(v % 10));
        proof {
            assert(final(s)@ =~= old(s)@ + spec_dec_chars(v as int));
        }
    }
}

/// Renders `n` bytes for humans: scale by powers of 1024 until the value
/// drops below 1024, then write it with two truncated decimal places and
/// the scale's unit suffix.
pub fn bytes_to_human(n: u64) -> (s: String)
    ensures
        s@ == spec_hrb_chars(n as int),
{
    let mut m: u64 = 1;
    let mut div: u64 = 1;
    while div <= n / 1024
        invariant
            1 <= m <= 7,
            div == spec_pow1024(m - 1),
            div >= 1,
            spec_hrb_level(n as int) == m - 1 + spec_hrb_level(n as int / div as int),
        decreases n as int / div as int,
    {
        proof {
            let ni = n as int;
            let di = div as int;
            assert(spec_pow1024(0) == 1);
            assert(spec_pow1024(1) == 1024);
            assert(spec_pow1024(2) == 0x100000);
            assert(spec_pow1024(3) == 0x40000000);
            assert(spec_pow1024(4) == 0x10000000000);
            assert(spec_pow1024(5) == 0x4000000000000);
            assert(spec_pow1024(6) == 0x1000000000000000);
            assert(m <= 6) by {
                if m == 7 {
                    assert(di == 0x1000000000000000);
                    lemma_div_is_ordered(ni, u64::MAX as int, 1024);
                    assert(u64::MAX as int / 1024 < 0x1000000000000000);
                }
            }
            assert(ni >= 1024 * di) by {
                assert(di <= ni / 1024);
                lemma_fundamental_div_mod(ni, 1024);
                vstd::arithmetic::mul::lemma_mul_inequality(di, ni / 1024, 1024);
                vstd::arithmetic::mul::lemma_mul_is_commutative(di, 1024);
                vstd::arithmetic::mul::lemma_mul_is_commutative(ni / 1024, 1024);
            }
            assert(ni / di >= 1024) by {
                lemma_div_is_ordered(1024 * di, ni, di);
                lemma_div_multiples_vanish(1024, di);
                vstd::arithmetic::mul::lemma_mul_is_commutative(1024, di);
            }
            assert((ni / di) / 1024 == ni / (di * 1024)) by {
                lemma_div_denominator(ni, di, 1024);
            }
            assert(spec_hrb_level(ni / di) == 1 + spec_hrb_level(ni / (di * 1024)));
            assert(di * 1024 <= ni) by {
                vstd::arithmetic::mul::lemma_mul_is_commutative(di, 1024);
            }
            assert((ni / di) / 1024 < ni / di) by {
                lemma_fundamental_div_mod(ni / di, 1024);
            }
        }
        div = div * 1024;
        m = m + 1;
    }
    proof {
        let ni = n as int;
        let di = div as int;
        assert(ni / di < 1024) by {
            assert(ni / 1024 < di);
            lemma_fundamental_div_mod(ni, 1024);
            lemma_fundamental_div_mod(ni, di);
            if ni / di >= 1024 {
                vstd::arithmetic::mul::lemma_mul_inequality(1024, ni / di, di);
                vstd::arithmetic::mul::lemma_mul_is_commutative(ni / di, di);
                vstd::arithmetic::mul::lemma_mul_is_commutative(1024, di);
                lemma_div_is_ordered(1024 * di, ni, 1024);
                lemma_div_multiples_vanish(di, 1024);
                vstd::arithmetic::mul::lemma_mul_is_commutative(1024, di);
            }
        }
        assert(spec_hrb_level(ni / di) == 1);
        assert(spec_hrb_level(ni) == m);
    }
    let x100_wide: u128 = (n as u128) * 100 / (div as u128);
    proof {
        let ni = n as int;
        let di = div as int;
        assert(100 * ni / di < 102400) by {
            assert(ni / di < 1024);
            lemma_fundamental_div_mod(ni, di);
            vstd::arithmetic::div_mod::lemma_mod_bound(ni, di);
            assert(ni < 1024 * di) by {
                vstd::arithmetic::mul::lemma_mul_inequality(ni / di, 1023, di);
                vstd::arithmetic::mul::lemma_mul_is_commutative(ni / di, di);
                vstd::arithmetic::mul::lemma_mul_is_commutative(1023, di);
            }
            assert(100 * ni < 102400 * di);
            if 100 * ni / di >= 102400 {
                lemma_fundamental_div_mod(100 * ni, di);
                vstd::arithmetic::div_mod::lemma_mod_bound(100 * ni, di);
                vstd::arithmetic::mul::lemma_mul_inequality(102400, 100 * ni / di, di);
                vstd::arithmetic::mul::lemma_mul_is_commutative(100 * ni / di, di);
                vstd::arithmetic::mul::lemma_mul_is_commutative(102400, di);
                assert(false);
            }
        }
        assert((n as u128) * 100 == 100 * ni);
    }
    let x100: u64 = x100_wide as u64;
    let mut s: String = String::new();
    dec_append(&mut s, x100 / 100);
    s.append(".");
    s.append(digit_str((x100 % 100) / 10));
    s.append(digit_str(x100 % 10));
    let unit: &str = match m {
        1 => "B",
        2 => "KiB",
        3 => "MiB",
        4 => "GiB",
        5 => "TiB",
        6 => "PiB",
        7 => "EiB",
        8 => "ZiB",
        _ => "YiB",
    };
    assert(unit@ == spec_unit_str(m as int));
    s.append(unit);
    proof {
        assert((x100 % 100) / 10 == (100 * (n as int) / spec_pow1024(m - 1) % 100) / 10);
        assert(s@ =~= spec_hrb_chars(n as int));
    }
    s
}

} // verus!
