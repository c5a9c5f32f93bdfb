//! Formatting of byte counts for the panel and the popup.

use vstd::prelude::*;
use crate::text::{decimal, digit_char, digit_to_char, push_decimal, string_from_chars};

verus! {

/// One kibibyte.
pub const KIB: u64 = 1024;
/// One mebibyte.
pub const MIB: u64 = 1048576;
/// One gibibyte.
pub const GIB: u64 = 1073741824;
/// One tebibyte.
pub const TIB: u64 = 1099511627776;
/// 2^53, the first integer past which an `f64` can no longer hold every integer.
pub const F64_EXACT_LIMIT: u64 = 9007199254740992;

/// 2^e.
pub open spec fn two_pow(e: nat) -> nat
    decreases e,
{
    if e == 0 { 1 } else { 2 * two_pow((e - 1) as nat) }
}

/// `n / m` rounded to the nearest integer, ties to the even one.
pub open spec fn div_round_even(n: nat, m: nat) -> nat
    recommends
        m > 0,
{
    let q = n / m;
    let r = n % m;
    if 2 * r > m || (2 * r == m && q % 2 == 1) { q + 1 } else { q }
}

/// How many low bits of `b` fall outside the 53-bit significand of an `f64`.
pub open spec fn f64_dropped_bits(b: nat) -> nat
    decreases b,
{
    if b < F64_EXACT_LIMIT { 0 } else { 1 + f64_dropped_bits(b / 2) }
}

/// The value of `b as f64`: `b` rounded to the nearest number with a 53-bit
/// significand, ties to an even significand.
pub open spec fn f64_value(b: nat) -> nat {
    let m = two_pow(f64_dropped_bits(b));
    div_round_even(b, m) * m
}

/// `t` tenths written with exactly one decimal, as `{:.1}` prints `t / 10`.
pub open spec fn one_decimal(t: nat) -> Seq<char> {
    decimal(t / 10) + seq!['.', digit_char(t % 10)]
}

/// The binary unit used for `bytes >= KIB`: its size and its suffix.
pub open spec fn binary_unit(bytes: u64) -> (nat, Seq<char>) {
    if bytes >= TIB {
        (TIB as nat, seq!['T', 'i', 'B'])
    } else if bytes >= GIB {
        (GIB as nat, seq!['G', 'i', 'B'])
    } else if bytes >= MIB {
        (MIB as nat, seq!['M', 'i', 'B'])
    } else {
        (KIB as nat, seq!['K', 'i', 'B'])
    }
}

/// The text of a byte count: `"<n> B"` below one KiB, otherwise the count in
/// the largest binary unit it reaches, rounded to one decimal (the value is
/// first taken as an `f64`, and ties round to an even last digit).
pub open spec fn format_bytes_spec(bytes: u64) -> Seq<char> {
    if bytes < KIB {
        decimal(bytes as nat) + seq![' ', 'B']
    } else {
        let (scale, unit) = binary_unit(bytes);
        one_decimal(div_round_even(10 * f64_value(bytes as nat), scale)) + seq![' '] + unit
    }
}

/// Rounds `n / m` to the nearest integer, ties to even.
fn round_div_even(n: u128, m: u128) -> (q: u128)
    requires
        0 < m < 0x1_0000_0000_0000_0000_0000_0000_0000,
        n < 0x1_0000_0000_0000_0000_0000_0000_0000,
    ensures
        q == div_round_even(n as nat, m as nat),
{
    let q = n / m;
    let r = n % m;
    if 2 * r > m || (2 * r == m && q % 2 == 1) {
        q + 1
    } else {
        q
    }
}

/// Returns `b as f64` as an exact integer.
fn f64_of_u64(b: u64) -> (f: u128)
    ensures
        f == f64_value(b as nat),
        f <= 2 * (b as nat),
{
    let mut x: u64 = b;
    let mut m: u64 = 1;
    let ghost mut s: nat = 0;
    while x >= F64_EXACT_LIMIT
        invariant
            m == two_pow(s),
            x as nat == (b as nat) / (m as nat),
            1 <= m <= b || (m == 1),
            f64_dropped_bits(b as nat) == s + f64_dropped_bits(x as nat),
        decreases x,
    {
        assert(m * 2 <= b) by (nonlinear_arith)
            requires
                x as nat == (b as nat) / (m as nat),
                x >= 2,
                m >= 1,
        {
            vstd::arithmetic::div_mod::lemma_fundamental_div_mod(b as int, m as int);
            assert(m * x <= b);
        }
        proof {
            vstd::arithmetic::div_mod::lemma_div_denominator(b as int, m as int, 2);
        }
        x = x / 2;
        m = m * 2;
        proof {
            s = s + 1;
        }
    }
    let q = round_div_even(b as u128, m as u128);
    proof {
        let xx = (b as nat) / (m as nat);
        vstd::arithmetic::div_mod::lemma_fundamental_div_mod(b as int, m as int);
        vstd::arithmetic::div_mod::lemma_mod_pos_bound(b as int, m as int);
        vstd::arithmetic::mul::lemma_mul_inequality(q as int, xx as int + 1, m as int);
        vstd::arithmetic::mul::lemma_mul_is_distributive_add_other_way(m as int, xx as int, 1);
        vstd::arithmetic::mul::lemma_mul_is_commutative(m as int, xx as int);
        if m == 1 {
            assert(q == b);
        }
        assert(q * m <= 2 * b);
    }
    q * (m as u128)
}

/// Appends the text of a byte count to `out`.
pub fn push_format_bytes(out: &mut Vec<char>, bytes: u64)
    ensures
        final(out)@ == old(out)@ + format_bytes_spec(bytes),
{
    if bytes < KIB {
        push_decimal(out, bytes);
        out.push(' ');
        out.push('B');
        assert(out@ =~= old(out)@ + format_bytes_spec(bytes));
        return;
    }
    let (scale, u0) = if bytes >= TIB {
        (TIB, 'T')
    } else if bytes >= GIB {
        (GIB, 'G')
    } else if bytes >= MIB {
        (MIB, 'M')
    } else {
        (KIB, 'K')
    };
    let f = f64_of_u64(bytes);
    let t = round_div_even(10 * f, scale as u128);
    assert(t < 0x1_0000_0000_0000_0000) by (nonlinear_arith)
        requires
            t <= (10 * (f as nat)) / (scale as nat) + 1,
            f <= 2 * (bytes as nat),
            scale >= 1024,
            bytes < 0x1_0000_0000_0000_0000,
    {}
    let t = t as u64;
    push_decimal(out, t / 10);
    out.push('.');
    let d = digit_to_char(t % 10);
    out.push(d);
    out.push(' ');
    out.push(u0);
    out.push('i');
    out.push('B');
    assert(out@ =~= old(out)@ + format_bytes_spec(bytes));
}

/// Format a byte count with binary unit suffixes (B / KiB / MiB / GiB / TiB),
/// showing at most one decimal of precision once the value is at least 1 KiB.
pub fn format_bytes(bytes: u64) -> (s: String)
    ensures
        s@ == format_bytes_spec(bytes),
{
    let mut out: Vec<char> = Vec::new();
    push_format_bytes(&mut out, bytes);
    assert(out@ =~= format_bytes_spec(bytes));
    string_from_chars(out)
}

} // verus!
