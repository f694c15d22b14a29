//! Textual forms of integers and fixed-point decimals: digits in a chosen
//! radix, fixed-width fractional digits, and round-half-to-even rounding.

use vstd::prelude::*;
use vstd::arithmetic::div_mod::lemma_div_decreases;

verus! {

/// The character for one digit, `d < 16`; letters are upper case when asked.
pub open spec fn digit_char(d: nat, upper: bool) -> char {
    if d == 0 {
        '0'
    } else if d == 1 {
        '1'
    } else if d == 2 {
        '2'
    } else if d == 3 {
        '3'
    } else if d == 4 {
        '4'
    } else if d == 5 {
        '5'
    } else if d == 6 {
        '6'
    } else if d == 7 {
        '7'
    } else if d == 8 {
        '8'
    } else if d == 9 {
        '9'
    } else if d == 10 {
        if upper { 'A' } else { 'a' }
    } else if d == 11 {
        if upper { 'B' } else { 'b' }
    } else if d == 12 {
        if upper { 'C' } else { 'c' }
    } else if d == 13 {
        if upper { 'D' } else { 'd' }
    } else if d == 14 {
        if upper { 'E' } else { 'e' }
    } else {
        if upper { 'F' } else { 'f' }
    }
}

/// The digits of `n` written in base `base`, most significant first, with no
/// sign and no leading zeros (zero itself is the single digit `0`).
pub open spec fn radix_text(n: nat, base: nat, upper: bool) -> Seq<char>
    decreases n,
    when base >= 2
    via radix_text_decreases
{
    if n < base {
        seq![digit_char(n, upper)]
    } else {
        radix_text(n / base, base, upper).push(digit_char(n % base, upper))
    }
}

#[via_fn]
proof fn radix_text_decreases(n: nat, base: nat, upper: bool) {
    if base >= 2 && n >= base {
        lemma_div_decreases(n as int, base as int);
    }
}

/// The decimal digits of `n`, most significant first.
pub open spec fn udec_text(n: nat) -> Seq<char> {
    radix_text(n, 10, false)
}

/// The signed form: a leading `-` for a negative `n`, then the digits of its
/// magnitude in base `base`.
pub open spec fn int_radix_text(n: int, base: nat, upper: bool) -> Seq<char> {
    if n < 0 {
        seq!['-'] + radix_text((-n) as nat, base, upper)
    } else {
        radix_text(n as nat, base, upper)
    }
}

/// Ten to the power `e`.
pub open spec fn pow10(e: nat) -> nat
    decreases e,
{
    if e == 0 {
        1
    } else {
        10 * pow10((e - 1) as nat)
    }
}

pub proof fn lemma_pow10_pos(e: nat)
    ensures
        pow10(e) >= 1,
    decreases e,
{
    if e > 0 {
        lemma_pow10_pos((e - 1) as nat);
    }
}

pub proof fn lemma_pow10_mono(a: nat, b: nat)
    requires
        a <= b,
    ensures
        pow10(a) <= pow10(b),
    decreases b,
{
    lemma_pow10_pos(a);
    if a < b {
        lemma_pow10_mono(a, (b - 1) as nat);
    }
}

pub proof fn lemma_pow10_18()
    ensures
        pow10(18) == 1_000_000_000_000_000_000,
{
    reveal_with_fuel(pow10, 19);
}

/// Exactly `k` decimal digits of `n mod 10^k`, most significant first,
/// zero-padded on the left.
pub open spec fn fixed_digits(n: nat, k: nat) -> Seq<char>
    decreases k,
{
    if k == 0 {
        Seq::empty()
    } else {
        fixed_digits(n / 10, (k - 1) as nat) + seq![digit_char(n % 10, false)]
    }
}

/// `m / d` rounded to the nearest integer, ties going to the even neighbour.
pub open spec fn round_half_even(m: nat, d: nat) -> nat
    recommends
        d >= 1,
{
    let q = m / d;
    let r = m % d;
    if 2 * r < d {
        q
    } else if 2 * r > d {
        q + 1
    } else if q % 2 == 0 {
        q
    } else {
        q + 1
    }
}

/// The canonical text of the decimal `(-1)^neg * digits / 10^scale`, with
/// exactly `scale` fractional digits after the point (no point when `scale`
/// is zero).
pub open spec fn dec_text(neg: bool, digits: nat, scale: nat) -> Seq<char> {
    let sign: Seq<char> = if neg { seq!['-'] } else { Seq::empty() };
    if scale == 0 {
        sign + udec_text(digits)
    } else {
        sign + udec_text(digits / pow10(scale)) + seq!['.'] + fixed_digits(
            digits % pow10(scale),
            scale,
        )
    }
}

/// The exec form of `digit_char`.
pub fn digit_char_u64(d: u64, upper: bool) -> (c: char)
    requires
        d < 16,
    ensures
        c == digit_char(d as nat, upper),
{
    if d == 0 {
        '0'
    } else if d == 1 {
        '1'
    } else if d == 2 {
        '2'
    } else if d == 3 {
        '3'
    } else if d == 4 {
        '4'
    } else if d == 5 {
        '5'
    } else if d == 6 {
        '6'
    } else if d == 7 {
        '7'
    } else if d == 8 {
        '8'
    } else if d == 9 {
        '9'
    } else if d == 10 {
        if upper { 'A' } else { 'a' }
    } else if d == 11 {
        if upper { 'B' } else { 'b' }
    } else if d == 12 {
        if upper { 'C' } else { 'c' }
    } else if d == 13 {
        if upper { 'D' } else { 'd' }
    } else if d == 14 {
        if upper { 'E' } else { 'e' }
    } else {
        if upper { 'F' } else { 'f' }
    }
}

/// Appends the digits of `n` in base `base` to `out`.
pub fn push_radix_u64(n: u64, base: u64, upper: bool, out: &mut Vec<char>)
    requires
        2 <= base <= 16,
    ensures
        final(out)@ == old(out)@ + radix_text(n as nat, base as nat, upper),
    decreases n,
{
    if n >= base {
        proof {
            lemma_div_decreases(n as int, base as int);
        }
        push_radix_u64(n / base, base, upper, out);
    }
    let d = n % base;
    out.push(digit_char_u64(d, upper));
    proof {
        if n < base {
            vstd::arithmetic::div_mod::lemma_small_mod(n as nat, base as nat);
        }
        assert(out@ =~= old(out)@ + radix_text(n as nat, base as nat, upper));
    }
}

/// Appends the signed digits of `n` in base `base` to `out`.
pub fn push_int_radix(n: i64, base: u64, upper: bool, out: &mut Vec<char>)
    requires
        2 <= base <= 16,
    ensures
        final(out)@ == old(out)@ + int_radix_text(n as int, base as nat, upper),
{
    if n >= 0 {
        push_radix_u64(n as u64, base, upper, out);
    } else {
        out.push('-');
        let mag: u64 = ((-(n + 1)) as u64) + 1;
        assert(mag as nat == -(n as int));
        push_radix_u64(mag, base, upper, out);
        assert(out@ =~= old(out)@ + int_radix_text(n as int, base as nat, upper));
    }
}

/// Appends exactly `k` decimal digits of `n mod 10^k` to `out`.
pub fn push_fixed_digits(n: u64, k: u64, out: &mut Vec<char>)
    ensures
        final(out)@ == old(out)@ + fixed_digits(n as nat, k as nat),
    decreases k,
{
    if k > 0 {
        push_fixed_digits(n / 10, k - 1, out);
        let d = n % 10;
        out.push(digit_char_u64(d, false));
        assert(out@ =~= old(out)@ + fixed_digits(n as nat, k as nat));
    } else {
        assert(out@ =~= old(out)@ + fixed_digits(n as nat, 0));
    }
}

/// Ten to the power `e`, for `e` small enough to fit in a `u64`.
pub fn pow10_u64(e: u64) -> (r: u64)
    requires
        e <= 18,
    ensures
        r as nat == pow10(e as nat),
        r >= 1,
{
    let mut r: u64 = 1;
    let mut i: u64 = 0;
    while i < e
        invariant
            i <= e <= 18,
            r as nat == pow10(i as nat),
            r >= 1,
        decreases e - i,
    {
        proof {
            lemma_pow10_mono((i + 1) as nat, 18);
            lemma_pow10_18();
            assert(pow10((i + 1) as nat) == 10 * pow10(i as nat));
        }
        r = r * 10;
        i = i + 1;
    }
    r
}

/// The exec form of `round_half_even`, for divisors up to `10^18`.
pub fn round_half_even_u64(m: u64, d: u64) -> (r: u64)
    requires
        1 <= d <= 1_000_000_000_000_000_000,
    ensures
        r as nat == round_half_even(m as nat, d as nat),
{
    let q = m / d;
    let r = m % d;
    proof {
        if m > 0 && d > 1 {
            lemma_div_decreases(m as int, d as int);
        }
    }
    if d == 1 {
        q
    } else if 2 * r < d {
        q
    } else if 2 * r > d {
        q + 1
    } else if q % 2 == 0 {
        q
    } else {
        q + 1
    }
}

} // verus!
