//! Human-readable byte counts and durations.

use vstd::arithmetic::div_mod::*;
use vstd::arithmetic::mul::*;
use vstd::arithmetic::power2::*;
use vstd::prelude::*;

use crate::text::{dec, digit_char, push_decimal, push_digit, push_str, string_from_chars};

verus! {

/// `n / d` rounded to the nearest integer, a tie going to the even neighbour.
pub open spec fn round_half_even_div(n: nat, d: nat) -> nat
    recommends
        d > 0,
{
    let q = n / d;
    let r = n % d;
    if 2 * r > d || (2 * r == d && q % 2 == 1) {
        q + 1
    } else {
        q
    }
}

/// Number of binary digits of `n` (0 for 0).
pub open spec fn bit_length(n: nat) -> nat
    decreases n,
{
    if n == 0 {
        0
    } else {
        1 + bit_length(n / 2)
    }
}

/// How many low bits of `n` a 53-bit significand cannot hold.
pub open spec fn f64_shift(n: nat) -> nat {
    if bit_length(n) > 53 {
        (bit_length(n) - 53) as nat
    } else {
        0
    }
}

/// The value of `n` converted to a double: the nearest multiple of the
/// significand's unit, a tie going to the even significand.
pub open spec fn nearest_f64(n: nat) -> nat {
    round_half_even_div(n, pow2(f64_shift(n))) * pow2(f64_shift(n))
}

/// Index of the largest unit (B, KB, MB, GB, TB) whose size does not exceed `v`.
pub open spec fn unit_index(v: nat) -> nat {
    if v >= 0x100_0000_0000 {
        4
    } else if v >= 0x4000_0000 {
        3
    } else if v >= 0x10_0000 {
        2
    } else if v >= 0x400 {
        1
    } else {
        0
    }
}

/// Size in bytes of unit number `k`.
pub open spec fn unit_scale(k: nat) -> nat {
    if k == 4 {
        0x100_0000_0000
    } else if k == 3 {
        0x4000_0000
    } else if k == 2 {
        0x10_0000
    } else if k == 1 {
        0x400
    } else {
        1
    }
}

/// Symbol of unit number `k`.
pub open spec fn unit_name(k: nat) -> Seq<char> {
    if k == 4 {
        seq!['T', 'B']
    } else if k == 3 {
        seq!['G', 'B']
    } else if k == 2 {
        seq!['M', 'B']
    } else if k == 1 {
        seq!['K', 'B']
    } else {
        seq!['B']
    }
}

/// The two digits of a number below 100, with a leading zero.
pub open spec fn two_digits(n: nat) -> Seq<char> {
    seq![digit_char(n / 10), digit_char(n % 10)]
}

/// A byte count in the largest binary unit up to TB that it reaches: whole
/// bytes below 1 KB, otherwise the count as a double divided by the unit,
/// rounded half-to-even to two decimals.
pub open spec fn bytes_text(bytes: nat) -> Seq<char> {
    let v = nearest_f64(bytes);
    let k = unit_index(v);
    if k == 0 {
        dec(v) + seq![' '] + unit_name(0)
    } else {
        let h = round_half_even_div(v * 100, unit_scale(k));
        dec(h / 100) + seq!['.'] + two_digits(h % 100) + seq![' '] + unit_name(k)
    }
}

/// A rate in bytes per second.
pub open spec fn bytes_per_sec_text(bytes: nat) -> Seq<char> {
    bytes_text(bytes) + seq!['/', 's']
}

/// A duration in seconds as days, hours, minutes and seconds, leaving out the
/// leading units that are zero.
pub open spec fn duration_text(secs: nat) -> Seq<char> {
    let days = secs / 86400;
    let hours = (secs % 86400) / 3600;
    let mins = (secs % 3600) / 60;
    let s = secs % 60;
    if days > 0 {
        dec(days) + seq!['d', ' '] + dec(hours) + seq!['h', ' '] + dec(mins) + seq!['m', ' ']
            + dec(s) + seq!['s']
    } else if hours > 0 {
        dec(hours) + seq!['h', ' '] + dec(mins) + seq!['m', ' '] + dec(s) + seq!['s']
    } else if mins > 0 {
        dec(mins) + seq!['m', ' '] + dec(s) + seq!['s']
    } else {
        dec(s) + seq!['s']
    }
}

proof fn lemma_bit_length_bound(n: nat, k: nat)
    requires
        n < pow2(k),
    ensures
        bit_length(n) <= k,
    decreases k,
{
    if n > 0 {
        if k == 0 {
            lemma2_to64();
        } else {
            lemma_pow2_unfold(k);
            lemma_bit_length_bound(n / 2, (k - 1) as nat);
        }
    }
}

/// `n` as a double, as an exact integer.
fn nearest_f64_value(n: u64) -> (v: u128)
    ensures
        v == nearest_f64(n as nat),
        v <= n + 0x800,
{
    let mut len: u64 = 0;
    let mut m: u64 = n;
    proof {
        lemma2_to64();
        lemma_bit_length_bound(n as nat, 64);
    }
    while m > 0
        invariant
            bit_length(n as nat) == len + bit_length(m as nat),
            bit_length(n as nat) <= 64,
        decreases m,
    {
        m = m / 2;
        len = len + 1;
    }
    let shift: u64 = if len > 53 { len - 53 } else { 0 };
    assert(shift == f64_shift(n as nat));
    assert(shift <= 11);
    let mut unit: u128 = 1;
    let mut i: u64 = 0;
    while i < shift
        invariant
            i <= shift <= 11,
            unit == pow2(i as nat),
            unit <= 0x800,
        decreases shift - i,
    {
        proof {
            lemma_pow2_unfold((i + 1) as nat);
            lemma_pow2_strictly_increases((i + 1) as nat, 12);
            lemma2_to64();
        }
        unit = unit * 2;
        i = i + 1;
    }
    let n128: u128 = n as u128;
    let q: u128 = n128 / unit;
    let r: u128 = n128 % unit;
    proof {
        lemma_fundamental_div_mod(n as int, unit as int);
        assert((q + 1) * unit == q * unit + unit) by (nonlinear_arith);
        assert(q * unit == unit * q) by (nonlinear_arith);
        assert(unit == pow2(f64_shift(n as nat)));
        assert(q == (n as nat) / pow2(f64_shift(n as nat)));
        assert(r == (n as nat) % pow2(f64_shift(n as nat)));
    }
    if 2 * r > unit || (2 * r == unit && q % 2 == 1) {
        assert(round_half_even_div(n as nat, unit as nat) == q + 1);
        n128 - r + unit
    } else {
        assert(round_half_even_div(n as nat, unit as nat) == q);
        n128 - r
    }
}

/// Formats a byte count with its unit: `"512 B"`, `"1.50 KB"`, `"2.00 GB"`.
pub fn format_bytes(bytes: u64) -> (s: String)
    ensures
        s@ == bytes_text(bytes as nat),
{
    let v: u128 = nearest_f64_value(bytes);
    let mut buf: Vec<char> = Vec::new();
    let k: u64 = if v >= 0x100_0000_0000 {
        4
    } else if v >= 0x4000_0000 {
        3
    } else if v >= 0x10_0000 {
        2
    } else if v >= 0x400 {
        1
    } else {
        0
    };
    if k == 0 {
        push_decimal(&mut buf, v);
        buf.push(' ');
        buf.push('B');
    } else {
        let scale: u128 = if k == 4 {
            0x100_0000_0000
        } else if k == 3 {
            0x4000_0000
        } else if k == 2 {
            0x10_0000
        } else {
            0x400
        };
        let x: u128 = v * 100;
        let q: u128 = x / scale;
        let r: u128 = x % scale;
        let h: u128 = if 2 * r > scale || (2 * r == scale && q % 2 == 1) {
            q + 1
        } else {
            q
        };
        push_decimal(&mut buf, h / 100);
        buf.push('.');
        let t: u128 = h % 100;
        push_digit(&mut buf, (t / 10) as u8);
        push_digit(&mut buf, (t % 10) as u8);
        buf.push(' ');
        if k == 4 {
            buf.push('T');
        } else if k == 3 {
            buf.push('G');
        } else if k == 2 {
            buf.push('M');
        } else {
            buf.push('K');
        }
        buf.push('B');
    }
    proof {
        let ghost h = round_half_even_div(v as nat * 100, unit_scale(k as nat));
        assert(buf@ =~= bytes_text(bytes as nat));
    }
    string_from_chars(buf)
}

/// Formats a rate: the byte count as [`format_bytes`] writes it, then `"/s"`.
pub fn format_bytes_per_sec(bytes: u64) -> (s: String)
    ensures
        s@ == bytes_per_sec_text(bytes as nat),
{
    let mut buf: Vec<char> = Vec::new();
    push_str(&mut buf, format_bytes(bytes).as_str());
    buf.push('/');
    buf.push('s');
    assert(buf@ =~= bytes_per_sec_text(bytes as nat));
    string_from_chars(buf)
}

/// Formats a duration: `"2d 3h 4m 5s"`, `"3h 4m 5s"`, `"4m 5s"` or `"5s"`.
pub fn format_duration(secs: u64) -> (s: String)
    ensures
        s@ == duration_text(secs as nat),
{
    let days: u64 = secs / 86400;
    let hours: u64 = (secs % 86400) / 3600;
    let mins: u64 = (secs % 3600) / 60;
    let s: u64 = secs % 60;
    let mut buf: Vec<char> = Vec::new();
    if days > 0 {
        push_decimal(&mut buf, days as u128);
        buf.push('d');
        buf.push(' ');
    }
    if days > 0 || hours > 0 {
        push_decimal(&mut buf, hours as u128);
        buf.push('h');
        buf.push(' ');
    }
    if days > 0 || hours > 0 || mins > 0 {
        push_decimal(&mut buf, mins as u128);
        buf.push('m');
        buf.push(' ');
    }
    push_decimal(&mut buf, s as u128);
    buf.push('s');
    assert(buf@ =~= duration_text(secs as nat));
    string_from_chars(buf)
}

/// The days, hours, minutes and seconds a duration is shown with add up to
/// it, and each part below the day is below its unit's limit.
pub proof fn lemma_duration_parts(secs: nat)
    ensures
        ({
            let days = secs / 86400;
            let hours = (secs % 86400) / 3600;
            let mins = (secs % 3600) / 60;
            let s = secs % 60;
            &&& days * 86400 + hours * 3600 + mins * 60 + s == secs
            &&& hours < 24
            &&& mins < 60
            &&& s < 60
        }),
{
    let days = secs / 86400;
    let r = secs % 86400;
    let hours = r / 3600;
    let mins = (secs % 3600) / 60;
    let s = secs % 60;
    lemma_fundamental_div_mod(secs as int, 86400);
    lemma_fundamental_div_mod(r as int, 3600);
    lemma_fundamental_div_mod(secs as int, 3600);
    lemma_fundamental_div_mod((secs % 3600) as int, 60);
    lemma_fundamental_div_mod(secs as int, 60);
    lemma_mod_mod(secs as int, 3600, 24);
    lemma_mod_mod(secs as int, 60, 60);
    assert(r % 3600 == secs % 3600) by {
        lemma_mod_mod(secs as int, 3600, 24);
    }
    assert((secs % 3600) % 60 == secs % 60) by {
        lemma_mod_mod(secs as int, 60, 60);
    }
}

/// A count below 1 KB is shown exactly, in bytes; a larger one is shown in
/// the unit it reaches, with a value from 1.00 to 1024.00 below TB.
pub proof fn lemma_bytes_text_units(bytes: nat)
    requires
        bytes < 0x1_0000_0000_0000_0000,
    ensures
        bytes < 1024 ==> bytes_text(bytes) == dec(bytes) + seq![' ', 'B'],
        ({
            let v = nearest_f64(bytes);
            let k = unit_index(v);
            1 <= k <= 3 ==> 100 <= round_half_even_div(v * 100, unit_scale(k)) <= 102400
        }),
{
    let shift = f64_shift(bytes);
    if bytes < 1024 {
        lemma2_to64();
        lemma_bit_length_bound(bytes, 10);
        assert(shift == 0);
        assert(pow2(0) == 1);
        lemma_fundamental_div_mod(bytes as int, 1);
        assert(bytes % 1 == 0);
        assert(bytes / 1 == bytes);
        assert(round_half_even_div(bytes, 1) == bytes);
        assert(pow2(f64_shift(bytes)) == 1);
        lemma_mul_basics(bytes as int);
        assert(nearest_f64(bytes) == bytes);
        assert(bytes_text(bytes) =~= dec(bytes) + seq![' ', 'B']);
    }
    let v = nearest_f64(bytes);
    let k = unit_index(v);
    if 1 <= k <= 3 {
        let d = unit_scale(k);
        let x = v * 100;
        lemma_fundamental_div_mod(x as int, d as int);
        assert(x / d >= 100) by {
            lemma_div_is_ordered((d * 100) as int, x as int, d as int);
            lemma_div_multiples_vanish(100, d as int);
        }
        assert(x / d <= 102399) by {
            lemma_div_is_ordered(x as int, (d * 102400 - 1) as int, d as int);
            lemma_div_multiples_vanish_fancy(102399, (d - 1) as int, d as int);
        }
    }
}

/// A duration given as days, hours, minutes and seconds is shown with those
/// numbers, leaving out the leading units that are zero.
pub proof fn lemma_duration_text_of_parts(d: nat, h: nat, m: nat, s: nat)
    requires
        h < 24,
        m < 60,
        s < 60,
    ensures
        d > 0 ==> duration_text(d * 86400 + h * 3600 + m * 60 + s) == dec(d) + "d "@ + dec(h)
            + "h "@ + dec(m) + "m "@ + dec(s) + "s"@,
        d == 0 && h > 0 ==> duration_text(h * 3600 + m * 60 + s) == dec(h) + "h "@ + dec(m)
            + "m "@ + dec(s) + "s"@,
        d == 0 && h == 0 && m > 0 ==> duration_text(m * 60 + s) == dec(m) + "m "@ + dec(s)
            + "s"@,
        d == 0 && h == 0 && m == 0 ==> duration_text(s) == dec(s) + "s"@,
{
    reveal_strlit("d ");
    reveal_strlit("h ");
    reveal_strlit("m ");
    reveal_strlit("s");
    let secs = d * 86400 + h * 3600 + m * 60 + s;
    let r = h * 3600 + m * 60 + s;
    assert(r < 86400);
    lemma_fundamental_div_mod(secs as int, 86400);
    lemma_fundamental_div_mod_converse(secs as int, 86400, d as int, r as int);
    assert(secs / 86400 == d && secs % 86400 == r);
    lemma_fundamental_div_mod_converse(r as int, 3600, h as int, (m * 60 + s) as int);
    assert(r / 3600 == h);
    lemma_fundamental_div_mod_converse(secs as int, 3600, (d * 24 + h) as int, (m * 60 + s) as int);
    assert(secs % 3600 == m * 60 + s);
    lemma_fundamental_div_mod_converse((m * 60 + s) as int, 60, m as int, s as int);
    lemma_fundamental_div_mod_converse(secs as int, 60, (d * 1440 + h * 60 + m) as int, s as int);
    assert(secs % 60 == s);
    assert(seq!['d', ' '] =~= "d "@);
    assert(seq!['h', ' '] =~= "h "@);
    assert(seq!['m', ' '] =~= "m "@);
    assert(seq!['s'] =~= "s"@);
}

proof fn lemma_exact_double(b: nat)
    requires
        b < 0x20_0000_0000_0000,
    ensures
        nearest_f64(b) == b,
{
    lemma2_to64();
    lemma2_to64_rest();
    lemma_bit_length_bound(b, 53);
    assert(f64_shift(b) == 0);
    lemma_fundamental_div_mod(b as int, 1);
    assert(round_half_even_div(b, 1) == b);
    lemma_mul_basics(b as int);
}

/// A whole number `n` (from 1 to 1023) of some unit from KB to TB is shown as
/// `n` of that unit, with two zero decimals.
pub proof fn lemma_bytes_text_whole_units(n: nat, k: nat)
    requires
        1 <= n < 1024,
        1 <= k <= 4,
    ensures
        bytes_text(n * unit_scale(k)) == dec(n) + ".00 "@ + unit_name(k),
{
    reveal_strlit(".00 ");
    let d = unit_scale(k);
    let b = n * d;
    if k == 1 {
        assert(b == n * 0x400);
    } else if k == 2 {
        assert(b == n * 0x10_0000);
    } else if k == 3 {
        assert(b == n * 0x4000_0000);
    } else {
        assert(b == n * 0x100_0000_0000);
    }
    assert(b < 0x20_0000_0000_0000);
    lemma_exact_double(b);
    assert(unit_index(b) == k);
    assert(b * 100 == (n * 100) * d) by (nonlinear_arith)
        requires
            b == n * d,
    ;
    lemma_div_multiples_vanish((n * 100) as int, d as int);
    lemma_mod_multiples_basic((n * 100) as int, d as int);
    assert(((n * 100) * d) % d == 0) by {
        lemma_mul_is_commutative((n * 100) as int, d as int);
    }
    assert(((n * 100) * d) / d == n * 100) by {
        lemma_mul_is_commutative((n * 100) as int, d as int);
    }
    assert(round_half_even_div(b * 100, d) == n * 100);
    assert((n * 100) / 100 == n);
    assert((n * 100) % 100 == 0);
    assert(two_digits(0) =~= seq!['0', '0']);
    assert(seq!['.'] + two_digits(0) + seq![' '] =~= ".00 "@);
    assert(bytes_text(b) =~= dec(n) + ".00 "@ + unit_name(k));
}

} // verus!
