//! Human-readable sizes: `format_size` renders a byte count the way
//! `format!("{:.1} {}", size as f64 / 1024^unit, unit)` does, in exact
//! integer arithmetic.

use vstd::prelude::*;
use crate::text::{decimal, digit_char, digit_of, push_char, push_decimal};

verus! {

/// `2^e`.
pub open spec fn two_pow(e: nat) -> nat
    decreases e,
{
    if e == 0 { 1 } else { 2 * two_pow((e - 1) as nat) }
}

/// `2^53`: integers below it are exactly representable as `f64`.
pub open spec fn f64_exact_limit() -> nat {
    9007199254740992
}

/// How many low bits of `n` an `f64` cannot hold.
pub open spec fn f64_exponent(n: nat) -> nat
    decreases n,
{
    if n < f64_exact_limit() { 0 } else { 1 + f64_exponent(n / 2) }
}

/// The value of `n as f64`: `n` rounded to 53 significant bits, to nearest,
/// ties to even.
pub open spec fn f64_value(n: nat) -> nat {
    let g = two_pow(f64_exponent(n));
    let q = n / g;
    let r = n % g;
    let up = g > 1 && (2 * r > g || (2 * r == g && q % 2 == 1));
    (if up { q + 1 } else { q }) * g
}

/// The unit a value is shown in: 0 for B, 1 for KB, 2 for MB, 3 for GB.
pub open spec fn size_unit(v: nat) -> nat {
    if v < 1024 { 0 } else if v < 1048576 { 1 } else if v < 1073741824 { 2 } else { 3 }
}

/// `1024^u` for the four units.
pub open spec fn unit_divisor(u: nat) -> nat {
    if u == 0 { 1 } else if u == 1 { 1024 } else if u == 2 { 1048576 } else { 1073741824 }
}

/// The name of a unit.
pub open spec fn unit_name(u: nat) -> Seq<char> {
    if u == 0 {
        seq!['B']
    } else if u == 1 {
        seq!['K', 'B']
    } else if u == 2 {
        seq!['M', 'B']
    } else {
        seq!['G', 'B']
    }
}

/// `v / d` in tenths, rounded to nearest, ties to even (the rounding of
/// `{:.1}`).
pub open spec fn rounded_tenths(v: nat, d: nat) -> nat {
    let q = (v * 10) / d;
    let r = (v * 10) % d;
    if 2 * r > d || (2 * r == d && q % 2 == 1) { q + 1 } else { q }
}

/// The text of a size: one decimal and a unit.
pub open spec fn size_text(size: nat) -> Seq<char> {
    let v = f64_value(size);
    let u = size_unit(v);
    let t = rounded_tenths(v, unit_divisor(u));
    decimal(t / 10) + seq!['.', digit_char(t % 10), ' '] + unit_name(u)
}

proof fn lemma_div_half(n: nat, g: nat)
    requires
        g > 0,
    ensures
        n / (g * 2) == (n / g) / 2,
{
    vstd::arithmetic::div_mod::lemma_div_denominator(n as int, g as int, 2);
}

/// `n as f64`, as an integer.
fn f64_round(n: u128) -> (v: u128)
    requires
        n < 0x1_0000_0000_0000_0000,
    ensures
        v == f64_value(n as nat),
        v <= 9007199254740992 * 0x1_0000_0000_0000_0000,
{
    let mut m: u128 = n;
    let mut g: u128 = 1;
    let ghost mut e: nat = 0;
    while m >= 9007199254740992
        invariant
            n < 0x1_0000_0000_0000_0000,
            g == two_pow(e),
            g >= 1,
            m == n / g,
            g == 1 || g <= n,
            f64_exponent(n as nat) == e + f64_exponent(m as nat),
        decreases m,
    {
        proof {
            lemma_div_half(n as nat, g as nat);
        }
        m = m / 2;
        g = g * 2;
        proof {
            e = e + 1;
            assert(g * m <= n) by (nonlinear_arith)
                requires m == n / g, g >= 1;
            assert(g <= n) by (nonlinear_arith)
                requires g * m <= n, m >= 1;
        }
    }
    let q = m;
    let r = n % g;
    let up = g > 1 && (2 * r > g || (2 * r == g && q % 2 == 1));
    let q2: u128 = if up { q + 1 } else { q };
    proof {
        vstd::arithmetic::mul::lemma_mul_upper_bound(q2 as int, 9007199254740992, g as int, 0x1_0000_0000_0000_0000);
    }
    q2 * g
}

/// The unit index and divisor for a value.
fn choose_unit(v: u128) -> (r: (u32, u128))
    ensures
        r.0 == size_unit(v as nat),
        r.1 == unit_divisor(r.0 as nat),
{
    if v < 1024 {
        (0, 1)
    } else if v < 1048576 {
        (1, 1024)
    } else if v < 1073741824 {
        (2, 1048576)
    } else {
        (3, 1073741824)
    }
}

fn tenths(v: u128, d: u128) -> (t: u128)
    requires
        v <= 9007199254740992 * 0x1_0000_0000_0000_0000,
        1 <= d <= 1073741824,
    ensures
        t == rounded_tenths(v as nat, d as nat),
{
    let t0 = (v * 10) / d;
    let r0 = (v * 10) % d;
    proof {
        vstd::arithmetic::div_mod::lemma_div_is_ordered_by_denominator((v * 10) as int, 1, d as int);
    }
    if 2 * r0 > d || (2 * r0 == d && t0 % 2 == 1) { t0 + 1 } else { t0 }
}

/// Renders a byte count as in "1.5 KB": the largest unit up to GB in which
/// the value is at least 1, with one decimal.
pub fn format_size(size: usize) -> (s: String)
    ensures
        s@ == size_text(size as nat),
{
    let n: u128 = size as u128;
    let v = f64_round(n);
    let (unit, d) = choose_unit(v);
    let t = tenths(v, d);
    let mut s = String::new();
    push_decimal(&mut s, t / 10);
    push_char(&mut s, '.');
    push_char(&mut s, digit_of(t % 10));
    push_char(&mut s, ' ');
    if unit == 1 {
        push_char(&mut s, 'K');
    } else if unit == 2 {
        push_char(&mut s, 'M');
    } else if unit == 3 {
        push_char(&mut s, 'G');
    }
    push_char(&mut s, 'B');
    assert(s@ =~= size_text(size as nat));
    s
}


/// Law: byte counts below `2^53` are shown from their exact value.
pub proof fn lemma_exact_below_limit(n: nat)
    requires
        n < f64_exact_limit(),
    ensures
        f64_value(n) == n,
{
    assert(f64_exponent(n) == 0);
    assert(two_pow(0) == 1);
}

/// Law: a size is shown in the largest unit, up to GB, in which its value
/// is at least 1, so that below GB the shown value is under 1024.
pub proof fn lemma_unit_choice(v: nat)
    ensures
        size_unit(v) <= 3,
        size_unit(v) > 0 ==> unit_divisor(size_unit(v)) <= v,
        size_unit(v) < 3 ==> v < 1024 * unit_divisor(size_unit(v)),
{
}

} // verus!
