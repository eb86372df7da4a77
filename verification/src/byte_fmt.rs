//! Human-scaled rendering of byte counts: `4404019` becomes `4.20 MB`.
//!
//! Scaling is binary: one unit step is a factor of 1024. A count below 1024
//! is shown as it is, in bytes. A larger one is shown in the largest unit
//! that does not exceed it (at most `YB`), rounded to two decimal places,
//! ties going to the even hundredth.

use vstd::prelude::*;
use vstd::arithmetic::div_mod::{lemma_fundamental_div_mod, lemma_fundamental_div_mod_converse};

verus! {

/// Index of the largest unit, `YB`.
pub const LAST_UNIT: usize = 8;

/// The character of one decimal digit.
pub open spec fn digit_char(d: nat) -> char
    recommends
        d < 10,
{
    if d == 0 {
        '0'
    } else if d == 1 {
        '1'
    } else if d == 2 {
        '2'
    } else if d == 3 {
        '3'
    } else if d == 4 {
        '4'
    } else if d == 5 {
        '5'
    } else if d == 6 {
        '6'
    } else if d == 7 {
        '7'
    } else if d == 8 {
        '8'
    } else {
        '9'
    }
}

/// A natural number in decimal, most significant digit first, without
/// leading zeros.
pub open spec fn decimal_text(n: nat) -> Seq<char>
    decreases n,
{
    if n < 10 {
        seq![digit_char(n)]
    } else {
        decimal_text(n / 10).push(digit_char(n % 10))
    }
}

/// The label of the unit with index `k`.
pub open spec fn unit_text(k: nat) -> Seq<char>
    recommends
        k <= LAST_UNIT,
{
    if k == 0 {
        "B"@
    } else if k == 1 {
        "kB"@
    } else if k == 2 {
        "MB"@
    } else if k == 3 {
        "GB"@
    } else if k == 4 {
        "TB"@
    } else if k == 5 {
        "PB"@
    } else if k == 6 {
        "EB"@
    } else if k == 7 {
        "ZB"@
    } else {
        "YB"@
    }
}

/// 1024 to the power `k`: how many bytes the unit with index `k` holds.
pub open spec fn unit_size(k: nat) -> nat
    decreases k,
{
    if k == 0 {
        1
    } else {
        1024 * unit_size((k - 1) as nat)
    }
}

/// The index of the unit a magnitude is shown in: the whole part of its
/// logarithm to base 1024, and `LAST_UNIT` where that would be larger.
/// Magnitudes under 1024, zero among them, are shown in bytes.
pub open spec fn unit_index(m: nat) -> nat
    decreases m,
{
    if m < 1024 {
        0
    } else {
        let above = unit_index(m / 1024) + 1;
        if above > LAST_UNIT {
            LAST_UNIT as nat
        } else {
            above
        }
    }
}

/// The quotient `a / b` rounded to the nearest integer, a tie going to the
/// even neighbour.
pub open spec fn round_half_even(a: nat, b: nat) -> nat
    recommends
        b > 0,
{
    let q = a / b;
    let twice_rest = 2 * (a % b);
    if twice_rest < b {
        q
    } else if twice_rest > b {
        q + 1
    } else if q % 2 == 0 {
        q
    } else {
        q + 1
    }
}

/// A magnitude in hundredths of its unit, rounded.
pub open spec fn scaled_hundredths(m: nat) -> nat {
    round_half_even(m * 100, unit_size(unit_index(m)))
}

/// The number part of a rendered magnitude: below 1024 the magnitude
/// itself, as a whole number; from there on the scaled value with exactly
/// two decimal places.
pub open spec fn magnitude_text(m: nat) -> Seq<char> {
    if m < 1024 {
        decimal_text(m)
    } else {
        let h = scaled_hundredths(m);
        decimal_text(h / 100) + "."@ + seq![digit_char(h / 10 % 10), digit_char(h % 10)]
    }
}

/// The distance of an integer from zero.
pub open spec fn magnitude(n: int) -> nat {
    if n < 0 {
        (-n) as nat
    } else {
        n as nat
    }
}

/// The sign of a rendered count: a minus for a negative one, else nothing.
pub open spec fn sign_text(n: int) -> Seq<char> {
    if n < 0 {
        "-"@
    } else {
        Seq::<char>::empty()
    }
}

/// What `pretty` renders: the sign, the number part, a space and the unit
/// label.
pub open spec fn pretty_text(n: int) -> Seq<char> {
    let m = magnitude(n);
    sign_text(n) + magnitude_text(m) + " "@ + unit_text(unit_index(m))
}

/// The unit index never leaves the table of units.
pub proof fn lemma_unit_index_bounded(m: nat)
    ensures
        unit_index(m) <= LAST_UNIT,
    decreases m,
{
    if m >= 1024 {
        lemma_unit_index_bounded(m / 1024);
    }
}

/// The unit chosen for a magnitude of at least one does not exceed it, and
/// unless it is the last unit, the next one does.
pub proof fn lemma_unit_index_brackets(m: nat)
    requires
        m >= 1,
    ensures
        unit_size(unit_index(m)) <= m,
        unit_index(m) < LAST_UNIT ==> m < unit_size(unit_index(m) + 1),
    decreases m,
{
    if m >= 1024 {
        let rest = m / 1024;
        lemma_unit_index_brackets(rest);
        lemma_unit_index_bounded(rest);
        let k = unit_index(rest);
        assert(unit_size(k + 1) == 1024 * unit_size(k));
        if k + 1 > LAST_UNIT {
            lemma_unit_size_monotone(LAST_UNIT as nat, k + 1);
        } else {
            assert(unit_size(k + 2) == 1024 * unit_size((k + 1) as nat));
        }
    } else {
        assert(unit_size(1) == 1024 * unit_size(0));
    }
}

/// A larger unit holds at least as many bytes.
pub proof fn lemma_unit_size_monotone(j: nat, k: nat)
    requires
        j <= k,
    ensures
        1 <= unit_size(j) <= unit_size(k),
    decreases k,
{
    if k == 0 {
    } else if j == k {
        lemma_unit_size_monotone((j - 1) as nat, (k - 1) as nat);
    } else {
        lemma_unit_size_monotone(j, (k - 1) as nat);
    }
}

/// Rounding lands on a nearest integer: the rounded quotient is off from
/// the exact one by at most a half.
pub proof fn lemma_round_is_nearest(a: nat, b: nat)
    requires
        b > 0,
    ensures
        2 * (round_half_even(a, b) * b - a) <= b,
        2 * (a - round_half_even(a, b) * b) <= b,
{
    let q = a / b;
    let r = a % b;
    lemma_fundamental_div_mod(a as int, b as int);
    assert((q + 1) * b == q * b + b) by (nonlinear_arith);
    assert(q * b == b * q) by (nonlinear_arith);
}

/// Below 1024 nothing is scaled and nothing is rounded: the number shown
/// is the count itself, in bytes.
pub proof fn lemma_pretty_below_kilo(n: int)
    requires
        -1024 < n < 1024,
    ensures
        pretty_text(n) == sign_text(n) + decimal_text(magnitude(n)) + " B"@,
{
    reveal_strlit(" B");
    reveal_strlit(" ");
    reveal_strlit("B");
    assert(pretty_text(n) =~= sign_text(n) + decimal_text(magnitude(n)) + " B"@);
}

/// Whether a character can stand in a rendered size: a digit, the sign, the
/// decimal point, the space, or a letter of a unit label.
pub open spec fn size_char(c: char) -> bool {
    ||| c == '0' || c == '1' || c == '2' || c == '3' || c == '4'
    ||| c == '5' || c == '6' || c == '7' || c == '8' || c == '9'
    ||| c == '-' || c == '.' || c == ' '
    ||| c == 'B' || c == 'k' || c == 'M' || c == 'G' || c == 'T'
    ||| c == 'P' || c == 'E' || c == 'Z' || c == 'Y'
}

/// A decimal numeral holds digits only.
pub proof fn lemma_decimal_text_digits(n: nat)
    ensures
        decimal_text(n).len() >= 1,
        forall|i: int| 0 <= i < decimal_text(n).len() ==> size_char(#[trigger] decimal_text(n)[i]),
    decreases n,
{
    if n >= 10 {
        lemma_decimal_text_digits(n / 10);
    }
}

/// A rendered size is written in the characters of `size_char` alone.
pub proof fn lemma_pretty_text_alphabet(n: int)
    ensures
        forall|i: int| 0 <= i < pretty_text(n).len() ==> size_char(#[trigger] pretty_text(n)[i]),
{
    reveal_strlit("-");
    reveal_strlit(".");
    reveal_strlit(" ");
    reveal_strlit("B");
    reveal_strlit("kB");
    reveal_strlit("MB");
    reveal_strlit("GB");
    reveal_strlit("TB");
    reveal_strlit("PB");
    reveal_strlit("EB");
    reveal_strlit("ZB");
    reveal_strlit("YB");
    let m = magnitude(n);
    let number = magnitude_text(m);
    let unit = unit_text(unit_index(m));
    assert forall|i: int| 0 <= i < number.len() implies size_char(#[trigger] number[i]) by {
        if m < 1024 {
            lemma_decimal_text_digits(m);
        } else {
            lemma_decimal_text_digits(scaled_hundredths(m) / 100);
        }
    }
    assert forall|i: int| 0 <= i < unit.len() implies size_char(#[trigger] unit[i]) by {}
}

/// The one-character string of a decimal digit.
fn digit_str(d: u8) -> (s: &'static str)
    requires
        d < 10,
    ensures
        s@ == seq![digit_char(d as nat)],
{
    proof {
        reveal_strlit("0");
        reveal_strlit("1");
        reveal_strlit("2");
        reveal_strlit("3");
        reveal_strlit("4");
        reveal_strlit("5");
        reveal_strlit("6");
        reveal_strlit("7");
        reveal_strlit("8");
        reveal_strlit("9");
    }
    let s = if d == 0 {
        "0"
    } else if d == 1 {
        "1"
    } else if d == 2 {
        "2"
    } else if d == 3 {
        "3"
    } else if d == 4 {
        "4"
    } else if d == 5 {
        "5"
    } else if d == 6 {
        "6"
    } else if d == 7 {
        "7"
    } else if d == 8 {
        "8"
    } else {
        "9"
    };
    assert(s@ =~= seq![digit_char(d as nat)]);
    s
}

/// The label of the unit with index `k`.
fn unit_label(k: usize) -> (s: &'static str)
    requires
        k <= LAST_UNIT,
    ensures
        s@ == unit_text(k as nat),
{
    if k == 0 {
        "B"
    } else if k == 1 {
        "kB"
    } else if k == 2 {
        "MB"
    } else if k == 3 {
        "GB"
    } else if k == 4 {
        "TB"
    } else if k == 5 {
        "PB"
    } else if k == 6 {
        "EB"
    } else if k == 7 {
        "ZB"
    } else {
        "YB"
    }
}

/// Appends a natural number in decimal to `out`.
fn push_decimal(out: &mut String, n: u128)
    ensures
        final(out)@ == old(out)@ + decimal_text(n as nat),
    decreases n,
{
    if n >= 10 {
        push_decimal(out, n / 10);
    }
    out.append(digit_str((n % 10) as u8));
    assert(out@ =~= old(out)@ + decimal_text(n as nat));
}

/// The distance of `num` from zero, which always fits the unsigned type.
fn magnitude_of(num: i128) -> (m: u128)
    ensures
        m == magnitude(num as int),
{
    if num >= 0 {
        num as u128
    } else {
        ((-(num + 1)) as u128) + 1
    }
}

/// Finds the unit a magnitude is shown in.
fn unit_index_of(m: u128) -> (k: usize)
    ensures
        k == unit_index(m as nat),
        k <= LAST_UNIT,
{
    let mut k: usize = 0;
    let mut rest: u128 = m;
    proof {
        lemma_unit_index_bounded(m as nat);
    }
    while rest >= 1024 && k < LAST_UNIT
        invariant
            k <= LAST_UNIT,
            unit_index(m as nat) == if k + unit_index(rest as nat) > LAST_UNIT {
                LAST_UNIT as int
            } else {
                k + unit_index(rest as nat)
            },
        decreases rest,
    {
        proof {
            lemma_unit_index_bounded((rest / 1024) as nat);
        }
        rest = rest / 1024;
        k = k + 1;
    }
    k
}

/// Computes the number of bytes in the unit with index `k`.
fn unit_size_of(k: usize) -> (p: u128)
    requires
        k <= LAST_UNIT,
    ensures
        p == unit_size(k as nat),
        1 <= p <= 0x1_0000_0000_0000_0000_0000,
{
    let mut p: u128 = 1;
    let mut i: usize = 0;
    while i < k
        invariant
            i <= k <= LAST_UNIT,
            p == unit_size(i as nat),
            1 <= p,
            i == 0 ==> p <= 1,
            i == 1 ==> p <= 0x400,
            i == 2 ==> p <= 0x10_0000,
            i == 3 ==> p <= 0x4000_0000,
            i == 4 ==> p <= 0x100_0000_0000,
            i == 5 ==> p <= 0x4_0000_0000_0000,
            i == 6 ==> p <= 0x1000_0000_0000_0000,
            i == 7 ==> p <= 0x40_0000_0000_0000_0000,
            i == 8 ==> p <= 0x1_0000_0000_0000_0000_0000,
        decreases k - i,
    {
        p = p * 1024;
        i = i + 1;
    }
    p
}

/// Scales a magnitude to its unit and rounds it to hundredths; returns the
/// whole part and the two decimal places.
fn scaled_parts(m: u128, k: usize) -> (parts: (u128, u8))
    requires
        k == unit_index(m as nat),
    ensures
        parts.0 == scaled_hundredths(m as nat) / 100,
        parts.1 == scaled_hundredths(m as nat) % 100,
{
    proof {
        lemma_unit_index_bounded(m as nat);
    }
    let p = unit_size_of(k);
    let whole = m / p;
    let rest = m % p;
    let scaled_rest = rest * 100;
    let cents = scaled_rest / p;
    let left = scaled_rest % p;
    let up = 2 * left > p || (2 * left == p && cents % 2 == 1);
    proof {
        let q = whole * 100 + cents;
        lemma_fundamental_div_mod(m as int, p as int);
        lemma_fundamental_div_mod(scaled_rest as int, p as int);
        assert(m * 100 == q * p + left) by (nonlinear_arith)
            requires
                m == p * whole + rest,
                rest * 100 == scaled_rest,
                scaled_rest == p * cents + left,
                q == whole * 100 + cents,
        ;
        lemma_fundamental_div_mod_converse(m * 100, p as int, q as int, left as int);
        assert(cents < 100) by (nonlinear_arith)
            requires
                scaled_rest == p * cents + left,
                scaled_rest == rest * 100,
                rest < p,
                left >= 0,
                p > 0,
        ;
        assert(q % 2 == cents % 2);
        assert(scaled_hundredths(m as nat) == if up {
            q + 1
        } else {
            q
        });
        if up && cents == 99 {
            assert(p >= 2);
            assert(whole * 2 <= m) by (nonlinear_arith)
                requires
                    m == p * whole + rest,
                    p >= 2,
                    whole >= 0,
                    rest >= 0,
            ;
        }
    }
    if up {
        if cents == 99 {
            (whole + 1, 0)
        } else {
            (whole, (cents + 1) as u8)
        }
    } else {
        (whole, cents as u8)
    }
}

/// Renders a byte count in human-scaled form: sign, number, a space, unit.
///
/// A magnitude below 1024 is shown as it is, as in `0 B`, `5 B` or
/// `-1023 B`. A larger one is scaled by the largest power of 1024 that does
/// not exceed it (`YB` at most) and shown with two decimal places, as in
/// `1.00 kB` or `-4.20 MB`.
pub fn pretty(num: i128) -> (out: String)
    ensures
        out@ == pretty_text(num as int),
{
    let m = magnitude_of(num);
    let k = unit_index_of(m);
    let mut out = String::new();
    if num < 0 {
        out.append("-");
    }
    assert(out@ =~= sign_text(num as int));
    if m < 1024 {
        push_decimal(&mut out, m);
    } else {
        let (whole, cents) = scaled_parts(m, k);
        push_decimal(&mut out, whole);
        out.append(".");
        out.append(digit_str(cents / 10));
        out.append(digit_str(cents % 10));
    }
    assert(out@ =~= sign_text(num as int) + magnitude_text(m as nat));
    out.append(" ");
    out.append(unit_label(k));
    assert(out@ =~= pretty_text(num as int));
    out
}

} // verus!
