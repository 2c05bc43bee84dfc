//! Decimal rendering of non-negative scaled integers.
//!
//! A value `v` at scale `s` denotes the rational `v / 10^s`. It renders as
//! the whole part in decimal, then, when the fraction is not zero, a `.`
//! and the fraction's `s` digits with trailing zeros removed.

use vstd::prelude::*;
use vstd::arithmetic::div_mod::{lemma_mod_breakdown, lemma_small_mod};

verus! {

/// `10^n`.
pub open spec fn pow10(n: nat) -> nat
    decreases n,
{
    if n == 0 {
        1
    } else {
        10 * pow10((n - 1) as nat)
    }
}

/// The character of the decimal digit `d`.
pub open spec fn digit_char(d: nat) -> char {
    (48 + d) as char
}

/// The decimal digits of `n`, most significant first, without leading
/// zeros (`0` is the single digit `0`).
pub open spec fn decimal_digits(n: nat) -> Seq<char>
    decreases n,
{
    if n < 10 {
        seq![digit_char(n)]
    } else {
        decimal_digits(n / 10).push(digit_char(n % 10))
    }
}

/// The lowest `width` decimal digits of `n`, most significant first,
/// padded with leading zeros.
pub open spec fn padded_digits(n: nat, width: nat) -> Seq<char>
    decreases width,
{
    if width == 0 {
        Seq::empty()
    } else {
        padded_digits(n / 10, (width - 1) as nat).push(digit_char(n % 10))
    }
}

/// `s` with every trailing `'0'` removed.
pub open spec fn trim_trailing_zeros(s: Seq<char>) -> Seq<char>
    decreases s.len(),
{
    if s.len() > 0 && s.last() == '0' {
        trim_trailing_zeros(s.drop_last())
    } else {
        s
    }
}

/// The text of `value / 10^scale`: the whole part, then `.` and the
/// fractional digits without trailing zeros when the fraction is not zero.
pub open spec fn scaled_text(value: nat, scale: nat) -> Seq<char> {
    let whole = value / pow10(scale);
    let frac = value % pow10(scale);
    if frac == 0 {
        decimal_digits(whole)
    } else {
        decimal_digits(whole) + seq!['.'] + trim_trailing_zeros(padded_digits(frac, scale))
    }
}

proof fn lemma_pow10_positive(n: nat)
    ensures
        pow10(n) >= 1,
    decreases n,
{
    if n > 0 {
        lemma_pow10_positive((n - 1) as nat);
    }
}

/// The text of one decimal digit.
fn digit_str(d: u128) -> (s: &'static str)
    requires
        d < 10,
    ensures
        s@ == seq![digit_char(d as nat)],
{
    if d == 0 {
        proof { reveal_strlit("0"); }
        "0"
    } else if d == 1 {
        proof { reveal_strlit("1"); }
        "1"
    } else if d == 2 {
        proof { reveal_strlit("2"); }
        "2"
    } else if d == 3 {
        proof { reveal_strlit("3"); }
        "3"
    } else if d == 4 {
        proof { reveal_strlit("4"); }
        "4"
    } else if d == 5 {
        proof { reveal_strlit("5"); }
        "5"
    } else if d == 6 {
        proof { reveal_strlit("6"); }
        "6"
    } else if d == 7 {
        proof { reveal_strlit("7"); }
        "7"
    } else if d == 8 {
        proof { reveal_strlit("8"); }
        "8"
    } else {
        proof { reveal_strlit("9"); }
        "9"
    }
}

/// Appends the decimal digits of `n` to `out`.
fn push_decimal_digits(out: &mut String, n: u128)
    ensures
        final(out)@ == old(out)@ + decimal_digits(n as nat),
    decreases n,
{
    if n >= 10 {
        push_decimal_digits(out, n / 10);
    }
    out.append(digit_str(n % 10));
}

/// Appends the lowest `width` digits of `n`, zero-padded, to `out`.
fn push_padded_digits(out: &mut String, n: u128, width: u32)
    ensures
        final(out)@ == old(out)@ + padded_digits(n as nat, width as nat),
    decreases width,
{
    if width > 0 {
        push_padded_digits(out, n / 10, width - 1);
        out.append(digit_str(n % 10));
    }
}

/// Removing the trailing zero digit of `10 * f` from its padded digits.
proof fn lemma_padded_shift(f: nat, w: nat)
    ensures
        padded_digits(f * 10, w + 1) == padded_digits(f, w).push('0'),
        trim_trailing_zeros(padded_digits(f * 10, w + 1)) == trim_trailing_zeros(
            padded_digits(f, w),
        ),
{
    assert((f * 10) / 10 == f);
    assert((f * 10) % 10 == 0);
    let s = padded_digits(f, w).push('0');
    assert(s.drop_last() =~= padded_digits(f, w));
}

/// Renders `value / 10^scale` as decimal text, trimming trailing zeros.
pub fn fmt_scaled(value: i128, scale: u32) -> (s: String)
    requires
        value >= 0,
        scale <= 38,
    ensures
        s@ == scaled_text(value as nat, scale as nat),
{
    let v = value as u128;
    let mut factor: u128 = 1;
    let mut i: u32 = 0;
    while i < scale
        invariant
            i <= scale <= 38,
            factor == pow10(i as nat),
        decreases scale - i,
    {
        proof {
            lemma_pow10_bound(i as nat);
        }
        factor = factor * 10;
        i = i + 1;
    }
    proof {
        lemma_pow10_positive(scale as nat);
    }
    let whole = v / factor;
    let frac = v % factor;
    let mut out = String::new();
    push_decimal_digits(&mut out, whole);
    if frac == 0 {
        return out;
    }
    proof {
        reveal_strlit(".");
    }
    out.append(".");
    let mut f = frac;
    let mut w = scale;
    while f % 10 == 0
        invariant
            0 < f < pow10(w as nat),
            w <= scale,
            trim_trailing_zeros(padded_digits(f as nat, w as nat)) == trim_trailing_zeros(
                padded_digits(frac as nat, scale as nat),
            ),
        decreases f,
    {
        assert(w > 0);
        let g = f / 10;
        proof {
            assert(g * 10 == f);
            lemma_padded_shift(g as nat, (w - 1) as nat);
            assert(g < pow10((w - 1) as nat));
        }
        f = g;
        w = w - 1;
    }
    proof {
        assert(w > 0);
        let p = padded_digits(f as nat, w as nat);
        assert(p.last() == digit_char((f % 10) as nat));
        assert(trim_trailing_zeros(p) == p);
    }
    push_padded_digits(&mut out, f, w);
    out
}

/// The fractional digits of a non-zero fraction, trimmed, are non-empty
/// and end in a non-zero digit.
proof fn lemma_trimmed_fraction(f: nat, w: nat)
    requires
        0 < f < pow10(w),
    ensures
        trim_trailing_zeros(padded_digits(f, w)).len() > 0,
        trim_trailing_zeros(padded_digits(f, w)).last() != '0',
    decreases f,
{
    assert(w > 0);
    if f % 10 == 0 {
        let g = f / 10;
        assert(g * 10 == f);
        lemma_padded_shift(g, (w - 1) as nat);
        assert(g < pow10((w - 1) as nat));
        lemma_trimmed_fraction(g, (w - 1) as nat);
    } else {
        let p = padded_digits(f, w);
        assert(p.last() == digit_char(f % 10));
        assert(trim_trailing_zeros(p) == p);
    }
}

/// Rendered text never shows a trailing zero after the decimal point: when
/// the value has a fractional part, its text ends in a non-zero digit.
pub proof fn lemma_text_trims_trailing_zeros(value: nat, scale: nat)
    requires
        value % pow10(scale) != 0,
    ensures
        scaled_text(value, scale).len() > 0,
        scaled_text(value, scale).last() != '0',
{
    lemma_pow10_positive(scale);
    let frac = value % pow10(scale);
    lemma_trimmed_fraction(frac, scale);
    let whole = decimal_digits(value / pow10(scale));
    let t = trim_trailing_zeros(padded_digits(frac, scale));
    assert((whole + seq!['.'] + t).last() == t.last());
}

/// Every character of `s` is a decimal digit `0`-`9`.
pub open spec fn all_digits(s: Seq<char>) -> bool {
    forall|i: int| 0 <= i < s.len() ==> '0' <= #[trigger] s[i] <= '9'
}

/// The number a string of decimal digits denotes, most significant first.
pub open spec fn digits_value(s: Seq<char>) -> int
    decreases s.len(),
{
    if s.len() == 0 {
        0
    } else {
        digits_value(s.drop_last()) * 10 + (s.last() as int - '0' as int)
    }
}

proof fn lemma_digit_char(d: nat)
    requires
        d < 10,
    ensures
        '0' <= digit_char(d) <= '9',
        digit_char(d) as int - '0' as int == d,
{
}

proof fn lemma_decimal_digits_value(n: nat)
    ensures
        decimal_digits(n).len() > 0,
        all_digits(decimal_digits(n)),
        digits_value(decimal_digits(n)) == n,
    decreases n,
{
    if n < 10 {
        lemma_digit_char(n);
        let s = decimal_digits(n);
        assert(s.drop_last() =~= Seq::<char>::empty());
        assert(digits_value(s.drop_last()) == 0);
        assert(s.last() == digit_char(n));
    } else {
        lemma_decimal_digits_value(n / 10);
        lemma_digit_char(n % 10);
        let s = decimal_digits(n);
        assert(s.drop_last() =~= decimal_digits(n / 10));
        assert(s.last() == digit_char(n % 10));
        assert((n / 10) * 10 + n % 10 == n);
    }
}

proof fn lemma_padded_digits_value(n: nat, w: nat)
    ensures
        padded_digits(n, w).len() == w,
        all_digits(padded_digits(n, w)),
        digits_value(padded_digits(n, w)) == n % pow10(w),
    decreases w,
{
    if w > 0 {
        let p = pow10((w - 1) as nat);
        lemma_padded_digits_value(n / 10, (w - 1) as nat);
        lemma_digit_char(n % 10);
        lemma_pow10_positive((w - 1) as nat);
        let s = padded_digits(n, w);
        assert(s.drop_last() =~= padded_digits(n / 10, (w - 1) as nat));
        lemma_mod_breakdown(n as int, 10, p as int);
        assert(pow10(w) == 10 * p);
        assert(digits_value(s) == ((n / 10) % p) * 10 + n % 10);
        assert(10 * ((n / 10) % p) == ((n / 10) % p) * 10) by (nonlinear_arith);
    }
}

/// Trimming the zero-padded digits of a non-zero fraction leaves the digits
/// of `g`, padded to `k`, where the fraction is `g * 10^(w - k)`.
proof fn lemma_trimmed_shape(f: nat, w: nat) -> (gk: (nat, nat))
    requires
        0 < f < pow10(w),
    ensures
        0 < gk.1 <= w,
        gk.0 < pow10(gk.1),
        f == gk.0 * pow10((w - gk.1) as nat),
        trim_trailing_zeros(padded_digits(f, w)) == padded_digits(gk.0, gk.1),
    decreases f,
{
    assert(w > 0);
    if f % 10 == 0 {
        let g = f / 10;
        assert(g * 10 == f);
        lemma_padded_shift(g, (w - 1) as nat);
        assert(g < pow10((w - 1) as nat));
        let r = lemma_trimmed_shape(g, (w - 1) as nat);
        let e = ((w - 1) - r.1) as nat;
        assert(pow10((e + 1) as nat) == 10 * pow10(e));
        assert((w - r.1) as nat == (e + 1) as nat);
        assert(r.0 * (10 * pow10(e)) == (r.0 * pow10(e)) * 10) by (nonlinear_arith);
        r
    } else {
        let p = padded_digits(f, w);
        assert(p.last() == digit_char(f % 10));
        assert(trim_trailing_zeros(p) == p);
        assert(pow10(0) == 1);
        assert(f * pow10(0) == f);
        (f, w)
    }
}

/// Rendered text reads back as the value: it is the decimal digits of
/// `value / 10^scale` in full, then, when the fraction is not zero, a `.`
/// and at most `scale` digits which, scaled by the missing places, are
/// exactly `value % 10^scale`.
pub proof fn lemma_text_reads_back(value: nat, scale: nat) -> (parts: (Seq<char>, Seq<char>))
    ensures
        parts.0.len() > 0,
        all_digits(parts.0),
        digits_value(parts.0) == value / pow10(scale),
        all_digits(parts.1),
        parts.1.len() <= scale,
        digits_value(parts.1) * pow10((scale - parts.1.len()) as nat) == value % pow10(scale),
        parts.1.len() == 0 ==> scaled_text(value, scale) == parts.0,
        parts.1.len() > 0 ==> scaled_text(value, scale) == parts.0 + seq!['.'] + parts.1,
{
    lemma_pow10_positive(scale);
    let whole = value / pow10(scale);
    let frac = value % pow10(scale);
    lemma_decimal_digits_value(whole);
    if frac == 0 {
        assert(digits_value(Seq::<char>::empty()) == 0);
        assert(0 * pow10(scale) == 0);
        (decimal_digits(whole), Seq::empty())
    } else {
        let gk = lemma_trimmed_shape(frac, scale);
        lemma_padded_digits_value(gk.0, gk.1);
        lemma_small_mod(gk.0, pow10(gk.1));
        (decimal_digits(whole), padded_digits(gk.0, gk.1))
    }
}

/// `10^n` fits a `u128` for `n <= 37`, with room for one more factor of ten.
proof fn lemma_pow10_bound(n: nat)
    requires
        n < 38,
    ensures
        pow10(n) * 10 <= u128::MAX,
{
    lemma_pow10_monotonic(n, 37);
    reveal_with_fuel(pow10, 11);
    assert(pow10(10) == 10_000_000_000nat);
    assert(pow10(7) == 10_000_000nat);
    lemma_pow10_add(10, 10);
    lemma_pow10_add(20, 10);
    lemma_pow10_add(30, 7);
}

/// `10^(a + b) == 10^a * 10^b`.
pub proof fn lemma_pow10_add(a: nat, b: nat)
    ensures
        pow10(a + b) == pow10(a) * pow10(b),
    decreases a,
{
    if a > 0 {
        lemma_pow10_add((a - 1) as nat, b);
        let x = pow10((a - 1) as nat);
        let y = pow10(b);
        assert(10 * (x * y) == (10 * x) * y) by (nonlinear_arith);
        assert(pow10(a + b) == 10 * pow10(((a - 1) as nat + b) as nat));
        assert(pow10(a) == 10 * x);
        assert(pow10(((a - 1) as nat + b) as nat) == x * y);
        assert(pow10(a + b) == pow10(a) * pow10(b));
    } else {
        assert(pow10(a) == 1);
        assert(pow10(a + b) == pow10(a) * pow10(b));
    }
}

/// `pow10` is monotonic.
proof fn lemma_pow10_monotonic(a: nat, b: nat)
    requires
        a <= b,
    ensures
        pow10(a) <= pow10(b),
    decreases b,
{
    if a < b {
        lemma_pow10_monotonic(a, (b - 1) as nat);
    }
}

} // verus!
