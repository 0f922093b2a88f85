//! Figures written for the operator: volumes with a magnitude suffix, ages in
//! hours or minutes, and the status line.

use vstd::arithmetic::power2::{
    lemma2_to64, lemma2_to64_rest, lemma_pow2_adds, lemma_pow2_pos, lemma_pow2_strictly_increases, lemma_pow2_unfold, pow2,
};
use vstd::prelude::*;

verus! {

/// The character of a decimal digit.
pub open spec fn digit_char(d: int) -> char {
    seq!['0', '1', '2', '3', '4', '5', '6', '7', '8', '9'][d]
}

/// `n` in decimal, without leading zeros.
pub open spec fn decimal(n: nat) -> Seq<char>
    decreases n,
{
    if n < 10 {
        seq![digit_char(n as int)]
    } else {
        decimal(n / 10).push(digit_char((n % 10) as int))
    }
}

/// `n` in decimal, with a leading `-` when it is negative.
pub open spec fn signed_decimal(n: int) -> Seq<char> {
    if n < 0 {
        seq!['-'] + decimal((-n) as nat)
    } else {
        decimal(n as nat)
    }
}

/// `n / d` rounded to the nearest integer, a tie going to the even one.
pub open spec fn round_half_even(n: nat, d: nat) -> nat
    recommends
        d > 0,
{
    let q = n / d;
    let r = n % d;
    if 2 * r > d || (2 * r == d && q % 2 == 1) {
        q + 1
    } else {
        q
    }
}

/// The number of low bits that `n` (below `2^64`) has beyond 53 significant
/// ones, counting from `s`.
pub open spec fn excess_bits(n: nat, s: nat) -> nat
    decreases 11 - s,
{
    if s >= 11 || n < pow2(53 + s) {
        s
    } else {
        excess_bits(n, s + 1)
    }
}

/// The double nearest to the integer `n` (below `2^64`): `n` rounded to 53
/// significant bits, a tie going to the even one.
pub open spec fn nearest_double_int(n: nat) -> nat {
    let s = excess_bits(n, 0);
    round_half_even(n, pow2(s)) * pow2(s)
}

/// The largest `s`, from `s` down, with `a * 2^s < 2^53 * unit`: where
/// `a / unit` lies in `[1, 2^53)`, the scale at which `a / unit` has 53 bits
/// before the binary point.
pub open spec fn quotient_exp(a: nat, unit: nat, s: nat) -> nat
    decreases s,
{
    if s == 0 || a * pow2(s) < pow2(53) * unit {
        s
    } else {
        quotient_exp(a, unit, (s - 1) as nat)
    }
}

/// `value / unit` in hundredths as `format!("{:.2}", value as f64 / unit as f64)`
/// writes it: `value` is rounded to the nearest double, the quotient to the
/// nearest double `m / 2^s`, and that double's exact value to hundredths, each
/// tie going to the even side.
pub open spec fn float_hundredths(value: nat, unit: nat) -> nat {
    let a = nearest_double_int(value);
    let s = quotient_exp(a, unit, 52);
    let m = round_half_even(a * pow2(s), unit);
    round_half_even(m * 100, pow2(s))
}

/// `value / unit` with two decimals (see `float_hundredths`), then `suffix`.
pub open spec fn scaled(value: nat, unit: nat, suffix: char) -> Seq<char>
    recommends
        unit > 0,
{
    let hundredths = float_hundredths(value, unit);
    decimal(hundredths / 100) + seq![
        '.',
        digit_char(((hundredths % 100) / 10) as int),
        digit_char((hundredths % 10) as int),
        suffix,
    ]
}

/// A count as the leaderboard shows it: above a billion in billions (`B`),
/// above a million in millions (`M`), above a thousand in thousands (`K`),
/// each with two decimals as a double is written; otherwise as it is.
pub open spec fn human_count(n: nat) -> Seq<char> {
    if n > 1000000000 {
        scaled(n, 1000000000, 'B')
    } else if n > 1000000 {
        scaled(n, 1000000, 'M')
    } else if n > 1000 {
        scaled(n, 1000, 'K')
    } else {
        decimal(n)
    }
}

/// `a / b` with the remainder dropped, rounding toward zero.
pub open spec fn quotient_toward_zero(a: int, b: int) -> int {
    if a >= 0 {
        a / b
    } else {
        -((-a) / b)
    }
}

/// An age as the leaderboard shows it: whole hours with `h` from one hour on,
/// whole minutes with `m` below that.
pub open spec fn human_duration(seconds: int) -> Seq<char> {
    let hours = quotient_toward_zero(seconds, 3600);
    if hours >= 1 {
        signed_decimal(hours) + seq!['h']
    } else {
        signed_decimal(quotient_toward_zero(seconds, 60)) + seq!['m']
    }
}

/// Progress through the symbols, in tenths of a percent, rounded half up.
pub open spec fn progress_tenths(position: nat, len: nat) -> nat
    recommends
        len > 0,
{
    ((position * 2000 + len) / (2 * len)) as nat
}

/// A percentage given in tenths, written with one decimal place unless that
/// is zero.
pub open spec fn tenths_text(tenths: nat) -> Seq<char> {
    if tenths % 10 == 0 {
        decimal(tenths / 10)
    } else {
        decimal(tenths / 10) + seq!['.', digit_char((tenths % 10) as int)]
    }
}

/// The status line: the analysed day, the progress through the symbols, and
/// the number of full passes made.
pub open spec fn scan_title_text(date: Seq<char>, position: nat, len: nat, passes: nat) -> Seq<char> {
    "RVAT Scanner "@ + date + seq![' '] + tenths_text(progress_tenths(position, len)) + "% ("@
        + decimal(passes) + seq![')']
}

fn digit_str(d: u128) -> (r: &'static str)
    requires
        d < 10,
    ensures
        r@ == seq![digit_char(d as int)],
{
    proof {
        reveal_strlit("0");
        reveal_strlit("1");
        reveal_strlit("2");
        reveal_strlit("3");
        reveal_strlit("4");
        reveal_strlit("5");
        reveal_strlit("6");
        reveal_strlit("7");
        reveal_strlit("8");
        reveal_strlit("9");
    }
    if d == 0 {
        "0"
    } else if d == 1 {
        "1"
    } else if d == 2 {
        "2"
    } else if d == 3 {
        "3"
    } else if d == 4 {
        "4"
    } else if d == 5 {
        "5"
    } else if d == 6 {
        "6"
    } else if d == 7 {
        "7"
    } else if d == 8 {
        "8"
    } else {
        "9"
    }
}

/// Appends `n` in decimal to `out`.
fn push_decimal(out: &mut String, n: u128)
    ensures
        final(out)@ == old(out)@ + decimal(n as nat),
    decreases n,
{
    if n < 10 {
        out.append(digit_str(n));
    } else {
        push_decimal(out, n / 10);
        out.append(digit_str(n % 10));
    }
}

/// `n` in decimal.
pub fn decimal_string(n: u64) -> (r: String)
    ensures
        r@ == decimal(n as nat),
{
    let mut r = String::new();
    push_decimal(&mut r, n as u128);
    proof {
        assert(r@ =~= decimal(n as nat));
    }
    r
}

fn pow2_of(e: u32) -> (r: u128)
    requires
        e <= 120,
    ensures
        r == pow2(e as nat),
{
    proof {
        lemma2_to64();
        lemma_pow2_values();
    }
    let mut r: u128 = 1;
    let mut i: u32 = 0;
    while i < e
        invariant
            i <= e <= 120,
            pow2(120) == 0x1000000000000000000000000000000,
            r == pow2(i as nat),
            r <= pow2(120),
        decreases e - i,
    {
        proof {
            lemma_pow2_grows(i as nat + 1, 120);
            lemma_pow2_unfold(i as nat + 1);
        }
        r = r * 2;
        i += 1;
    }
    r
}

proof fn lemma_pow2_grows(a: nat, b: nat)
    requires
        a <= b,
    ensures
        1 <= pow2(a) <= pow2(b),
{
    lemma_pow2_pos(a);
    if a < b {
        lemma_pow2_strictly_increases(a, b);
    }
}

/// The powers of two that the formatting works with.
proof fn lemma_pow2_values()
    ensures
        pow2(11) == 2048,
        pow2(52) == 0x10000000000000,
        pow2(53) == 0x20000000000000,
        pow2(64) == 0x10000000000000000,
        pow2(120) == 0x1000000000000000000000000000000,
{
    lemma2_to64();
    lemma2_to64_rest();
    lemma_pow2_adds(64, 56);
}

proof fn lemma_round_half_even_bound(n: nat, d: nat)
    requires
        d > 0,
    ensures
        round_half_even(n, d) <= n + 1,
        round_half_even(n, d) * d <= n + d,
{
    vstd::arithmetic::div_mod::lemma_fundamental_div_mod(n as int, d as int);
    vstd::arithmetic::div_mod::lemma_div_is_ordered_by_denominator(n as int, 1, d as int);
    let q = n / d;
    assert(q * d <= n) by (nonlinear_arith)
        requires
            n == d * q + n % d,
            n % d >= 0,
    ;
    assert((q + 1) * d == q * d + d) by (nonlinear_arith);
}

fn round_half_even_of(n: u128, d: u128) -> (r: u128)
    requires
        0 < d <= pow2(120),
        n < u128::MAX,
    ensures
        r == round_half_even(n as nat, d as nat),
{
    proof {
        lemma_pow2_values();
    }
    let q = n / d;
    let r = n % d;
    if 2 * r > d || (2 * r == d && q % 2 == 1) {
        q + 1
    } else {
        q
    }
}

/// The double nearest to `n` (see `nearest_double_int`).
fn nearest_double(n: u64) -> (r: u128)
    ensures
        r == nearest_double_int(n as nat),
        r <= 2 * (n as nat) + 1,
{
    let mut s: u32 = 0;
    let mut p: u128 = pow2_of(53);
    while s < 11 && n as u128 >= p
        invariant
            s <= 11,
            p == pow2(53 + s as nat),
            s > 0 ==> n >= pow2((53 + s - 1) as nat),
            excess_bits(n as nat, s as nat) == excess_bits(n as nat, 0),
        decreases 11 - s,
    {
        proof {
            lemma_pow2_unfold(53 + s as nat + 1);
            lemma_pow2_grows(53 + s as nat + 1, 64);
            lemma_pow2_values();
        }
        s += 1;
        p = p * 2;
    }
    let d = pow2_of(s);
    proof {
        lemma2_to64();
        lemma_pow2_grows(s as nat, 11);
        lemma_pow2_values();
        lemma_pow2_grows(11, 120);
        lemma_round_half_even_bound(n as nat, d as nat);
        if s > 0 {
            lemma_pow2_grows(s as nat, (53 + s - 1) as nat);
        }
    }
    round_half_even_of(n as u128, d) * d
}

/// Hundredths of `value / unit` as a double is written (see `float_hundredths`).
fn hundredths_of(value: u64, unit: u64) -> (r: u128)
    requires
        0 < unit <= 1000000000,
    ensures
        r == float_hundredths(value as nat, unit as nat),
{
    let a = nearest_double(value);
    proof {
        lemma_pow2_values();
        assert(a * pow2(52) <= (2 * (u64::MAX as int) + 1) * 0x10000000000000) by (nonlinear_arith)
            requires
                a <= 2 * (value as nat) + 1,
                value <= u64::MAX,
                pow2(52) == 0x10000000000000,
        ;
    }
    let mut s: u32 = 52;
    let mut p: u128 = pow2_of(52);
    let limit: u128 = pow2_of(53) * unit as u128;
    while s > 0 && a * p >= limit
        invariant
            s <= 52,
            p == pow2(s as nat),
            p <= pow2(52),
            pow2(52) == 0x10000000000000,
            a <= 2 * (value as nat) + 1,
            a * p <= (2 * (u64::MAX as int) + 1) * 0x10000000000000,
            limit == pow2(53) * unit,
            quotient_exp(a as nat, unit as nat, s as nat) == quotient_exp(a as nat, unit as nat, 52),
        decreases s,
    {
        proof {
            lemma_pow2_unfold(s as nat);
            lemma_pow2_grows((s - 1) as nat, 52);
            assert(a * (p / 2) <= a * p) by (nonlinear_arith)
                requires
                    p >= 1,
            ;
        }
        s -= 1;
        p = p / 2;
    }
    proof {
        assert(a * p <= (2 * (u64::MAX as int) + 1) * 0x10000000000000) by (nonlinear_arith)
            requires
                a <= 2 * (value as nat) + 1,
                value <= u64::MAX,
                p <= 0x10000000000000,
        ;
        lemma_pow2_values();
        lemma_round_half_even_bound((a * p) as nat, unit as nat);
    }
    let m = round_half_even_of(a * p, unit as u128);
    proof {
        lemma_pow2_grows(s as nat, 120);
        lemma_round_half_even_bound((m * 100) as nat, p as nat);
    }
    round_half_even_of(m * 100, p)
}

/// Appends `value / unit` with two decimals and `suffix` to `out` (see `scaled`).
fn push_scaled(out: &mut String, value: u64, unit: u64, suffix: &str)
    requires
        0 < unit <= 1000000000,
        suffix@.len() == 1,
    ensures
        final(out)@ == old(out)@ + scaled(value as nat, unit as nat, suffix@[0]),
{
    let hundredths = hundredths_of(value, unit);
    let whole = hundredths / 100;
    let cents = hundredths % 100;
    push_decimal(out, whole);
    proof {
        reveal_strlit(".");
    }
    out.append(".");
    out.append(digit_str(cents / 10));
    out.append(digit_str(cents % 10));
    out.append(suffix);
    proof {
        assert(suffix@ =~= seq![suffix@[0]]);
    }
}

/// A count as the leaderboard shows it: see `human_count`.
pub fn count_to_human_readable(arg: u64) -> (r: String)
    ensures
        r@ == human_count(arg as nat),
{
    let mut r = String::new();
    proof {
        reveal_strlit("B");
        reveal_strlit("M");
        reveal_strlit("K");
    }
    if arg > 1000000000 {
        push_scaled(&mut r, arg, 1000000000, "B");
    } else if arg > 1000000 {
        push_scaled(&mut r, arg, 1000000, "M");
    } else if arg > 1000 {
        push_scaled(&mut r, arg, 1000, "K");
    } else {
        push_decimal(&mut r, arg as u128);
    }
    proof {
        assert(r@ =~= human_count(arg as nat));
    }
    r
}

/// Appends `n` in decimal, with a leading `-` when it is negative.
fn push_signed_decimal(out: &mut String, n: i64)
    ensures
        final(out)@ == old(out)@ + signed_decimal(n as int),
{
    if n < 0 {
        proof {
            reveal_strlit("-");
        }
        out.append("-");
        let magnitude: u128 = (-(n as i128)) as u128;
        push_decimal(out, magnitude);
        proof {
            assert(final(out)@ =~= old(out)@ + signed_decimal(n as int)) by {
                assert(seq!['-'] + decimal(magnitude as nat) =~= signed_decimal(n as int));
            }
        }
    } else {
        push_decimal(out, n as u128);
    }
}

/// An age, given in whole seconds, as the leaderboard shows it: see
/// `human_duration`.
pub fn duration_to_human_readable(seconds: i64) -> (r: String)
    ensures
        r@ == human_duration(seconds as int),
{
    let hours: i64 = if seconds >= 0 {
        seconds / 3600
    } else {
        -(((-(seconds as i128)) / 3600) as i64)
    };
    let mut r = String::new();
    if hours >= 1 {
        push_signed_decimal(&mut r, hours);
        proof {
            reveal_strlit("h");
        }
        r.append("h");
    } else {
        let minutes: i64 = if seconds >= 0 {
            seconds / 60
        } else {
            -(((-(seconds as i128)) / 60) as i64)
        };
        push_signed_decimal(&mut r, minutes);
        proof {
            reveal_strlit("m");
        }
        r.append("m");
    }
    proof {
        assert(r@ =~= human_duration(seconds as int));
    }
    r
}

/// The status line: see `scan_title_text`.
pub fn scan_title(date: &str, position: usize, len: usize, passes: u64) -> (r: String)
    requires
        len > 0,
    ensures
        r@ == scan_title_text(date@, position as nat, len as nat, passes as nat),
{
    let tenths_wide: u128 = (position as u128 * 2000 + len as u128) / (2 * len as u128);
    proof {
        vstd::arithmetic::div_mod::lemma_div_is_ordered_by_denominator(
            position * 2000 + len,
            1,
            2 * len,
        );
    }
    let tenths = tenths_wide;
    let mut r = String::from_str("RVAT Scanner ");
    proof {
        reveal_strlit("RVAT Scanner ");
        reveal_strlit(" ");
        reveal_strlit(".");
        reveal_strlit("% (");
        reveal_strlit(")");
    }
    r.append(date);
    r.append(" ");
    push_decimal(&mut r, tenths / 10);
    if tenths % 10 != 0 {
        r.append(".");
        r.append(digit_str(tenths % 10));
    }
    r.append("% (");
    push_decimal(&mut r, passes as u128);
    r.append(")");
    proof {
        assert(r@ =~= scan_title_text(date@, position as nat, len as nat, passes as nat));
    }
    r
}

} // verus!
