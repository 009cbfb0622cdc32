//! Human-readable token counts and durations for the usage report.

use crate::binary64::{
    binade_shift, binade_shift_exec, fixed_digits, quotient_significand, round_half_even_exec,
    u64_as_f64, u64_as_f64_exec,
};
use crate::text::{decimal, push_char, push_decimal, push_zero_padded, zero_padded};
use vstd::arithmetic::power2::*;
use vstd::prelude::*;

verus! {

/// `digits / scale` printed with `places` decimals: the integer part, a dot,
/// and the remainder zero-padded to `places` characters.
pub open spec fn fixed_text(digits: nat, scale: nat, places: nat) -> Seq<char> {
    decimal(digits / scale) + seq!['.'] + zero_padded(digits % scale, places)
}

/// What `format!("{:.1}k", n as f64 / 1000.0)` prints, for `1000 <= n < 10^6`.
pub open spec fn thousands_text(n: nat) -> Seq<char> {
    let s = binade_shift(n, 1000);
    let m = quotient_significand(n, 1000);
    fixed_text(fixed_digits(m, s, 10), 10, 1) + seq!['k']
}

/// What `format!("{:.2}M", n as f64 / 1_000_000.0)` prints, for `n >= 10^6`.
pub open spec fn millions_text(n: nat) -> Seq<char> {
    let x = u64_as_f64(n);
    let s = binade_shift(x, 1_000_000);
    let m = quotient_significand(x, 1_000_000);
    fixed_text(fixed_digits(m, s, 100), 100, 2) + seq!['M']
}

/// A token count as the usage table shows it: millions with two decimals,
/// thousands with one, smaller counts exactly.
pub open spec fn tokens_text(n: nat) -> Seq<char> {
    if n >= 1_000_000 {
        millions_text(n)
    } else if n >= 1000 {
        thousands_text(n)
    } else {
        decimal(n)
    }
}

/// A duration in milliseconds as whole hours and minutes, minutes and
/// seconds, or seconds (`1h2m`, `3m4s`, `5s`).
pub open spec fn duration_text(ms: nat) -> Seq<char> {
    let s = ms / 1000;
    if s >= 3600 {
        decimal(s / 3600) + seq!['h'] + decimal((s % 3600) / 60) + seq!['m']
    } else if s >= 60 {
        decimal(s / 60) + seq!['m'] + decimal(s % 60) + seq!['s']
    } else {
        decimal(s) + seq!['s']
    }
}

/// Appends `digits / scale` with `places` decimals.
fn push_fixed(out: &mut String, digits: u128, scale: u128, places: usize)
    requires
        scale > 0,
    ensures
        final(out)@ == old(out)@ + fixed_text(digits as nat, scale as nat, places as nat),
{
    push_decimal(out, digits / scale);
    push_char(out, '.');
    push_zero_padded(out, digits % scale, places);
    proof {
        assert(final(out)@ =~= old(out)@ + fixed_text(digits as nat, scale as nat, places as nat));
    }
}

/// Formats a token count: `732`, `15.7k`, `1.56M`.
pub fn fmt_tokens(n: u64) -> (r: String)
    ensures
        r@ == tokens_text(n as nat),
{
    proof {
        lemma2_to64();
        lemma2_to64_rest();
    }
    let mut out = String::new();
    if n >= 1_000_000 {
        let x = u64_as_f64_exec(n);
        let (s, scaled, p) = binade_shift_exec(x, 1_000_000);
        let m = round_half_even_exec(scaled, 1_000_000);
        proof {
            lemma_pow2_pos(s as nat);
        }
        let digits = round_half_even_exec(m * 100, p);
        push_fixed(&mut out, digits, 100, 2);
        push_char(&mut out, 'M');
    } else if n >= 1000 {
        let (s, scaled, p) = binade_shift_exec(n as u128, 1000);
        let m = round_half_even_exec(scaled, 1000);
        proof {
            lemma_pow2_pos(s as nat);
        }
        let digits = round_half_even_exec(m * 10, p);
        push_fixed(&mut out, digits, 10, 1);
        push_char(&mut out, 'k');
    } else {
        push_decimal(&mut out, n as u128);
    }
    proof {
        assert(out@ =~= tokens_text(n as nat));
    }
    out
}

/// Formats a duration given in milliseconds: `1h2m`, `3m4s`, `5s`.
pub fn fmt_duration(ms: u64) -> (r: String)
    ensures
        r@ == duration_text(ms as nat),
{
    let s = ms / 1000;
    let mut out = String::new();
    if s >= 3600 {
        push_decimal(&mut out, (s / 3600) as u128);
        push_char(&mut out, 'h');
        push_decimal(&mut out, ((s % 3600) / 60) as u128);
        push_char(&mut out, 'm');
    } else if s >= 60 {
        push_decimal(&mut out, (s / 60) as u128);
        push_char(&mut out, 'm');
        push_decimal(&mut out, (s % 60) as u128);
        push_char(&mut out, 's');
    } else {
        push_decimal(&mut out, s as u128);
        push_char(&mut out, 's');
    }
    proof {
        assert(out@ =~= duration_text(ms as nat));
    }
    out
}


/// A printed duration reads back to the time it stands for, in its own
/// unit: from an hour on it shows whole hours `h` and minutes `m` (under
/// 60) that add up to the whole minutes elapsed; from a minute on, whole
/// minutes `m` (under 60) and seconds `s` (under 60) that add up to the whole
/// seconds elapsed; below a minute, the whole seconds.
pub proof fn lemma_duration_reads_back(ms: nat)
    ensures
        ms / 1000 >= 3600 ==> exists|h: nat, m: nat|
            m < 60 && #[trigger] duration_text(ms) == decimal(h) + seq!['h'] + decimal(m) + seq!['m'] && h * 3600
                + m * 60 <= ms / 1000 < h * 3600 + m * 60 + 60,
        60 <= ms / 1000 < 3600 ==> exists|m: nat, s: nat|
            s < 60 && #[trigger] duration_text(ms) == decimal(m) + seq!['m'] + decimal(s) + seq!['s'] && m * 60 + s
                == ms / 1000,
        ms / 1000 < 60 ==> duration_text(ms) == decimal(ms / 1000) + seq!['s'],
{
    let t = ms / 1000;
    if t >= 3600 {
        let h = t / 3600;
        let m = (t % 3600) / 60;
        assert(h * 3600 + m * 60 <= t < h * 3600 + m * 60 + 60) by (nonlinear_arith)
            requires
                h == t / 3600,
                m == (t % 3600) / 60,
        ;
        assert(m < 60) by (nonlinear_arith)
            requires
                m == (t % 3600) / 60,
        ;
        assert(duration_text(ms) == decimal(h) + seq!['h'] + decimal(m) + seq!['m']);
    } else if t >= 60 {
        let m = t / 60;
        let s = t % 60;
        assert(m * 60 + s == t) by (nonlinear_arith)
            requires
                m == t / 60,
                s == t % 60,
        ;
        assert(duration_text(ms) == decimal(m) + seq!['m'] + decimal(s) + seq!['s']);
    }
}

} // verus!
