//! Exact integer model of the IEEE-754 binary64 steps that token counts go
//! through when they are printed as `{:.1}k` / `{:.2}M`: conversion of an
//! integer to the nearest double, correctly rounded division by a power of
//! ten, and fixed-point decimal rounding of the exact double value. Every
//! rounding is to nearest with ties to even, as binary64 arithmetic and
//! `core::fmt` do.

use vstd::arithmetic::div_mod::{lemma_fundamental_div_mod, lemma_mod_pos_bound};
use vstd::arithmetic::power2::*;
use vstd::prelude::*;

verus! {

/// `a / b` rounded to the nearest integer, ties to the even neighbour.
pub open spec fn round_half_even(a: nat, b: nat) -> nat {
    let q = a / b;
    let r = a % b;
    if 2 * r < b {
        q
    } else if 2 * r > b {
        q + 1
    } else if q % 2 == 0 {
        q
    } else {
        q + 1
    }
}

/// The smallest `s >= from` (at most 52) with `a * 2^s >= 2^52 * b`.
pub open spec fn binade_shift_from(a: nat, b: nat, from: nat) -> nat
    decreases 52 - from,
{
    if from >= 52 || a * pow2(from) >= pow2(52) * b {
        from
    } else {
        binade_shift_from(a, b, from + 1)
    }
}

/// For `1 <= a / b < 2^53`: the shift `s` that puts `a / b * 2^s` in
/// `[2^52, 2^53)`, i.e. the binade of the quotient (`52 - exponent`).
pub open spec fn binade_shift(a: nat, b: nat) -> nat {
    binade_shift_from(a, b, 0)
}

/// The smallest `t >= from` (at most 11) with `n < 2^(53 + t)`.
pub open spec fn int_shift_from(n: nat, from: nat) -> nat
    decreases 11 - from,
{
    if from >= 11 || n < pow2(53 + from) {
        from
    } else {
        int_shift_from(n, from + 1)
    }
}

/// The value of `n as f64` for a 64-bit `n`: exact below `2^53`, else the
/// 53-bit significand rounded to nearest, ties to even.
pub open spec fn u64_as_f64(n: nat) -> nat {
    let t = int_shift_from(n, 0);
    round_half_even(n, pow2(t)) * pow2(t)
}

/// The significand of `a / b` correctly rounded to binary64, for
/// `1 <= a / b < 2^53`: the double's value is
/// `quotient_significand(a, b) / 2^binade_shift(a, b)`.
pub open spec fn quotient_significand(a: nat, b: nat) -> nat {
    round_half_even(a * pow2(binade_shift(a, b)), b)
}

/// `round(v * 10^p)` for the double `v = m / 2^s`, ties to even: the digits
/// that `{:.p}` prints.
pub open spec fn fixed_digits(m: nat, s: nat, scale: nat) -> nat {
    round_half_even(m * scale, pow2(s))
}

/// `round_half_even` in executable form.
pub fn round_half_even_exec(a: u128, b: u128) -> (r: u128)
    requires
        b > 0,
        a / b < u128::MAX,
    ensures
        r == round_half_even(a as nat, b as nat),
        r <= a,
        r <= a / b + 1,
{
    let q = a / b;
    let r = a % b;
    proof {
        lemma_fundamental_div_mod(a as int, b as int);
        lemma_mod_pos_bound(a as int, b as int);
        assert(q * b + r == a && r < b);
        assert(2 * r >= b ==> q + 1 <= a) by (nonlinear_arith)
            requires
                q * b + r == a,
                b >= 1,
                q >= 0,
        ;
        assert(q <= a) by (nonlinear_arith)
            requires
                q * b + r == a,
                b >= 1,
                q >= 0,
                r >= 0,
        ;
    }
    if r < b - r {
        q
    } else if r > b - r {
        q + 1
    } else if q % 2 == 0 {
        q
    } else {
        q + 1
    }
}

proof fn lemma_pow2_double(s: nat)
    ensures
        pow2(s + 1) == 2 * pow2(s),
{
    lemma_pow2_unfold(s + 1);
}

/// Computes `(binade_shift(a, b), a * 2^shift, 2^shift)`.
pub fn binade_shift_exec(a: u128, b: u128) -> (r: (u128, u128, u128))
    requires
        1 <= b <= 1_000_000,
        b <= a < 0x20_0000_0000_0000 * b,
    ensures
        r.0 == binade_shift(a as nat, b as nat),
        r.2 == pow2(r.0 as nat),
        r.1 == a * pow2(r.0 as nat),
        r.1 < pow2(53) * b,
        r.0 <= 52,
{
    proof {
        lemma2_to64();
        lemma2_to64_rest();
    }
    let target: u128 = 0x10_0000_0000_0000u128 * b;
    let mut s: u128 = 0;
    let mut scaled: u128 = a;
    let mut p: u128 = 1;
    assert(a * pow2(0) == a) by {
        lemma2_to64();
    }
    while s < 52 && scaled < target
        invariant
            s <= 52,
            target == pow2(52) * b,
            p == pow2(s as nat),
            scaled == a * pow2(s as nat),
            scaled < pow2(53) * b,
            binade_shift_from(a as nat, b as nat, 0) == binade_shift_from(a as nat, b as nat, s as nat),
            pow2(52) == 0x10_0000_0000_0000,
            pow2(53) == 0x20_0000_0000_0000,
            b <= 1_000_000,
        decreases 52 - s,
    {
        proof {
            lemma_pow2_double(s as nat);
            if s + 1 < 53 {
                lemma_pow2_strictly_increases((s + 1) as nat, 53);
            }
            assert(a * pow2((s + 1) as nat) == 2 * (a * pow2(s as nat))) by (nonlinear_arith)
                requires
                    pow2((s + 1) as nat) == 2 * pow2(s as nat),
            ;
            assert(pow2(53) * b == 2 * (pow2(52) * b)) by (nonlinear_arith)
                requires
                    pow2(53) == 2 * pow2(52),
            ;
        }
        scaled = scaled * 2;
        p = p * 2;
        s = s + 1;
    }
    (s, scaled, p)
}

/// Computes `(int_shift_from(n, 0), 2^shift)` for a 64-bit `n`.
pub fn int_shift_exec(n: u64) -> (r: (u128, u128))
    ensures
        r.0 == int_shift_from(n as nat, 0),
        r.1 == pow2(r.0 as nat),
        r.0 <= 11,
        n < pow2((53 + r.0) as nat),
        r.0 > 0 ==> n >= pow2((52 + r.0) as nat),
{
    proof {
        lemma2_to64();
        lemma2_to64_rest();
    }
    let mut t: u128 = 0;
    let mut p: u128 = 1;
    let mut bound: u128 = 0x20_0000_0000_0000;
    while t < 11 && (n as u128) >= bound
        invariant
            t <= 11,
            p == pow2(t as nat),
            bound == pow2((53 + t) as nat),
            t > 0 ==> n >= pow2((52 + t) as nat),
            int_shift_from(n as nat, 0) == int_shift_from(n as nat, t as nat),
            pow2(64) == 0x1_0000_0000_0000_0000,
            pow2(11) == 2048,
        decreases 11 - t,
    {
        proof {
            lemma_pow2_double(t as nat);
            lemma_pow2_double((53 + t) as nat);
            if t + 1 < 11 {
                lemma_pow2_strictly_increases((53 + t + 1) as nat, 64);
                lemma_pow2_strictly_increases(t as nat + 1, 11);
            }
        }
        p = p * 2;
        bound = bound * 2;
        t = t + 1;
    }
    (t, p)
}

/// The exact value of `n as f64`.
pub fn u64_as_f64_exec(n: u64) -> (x: u128)
    ensures
        x == u64_as_f64(n as nat),
        x <= 0x1_0000_0000_0000_0000,
        n < 0x20_0000_0000_0000 ==> x == n,
        n >= 0x20_0000_0000_0000 ==> x >= 0x20_0000_0000_0000,
{
    let (t, p) = int_shift_exec(n);
    proof {
        lemma2_to64();
        lemma2_to64_rest();
        lemma_pow2_pos(t as nat);
        lemma_pow2_adds(53, t as nat);
        lemma_pow2_adds(52, t as nat);
        if t < 11 {
            lemma_pow2_strictly_increases((53 + t) as nat, 64);
        }
        let q = n as nat / p as nat;
        assert(q < pow2(53)) by (nonlinear_arith)
            requires
                n < pow2(53) * p,
                p > 0,
                q == n as nat / p as nat,
        ;
        if t > 0 {
            assert(q >= pow2(52)) by (nonlinear_arith)
                requires
                    n >= pow2(52) * p,
                    p > 0,
                    q == n as nat / p as nat,
            ;
        }
    }
    let m = round_half_even_exec(n as u128, p);
    proof {
        if n < 0x20_0000_0000_0000 {
            assert(int_shift_from(n as nat, 0) == 0);
            assert(p == 1);
            assert(n as nat / 1 == n as nat && n as nat % 1 == 0);
            assert(m == n);
            assert(m * p == n) by (nonlinear_arith)
                requires
                    m == n,
                    p == 1,
            ;
        }
    }
    proof {
        let q = n as nat / p as nat;
        assert(m <= q + 1);
        assert(m * p <= pow2(53) * p) by (nonlinear_arith)
            requires
                m <= q + 1,
                q < pow2(53),
        ;
        if t > 0 {
            assert(m * p >= pow2(52) * 2) by (nonlinear_arith)
                requires
                    m >= q,
                    q >= pow2(52),
                    p >= 2,
            ;
            assert(p >= 2) by {
                lemma_pow2_strictly_increases(0, t as nat);
            }
        }
    }
    m * p
}

} // verus!
