//! Double-precision arithmetic on integers.
//!
//! A number is an integer multiple of a fixed small unit. Every product, quotient, sum and
//! difference is rounded to 53 significant binary digits, halves to the even neighbour, as
//! double-precision arithmetic does. This is exact as long as no intermediate result has
//! digits below the unit.

use crate::number::half_even;
use vstd::arithmetic::div_mod::lemma_fundamental_div_mod_converse;
use vstd::arithmetic::power2::{lemma2_to64, lemma_pow2_pos, lemma_pow2_unfold, pow2};
use vstd::prelude::*;

verus! {

/// 2^64: one, in multiples of 2^-64.
pub const ONE: u128 = 0x1_0000_0000_0000_0000;

/// 2^53: the first integer with more than 53 significant binary digits beside it.
pub const DIGITS: u128 = 0x20_0000_0000_0000;

/// The least power of two, from `p` on, of which `n / d` is less than 2^53 times.
pub open spec fn unit_from(n: nat, d: nat, p: nat) -> nat
    decreases n - p,
{
    if p == 0 || n < 2 * p || n < d * DIGITS * p {
        p
    } else {
        unit_from(n, d, 2 * p)
    }
}

/// `n / d` rounded to 53 significant binary digits, or to an integer.
pub open spec fn nearest(n: nat, d: nat) -> nat {
    let p = unit_from(n, d, 1);
    half_even(n, d * p) * p
}

proof fn lemma_half_even(n: nat, d: nat)
    requires
        d > 0,
    ensures
        half_even(n, d) * d <= n + d,
        half_even(n, d) * d + d > n,
{
    assert(half_even(n, d) * d <= n + d) by (nonlinear_arith)
        requires
            half_even(n, d) <= n / d + 1,
            d > 0,
    ;
    assert(half_even(n, d) * d + d > n) by (nonlinear_arith)
        requires
            half_even(n, d) >= n / d,
            d > 0,
    ;
}

/// Rounds a quotient to 53 significant binary digits. The result is off by less than two
/// units of its last digit, and that unit is one or a small part of the number.
pub fn round(n: u128, d: u128) -> (r: u128)
    requires
        0 < d <= 0x1_0000_0000_0000_0000,
        n <= 0x100_0000_0000_0000_0000_0000_0000_0000,
    ensures
        r == nearest(n as nat, d as nat),
        exists|e: int| #[trigger] is_off(n as int, d as int, r as int, e),
        r <= 2 * n + 2,
{
    let mut p: u128 = 1;
    proof {
        assert(DIGITS <= d * DIGITS <= 0x1_0000_0000_0000_0000 * DIGITS) by (nonlinear_arith)
            requires
                1 <= d <= 0x1_0000_0000_0000_0000,
        ;
    }
    let step: u128 = d * DIGITS;
    while p <= n / step
        invariant
            0 < d <= 0x1_0000_0000_0000_0000,
            step == d * DIGITS,
            DIGITS <= step,
            n <= 0x100_0000_0000_0000_0000_0000_0000_0000,
            0 < p,
            p == 1 || n * 2 >= step * p,
            unit_from(n as nat, d as nat, 1) == unit_from(n as nat, d as nat, p as nat),
        decreases n - p,
    {
        proof {
            assert(step * p <= n) by (nonlinear_arith)
                requires
                    p <= n / step,
                    step > 0,
            ;
            assert(2 * p <= n) by (nonlinear_arith)
                requires
                    step * p <= n,
                    step >= 2,
                    p > 0,
            ;
        }
        p = 2 * p;
        proof {
            assert(step * (2 * ((p / 2) as int)) == 2 * (step * ((p / 2) as int)))
                by (nonlinear_arith);
        }
    }
    proof {
        assert(n < step * p) by (nonlinear_arith)
            requires
                p > n / step,
                step > 0,
        ;
        assert(p == 1 || p <= n) by (nonlinear_arith)
            requires
                p == 1 || n * 2 >= step * p,
                step >= 2,
        ;
        assert(step * p == DIGITS * (d * p)) by (nonlinear_arith)
            requires
                step == d * DIGITS,
        ;
        assert(p == 1 ==> d * p <= 0x1_0000_0000_0000_0000) by (nonlinear_arith)
            requires
                d <= 0x1_0000_0000_0000_0000,
        ;
        assert(0 < d * p) by (nonlinear_arith)
            requires
                0 < d,
                0 < p,
        ;
    }
    let unit: u128 = d * p;
    let q: u128 = n / unit;
    let left: u128 = n % unit;
    let up: u128 = if 2 * left < unit || (2 * left == unit && q % 2 == 0) {
        q
    } else {
        q + 1
    };
    proof {
        lemma_half_even(n as nat, unit as nat);
        assert(up * p <= n + p) by (nonlinear_arith)
            requires
                up * unit <= n + unit,
                unit == d * p,
                d >= 1,
                p > 0,
        ;
        assert((up * p) * d == up * unit) by (nonlinear_arith)
            requires
                unit == d * p,
        ;
        assert(is_off(n as int, d as int, (up * p) as int, unit as int));
    }
    up * p
}

/// `r` times `d` is off from `n` by at most `e`, where `e` is `d` or less than 2^-52 of `n`.
pub open spec fn is_off(n: int, d: int, r: int, e: int) -> bool {
    &&& n - e < r * d <= n + e
    &&& e == d || e * DIGITS <= 2 * n
}

/// The unit that a quotient is rounded to: it is no larger than 53 digits ask for.
pub proof fn law_unit(n: nat, d: nat, p: nat)
    requires
        d > 0,
        p > 0,
    ensures
        unit_from(n, d, p) >= p,
        n < 2 * unit_from(n, d, p) || n < d * 0x20_0000_0000_0000 * unit_from(n, d, p),
        unit_from(n, d, p) > p ==> n >= d * 0x20_0000_0000_0000 * (unit_from(n, d, p) / 2),
    decreases n - p,
{
    if n >= 2 * p && n >= d * DIGITS * p {
        law_unit(n, d, 2 * p);
    }
}

/// A quotient below 53 digits is rounded to a whole number.
pub proof fn law_small(n: nat, d: nat)
    requires
        n < d * 0x20_0000_0000_0000,
    ensures
        nearest(n, d) == half_even(n, d),
{
    assert(unit_from(n, d, 1) == 1);
    assert(half_even(n, d * 1) * 1 == half_even(n, d));
}

/// A quotient of 53 digits or fewer, with zeros behind, is itself.
pub proof fn law_exact(k: nat, j: nat, d: nat)
    requires
        d > 0,
        k < 0x20_0000_0000_0000,
    ensures
        nearest(k * pow2(j) * d, d) == k * pow2(j),
{
    let q = pow2(j);
    let n = k * q * d;
    lemma_pow2_pos(j);
    assert(1 * q == q) by (nonlinear_arith);
    let e = lemma_unit_divides(k, q, d, 1, j);
    let u = unit_from(n, d, 1);
    lemma_pow2_pos(e);
    let m = k * pow2(e);
    assert(n == m * (d * u) && m * u == k * q && d * u > 0) by (nonlinear_arith)
        requires
            n == k * q * d,
            q == u * pow2(e),
            m == k * pow2(e),
            d > 0,
            u > 0,
    ;
    lemma_fundamental_div_mod_converse(n as int, (d * u) as int, m as int, 0);
}

proof fn lemma_unit_divides(k: nat, q: nat, d: nat, p: nat, i: nat) -> (e: nat)
    requires
        d > 0,
        p > 0,
        k < DIGITS,
        q == p * pow2(i),
    ensures
        unit_from(k * q * d, d, p) > 0,
        q == unit_from(k * q * d, d, p) * pow2(e),
    decreases i,
{
    let n = k * q * d;
    if n < 2 * p || n < d * DIGITS * p {
        i
    } else {
        if i == 0 {
            lemma2_to64();
            assert(q == p) by (nonlinear_arith)
                requires
                    q == p * pow2(i),
                    pow2(i) == 1,
            ;
            assert(k * q * d < d * DIGITS * p) by (nonlinear_arith)
                requires
                    q == p,
                    k < DIGITS,
                    p > 0,
                    d > 0,
            ;
        }
        lemma_pow2_unfold(i);
        let h = pow2((i - 1) as nat);
        assert(q == (2 * p) * h) by (nonlinear_arith)
            requires
                q == p * pow2(i),
                pow2(i) == 2 * h,
        ;
        lemma_unit_divides(k, q, d, 2 * p, (i - 1) as nat)
    }
}

} // verus!
