//! Numbers that are computed in floating point elsewhere, and rounding.
//!
//! Logic that only compares such numbers works on integers that order as they
//! do. Two images are used.
//!
//! - The *bits* of a non-negative number: its IEEE-754 double-precision bit
//!   pattern, as a `u64`.
//! - The *key* of any number: for a non-negative one its bit pattern, for a
//!   negative one the negated bit pattern of its magnitude, as an `i64`.
//!
//! Both are strictly monotonic, so `a < b` holds of two numbers exactly if it
//! holds of their images.

use vstd::prelude::*;

verus! {

/// `n / d` rounded to the nearest integer, halves to the even one.
pub open spec fn half_even(n: nat, d: nat) -> nat {
    let q = n / d;
    let r = n % d;
    if 2 * r < d || (2 * r == d && q % 2 == 0) {
        q
    } else {
        q + 1
    }
}

/// Rounds a quotient to the nearest integer, halves to the even one.
pub fn round_half_even(n: u64, d: u64) -> (r: u64)
    requires
        0 < d <= 0x1_0000_0000,
    ensures
        r == half_even(n as nat, d as nat),
{
    let q: u64 = n / d;
    let rest: u64 = n % d;
    if 2 * rest < d || (2 * rest == d && q % 2 == 0) {
        q
    } else {
        proof {
            assert(rest > 0);
            assert(q < u64::MAX) by (nonlinear_arith)
                requires
                    q == n / d,
                    rest == n % d,
                    rest > 0,
                    d > 0,
            ;
        }
        q + 1
    }
}

/// A part of a total above the fraction `num / den`.
pub open spec fn share_above(part: int, total: int, num: int, den: int) -> bool {
    part * den > num * total
}

/// A part of a total below the fraction `num / den`.
pub open spec fn share_below(part: int, total: int, num: int, den: int) -> bool {
    part * den < num * total
}

/// Tells whether a part of a total is above the fraction `num / den`.
pub fn is_share_above(part: u64, total: u64, num: u32, den: u32) -> (r: bool)
    ensures
        r == share_above(part as int, total as int, num as int, den as int),
{
    proof {
        lemma_product(part, den);
        lemma_product(total, num);
        assert(num * total == total * num) by (nonlinear_arith);
    }
    part as u128 * den as u128 > num as u128 * total as u128
}

/// Tells whether a part of a total is below the fraction `num / den`.
pub fn is_share_below(part: u64, total: u64, num: u32, den: u32) -> (r: bool)
    ensures
        r == share_below(part as int, total as int, num as int, den as int),
{
    proof {
        lemma_product(part, den);
        lemma_product(total, num);
        assert(num * total == total * num) by (nonlinear_arith);
    }
    (part as u128 * den as u128) < (num as u128 * total as u128)
}

proof fn lemma_product(a: u64, b: u32)
    ensures
        0 <= a * b <= 0xFFFF_FFFF_FFFF_FFFF_FFFF_FFFF,
{
    assert(0 <= a * b <= 0xFFFF_FFFF_FFFF_FFFF * 0xFFFF_FFFF) by (nonlinear_arith)
        requires
            0 <= a <= 0xFFFF_FFFF_FFFF_FFFF,
            0 <= b <= 0xFFFF_FFFF,
    ;
}

/// A quotient is rounded to the nearest whole number, and one that lies between two to the even
/// one.
pub proof fn law_half_even(n: nat, d: nat)
    requires
        d > 0,
    ensures
        2 * (half_even(n, d) * d) <= 2 * n + d,
        2 * n <= 2 * (half_even(n, d) * d) + d,
        2 * (half_even(n, d) * d) == 2 * n + d || 2 * n == 2 * (half_even(n, d) * d) + d ==> half_even(
            n,
            d,
        ) % 2 == 0,
{
    let (q, r) = (n as int / d as int, n as int % d as int);
    vstd::arithmetic::div_mod::lemma_fundamental_div_mod(n as int, d as int);
    vstd::arithmetic::div_mod::lemma_mod_bound(n as int, d as int);
    assert(d as int * q == q * d && (q + 1) * d == q * d + d) by (nonlinear_arith);
}

/// A share is above, below or at a fraction, and scaling the fraction changes nothing.
pub proof fn law_shares(part: int, total: int, num: int, den: int, k: int)
    requires
        k > 0,
    ensures
        share_above(part, total, num, den) <==> part * den > total * num,
        share_below(part, total, num, den) <==> part * den < total * num,
        !(share_above(part, total, num, den) && share_below(part, total, num, den)),
        share_above(part, total, 5, 100) <==> 20 * part > total,
        share_below(part, total, 60, 100) <==> 5 * part < 3 * total,
{
    assert(total * num == num * total) by (nonlinear_arith);
}

} // verus!
