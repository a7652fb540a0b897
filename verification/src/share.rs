//! Shares of counts and confidences that grow with them, as double-precision arithmetic gives
//! them: see [`crate::double`]. Numbers count multiples of 2^-64.

use crate::bits::P45;
use crate::bits::P50;
use crate::bits::P55;
use crate::bits::P60;
use crate::bits::P65;
use crate::bits::P70;
use crate::bits::P75;
use crate::bits::P80;
use crate::bits::P85;
use crate::bits::P90;
use crate::bits::P92;
use crate::bits::P95;
use crate::double::DIGITS;
use crate::double::ONE;
use crate::double::is_off;
use crate::double::law_exact;
use crate::double::nearest;
use crate::double::round;
use crate::number::half_even;
use crate::text::append_decimal;
use crate::text::decimal;
use crate::text::decimal_text;
use vstd::arithmetic::power2::lemma2_to64;
use vstd::arithmetic::power2::lemma2_to64_rest;
use vstd::arithmetic::power2::lemma_pow2_unfold;
use vstd::arithmetic::power2::pow2;
use vstd::prelude::*;
use vstd::string::*;

verus! {

/// Up to this count, 2^53, every integer is a double-precision number.
pub const MAX_COUNT: u64 = 0x20_0000_0000_0000;

/// 30 percent.
pub const U30: u128 = 0x4CCC_CCCC_CCCC_CC00;

/// 40 percent.
pub const U40: u128 = 0x6666_6666_6666_6800;

/// 45 percent.
pub const U45: u128 = 0x7333_3333_3333_3400;

/// 50 percent.
pub const U50: u128 = 0x8000_0000_0000_0000;

/// 55 percent.
pub const U55: u128 = 0x8CCC_CCCC_CCCC_D000;

/// 60 percent.
pub const U60: u128 = 0x9999_9999_9999_9800;

/// 65 percent.
pub const U65: u128 = 0xA666_6666_6666_6800;

/// 70 percent.
pub const U70: u128 = 0xB333_3333_3333_3000;

/// 75 percent.
pub const U75: u128 = 0xC000_0000_0000_0000;

/// 80 percent.
pub const U80: u128 = 0xCCCC_CCCC_CCCC_D000;

/// 85 percent.
pub const U85: u128 = 0xD999_9999_9999_9800;

/// 90 percent.
pub const U90: u128 = 0xE666_6666_6666_6800;

/// 92 percent.
pub const U92: u128 = 0xEB85_1EB8_51EB_8800;

/// 95 percent.
pub const U95: u128 = 0xF333_3333_3333_3000;

/// 2^54.
pub const POWER_54: u128 = 0x40_0000_0000_0000;

/// 0.3 is this over 2^54.
pub const THREE_TENTHS: u128 = 0x13_3333_3333_3333;

/// 0.4 is this over 2^54, and 0.8 is this over 2^53.
pub const TWO_FIFTHS: u128 = 0x19_9999_9999_999A;

/// A factor: `num` over `den`.
#[derive(Debug, Clone, Copy, PartialEq, Eq, Structural)]
pub struct Factor {
    pub num: u128,
    pub den: u128,
}

impl Factor {
    /// The factors that shares are weighted with: their terms are small.
    pub open spec fn wf(self) -> bool {
        self.num <= 0x20_0000_0000_0000 && 0 < self.den <= 0x1_0000_0000_0000_0000
    }
}

/// The share that `part` is of `total`.
pub open spec fn share_of(part: nat, total: nat) -> nat {
    nearest(part * ONE as nat, total)
}

/// The share that `part` is of `total`.
pub fn share(part: u64, total: u64) -> (r: u128)
    requires
        part <= total,
        0 < total <= MAX_COUNT,
    ensures
        r == share_of(part as nat, total as nat),
        exists|e: int| #[trigger] is_off(part * ONE, total as int, r as int, e),
        r <= ONE + 4096,
{
    proof {
        assert(part * ONE <= MAX_COUNT * ONE) by (nonlinear_arith)
            requires
                part <= MAX_COUNT,
        ;
    }
    let n: u128 = part as u128 * ONE;
    let r: u128 = round(n, total as u128);
    proof {
        let e = choose|e: int| is_off(n as int, total as int, r as int, e);
        assert(is_off(n as int, total as int, r as int, e));
        assert(r <= ONE + 4096) by (nonlinear_arith)
            requires
                n == part * ONE,
                part <= total,
                total > 0,
                r * total <= n + e,
                e == total || e * DIGITS <= 2 * n,
                DIGITS == 0x20_0000_0000_0000,
                ONE == 0x1_0000_0000_0000_0000,
        ;
    }
    r
}

/// A share in tenths of a percent.
pub open spec fn tenths_of(share: nat) -> nat {
    half_even(10 * nearest(100 * share, 1), ONE as nat)
}

/// A share in percent, with one decimal.
pub open spec fn share_text(share: nat) -> Seq<char> {
    decimal_text(tenths_of(share) / 10) + "."@ + decimal_text(tenths_of(share) % 10)
}

/// The share that `part` is of `total`, in percent with one decimal.
pub open spec fn percent_text(part: nat, total: nat) -> Seq<char> {
    share_text(share_of(part, total))
}

/// The share that `part` is of `total`, in percent without decimals.
pub open spec fn whole_percent_text(part: nat, total: nat) -> Seq<char> {
    decimal_text(half_even(nearest(100 * share_of(part, total), 1), ONE as nat))
}

/// The share that `part` is of `total`, in hundredths.
pub open spec fn hundredths_of(part: nat, total: nat) -> nat {
    half_even(100 * share_of(part, total), ONE as nat)
}

/// The share that `part` is of `total`, with two decimals.
pub open spec fn fraction_text(part: nat, total: nat) -> Seq<char> {
    let t = hundredths_of(part, total);
    decimal_text(t / 100) + "."@ + decimal_text(t / 10 % 10) + decimal_text(t % 10)
}

/// What the share that `part` is of `total` leaves, in percent with one decimal.
pub open spec fn rest_text(part: nat, total: nat) -> Seq<char> {
    share_text(nearest((ONE - share_of(part, total)) as nat, 1))
}

fn write_share(s: u128) -> (r: String)
    requires
        s <= 2 * ONE + 4096,
    ensures
        r@ == share_text(s as nat),
{
    let x: u128 = round(100 * s, 1);
    let n: u128 = 10 * x;
    let q: u128 = n / ONE;
    let left: u128 = n % ONE;
    let t: u128 = if 2 * left < ONE || (2 * left == ONE && q % 2 == 0) {
        q
    } else {
        q + 1
    };
    assert(t == tenths_of(s as nat));
    let mut r = decimal((t / 10) as u64);
    r.append(".");
    append_decimal(&mut r, (t % 10) as u64);
    r
}

/// Writes a share in percent, with one decimal.
pub fn percent(part: u64, total: u64) -> (r: String)
    requires
        part <= total,
        0 < total <= MAX_COUNT,
    ensures
        r@ == percent_text(part as nat, total as nat),
{
    write_share(share(part, total))
}

/// Writes a share in percent, without decimals.
pub fn whole_percent(part: u64, total: u64) -> (r: String)
    requires
        part <= total,
        0 < total <= MAX_COUNT,
    ensures
        r@ == whole_percent_text(part as nat, total as nat),
{
    let n: u128 = round(100 * share(part, total), 1);
    let q: u128 = n / ONE;
    let left: u128 = n % ONE;
    if 2 * left < ONE || (2 * left == ONE && q % 2 == 0) {
        decimal(q as u64)
    } else {
        decimal((q + 1) as u64)
    }
}

/// Writes a share with two decimals.
pub fn fraction(part: u64, total: u64) -> (r: String)
    requires
        part <= total,
        0 < total <= MAX_COUNT,
    ensures
        r@ == fraction_text(part as nat, total as nat),
{
    let n: u128 = 100 * share(part, total);
    let q: u128 = n / ONE;
    let left: u128 = n % ONE;
    let t: u128 = if 2 * left < ONE || (2 * left == ONE && q % 2 == 0) {
        q
    } else {
        q + 1
    };
    assert(t == hundredths_of(part as nat, total as nat));
    let mut r = decimal((t / 100) as u64);
    r.append(".");
    append_decimal(&mut r, (t / 10 % 10) as u64);
    append_decimal(&mut r, (t % 10) as u64);
    r
}

/// Writes what a share below nine tenths leaves, in percent with one decimal.
pub fn rest(part: u64, total: u64) -> (r: String)
    requires
        10 * part <= 9 * total,
        0 < total <= MAX_COUNT,
    ensures
        r@ == rest_text(part as nat, total as nat),
{
    let s: u128 = share(part, total);
    proof {
        let n = part * ONE;
        let e = choose|e: int| is_off(n as int, total as int, s as int, e);
        assert(is_off(n as int, total as int, s as int, e));
        assert(s <= ONE) by (nonlinear_arith)
            requires
                n == part * ONE,
                10 * part <= 9 * total,
                total > 0,
                s * total <= n + e,
                e == total || e * DIGITS <= 2 * n,
                DIGITS == 0x20_0000_0000_0000,
                ONE == 0x1_0000_0000_0000_0000,
        ;
    }
    write_share(round(ONE - s, 1))
}

/// The bits of a number below one with at most 53 significant digits.
pub open spec fn bits_from(v: nat, k: nat) -> nat
    decreases v,
{
    if v < DIGITS {
        ((1010 + k) * 0x10_0000_0000_0000 + v) as nat
    } else {
        bits_from(v / 2, k + 1)
    }
}

/// The bits of a number below one, counted in multiples of 2^-64, with at most 53 significant
/// digits, from 2^-12 on.
pub open spec fn encoded(v: nat) -> u64 {
    bits_from(v, 0) as u64
}

/// The bits of a number.
pub fn encode(v: u128) -> (r: u64)
    requires
        v < ONE,
    ensures
        r == encoded(v as nat),
{
    let mut m: u128 = v;
    let mut k: u64 = 0;
    let ghost mut most: int = ONE as int;
    while m >= DIGITS
        invariant
            bits_from(v as nat, 0) == bits_from(m as nat, k as nat),
            m < most,
            k < 12,
            k == 0 ==> most == 0x1_0000_0000_0000_0000,
            k == 1 ==> most == 0x8000_0000_0000_0000,
            k == 2 ==> most == 0x4000_0000_0000_0000,
            k == 3 ==> most == 0x2000_0000_0000_0000,
            k == 4 ==> most == 0x1000_0000_0000_0000,
            k == 5 ==> most == 0x800_0000_0000_0000,
            k == 6 ==> most == 0x400_0000_0000_0000,
            k == 7 ==> most == 0x200_0000_0000_0000,
            k == 8 ==> most == 0x100_0000_0000_0000,
            k == 9 ==> most == 0x80_0000_0000_0000,
            k == 10 ==> most == 0x40_0000_0000_0000,
            k == 11 ==> most == 0x20_0000_0000_0000,
        decreases m,
    {
        m = m / 2;
        k = k + 1;
        proof {
            most = most / 2;
        }
    }
    (1010 + k) * 0x10_0000_0000_0000 + m as u64
}

/// The smaller of two numbers.
pub open spec fn capped(v: nat, cap: nat) -> nat {
    if v < cap {
        v
    } else {
        cap
    }
}

/// The confidence of `base` plus `amount`, at most `cap`.
pub open spec fn confidence_of(base: nat, amount: nat, cap: nat) -> u64 {
    encoded(capped(nearest(base + amount, 1), cap))
}

proof fn lemma_bits_below(v: nat, k: nat, j: nat)
    requires
        v < DIGITS * pow2(j),
    ensures
        bits_from(v, k) < (1012 + k + j) * 0x10_0000_0000_0000,
    decreases j,
{
    if v >= DIGITS {
        if j == 0 {
            lemma2_to64();
        } else {
            lemma_pow2_unfold(j);
            lemma_bits_below(v / 2, k + 1, (j - 1) as nat);
        }
    }
}

/// A confidence lies below one: its bits are below those of one.
pub proof fn law_confidence_below_one(base: nat, amount: nat, cap: nat)
    requires
        cap < ONE,
    ensures
        confidence_of(base, amount, cap) < 0x3FF0_0000_0000_0000,
{
    lemma2_to64();
    lemma_bits_below(capped(nearest(base + amount, 1), cap), 0, 11);
}

/// The confidence of `base` plus `amount`, at most `cap`.
pub fn confidence(base: u128, amount: u128, cap: u128) -> (r: u64)
    requires
        base <= ONE,
        amount <= 0x80_0000_0000_0000_0000_0000_0000_0000,
        cap < ONE,
    ensures
        r == confidence_of(base as nat, amount as nat, cap as nat),
{
    let v: u128 = round(base + amount, 1);
    encode(
        if v < cap {
            v
        } else {
            cap
        },
    )
}

/// The confidence of `base` plus a share times a factor, at most `cap`.
pub open spec fn graded_of(base: u128, part: nat, total: nat, f: Factor, cap: u128) -> u64 {
    confidence_of(
        base as nat,
        nearest(share_of(part, total) * f.num as nat, f.den as nat),
        cap as nat,
    )
}

/// The confidence of `base` plus a share times a factor, at most `cap`.
pub fn graded(base: u128, part: u64, total: u64, f: Factor, cap: u128) -> (r: u64)
    requires
        base <= ONE,
        part <= total,
        0 < total <= MAX_COUNT,
        f.wf(),
        cap < ONE,
    ensures
        r == graded_of(base, part as nat, total as nat, f, cap),
{
    let s: u128 = share(part, total);
    proof {
        assert(s * f.num <= (ONE + 4096) * 0x20_0000_0000_0000) by (nonlinear_arith)
            requires
                s <= ONE + 4096,
                f.num <= 0x20_0000_0000_0000,
        ;
    }
    let amount: u128 = round(s * f.num, f.den);
    confidence(base, amount, cap)
}

/// Each base and cap is its number of hundredths, to 53 binary digits.
pub proof fn law_hundredths()
    ensures
        -102_400 <= 100 * U30 - 30 * ONE <= 102_400,
        U30 % 1024 == 0,
        -102_400 <= 100 * U40 - 40 * ONE <= 102_400,
        U40 % 1024 == 0,
        -102_400 <= 100 * U45 - 45 * ONE <= 102_400,
        U45 % 1024 == 0,
        -102_400 <= 100 * U50 - 50 * ONE <= 102_400,
        U50 % 1024 == 0,
        -102_400 <= 100 * U55 - 55 * ONE <= 102_400,
        U55 % 1024 == 0,
        -102_400 <= 100 * U60 - 60 * ONE <= 102_400,
        U60 % 1024 == 0,
        -102_400 <= 100 * U65 - 65 * ONE <= 102_400,
        U65 % 1024 == 0,
        -102_400 <= 100 * U70 - 70 * ONE <= 102_400,
        U70 % 1024 == 0,
        -102_400 <= 100 * U75 - 75 * ONE <= 102_400,
        U75 % 1024 == 0,
        -102_400 <= 100 * U80 - 80 * ONE <= 102_400,
        U80 % 1024 == 0,
        -102_400 <= 100 * U85 - 85 * ONE <= 102_400,
        U85 % 1024 == 0,
        -102_400 <= 100 * U90 - 90 * ONE <= 102_400,
        U90 % 1024 == 0,
        -102_400 <= 100 * U92 - 92 * ONE <= 102_400,
        U92 % 1024 == 0,
        -102_400 <= 100 * U95 - 95 * ONE <= 102_400,
        U95 % 1024 == 0,
        -5 <= 10 * THREE_TENTHS - 3 * 0x40_0000_0000_0000 <= 20,
        -5 <= 5 * TWO_FIFTHS - 2 * 0x40_0000_0000_0000 <= 5,
        POWER_54 == 2 * DIGITS,
{
}

/// The bits of a base or cap are those of the confidence of its number of hundredths.
pub proof fn law_hundredths_as_bits()
    ensures
        encoded(U45 as nat) == P45,
        encoded(U50 as nat) == P50,
        encoded(U55 as nat) == P55,
        encoded(U60 as nat) == P60,
        encoded(U65 as nat) == P65,
        encoded(U70 as nat) == P70,
        encoded(U75 as nat) == P75,
        encoded(U80 as nat) == P80,
        encoded(U85 as nat) == P85,
        encoded(U90 as nat) == P90,
        encoded(U92 as nat) == P92,
        encoded(U95 as nat) == P95,
{
    reveal_with_fuel(bits_from, 14);
}

/// All of a total is a share of one, half of it a half, and none of it nothing; so are their
/// texts in percent.
pub proof fn law_whole_shares(total: nat)
    requires
        total > 0,
    ensures
        share_of(total, total) == 0x1_0000_0000_0000_0000,
        share_of(total, 2 * total) == 0x8000_0000_0000_0000,
        share_of(0, total) == 0,
        percent_text(total, total) == decimal_text(100) + "."@ + decimal_text(0),
        percent_text(total, 2 * total) == decimal_text(50) + "."@ + decimal_text(0),
        percent_text(0, total) == decimal_text(0) + "."@ + decimal_text(0),
        whole_percent_text(total, total) == decimal_text(100),
        whole_percent_text(total, 2 * total) == decimal_text(50),
        hundredths_of(total, total) == 100,
        fraction_text(total, total) == decimal_text(1) + "."@ + decimal_text(0) + decimal_text(0),
        rest_text(total, total) == decimal_text(0) + "."@ + decimal_text(0),
        rest_text(0, total) == decimal_text(100) + "."@ + decimal_text(0),
{
    lemma2_to64();
    lemma2_to64_rest();
    law_exact(1, 64, total);
    law_exact(1, 63, 2 * total);
    law_exact(0, 0, total);
    law_exact(100, 64, 1);
    law_exact(100, 63, 1);
    law_exact(0, 0, 1);
    law_exact(1, 64, 1);
    let (one, half) = (pow2(64), pow2(63));
    assert(total * one == 1 * one * total && total * one == 1 * half * (2 * total) && 0 * pow2(0)
        * total == 0 && 0 * one == 0) by (nonlinear_arith)
        requires
            one == 2 * half,
    ;
}

/// A confidence is its base and what is added, up to its cap.
pub proof fn law_confidence_capped(base: nat, amount: nat, cap: nat)
    ensures
        nearest(base + amount, 1) >= cap ==> confidence_of(base, amount, cap) == encoded(cap),
        nearest(base + amount, 1) <= cap ==> confidence_of(base, amount, cap) == encoded(
            nearest(base + amount, 1),
        ),
{
}

} // verus!
