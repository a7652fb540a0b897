//! Bilinear downsampling of luminance planes in double-precision arithmetic.
//!
//! Positions are multiples of 2^-52, samples weighted in both directions multiples of
//! 2^-104: see [`crate::double`].

use crate::components::lemma_cell;
use crate::components::lemma_cell_coords;
use crate::double::is_off;
use crate::double::law_exact;
use crate::double::nearest;
use crate::double::round;
use vstd::arithmetic::div_mod::lemma_fundamental_div_mod_converse;
use vstd::arithmetic::power2::{lemma2_to64, lemma2_to64_rest, lemma_pow2_adds, pow2};
use vstd::prelude::*;

verus! {

/// 2^52: one.
pub const SCALE: u128 = 0x10_0000_0000_0000;

/// 2^104: one, after two weightings.
pub const SCALE_SQUARED: u128 = 0x100_0000_0000_0000_0000_0000_0000;

/// How many pixels of the source a pixel of the result covers.
pub open spec fn ratio(s: int, d: int) -> nat {
    nearest((s * SCALE) as nat, d as nat)
}

/// Where in the source pixel `i` of the result lies.
pub open spec fn place(i: int, s: int, d: int) -> nat {
    nearest((i * ratio(s, d)) as nat, 1)
}

/// Two samples, the second one weighted by `f`.
pub open spec fn mixed(a: nat, b: nat, f: nat) -> nat {
    nearest(nearest(((SCALE - f) * a) as nat, 1) + nearest(f * b, 1), 1)
}

/// The smaller of an index and the last one.
pub open spec fn at_most(i: int, last: int) -> int {
    if i < last {
        i
    } else {
        last
    }
}

/// The sample at column `x` and row `y` of the result.
pub open spec fn sample_at(
    src: Seq<u8>,
    sw: int,
    sh: int,
    dw: int,
    dh: int,
    x: int,
    y: int,
) -> u8 {
    let px = place(x, sw, dw);
    let py = place(y, sh, dh);
    let x0 = px as int / SCALE as int;
    let y0 = py as int / SCALE as int;
    let x1 = at_most(x0 + 1, sw - 1);
    let y1 = at_most(y0 + 1, sh - 1);
    let fx = px % (SCALE as nat);
    let fy = py % (SCALE as nat);
    let upper = mixed(src[y0 * sw + x0] as nat, src[y0 * sw + x1] as nat, fx);
    let lower = mixed(src[y1 * sw + x0] as nat, src[y1 * sw + x1] as nat, fx);
    let v = mixed(upper, lower, fy) / (SCALE_SQUARED as nat);
    if v > 255 {
        255
    } else {
        v as u8
    }
}

/// A luminance plane downsampled to `dw` by `dh`.
pub open spec fn downsampled(src: Seq<u8>, sw: int, sh: int, dw: int, dh: int) -> Seq<u8> {
    Seq::new((dw * dh) as nat, |i: int| sample_at(src, sw, sh, dw, dh, i % dw, i / dw))
}

/// Computes where pixel `i` of the result lies.
fn locate(i: usize, s: usize, d: usize) -> (r: u128)
    requires
        i < d <= s <= u32::MAX,
    ensures
        r == place(i as int, s as int, d as int),
        r < s * SCALE,
{
    let n: u128 = s as u128 * SCALE;
    let step = round(n, d as u128);
    proof {
        let e = choose|e: int| is_off(n as int, d as int, step as int, e);
        assert(is_off(n as int, d as int, step as int, e));
        assert(e <= s);
        assert(step * d <= s * SCALE + s);
        assert(step * d > s * SCALE - s);
        assert(step >= SCALE - 1) by (nonlinear_arith)
            requires
                step * d > s * SCALE - s,
                s >= d,
                d > 0,
                SCALE >= 1,
        ;
        assert(i * step <= step * d - step) by (nonlinear_arith)
            requires
                0 <= i <= d - 1,
                0 <= step,
        ;
        assert(0 <= i * step) by (nonlinear_arith)
            requires
                0 <= i,
                0 <= step,
        ;
    }
    let m: u128 = i as u128 * step;
    let r = round(m, 1);
    proof {
        let e = choose|e: int| is_off(m as int, 1, r as int, e);
        assert(is_off(m as int, 1, r as int, e));
        assert(e == 1 || e <= s + 1);
    }
    r
}

/// Weighs two samples.
fn mix(a: u128, b: u128, f: u128) -> (r: u128)
    requires
        f < SCALE,
        a <= 0x8000_0000_0000_0010,
        b <= 0x8000_0000_0000_0010,
    ensures
        r == mixed(a as nat, b as nat, f as nat),
        a <= 255 && b <= 255 ==> r <= 0x8000_0000_0000_0010,
{
    proof {
        assert((SCALE - f) * a <= SCALE * a) by (nonlinear_arith)
            requires
                0 <= f <= SCALE,
                0 <= a,
        ;
        assert(f * b <= SCALE * b) by (nonlinear_arith)
            requires
                0 <= f <= SCALE,
                0 <= b,
        ;
    }
    let x = round((SCALE - f) * a, 1);
    let y = round(f * b, 1);
    round(x + y, 1)
}

/// Computes a sample of the result.
fn sample(
    src: &[u8],
    sw: usize,
    sh: usize,
    dw: usize,
    dh: usize,
    x: usize,
    y: usize,
) -> (r: u8)
    requires
        src.len() == sw * sh,
        x < dw <= sw <= u32::MAX,
        y < dh <= sh <= u32::MAX,
    ensures
        r == sample_at(src@, sw as int, sh as int, dw as int, dh as int, x as int, y as int),
{
    let px = locate(x, sw, dw);
    let py = locate(y, sh, dh);
    let x0: usize = (px / SCALE) as usize;
    let y0: usize = (py / SCALE) as usize;
    assert(x0 < sw && y0 < sh);
    let x1: usize = if x0 + 1 < sw {
        x0 + 1
    } else {
        sw - 1
    };
    let y1: usize = if y0 + 1 < sh {
        y0 + 1
    } else {
        sh - 1
    };
    proof {
        lemma_cell(sw as int, sh as int, x0 as int, y0 as int);
        lemma_cell(sw as int, sh as int, x1 as int, y0 as int);
        lemma_cell(sw as int, sh as int, x0 as int, y1 as int);
        lemma_cell(sw as int, sh as int, x1 as int, y1 as int);
        assert(y0 * sw <= y0 * sw + x0);
        assert(y1 * sw <= y1 * sw + x0);
    }
    let fx: u128 = px % SCALE;
    let fy: u128 = py % SCALE;
    let upper = mix(src[y0 * sw + x0] as u128, src[y0 * sw + x1] as u128, fx);
    let lower = mix(src[y1 * sw + x0] as u128, src[y1 * sw + x1] as u128, fx);
    let v: u128 = mix(upper, lower, fy) / SCALE_SQUARED;
    if v > 255 {
        255
    } else {
        v as u8
    }
}

/// Downsamples a luminance plane to `dw` by `dh`.
pub fn downsample(src: &[u8], sw: usize, sh: usize, dw: usize, dh: usize) -> (r: Vec<u8>)
    requires
        src.len() == sw * sh,
        0 < dw <= sw <= u32::MAX,
        0 < dh <= sh <= u32::MAX,
    ensures
        r@ == downsampled(src@, sw as int, sh as int, dw as int, dh as int),
{
    proof {
        assert(dw * dh <= sw * sh) by (nonlinear_arith)
            requires
                0 <= dw <= sw,
                0 <= dh <= sh,
        ;
    }
    let n: usize = dw * dh;
    let ghost all = downsampled(src@, sw as int, sh as int, dw as int, dh as int);
    let mut r: Vec<u8> = Vec::new();
    let mut i: usize = 0;
    while i < n
        invariant
            i <= n,
            n == dw * dh,
            src.len() == sw * sh,
            0 < dw <= sw <= u32::MAX,
            0 < dh <= sh <= u32::MAX,
            all == downsampled(src@, sw as int, sh as int, dw as int, dh as int),
            r@ == all.take(i as int),
        decreases n - i,
    {
        proof {
            lemma_cell_coords(dw as int, dh as int, i as int);
        }
        let v = sample(src, sw, sh, dw, dh, i % dw, i / dw);
        r.push(v);
        i += 1;
        assert(r@ =~= all.take(i as int));
    }
    assert(all.take(n as int) =~= all);
    r
}

/// A plane of the size that is asked for is itself.
pub proof fn law_same_size(src: Seq<u8>, w: int, h: int, x: int, y: int)
    requires
        0 <= x < w < 0x20_0000_0000_0000,
        0 <= y < h < 0x20_0000_0000_0000,
        src.len() == w * h,
    ensures
        downsampled(src, w, h, w, h).len() == w * h,
        downsampled(src, w, h, w, h)[y * w + x] == src[y * w + x],
{
    lemma2_to64();
    lemma2_to64_rest();
    let one = pow2(52);
    lemma_own_place(x, w);
    lemma_own_place(y, h);
    lemma_fundamental_div_mod_converse(y * w + x, w, y, x);
    assert(0 <= y * w + x < w * h) by (nonlinear_arith)
        requires
            0 <= x < w,
            0 <= y < h,
    ;
    let a = src[y * w + x] as nat;
    let b = src[y * w + at_most(x + 1, w - 1)] as nat;
    let y1 = at_most(y + 1, h - 1);
    let c = src[y1 * w + x] as nat;
    let d = src[y1 * w + at_most(x + 1, w - 1)] as nat;
    lemma_all_of_first(a, b);
    lemma_all_of_first(c, d);
    lemma_mixed_whole(a, c * SCALE as nat);
}

proof fn lemma_own_place(i: int, s: int)
    requires
        0 <= i < s < 0x20_0000_0000_0000,
    ensures
        place(i, s, s) == i * SCALE,
        place(i, s, s) as int / SCALE as int == i,
        place(i, s, s) % (SCALE as nat) == 0,
{
    lemma2_to64_rest();
    let one = pow2(52);
    law_exact(1, 52, s as nat);
    assert(s * one == 1 * one * s) by (nonlinear_arith);
    law_exact(i as nat, 52, 1);
    assert(i * one == i * one * 1) by (nonlinear_arith);
    lemma_fundamental_div_mod_converse(i * one, one as int, i, 0);
}

proof fn lemma_all_of_first(a: nat, b: nat)
    requires
        a < 256,
    ensures
        mixed(a, b, 0) == a * SCALE,
{
    lemma2_to64_rest();
    let one = pow2(52);
    law_exact(a, 52, 1);
    law_exact(0, 0, 1);
    assert(0 * b == 0 && one * a == a * one && a * one * 1 == a * one) by (nonlinear_arith);
}

proof fn lemma_mixed_whole(a: nat, b: nat)
    requires
        a < 256,
    ensures
        mixed(a * SCALE as nat, b, 0) == a * SCALE_SQUARED,
        mixed(a * SCALE as nat, b, 0) / (SCALE_SQUARED as nat) == a,
{
    lemma2_to64_rest();
    lemma_pow2_adds(52, 52);
    let one = pow2(52);
    let two = pow2(104);
    law_exact(a, 104, 1);
    law_exact(0, 0, 1);
    assert(one * (a * one) == a * two && a * two * 1 == a * two && 0 * b == 0) by (nonlinear_arith)
        requires
            one * one == two,
    ;
    lemma_fundamental_div_mod_converse((a * two) as int, two as int, a as int, 0);
}

} // verus!
