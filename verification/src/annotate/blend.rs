//! Compositing of colours in double-precision arithmetic.
//!
//! Numbers are multiples of 2^-64: see [`crate::double`].

use crate::double::ONE;
use crate::double::law_exact;
use crate::double::nearest;
use crate::double::round;
use vstd::arithmetic::power2::{lemma2_to64, lemma2_to64_rest, pow2};
use vstd::prelude::*;

verus! {

/// The weight of the overlay: its opacity over 255, at most one.
pub open spec fn weight(opacity: u8) -> nat {
    let w = nearest((opacity * ONE) as nat, 255);
    if w > ONE {
        ONE as nat
    } else {
        w
    }
}

/// The weight of the base: one less the weight of the overlay.
pub open spec fn rest(opacity: u8) -> nat {
    nearest((ONE - weight(opacity)) as nat, 1)
}

/// One channel of a composited pixel.
pub open spec fn blended(base: u8, overlay: u8, opacity: u8) -> u8 {
    let a = nearest(base as nat * rest(opacity), 1);
    let b = nearest(overlay as nat * weight(opacity), 1);
    let v = nearest(a + b, 1) / (ONE as nat);
    if v > 255 {
        255
    } else {
        v as u8
    }
}

/// A composited pixel.
pub open spec fn blended_pixel(base: Seq<u8>, overlay: Seq<u8>) -> Seq<u8> {
    Seq::new(3, |c: int| blended(base[c], overlay[c], overlay[3]))
}

/// Composites one channel.
fn blend(base: u8, overlay: u8, weight: u128, rest: u128) -> (r: u8)
    requires
        weight <= 2 * ONE + 2,
        rest <= 2 * ONE + 2,
    ensures
        ({
            let a = nearest(base as nat * rest as nat, 1);
            let b = nearest(overlay as nat * weight as nat, 1);
            let v = nearest(a + b, 1) / (ONE as nat);
            r == if v > 255 {
                255
            } else {
                v
            }
        }),
{
    proof {
        assert(base * rest <= 255 * (2 * ONE + 2)) by (nonlinear_arith)
            requires
                base <= 255,
                rest <= 2 * ONE + 2,
        ;
        assert(overlay * weight <= 255 * (2 * ONE + 2)) by (nonlinear_arith)
            requires
                overlay <= 255,
                weight <= 2 * ONE + 2,
        ;
    }
    let a = round(base as u128 * rest, 1);
    let b = round(overlay as u128 * weight, 1);
    let v: u128 = round(a + b, 1) / ONE;
    if v > 255 {
        255
    } else {
        v as u8
    }
}

/// Alpha-composite a heatmap color onto a base pixel.
pub fn blend_pixel(base: [u8; 3], overlay: [u8; 4]) -> (r: [u8; 3])
    ensures
        r@ == blended_pixel(base@, overlay@),
{
    let opacity: u8 = overlay[3];
    let exact = round(opacity as u128 * ONE, 255);
    let alpha: u128 = if exact > ONE {
        ONE
    } else {
        exact
    };
    let inverse = round(ONE - alpha, 1);
    let r: [u8; 3] = [
        blend(base[0], overlay[0], alpha, inverse),
        blend(base[1], overlay[1], alpha, inverse),
        blend(base[2], overlay[2], alpha, inverse),
    ];
    assert(r@ =~= blended_pixel(base@, overlay@));
    r
}

/// At no opacity the base shows, and at full opacity the overlay.
pub proof fn law_opacity(base: u8, overlay: u8)
    ensures
        weight(0) == 0,
        weight(255) == 0x1_0000_0000_0000_0000,
        blended(base, overlay, 0) == base,
        blended(base, overlay, 255) == overlay,
{
    lemma2_to64();
    lemma2_to64_rest();
    let one = pow2(64);
    law_exact(0, 0, 255);
    law_exact(0, 0, 1);
    law_exact(1, 64, 255);
    law_exact(1, 64, 1);
    law_exact(base as nat, 64, 1);
    law_exact(overlay as nat, 64, 1);
    assert(base as nat * 0 == 0 && overlay as nat * 0 == 0) by (nonlinear_arith);
    assert(base as nat * one * 1 == base as nat * one && overlay as nat * one * 1 == overlay as nat
        * one) by (nonlinear_arith);
}

/// The channels of a pixel are blended each on its own, at the opacity of the overlay.
pub proof fn law_blended_pixel(base: Seq<u8>, overlay: Seq<u8>, c: int)
    requires
        0 <= c < 3,
    ensures
        blended_pixel(base, overlay).len() == 3,
        blended_pixel(base, overlay)[c] == blended(base[c], overlay[c], overlay[3]),
{
}

} // verus!
