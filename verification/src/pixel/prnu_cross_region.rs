//! PRNU cross-region consistency.
//!
//! An authentic image shares one sensor's noise pattern across every region. The image is
//! divided into a grid of regions whose noise residuals are cross-correlated; a region
//! that correlates less with the others is suspect.

use crate::components::lemma_cell_coords;
use crate::finding::plain_finding;
use crate::finding::Finding;
use crate::finding::FindingView;
use crate::finding::Severity;
use crate::grid::pixel;
use crate::grid::px;
use crate::outliers::carries_signal;
use crate::outliers::LEAST_SPREAD;
use crate::select::how_many;
use crate::select::lemma_which;
use crate::select::lemma_which_are;
use crate::select::total;
use crate::text::append_decimal;
use crate::text::decimal;
use crate::text::decimal_text;
use vstd::prelude::*;
use vstd::string::*;

verus! {

/// The cross-region analyzer.
pub struct PrnuCrossRegionAnalyzer;

/// The number of regions across.
pub const GRID_X: usize = 4;

/// The number of regions down.
pub const GRID_Y: usize = 3;

/// Above this score a region correlates less than the others, as a key: 2.5.
pub const WEAK_SCORE: i64 = 0x4004_0000_0000_0000;

/// Below this correlation a region is suspect, as a key: 0.15.
pub const LEAST_CORRELATION: i64 = 0x3FC3_3333_3333_3333;

/// Eight times the difference of an inner pixel from the mean of its eight neighbours; zero
/// on the border.
pub open spec fn residual8(gray: Seq<u8>, w: int, h: int, x: int, y: int) -> int {
    if 1 <= x < w - 1 && 1 <= y < h - 1 {
        8 * pixel(gray, w, x, y) - (pixel(gray, w, x - 1, y - 1) + pixel(gray, w, x, y - 1) + pixel(
            gray,
            w,
            x + 1,
            y - 1,
        ) + pixel(gray, w, x - 1, y) + pixel(gray, w, x + 1, y) + pixel(gray, w, x - 1, y + 1)
            + pixel(gray, w, x, y + 1) + pixel(gray, w, x + 1, y + 1))
    } else {
        0
    }
}

/// Eight times the residual of every pixel.
pub open spec fn residuals8(gray: Seq<u8>, w: int, h: int) -> Seq<i64> {
    Seq::new((w * h) as nat, |i: int| residual8(gray, w, h, i % w, i / w) as i64)
}

/// The regions that correlate less than the others.
#[derive(Debug, Clone, Copy, PartialEq, Eq, Structural)]
pub struct WeakRegions {
    /// Their number.
    pub count: usize,
    /// The lowest correlation of one of them, as a key.
    pub least: i64,
    /// The first region with that correlation.
    pub region: usize,
}

/// The weak regions among the first `n`, given their mean correlations and their scores.
pub open spec fn weak_regions(c: Seq<i64>, z: Seq<i64>, n: nat) -> WeakRegions
    decreases n,
{
    if n == 0 {
        WeakRegions { count: 0, least: i64::MAX, region: 0 }
    } else {
        let w = weak_regions(c, z, (n - 1) as nat);
        if z[n - 1] > WEAK_SCORE {
            if c[n - 1] < w.least {
                WeakRegions {
                    count: (w.count + 1) as usize,
                    least: c[n - 1],
                    region: (n - 1) as usize,
                }
            } else {
                WeakRegions { count: (w.count + 1) as usize, ..w }
            }
        } else {
            w
        }
    }
}

/// The finding on weak regions.
pub open spec fn cross_region_finding(
    w: WeakRegions,
    regions: int,
    least: Seq<char>,
    confidence: u64,
) -> FindingView {
    plain_finding(
        "prnu_cross_region"@,
        "prnu_cross_region_mismatch"@,
        decimal_text(w.count as nat) + " of "@ + decimal_text(regions as nat)
            + " image regions show uncorrelated sensor noise residuals (min correlation "@ + least
            + " at region ["@ + decimal_text((w.region as int % 4) as nat) + ","@ + decimal_text(
            (w.region as int / 4) as nat,
        ) + "]) - possible splice from a different camera sensor"@,
        Severity::High,
        confidence,
    )
}

/// How many pixels of a region make one sample.
pub open spec fn sampling(pixels: int) -> int {
    if pixels / 10000 > 1 {
        pixels / 10000
    } else {
        1
    }
}

/// The sampled pixels of a region, counted row by row: the last of every run.
pub open spec fn samples_of(pixels: int) -> Seq<usize> {
    Seq::new(
        (pixels / sampling(pixels)) as nat,
        |k: int| ((k + 1) * sampling(pixels) - 1) as usize,
    )
}

impl PrnuCrossRegionAnalyzer {
    /// The pixels of a region that are correlated, counted row by row; none where there are
    /// fewer than a hundred.
    pub fn sampled_pixels(&self, pixels: usize) -> (r: Option<Vec<usize>>)
        ensures
            r is Some <==> samples_of(pixels as int).len() >= 100,
            r matches Some(v) ==> v@ == samples_of(pixels as int),
    {
        let step: usize = if pixels / 10000 > 1 {
            pixels / 10000
        } else {
            1
        };
        let n: usize = pixels / step;
        if n < 100 {
            return None;
        }
        let mut v: Vec<usize> = Vec::new();
        let mut k: usize = 0;
        while k < n
            invariant
                k <= n,
                n == pixels / step,
                step == sampling(pixels as int),
                step >= 1,
                v@ =~= samples_of(pixels as int).take(k as int),
            decreases n - k,
        {
            proof {
                assert((k + 1) * step <= pixels) by (nonlinear_arith)
                    requires
                        k < n,
                        n == pixels / step,
                        step >= 1,
                ;
                assert((k + 1) * step >= 1) by (nonlinear_arith)
                    requires
                        k >= 0,
                        step >= 1,
                ;
            }
            v.push((k + 1) * step - 1);
            k += 1;
        }
        assert(v@ =~= samples_of(pixels as int));
        Some(v)
    }

    /// Whether an image is large enough to be analyzed: every region has at least 64 pixels
    /// on each side.
    pub fn large_enough(&self, w: usize, h: usize) -> (r: bool)
        ensures
            r == (w / 4 >= 64 && h / 3 >= 64),
    {
        w / GRID_X >= 64 && h / GRID_Y >= 64
    }

    /// Whether the correlations of the regions are scored, given the key of their spread.
    pub fn carries_signal(&self, spread: i64) -> (r: bool)
        ensures
            r == (spread >= LEAST_SPREAD),
    {
        spread >= LEAST_SPREAD
    }

    /// Eight times the noise residual of every pixel.
    pub fn extract_residual(&self, gray: &[u8], w: usize, h: usize) -> (r: Vec<i64>)
        requires
            gray.len() == w * h,
        ensures
            r@ == residuals8(gray@, w as int, h as int),
    {
        let mut r: Vec<i64> = Vec::new();
        let mut i: usize = 0;
        while i < gray.len()
            invariant
                i <= gray.len(),
                gray.len() == w * h,
                r@ =~= residuals8(gray@, w as int, h as int).take(i as int),
            decreases gray.len() - i,
        {
            proof {
                lemma_cell_coords(w as int, h as int, i as int);
            }
            let x: usize = i % w;
            let y: usize = i / w;
            if 1 <= x && x < w - 1 && 1 <= y && y < h - 1 {
                let around: i64 = px(gray, w, h, x - 1, y - 1) + px(gray, w, h, x, y - 1) + px(
                    gray,
                    w,
                    h,
                    x + 1,
                    y - 1,
                ) + px(gray, w, h, x - 1, y) + px(gray, w, h, x + 1, y) + px(
                    gray,
                    w,
                    h,
                    x - 1,
                    y + 1,
                ) + px(gray, w, h, x, y + 1) + px(gray, w, h, x + 1, y + 1);
                r.push(8 * px(gray, w, h, x, y) - around);
            } else {
                r.push(0);
            }
            i += 1;
        }
        proof {
            assert(r@ =~= residuals8(gray@, w as int, h as int));
        }
        r
    }

    /// Collects the regions that correlate less than the others, given the keys of their mean
    /// correlations and of their scores.
    pub fn analyze_correlations(&self, c: &Vec<i64>, z: &Vec<i64>) -> (r: WeakRegions)
        requires
            c.len() == z.len(),
        ensures
            r == weak_regions(c@, z@, c@.len()),
    {
        let mut w = WeakRegions { count: 0, least: i64::MAX, region: 0 };
        let mut i: usize = 0;
        while i < c.len()
            invariant
                i <= c.len(),
                c.len() == z.len(),
                w.count <= i,
                w == weak_regions(c@, z@, i as nat),
            decreases c.len() - i,
        {
            if z[i] > WEAK_SCORE {
                if c[i] < w.least {
                    w = WeakRegions { count: w.count + 1, least: c[i], region: i };
                } else {
                    w = WeakRegions { count: w.count + 1, least: w.least, region: w.region };
                }
            }
            i += 1;
        }
        w
    }

    /// Reports weak regions, if one of them correlates too little. `least` is the lowest
    /// correlation with three decimals.
    pub fn report(&self, w: WeakRegions, regions: usize, least: &str, confidence: u64) -> (r: Option<
        Finding,
    >)
        ensures
            match r {
                Some(f) => w.count >= 1 && w.least < LEAST_CORRELATION && f@
                    == cross_region_finding(w, regions as int, least@, confidence),
                None => w.count == 0 || w.least >= LEAST_CORRELATION,
            },
    {
        if w.count >= 1 && w.least < LEAST_CORRELATION {
            let mut t = decimal(w.count as u64);
            t.append(" of ");
            append_decimal(&mut t, regions as u64);
            t.append(
                " image regions show uncorrelated sensor noise residuals (min correlation ",
            );
            t.append(least);
            t.append(" at region [");
            append_decimal(&mut t, (w.region % 4) as u64);
            t.append(",");
            append_decimal(&mut t, (w.region / 4) as u64);
            t.append("]) - possible splice from a different camera sensor");
            Some(
                Finding::new(
                    "prnu_cross_region",
                    "prnu_cross_region_mismatch",
                    t,
                    Severity::High,
                    confidence,
                ),
            )
        } else {
            None
        }
    }
}

/// A residual is nine times a pixel less the sum of the nine pixels round it and itself; none at
/// the border, and none on a flat patch.
pub proof fn law_residual(g: Seq<u8>, w: int, h: int, x: int, y: int)
    ensures
        x <= 0 || y <= 0 || x >= w - 1 || y >= h - 1 ==> residual8(g, w, h, x, y) == 0,
        0 < x < w - 1 && 0 < y < h - 1 ==> residual8(g, w, h, x, y) == 9 * g[y * w + x] - total(
            9,
            |k: int| g[(y - 1 + k / 3) * w + (x - 1 + k % 3)] as int,
        ),
{
    let f = |k: int| g[(y - 1 + k / 3) * w + (x - 1 + k % 3)] as int;
    reveal_with_fuel(total, 10);
    assert(total(9, f) == f(0) + f(1) + f(2) + f(3) + f(4) + f(5) + f(6) + f(7) + f(8));
    assert(f(0) == g[(y - 1) * w + (x - 1)] && f(1) == g[(y - 1) * w + x] && f(2) == g[(y - 1) * w
        + (x + 1)] && f(3) == g[y * w + (x - 1)] && f(4) == g[y * w + x] && f(5) == g[y * w + (x
        + 1)] && f(6) == g[(y + 1) * w + (x - 1)] && f(7) == g[(y + 1) * w + x] && f(8) == g[(y + 1)
        * w + (x + 1)]);
}

/// The residuals lie row by row.
pub proof fn law_residuals(g: Seq<u8>, w: int, h: int, x: int, y: int)
    requires
        0 <= x < w,
        0 <= y < h,
    ensures
        residuals8(g, w, h).len() == w * h,
        residuals8(g, w, h)[y * w + x] == residual8(g, w, h, x, y),
{
    vstd::arithmetic::div_mod::lemma_fundamental_div_mod_converse(y * w + x, w, y, x);
    assert(0 <= y * w + x < w * h) by (nonlinear_arith)
        requires
            0 <= x < w,
            0 <= y < h,
    ;
    assert(-2040 <= residual8(g, w, h, x, y) <= 2040);
}

/// Regions with a score above 2.5 are weak. They are counted, and the one with the lowest
/// correlation is told, the first of equals.
pub proof fn law_weak_regions(c: Seq<i64>, z: Seq<i64>, n: nat, i: int)
    requires
        n <= c.len() <= usize::MAX,
        n <= z.len(),
        forall|k: int| 0 <= k < c.len() ==> #[trigger] c[k] < i64::MAX,
    ensures
        ({
            let w = weak_regions(c, z, n);
            &&& w.count == how_many(n, |k: int| z[k] > 0x4004_0000_0000_0000)
            &&& w.count <= n
            &&& 0 <= i < n && z[i] > 0x4004_0000_0000_0000 ==> w.least <= c[i] && (i < w.region ==> w.least
                < c[i])
            &&& w.count > 0 ==> w.region < n && c[w.region as int] == w.least && z[w.region as int]
                > 0x4004_0000_0000_0000
            &&& w.count == 0 ==> w.least == i64::MAX
        }),
    decreases n,
{
    let p = |k: int| z[k] > 0x4004_0000_0000_0000;
    lemma_which(0, p);
    if n > 0 {
        law_weak_regions(c, z, (n - 1) as nat, i);
        lemma_which((n - 1) as nat, p);
        lemma_which_are((n - 1) as nat, p);
        assert(c[n - 1] < i64::MAX);
    }
}

/// A region lies in a grid of four columns and three rows.
pub proof fn law_region_text(w: WeakRegions, regions: int, t: Seq<char>, confidence: u64)
    ensures
        cross_region_finding(w, regions, t, confidence).severity == Severity::High,
        cross_region_finding(w, regions, t, confidence).code == "prnu_cross_region_mismatch"@,
        cross_region_finding(w, regions, t, confidence).description == decimal_text(w.count as nat)
            + " of "@ + decimal_text(regions as nat)
            + " image regions show uncorrelated sensor noise residuals (min correlation "@ + t
            + " at region ["@ + decimal_text((w.region as int % 4) as nat) + ","@ + decimal_text(
            (w.region as int / 4) as nat,
        ) + "]) - possible splice from a different camera sensor"@,
        GRID_X == 4,
        GRID_Y == 3,
        LEAST_CORRELATION == 0x3FC3_3333_3333_3333,
{
}

/// Pixels are sampled one in every ten thousandth part of them: each sample is a pixel, the
/// first is the last of its part, and they are evenly spaced.
pub proof fn law_samples(pixels: int, k: int)
    requires
        0 <= pixels <= usize::MAX,
        0 <= k < samples_of(pixels).len(),
    ensures
        samples_of(pixels)[k] < pixels,
        pixels < 20_000 ==> samples_of(pixels).len() == pixels && samples_of(pixels)[k] == k,
        pixels >= 20_000 ==> samples_of(pixels)[0] == pixels / 10_000 - 1,
        k > 0 && pixels >= 20_000 ==> samples_of(pixels)[k] - samples_of(pixels)[k - 1] == pixels
            / 10_000,
        10_000 <= pixels ==> 10_000 <= samples_of(pixels).len() < 20_000,
{
    let s = sampling(pixels);
    let n = pixels / s;
    vstd::arithmetic::div_mod::lemma_fundamental_div_mod(pixels, s);
    vstd::arithmetic::div_mod::lemma_mod_bound(pixels, s);
    assert(0 <= (k + 1) * s - 1 < pixels) by (nonlinear_arith)
        requires
            0 <= k <= n - 1,
            s >= 1,
            s * n <= pixels,
    ;
    if k > 0 {
        assert(0 <= k * s - 1 && k * s == (k + 1) * s - s) by (nonlinear_arith)
            requires
                k > 0,
                s >= 1,
        ;
    }
    assert(0 <= s - 1 < pixels) by (nonlinear_arith)
        requires
            0 <= k <= n - 1,
            s >= 1,
            s * n <= pixels,
    ;
    assert((0 + 1) * s == s) by (nonlinear_arith);
    if pixels < 20_000 {
        assert(s == 1);
        assert(n == pixels) by (nonlinear_arith)
            requires
                s == 1,
                n == pixels / s,
        ;
        assert((k + 1) * s == k + 1) by (nonlinear_arith)
            requires
                s == 1,
        ;
    } else {
        assert(10_000 <= n < 20_000) by (nonlinear_arith)
            requires
                s >= 2,
                10_000 * s <= pixels < 10_000 * s + 10_000,
                pixels == s * n + pixels % s,
                0 <= pixels % s < s,
        ;
    }
}

} // verus!
