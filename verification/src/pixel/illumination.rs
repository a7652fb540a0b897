//! Illumination-direction estimation.
//!
//! The light direction is estimated per block and per intensity band; disagreement across
//! blocks or bands indicates compositing from different lighting. Directions are computed
//! in floating point by the caller from the gradients collected here.

use crate::finding::Finding;
use crate::finding::FindingView;
use crate::finding::Severity;
use crate::finding::plain_finding;
use crate::grid::pixel;
use crate::grid::px;
use crate::number::is_share_above;
use crate::number::share_above;
use crate::select::lemma_which;
use crate::select::which;
use crate::share::Factor;
use crate::share::MAX_COUNT;
use crate::share::POWER_54;
use crate::share::TWO_FIFTHS;
use crate::share::U45;
use crate::share::U80;
use crate::share::graded;
use crate::share::graded_of;
use crate::share::percent;
use crate::share::percent_text;
use crate::share::rest;
use crate::sobel::Gradient;
use crate::sobel::gradient_at;
use crate::sobel::sobel;
use crate::sobel::squared;
use crate::sobel::squared_magnitude;
use vstd::prelude::*;
use vstd::string::*;

verus! {

/// The illumination analyzer.
pub struct IlluminationAnalyzer;

/// The size of a block in pixels.
pub const ILLUMINATION_BLOCK: usize = 128;

/// Above this circular variance directions disagree, as a key: 0.3.
pub const DISAGREEMENT: i64 = 0x3FD3_3333_3333_3333;

/// Above this mean difference bands disagree, as a key: a sixth of pi.
pub const BAND_DIFFERENCE: i64 = 0x3FE0_C152_382D_7365;

/// Above this mean gradient magnitude an area has a direction, as a key: 5.0.
pub const MIN_STRENGTH: i64 = 0x4014_0000_0000_0000;

/// A pixel with a gradient: its sample and its gradient.
#[derive(Debug, Clone, Copy, PartialEq, Eq, Structural)]
pub struct LitPixel {
    pub sample: u8,
    pub gradient: Gradient,
}

/// The range of samples of band `b` of five.
pub open spec fn band(b: int) -> (int, int) {
    (51 * b, 51 * (b + 1) - 1)
}

/// The inner pixels of an area among the first `n` whose sample lies in `lo..=hi` and whose
/// gradient magnitude exceeds five.
pub open spec fn lit_pixels(
    gray: Seq<u8>,
    w: int,
    x0: int,
    y0: int,
    rw: int,
    lo: int,
    hi: int,
    n: nat,
) -> Seq<LitPixel>
    decreases n,
{
    if n == 0 {
        Seq::empty()
    } else {
        let rest = lit_pixels(gray, w, x0, y0, rw, lo, hi, (n - 1) as nat);
        let x = x0 + 1 + (n - 1) % (rw - 2);
        let y = y0 + 1 + (n - 1) / (rw - 2);
        let v = pixel(gray, w, x, y);
        if lo <= v <= hi && squared_magnitude(gray, w, x, y) > 25 {
            rest.push(LitPixel { sample: v as u8, gradient: gradient_at(gray, w, x, y) })
        } else {
            rest
        }
    }
}

/// Texts of a report on blocks.
pub struct BlockTexts {
    /// The dominant direction in degrees without decimals.
    pub direction: String,
    /// The circular variance with three decimals.
    pub variance: String,
    /// The Rayleigh probability with four decimals.
    pub probability: String,
}

/// The finding on blocks that disagree.
pub open spec fn block_disagreement(outliers: int, blocks: int, t: BlockTexts) -> FindingView {
    plain_finding(
        "illumination"@,
        "illumination_inconsistency"@,
        "Illumination direction inconsistency: "@ + percent_text(outliers as nat, blocks as nat)
            + "% of blocks deviate >45° from dominant direction ("@ + t.direction@
            + "°), circular variance "@ + t.variance@ + ", Rayleigh p="@ + t.probability@
            + " - indicates compositing from different lighting"@,
        Severity::High,
        graded_of(
            U45,
            outliers as nat,
            blocks as nat,
            Factor { num: TWO_FIFTHS, den: POWER_54 },
            U80,
        ),
    )
}

/// The finding on bands that disagree.
pub open spec fn band_disagreement(mean: Seq<char>, largest: Seq<char>, confidence: u64) -> FindingView {
    plain_finding(
        "illumination"@,
        "illumination_band_inconsistency"@,
        "Illumination direction varies "@ + mean + "° across intensity bands (max "@ + largest
            + "°) - surfaces at different brightness levels show incompatible lighting, suggesting compositing"@,
        Severity::High,
        confidence,
    )
}

/// Blocks disagree: the circular variance is large, and more than a tenth of them deviate.
pub open spec fn blocks_disagree(variance: i64, outliers: int, blocks: int) -> bool {
    variance > DISAGREEMENT && share_above(outliers, blocks, 10, 100)
}

impl IlluminationAnalyzer {
    /// Whether an image is large enough to be analyzed.
    pub fn large_enough(&self, w: usize, h: usize) -> (r: bool)
        ensures
            r == (w >= 256 && h >= 256),
    {
        w >= 256 && h >= 256
    }

    /// Whether so many lit blocks are enough for their directions to be compared.
    pub fn enough_blocks(&self, n: usize) -> (r: bool)
        ensures
            r == (n >= 4),
    {
        n >= 4
    }

    /// Whether so many lit bands are enough for their directions to be compared.
    pub fn enough_bands(&self, n: usize) -> (r: bool)
        ensures
            r == (n >= 2),
    {
        n >= 2
    }

    /// The range of samples of an intensity band.
    pub fn band_range(&self, b: u8) -> (r: (u8, u8))
        requires
            b < 5,
        ensures
            (r.0 as int, r.1 as int) == band(b as int),
    {
        (51 * b, 51 * (b + 1) - 1)
    }

    /// The inner pixels of an area whose sample lies in a range and that have a gradient.
    pub fn gradients(
        &self,
        gray: &[u8],
        w: usize,
        h: usize,
        x0: usize,
        y0: usize,
        rw: usize,
        rh: usize,
        lo: u8,
        hi: u8,
    ) -> (r: Vec<LitPixel>)
        requires
            gray.len() == w * h,
            rw >= 3,
            rh >= 3,
            x0 + rw <= w,
            y0 + rh <= h,
        ensures
            r@ == lit_pixels(
                gray@,
                w as int,
                x0 as int,
                y0 as int,
                rw as int,
                lo as int,
                hi as int,
                ((rw - 2) * (rh - 2)) as nat,
            ),
    {
        proof {
            assert((rw - 2) * (rh - 2) <= w * h) by (nonlinear_arith)
                requires
                    2 <= rw <= w,
                    2 <= rh <= h,
            ;
        }
        let total: usize = (rw - 2) * (rh - 2);
        let mut r: Vec<LitPixel> = Vec::new();
        let mut k: usize = 0;
        while k < total
            invariant
                k <= total,
                total == (rw - 2) * (rh - 2),
                gray.len() == w * h,
                rw >= 3,
                rh >= 3,
                x0 + rw <= w,
                y0 + rh <= h,
                r@ == lit_pixels(
                    gray@,
                    w as int,
                    x0 as int,
                    y0 as int,
                    rw as int,
                    lo as int,
                    hi as int,
                    k as nat,
                ),
            decreases total - k,
        {
            proof {
                crate::components::lemma_cell_coords(rw - 2, rh - 2, k as int);
            }
            let x: usize = x0 + 1 + k % (rw - 2);
            let y: usize = y0 + 1 + k / (rw - 2);
            let v: i64 = px(gray, w, h, x, y);
            if lo as i64 <= v && v <= hi as i64 {
                let g = sobel(gray, w, h, x, y);
                if squared(g) > 25 {
                    r.push(LitPixel { sample: v as u8, gradient: g });
                }
            }
            k += 1;
        }
        r
    }

    /// Whether an area yields an estimate: fifty pixels with a gradient.
    pub fn is_estimable(&self, pixels: usize) -> (r: bool)
        ensures
            r == (pixels >= 50),
    {
        pixels >= 50
    }

    /// Whether the estimate of a block counts: a clear direction from more than a hundred
    /// pixels. `strength` is the key of the mean gradient magnitude.
    pub fn block_counts(&self, strength: i64, pixels: usize) -> (r: bool)
        ensures
            r == (strength > MIN_STRENGTH && pixels > 100),
    {
        strength > MIN_STRENGTH && pixels > 100
    }

    /// Whether the estimate of a band counts: a clear direction from at least five hundred
    /// pixels.
    pub fn band_counts(&self, strength: i64, pixels: usize) -> (r: bool)
        ensures
            r == (strength > MIN_STRENGTH && pixels >= 500),
    {
        strength > MIN_STRENGTH && pixels >= 500
    }

    /// Reports blocks that disagree, if they do. `variance` is the key of the circular
    /// variance.
    pub fn analyze_block_consistency(
        &self,
        variance: i64,
        outliers: usize,
        blocks: usize,
        t: &BlockTexts,
    ) -> (r: Option<Finding>)
        requires
            outliers <= blocks <= MAX_COUNT,
        ensures
            match r {
                Some(f) => blocks_disagree(variance, outliers as int, blocks as int) && f@
                    == block_disagreement(outliers as int, blocks as int, *t),
                None => !blocks_disagree(variance, outliers as int, blocks as int),
            },
    {
        if variance > DISAGREEMENT && is_share_above(outliers as u64, blocks as u64, 10, 100) {
            let mut s = "Illumination direction inconsistency: ".to_string();
            let share = percent(outliers as u64, blocks as u64);
            s.append(share.as_str());
            s.append("% of blocks deviate >45° from dominant direction (");
            s.append(t.direction.as_str());
            s.append("°), circular variance ");
            s.append(t.variance.as_str());
            s.append(", Rayleigh p=");
            s.append(t.probability.as_str());
            s.append(" - indicates compositing from different lighting");
            let factor = Factor { num: TWO_FIFTHS, den: POWER_54 };
            let sure: u64 = graded(U45, outliers as u64, blocks as u64, factor, U80);
            Some(
                Finding::new(
                    "illumination",
                    "illumination_inconsistency",
                    s,
                    Severity::High,
                    sure,
                ),
            )
        } else {
            None
        }
    }

    /// Reports bands that disagree, if they do. `difference` is the key of their mean
    /// difference; `mean` and `largest` are differences in degrees without decimals.
    pub fn analyze_band_consistency(
        &self,
        difference: i64,
        mean: &str,
        largest: &str,
        confidence: u64,
    ) -> (r: Option<Finding>)
        ensures
            match r {
                Some(f) => difference > BAND_DIFFERENCE && f@ == band_disagreement(
                    mean@,
                    largest@,
                    confidence,
                ),
                None => difference <= BAND_DIFFERENCE,
            },
    {
        if difference > BAND_DIFFERENCE {
            let mut s = "Illumination direction varies ".to_string();
            s.append(mean);
            s.append("° across intensity bands (max ");
            s.append(largest);
            s.append(
                "°) - surfaces at different brightness levels show incompatible lighting, suggesting compositing",
            );
            Some(
                Finding::new(
                    "illumination",
                    "illumination_band_inconsistency",
                    s,
                    Severity::High,
                    confidence,
                ),
            )
        } else {
            None
        }
    }
}

/// The bands of brightness follow each other, 51 values each; five of them hold every value.
pub proof fn law_brightness_bands(b: int, v: u8)
    ensures
        band(b).1 - band(b).0 == 50,
        band(b + 1).0 == band(b).1 + 1,
        band(0).0 == 0,
        band(4).1 == 254,
        band(b).0 <= v <= band(b).1 <==> v as int / 51 == b,
{
}

/// The lit pixels of an area are those of a brightness with a gradient above five, its
/// border left out.
pub proof fn law_lit_pixels(gray: Seq<u8>, w: int, x0: int, y0: int, rw: int, lo: int, hi: int, n: nat)
    ensures
        lit_pixels(gray, w, x0, y0, rw, lo, hi, n) == which(n, |i: int| gray[(y0 + i / (rw - 2) + 1) * w + (x0 + i % (rw - 2) + 1)] >= lo && hi >= gray[(y0 + i / (rw - 2) + 1) * w + (x0 + i % (rw - 2) + 1)] && squared_magnitude(gray, w, x0 + i % (rw - 2) + 1, y0 + i / (rw - 2) + 1) >= 26).map_values(|i: int| (LitPixel { sample: gray[(y0 + i / (rw - 2) + 1) * w + (x0 + i % (rw - 2) + 1)], gradient: gradient_at(gray, w, x0 + i % (rw - 2) + 1, y0 + i / (rw - 2) + 1) })),
    decreases n,
{
    let p = |i: int| gray[(y0 + i / (rw - 2) + 1) * w + (x0 + i % (rw - 2) + 1)] >= lo && hi >= gray[(y0 + i / (rw - 2) + 1) * w + (x0 + i % (rw - 2) + 1)] && squared_magnitude(gray, w, x0 + i % (rw - 2) + 1, y0 + i / (rw - 2) + 1) >= 26;
    let f = |i: int| (LitPixel { sample: gray[(y0 + i / (rw - 2) + 1) * w + (x0 + i % (rw - 2) + 1)], gradient: gradient_at(gray, w, x0 + i % (rw - 2) + 1, y0 + i / (rw - 2) + 1) });
    lemma_which(0, p);
    if n > 0 {
        let lower = (n - 1) as nat;
        law_lit_pixels(gray, w, x0, y0, rw, lo, hi, lower);
        lemma_which(lower, p);
        assert(which(n, p).map_values(f) =~= if p(lower as int) {
            which(lower, p).map_values(f).push(f(lower as int))
        } else {
            which(lower, p).map_values(f)
        });
    } else {
        assert(which(0, p).map_values(f) =~= Seq::<LitPixel>::empty());
    }
}

/// Blocks disagree above a variance of three tenths where more than a tenth of them are off.
pub proof fn law_illumination_findings(
    variance: i64,
    outliers: int,
    blocks: int,
    t: BlockTexts,
    m: Seq<char>,
    l: Seq<char>,
    confidence: u64,
)
    ensures
        blocks_disagree(variance, outliers, blocks) <==> variance > 0x3FD3_3333_3333_3333 && share_above(
            outliers,
            blocks,
            10,
            100,
        ),
        block_disagreement(outliers, blocks, t).code == "illumination_inconsistency"@,
        block_disagreement(outliers, blocks, t).severity == Severity::High,
        band_disagreement(m, l, confidence).code == "illumination_band_inconsistency"@,
        band_disagreement(m, l, confidence).severity == Severity::High,
        band_disagreement(m, l, confidence).confidence == confidence,
        ILLUMINATION_BLOCK == 128,
        BAND_DIFFERENCE == 0x3FE0_C152_382D_7365,
        MIN_STRENGTH == 0x4014_0000_0000_0000,
{
}

} // verus!
