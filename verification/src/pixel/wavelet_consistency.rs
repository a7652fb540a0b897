//! Wavelet subband consistency.
//!
//! Measures the energy distribution across Haar subbands per block: inpainting
//! suppresses diagonal detail, resampling shifts the detail ratio, splices shift the
//! directional balance. The energies are computed in floating point by the caller.

use crate::finding::Finding;
use crate::finding::FindingView;
use crate::finding::plain_finding;
use crate::grid::active_count;
use crate::grid::cell;
use crate::grid::count_active;
use crate::outliers::Compared;
use crate::outliers::Outliers;
use crate::outliers::THREE;
use crate::outliers::block_box;
use crate::outliers::block_region;
use crate::outliers::carries_signal;
use crate::outliers::collects;
use crate::outliers::compare_blocks;
use crate::outliers::comparisons;
use crate::outliers::find_outliers;
use crate::outliers::has_signal;
use crate::outliers::mark_active;
use crate::outliers::marks;
use crate::outliers::outlier_severity;
use crate::outliers::pairings;
use crate::outliers::severity_at;
use crate::robust::Scored;
use crate::robust::outliers;
use crate::text::decimal;
use crate::text::decimal_text;
use vstd::prelude::*;
use vstd::string::*;

verus! {

/// The wavelet-consistency analyzer.
pub struct WaveletConsistencyAnalyzer;

/// The size of a block in pixels.
pub const WAVELET_BLOCK: usize = 32;

/// Above this detail energy a block is active, as a key: 1e-8.
pub const MIN_DETAIL: i64 = 0x3E45_798E_E230_8C3A;

/// A property of a block's subband energies.
#[derive(Debug, Clone, Copy, PartialEq, Eq, Structural)]
pub enum Metric {
    /// The share of diagonal detail.
    Diagonal,
    /// Detail relative to the approximation.
    Detail,
    /// The balance of horizontal and vertical detail.
    Direction,
}

/// The code of the finding on a metric.
pub open spec fn metric_code(m: Metric) -> Seq<char> {
    match m {
        Metric::Diagonal => "wavelet_hh_suppression"@,
        Metric::Detail => "wavelet_detail_anomaly"@,
        Metric::Direction => "wavelet_directional_anomaly"@,
    }
}

/// The name of a metric.
pub open spec fn metric_name(m: Metric) -> Seq<char> {
    match m {
        Metric::Diagonal => "HH (diagonal detail) energy suppression"@,
        Metric::Detail => "detail-to-approximation energy ratio anomaly"@,
        Metric::Direction => "directional texture balance anomaly"@,
    }
}

/// What outliers of a metric point at.
pub open spec fn metric_implication(m: Metric) -> Seq<char> {
    match m {
        Metric::Diagonal => "possible AI inpainting or diffusion model artifacts"@,
        Metric::Detail => "possible resampling or frequency content manipulation"@,
        Metric::Direction => "possible splice from source with different texture orientation"@,
    }
}

/// The finding on outliers of a metric.
pub open spec fn wavelet_finding(
    m: Metric,
    count: int,
    z: Seq<char>,
    peak: i64,
    strongest: int,
    blocks_x: int,
    confidence: u64,
) -> FindingView {
    FindingView {
        region: Some(block_box(strongest, blocks_x, 32)),
        ..plain_finding(
            "wavelet_consistency"@,
            metric_code(m),
            decimal_text(count as nat) + " blocks show "@ + metric_name(m) + " (z-score "@ + z
                + ") - "@ + metric_implication(m),
            severity_at(peak),
            confidence,
        )
    }
}

/// Two by two samples: `a` and `b` above `c` and `d`.
#[derive(Debug, Clone, Copy, PartialEq, Eq, Structural)]
pub struct Quad {
    pub a: u8,
    pub b: u8,
    pub c: u8,
    pub d: u8,
}

/// The two by two samples whose top left one is at (`x`, `y`).
pub open spec fn quad_at(gray: Seq<u8>, w: int, x: int, y: int) -> Quad {
    Quad {
        a: gray[y * w + x],
        b: gray[y * w + (x + 1)],
        c: gray[(y + 1) * w + x],
        d: gray[(y + 1) * w + (x + 1)],
    }
}

/// The samples of a block, two by two and row by row: each gives one coefficient of every
/// subband.
pub open spec fn quads(gray: Seq<u8>, w: int, x0: int, y0: int) -> Seq<Quad> {
    Seq::new(256, |i: int| quad_at(gray, w, x0 + 2 * (i % 16), y0 + 2 * (i / 16)))
}

/// The least spread of deviations that outliers are looked for among, as a key: 1e-8.
pub const LEAST_DEVIATION: i64 = 0x3E45_798E_E230_8C3A;

impl WaveletConsistencyAnalyzer {
    /// Whether an image is large enough to be analyzed.
    pub fn large_enough(&self, w: usize, h: usize) -> (r: bool)
        ensures
            r == (w >= 128 && h >= 128),
    {
        w >= 128 && h >= 128
    }

    /// Whether so many blocks, whose values have a spread with this key, are scored.
    pub fn carries_signal(&self, blocks: usize, spread: i64) -> (r: bool)
        ensures
            r == has_signal(blocks as int, spread, 9, LEAST_DEVIATION),
    {
        carries_signal(blocks, spread, 9, LEAST_DEVIATION)
    }

    /// The blocks that score above three, if there are at least three.
    pub fn stand_out(&self, s: &Vec<Scored>) -> (r: Option<Outliers>)
        ensures
            collects(r, s@, THREE, 3),
    {
        find_outliers(s, THREE, 3)
    }

    /// The active blocks that have at least three active neighbours within two blocks, and
    /// those neighbours.
    pub fn comparable(&self, active: &Vec<bool>, blocks_x: usize, blocks_y: usize) -> (r: Vec<
        Compared,
    >)
        requires
            active.len() == blocks_x * blocks_y,
        ensures
            pairings(r@) == comparisons(active@, blocks_x as int, 2, 3, active@.len()),
    {
        compare_blocks(active, blocks_x, blocks_y, 2, 3)
    }

    /// Whether enough blocks are active for them to be compared.
    pub fn enough_active(&self, active: &Vec<bool>) -> (r: bool)
        ensures
            r == (count_active(active@, active@.len()) >= 9),
    {
        active_count(active) >= 9
    }

    /// Cuts a block into two by two samples.
    pub fn block_quads(&self, gray: &[u8], w: usize, h: usize, x0: usize, y0: usize) -> (r: Vec<Quad>)
        requires
            gray.len() == w * h,
            x0 + 32 <= w,
            y0 + 32 <= h,
        ensures
            r@ == quads(gray@, w as int, x0 as int, y0 as int),
    {
        let mut r: Vec<Quad> = Vec::new();
        let mut i: usize = 0;
        while i < 256
            invariant
                i <= 256,
                gray.len() == w * h,
                x0 + 32 <= w,
                y0 + 32 <= h,
                r@ =~= quads(gray@, w as int, x0 as int, y0 as int).take(i as int),
            decreases 256 - i,
        {
            let x: usize = x0 + 2 * (i % 16);
            let y: usize = y0 + 2 * (i / 16);
            let a: u8 = gray[cell(w, h, x, y)];
            let b: u8 = gray[cell(w, h, x + 1, y)];
            let c: u8 = gray[cell(w, h, x, y + 1)];
            let d: u8 = gray[cell(w, h, x + 1, y + 1)];
            r.push(Quad { a, b, c, d });
            i += 1;
        }
        assert(r@ =~= quads(gray@, w as int, x0 as int, y0 as int));
        r
    }

    /// Marks the blocks that hold detail. The detail energies are keys.
    pub fn active_blocks(&self, details: &Vec<i64>) -> (r: Vec<bool>)
        ensures
            r@ == marks(details@, MIN_DETAIL),
    {
        mark_active(details, MIN_DETAIL)
    }

    /// Reports outliers of a metric: `count` blocks with a highest score of `peak`, which is
    /// `z` with one decimal, reached by block `strongest`.
    pub fn report(
        &self,
        m: Metric,
        count: usize,
        z: &str,
        peak: i64,
        strongest: usize,
        blocks_x: usize,
        blocks_y: usize,
        confidence: u64,
    ) -> (r: Finding)
        requires
            strongest < blocks_x * blocks_y,
            blocks_x * 32 <= u32::MAX,
            blocks_y * 32 <= u32::MAX,
        ensures
            r@ == wavelet_finding(
                m,
                count as int,
                z@,
                peak,
                strongest as int,
                blocks_x as int,
                confidence,
            ),
    {
        let code = match m {
            Metric::Diagonal => "wavelet_hh_suppression",
            Metric::Detail => "wavelet_detail_anomaly",
            Metric::Direction => "wavelet_directional_anomaly",
        };
        let name = match m {
            Metric::Diagonal => "HH (diagonal detail) energy suppression",
            Metric::Detail => "detail-to-approximation energy ratio anomaly",
            Metric::Direction => "directional texture balance anomaly",
        };
        let implication = match m {
            Metric::Diagonal => "possible AI inpainting or diffusion model artifacts",
            Metric::Detail => "possible resampling or frequency content manipulation",
            Metric::Direction => "possible splice from source with different texture orientation",
        };
        let mut s = decimal(count as u64);
        s.append(" blocks show ");
        s.append(name);
        s.append(" (z-score ");
        s.append(z);
        s.append(") - ");
        s.append(implication);
        Finding::new(
            "wavelet_consistency",
            code,
            s,
            outlier_severity(peak),
            confidence,
        ).with_region(block_region(strongest, blocks_x, blocks_y, 32))
    }
}

/// Each metric has its own code.
pub proof fn law_wavelet_finding(
    m: Metric,
    count: int,
    z: Seq<char>,
    peak: i64,
    strongest: int,
    blocks_x: int,
    confidence: u64,
)
    ensures
        ({
            let f = wavelet_finding(m, count, z, peak, strongest, blocks_x, confidence);
            &&& f.code == match m {
                Metric::Diagonal => "wavelet_hh_suppression"@,
                Metric::Detail => "wavelet_detail_anomaly"@,
                Metric::Direction => "wavelet_directional_anomaly"@,
            }
            &&& f.severity == severity_at(peak)
            &&& f.confidence == confidence
            &&& f.region == Some(block_box(strongest, blocks_x, 32))
        }),
        WAVELET_BLOCK == 32,
        MIN_DETAIL == 0x3E45_798E_E230_8C3A,
        LEAST_DEVIATION == 0x3E45_798E_E230_8C3A,
{
}

/// A block is cut into squares of two by two, sixteen to a row; each pixel is in one of them.
pub proof fn law_quads(g: Seq<u8>, w: int, x0: int, y0: int, i: int, j: int)
    requires
        0 <= i < 16,
        0 <= j < 16,
    ensures
        quads(g, w, x0, y0).len() == 256,
        ({
            let q = quads(g, w, x0, y0)[16 * j + i];
            &&& q.a == g[(y0 + 2 * j) * w + (x0 + 2 * i)]
            &&& q.b == g[(y0 + 2 * j) * w + (x0 + 2 * i + 1)]
            &&& q.c == g[(y0 + 2 * j + 1) * w + (x0 + 2 * i)]
            &&& q.d == g[(y0 + 2 * j + 1) * w + (x0 + 2 * i + 1)]
        }),
{
    assert((16 * j + i) % 16 == i && (16 * j + i) / 16 == j);
}

} // verus!
