//! Edge-sharpness profiling.
//!
//! Natural edges from one lens share a blur width. Cut-paste makes unnaturally sharp
//! edges, feathered blends make unnaturally blurred ones. The width of an edge, its
//! gradient over its curvature, is computed in floating point by the caller.

use crate::finding::Finding;
use crate::finding::FindingView;
use crate::finding::Severity;
use crate::finding::plain_finding;
use crate::grid::pixel;
use crate::grid::px;
use crate::number::is_share_above;
use crate::number::share_above;
use crate::outliers::LEAST_SPREAD;
use crate::outliers::Outliers;
use crate::outliers::THREE;
use crate::outliers::carries_signal;
use crate::outliers::collects;
use crate::outliers::cover;
use crate::outliers::covering_region;
use crate::outliers::find_outliers;
use crate::outliers::has_signal;
use crate::outliers::outlier_severity;
use crate::outliers::severity_at;
use crate::robust::Scored;
use crate::robust::above;
use crate::robust::outliers;
use crate::select::lemma_which;
use crate::select::which;
use crate::share::Factor;
use crate::share::MAX_COUNT;
use crate::share::U50;
use crate::share::U85;
use crate::share::graded;
use crate::share::graded_of;
use crate::share::percent;
use crate::share::percent_text;
use crate::sobel::sobel;
use crate::sobel::squared;
use crate::sobel::squared_magnitude;
use crate::text::append_decimal;
use crate::text::decimal;
use crate::text::decimal_text;
use vstd::prelude::*;
use vstd::string::*;

verus! {

/// The edge-sharpness analyzer.
pub struct EdgeSharpnessAnalyzer;

/// The size of a block in pixels.
pub const SHARPNESS_BLOCK: usize = 32;

/// The Laplacian of an inner pixel.
pub open spec fn laplacian(g: Seq<u8>, w: int, x: int, y: int) -> int {
    pixel(g, w, x - 1, y) + pixel(g, w, x + 1, y) + pixel(g, w, x, y - 1) + pixel(g, w, x, y + 1)
        - 4 * pixel(g, w, x, y)
}

/// An edge pixel: its squared gradient magnitude and its absolute Laplacian.
#[derive(Debug, Clone, Copy, PartialEq, Eq, Structural)]
pub struct EdgeSample {
    pub squared: u32,
    pub laplacian: u32,
}

/// Pixel `k` of the inner 28 by 28 pixels of a block.
pub open spec fn inner_pixel(x0: int, y0: int, k: int) -> (int, int) {
    (x0 + 2 + k % 28, y0 + 2 + k / 28)
}

/// The edge pixels among the first `n` inner pixels of a block: gradient magnitude of
/// 38.25 or more, at least two pixels from the right and lower borders of the image.
pub open spec fn edge_samples(
    g: Seq<u8>,
    w: int,
    h: int,
    x0: int,
    y0: int,
    n: nat,
) -> Seq<EdgeSample>
    decreases n,
{
    if n == 0 {
        Seq::empty()
    } else {
        let rest = edge_samples(g, w, h, x0, y0, (n - 1) as nat);
        let p = inner_pixel(x0, y0, n - 1);
        if p.0 < w - 2 && p.1 < h - 2 && squared_magnitude(g, w, p.0, p.1) >= 1464 {
            rest.push(
                EdgeSample {
                    squared: squared_magnitude(g, w, p.0, p.1) as u32,
                    laplacian: crate::grid::abs(laplacian(g, w, p.0, p.1)) as u32,
                },
            )
        } else {
            rest
        }
    }
}

/// The finding on blocks with deviating edges.
pub open spec fn edge_finding(
    sharp: bool,
    blocks: Seq<usize>,
    blocks_x: int,
    peak: i64,
    z: Seq<char>,
    confidence: u64,
) -> FindingView {
    FindingView {
        region: Some(cover(blocks, blocks_x, 32)),
        ..plain_finding(
            "edge_sharpness"@,
            if sharp {
                "edge_sharpness_unnaturally_sharp"@
            } else {
                "edge_sharpness_unnaturally_blurred"@
            },
            decimal_text(blocks.len()) + " blocks have edges "@ + z + (if sharp {
                "× sharper than image median - possible cut-paste splice with hard boundaries"@
            } else {
                "× blurrier than image median - possible feathered splice or localized blur"@
            }),
            severity_at(peak),
            confidence,
        )
    }
}

/// Deviating edges are frequent: more than five blocks, and more than a tenth of the active
/// ones.
pub open spec fn is_bimodal(sharp: int, blurred: int, active: int) -> bool {
    sharp + blurred > 5 && share_above(sharp + blurred, active, 10, 100)
}

/// The finding on frequent deviating edges.
pub open spec fn bimodal_finding(
    sharp: int,
    blurred: int,
    active: int,
) -> FindingView {
    plain_finding(
        "edge_sharpness"@,
        "edge_sharpness_bimodal"@,
        percent_text((sharp + blurred) as nat, active as nat)
            + "% of blocks have anomalous edge sharpness ("@ + decimal_text(sharp as nat)
            + " sharp, "@ + decimal_text(blurred as nat)
            + " blurred) - image contains regions processed with different blur/sharpening"@,
        Severity::High,
        graded_of(
            U50,
            (sharp + blurred) as nat,
            active as nat,
            Factor { num: 1, den: 1 },
            U85,
        ),
    )
}

impl EdgeSharpnessAnalyzer {
    /// Whether an image is large enough to be analyzed.
    pub fn large_enough(&self, w: usize, h: usize) -> (r: bool)
        ensures
            r == (w >= 128 && h >= 128),
    {
        w >= 128 && h >= 128
    }

    /// Whether so many blocks, whose values have a spread with this key, are scored.
    pub fn carries_signal(&self, blocks: usize, spread: i64) -> (r: bool)
        ensures
            r == has_signal(blocks as int, spread, 9, LEAST_SPREAD),
    {
        carries_signal(blocks, spread, 9, LEAST_SPREAD)
    }

    /// The blocks that score above three, if there are at least two.
    pub fn stand_out(&self, s: &Vec<Scored>) -> (r: Option<Outliers>)
        ensures
            collects(r, s@, THREE, 2),
    {
        find_outliers(s, THREE, 2)
    }

    /// How many blocks score above three.
    pub fn count_anomalous(&self, s: &Vec<Scored>) -> (r: usize)
        ensures
            r == outliers(s@, THREE, s@.len()).len(),
            r <= s.len(),
    {
        above(s, THREE).len()
    }

    /// The edge pixels of a block.
    pub fn block_samples(&self, gray: &[u8], w: usize, h: usize, x0: usize, y0: usize) -> (r: Vec<
        EdgeSample,
    >)
        requires
            gray.len() == w * h,
            x0 + 32 <= w,
            y0 + 32 <= h,
        ensures
            r@ == edge_samples(gray@, w as int, h as int, x0 as int, y0 as int, 784),
    {
        let mut r: Vec<EdgeSample> = Vec::new();
        let mut k: usize = 0;
        while k < 784
            invariant
                k <= 784,
                gray.len() == w * h,
                x0 + 32 <= w,
                y0 + 32 <= h,
                r@ == edge_samples(gray@, w as int, h as int, x0 as int, y0 as int, k as nat),
            decreases 784 - k,
        {
            let x: usize = x0 + 2 + k % 28;
            let y: usize = y0 + 2 + k / 28;
            if x < w - 2 && y < h - 2 {
                let g = sobel(gray, w, h, x, y);
                let n: i64 = squared(g);
                if n >= 1464 {
                    let l: i64 = px(gray, w, h, x - 1, y) + px(gray, w, h, x + 1, y) + px(
                        gray,
                        w,
                        h,
                        x,
                        y - 1,
                    ) + px(gray, w, h, x, y + 1) - 4 * px(gray, w, h, x, y);
                    let a: i64 = if l < 0 {
                        -l
                    } else {
                        l
                    };
                    r.push(EdgeSample { squared: n as u32, laplacian: a as u32 });
                }
            }
            k += 1;
        }
        r
    }

    /// Whether a block has enough edge pixels: ten or more.
    pub fn is_active(&self, edges: usize) -> (r: bool)
        ensures
            r == (edges >= 10),
    {
        edges >= 10
    }

    /// Reports blocks with unnaturally sharp or blurred edges. `z` is the highest score with
    /// one decimal.
    pub fn report_edges(
        &self,
        sharp: bool,
        blocks: &Vec<usize>,
        blocks_x: usize,
        blocks_y: usize,
        peak: i64,
        z: &str,
        confidence: u64,
    ) -> (r: Finding)
        requires
            blocks.len() > 0,
            forall|i: int| 0 <= i < blocks.len() ==> #[trigger] blocks@[i] < blocks_x * blocks_y,
            blocks_x * 32 <= u32::MAX,
            blocks_y * 32 <= u32::MAX,
        ensures
            r@ == edge_finding(sharp, blocks@, blocks_x as int, peak, z@, confidence),
    {
        let mut s = decimal(blocks.len() as u64);
        s.append(" blocks have edges ");
        s.append(z);
        s.append(
            if sharp {
                "× sharper than image median - possible cut-paste splice with hard boundaries"
            } else {
                "× blurrier than image median - possible feathered splice or localized blur"
            },
        );
        let code = if sharp {
            "edge_sharpness_unnaturally_sharp"
        } else {
            "edge_sharpness_unnaturally_blurred"
        };
        let region = covering_region(blocks, blocks_x, blocks_y, 32);
        Finding::new("edge_sharpness", code, s, outlier_severity(peak), confidence).with_region(
            region,
        )
    }

    /// Reports that deviating edges are frequent, if they are.
    pub fn report_bimodal(
        &self,
        sharp: usize,
        blurred: usize,
        active: usize,
    ) -> (r: Option<Finding>)
        requires
            sharp + blurred <= active <= MAX_COUNT,
        ensures
            match r {
                Some(f) => is_bimodal(sharp as int, blurred as int, active as int) && f@
                    == bimodal_finding(sharp as int, blurred as int, active as int),
                None => !is_bimodal(sharp as int, blurred as int, active as int),
            },
    {
        let total: usize = sharp + blurred;
        if total > 5 && is_share_above(total as u64, active as u64, 10, 100) {
            let mut s = percent(total as u64, active as u64);
            s.append("% of blocks have anomalous edge sharpness (");
            append_decimal(&mut s, sharp as u64);
            s.append(" sharp, ");
            append_decimal(&mut s, blurred as u64);
            s.append(
                " blurred) - image contains regions processed with different blur/sharpening",
            );
            let whole = Factor { num: 1, den: 1 };
            let sure: u64 = graded(U50, total as u64, active as u64, whole, U85);
            Some(
                Finding::new("edge_sharpness", "edge_sharpness_bimodal", s, Severity::High, sure),
            )
        } else {
            None
        }
    }
}

/// A Laplacian is what the four neighbours of a pixel exceed it by; none on a flat patch.
pub proof fn law_laplacian(g: Seq<u8>, w: int, x: int, y: int)
    ensures
        laplacian(g, w, x, y) == (g[y * w + (x - 1)] - g[y * w + x]) + (g[y * w + (x + 1)] - g[y * w
            + x]) + (g[(y - 1) * w + x] - g[y * w + x]) + (g[(y + 1) * w + x] - g[y * w + x]),
{
}

/// The edges of a block are its pixels two from its border and the image's or more with a
/// squared gradient of 1464 or more, row by row.
pub proof fn law_edge_samples(g: Seq<u8>, w: int, h: int, x0: int, y0: int, n: nat)
    ensures
        edge_samples(g, w, h, x0, y0, n) == which(n, |i: int| x0 + i % 28 + 4 < w && y0 + i / 28 + 4 < h && squared_magnitude(g, w, x0 + i % 28 + 2, y0 + i / 28 + 2) > 1463).map_values(|i: int| (EdgeSample { squared: squared_magnitude(g, w, x0 + i % 28 + 2, y0 + i / 28 + 2) as u32, laplacian: (if laplacian(g, w, x0 + i % 28 + 2, y0 + i / 28 + 2) >= 0 { laplacian(g, w, x0 + i % 28 + 2, y0 + i / 28 + 2) } else { 0 - laplacian(g, w, x0 + i % 28 + 2, y0 + i / 28 + 2) }) as u32 })),
    decreases n,
{
    let p = |i: int| x0 + i % 28 + 4 < w && y0 + i / 28 + 4 < h && squared_magnitude(g, w, x0 + i % 28 + 2, y0 + i / 28 + 2) > 1463;
    let f = |i: int| (EdgeSample { squared: squared_magnitude(g, w, x0 + i % 28 + 2, y0 + i / 28 + 2) as u32, laplacian: (if laplacian(g, w, x0 + i % 28 + 2, y0 + i / 28 + 2) >= 0 { laplacian(g, w, x0 + i % 28 + 2, y0 + i / 28 + 2) } else { 0 - laplacian(g, w, x0 + i % 28 + 2, y0 + i / 28 + 2) }) as u32 });
    lemma_which(0, p);
    if n > 0 {
        let lower = (n - 1) as nat;
        law_edge_samples(g, w, h, x0, y0, lower);
        lemma_which(lower, p);
        assert(which(n, p).map_values(f) =~= if p(lower as int) {
            which(lower, p).map_values(f).push(f(lower as int))
        } else {
            which(lower, p).map_values(f)
        });
    } else {
        assert(which(0, p).map_values(f) =~= Seq::<EdgeSample>::empty());
    }
}

/// Sharp and blurred blocks are told by their own codes; both together where they are six or more
/// and above a tenth of all.
pub proof fn law_sharpness_findings(
    sharp: int,
    blurred: int,
    active: int,
    b: Seq<usize>,
    bx: int,
    peak: i64,
    z: Seq<char>,
    confidence: u64,
)
    ensures
        is_bimodal(sharp, blurred, active) <==> sharp + blurred >= 6 && share_above(
            sharp + blurred,
            active,
            10,
            100,
        ),
        is_bimodal(sharp, blurred, active) == is_bimodal(blurred, sharp, active),
        edge_finding(true, b, bx, peak, z, confidence).code == "edge_sharpness_unnaturally_sharp"@,
        edge_finding(false, b, bx, peak, z, confidence).code == "edge_sharpness_unnaturally_blurred"@,
        edge_finding(true, b, bx, peak, z, confidence).severity == severity_at(peak),
        edge_finding(true, b, bx, peak, z, confidence).region == Some(cover(b, bx, 32)),
        bimodal_finding(sharp, blurred, active).code == "edge_sharpness_bimodal"@,
        bimodal_finding(sharp, blurred, active).severity == Severity::High,
        SHARPNESS_BLOCK == 32,
{
}

} // verus!
