//! CFA / demosaicing artifact analysis.
//!
//! Cameras sample one color per pixel (Bayer CFA) and interpolate the rest, which
//! leaves periodic peaks in the spectrum of the interpolation residual. Absent peaks
//! tell that an image was not captured by a camera; blocks without peaks, or with a
//! different best-fit pattern, tell of editing. The spectrum is computed by the caller
//! from the residuals.

use crate::bits::P65;
use crate::bits::P70;
use crate::bits::P75;
use crate::components::lemma_cell_coords;
use crate::finding::Finding;
use crate::finding::FindingView;
use crate::finding::Severity;
use crate::finding::group_values;
use crate::finding::plain_finding;
use crate::finding::values;
use crate::grid::imin;
use crate::grid::px3;
use crate::number::is_share_above;
use crate::number::share_above;
use crate::pixel::splice_boundary::green_residual4;
use crate::raster::Frame;
use crate::raster::area;
use crate::raster::resizable;
use crate::raster::rgb_resampled;
use crate::raster::working_rgb;
use crate::select::how_many;
use crate::select::lemma_which;
use crate::share::MAX_COUNT;
use crate::share::percent;
use crate::share::percent_text;
use crate::share::rest;
use vstd::prelude::*;
use vstd::string::*;

verus! {

/// Cap on the pixel count of the image that is analyzed.
pub const CFA_PIXELS: u64 = 500_000;

/// The CFA analyzer.
pub struct CfaAnalyzer;

/// The size of a block in pixels.
pub const CFA_BLOCK: usize = 64;

/// Below this mean peak strength there are no artifacts, as a key: 0.3 times 3.0.
pub const NO_ARTIFACTS: i64 = 0x3FEC_CCCC_CCCC_CCCC;

/// From this peak strength on a block's pattern counts, as a key: 1.5.
pub const PATTERN_STRENGTH: i64 = 0x3FF8_0000_0000_0000;

/// Above this coefficient of variation peak strengths are inconsistent, as a key: 0.4.
pub const STRENGTH_VARIATION: i64 = 0x3FD9_9999_9999_999A;

/// The arrangement of the colors of a sensor.
#[derive(Debug, Clone, Copy, PartialEq, Eq, Structural)]
pub enum BayerPattern {
    Rggb,
    Bggr,
    Grbg,
    Gbrg,
}

/// The channel (0 red, 1 green, 2 blue) that a sensor samples at a row and a column, each
/// modulo two.
pub open spec fn sampled_channel(p: BayerPattern, row: int, col: int) -> int {
    match p {
        BayerPattern::Rggb => row + col,
        BayerPattern::Bggr => 2 - row - col,
        BayerPattern::Grbg => 1 + row - col,
        BayerPattern::Gbrg => 1 - row + col,
    }
}

impl BayerPattern {
    /// All patterns.
    pub fn all() -> (r: [BayerPattern; 4])
        ensures
            r@ == seq![BayerPattern::Rggb, BayerPattern::Bggr, BayerPattern::Grbg, BayerPattern::Gbrg],
    {
        let r: [BayerPattern; 4] = [
            BayerPattern::Rggb,
            BayerPattern::Bggr,
            BayerPattern::Grbg,
            BayerPattern::Gbrg,
        ];
        proof {
            assert(r@ =~= seq![
                BayerPattern::Rggb,
                BayerPattern::Bggr,
                BayerPattern::Grbg,
                BayerPattern::Gbrg,
            ]);
        }
        r
    }

    /// The channel that is sampled at a row and a column, each modulo two.
    pub fn channel_at(&self, row_mod2: usize, col_mod2: usize) -> (r: usize)
        requires
            row_mod2 < 2,
            col_mod2 < 2,
        ensures
            r == sampled_channel(*self, row_mod2 as int, col_mod2 as int),
            r < 3,
    {
        match self {
            BayerPattern::Rggb => row_mod2 + col_mod2,
            BayerPattern::Bggr => 2 - row_mod2 - col_mod2,
            BayerPattern::Grbg => 1 + row_mod2 - col_mod2,
            BayerPattern::Gbrg => 1 + col_mod2 - row_mod2,
        }
    }

    /// The name of a pattern.
    pub fn name(&self) -> (r: &'static str)
        ensures
            r@ == pattern_name(*self),
    {
        match self {
            BayerPattern::Rggb => "Rggb",
            BayerPattern::Bggr => "Bggr",
            BayerPattern::Grbg => "Grbg",
            BayerPattern::Gbrg => "Gbrg",
        }
    }
}

/// The name of a pattern.
pub open spec fn pattern_name(p: BayerPattern) -> Seq<char> {
    match p {
        BayerPattern::Rggb => "Rggb"@,
        BayerPattern::Bggr => "Bggr"@,
        BayerPattern::Grbg => "Grbg"@,
        BayerPattern::Gbrg => "Gbrg"@,
    }
}

/// In every two by two cell of a pattern two pixels are green, one is red and one is blue.
pub proof fn law_pattern_complete(p: BayerPattern)
    ensures
        sampled_channel(p, 0, 0) + sampled_channel(p, 0, 1) + sampled_channel(p, 1, 0)
            + sampled_channel(p, 1, 1) == 4,
        sampled_channel(p, 0, 0) != 1 <==> sampled_channel(p, 0, 1) == 1,
        sampled_channel(p, 0, 0) == 1 <==> sampled_channel(p, 1, 1) == 1,
        sampled_channel(p, 0, 1) == 1 <==> sampled_channel(p, 1, 0) == 1,
{
}

/// Four times the difference of each pixel's green sample from the mean of its four
/// neighbours, in an area of `bw` by `bh` pixels; zero on the border of the area.
pub open spec fn area_residual(
    rgb: Seq<u8>,
    w: int,
    x0: int,
    y0: int,
    bw: int,
    bh: int,
) -> Seq<i64> {
    Seq::new(
        (bw * bh) as nat,
        |i: int|
            if 1 <= i % bw < bw - 1 && 1 <= i / bw < bh - 1 {
                green_residual4(rgb, w, x0 + i % bw, y0 + i / bw) as i64
            } else {
                0
            },
    )
}

/// What is known of a block: the strength of its spectral peak, as a key, and the pattern
/// that fits it best.
#[derive(Debug, Clone, Copy, PartialEq, Eq, Structural)]
pub struct BlockCfaResult {
    pub peak_strength: i64,
    pub best_pattern: BayerPattern,
}

/// The pattern at a position of the list of all patterns.
pub open spec fn pattern_at(i: int) -> BayerPattern {
    if i == 0 {
        BayerPattern::Rggb
    } else if i == 1 {
        BayerPattern::Bggr
    } else if i == 2 {
        BayerPattern::Grbg
    } else {
        BayerPattern::Gbrg
    }
}

/// The best of the first `n` patterns: the first with the highest positive peak.
pub open spec fn best_of(peaks: Seq<i64>, n: nat) -> BlockCfaResult
    decreases n,
{
    if n == 0 {
        BlockCfaResult { peak_strength: 0, best_pattern: BayerPattern::Rggb }
    } else {
        let b = best_of(peaks, (n - 1) as nat);
        if peaks[n - 1] > b.peak_strength {
            BlockCfaResult { peak_strength: peaks[n - 1], best_pattern: pattern_at(n - 1) }
        } else {
            b
        }
    }
}

/// The blocks among the first `n` whose peak is weaker than a threshold.
pub open spec fn absent_count(b: Seq<BlockCfaResult>, threshold: i64, n: nat) -> nat
    decreases n,
{
    if n == 0 {
        0
    } else {
        absent_count(b, threshold, (n - 1) as nat) + if b[n - 1].peak_strength < threshold {
            1nat
        } else {
            0nat
        }
    }
}

/// The blocks among the first `n` with a clear peak and another pattern than the dominant
/// one.
pub open spec fn mismatch_count(b: Seq<BlockCfaResult>, dominant: BayerPattern, n: nat) -> nat
    decreases n,
{
    if n == 0 {
        0
    } else {
        mismatch_count(b, dominant, (n - 1) as nat) + if b[n - 1].peak_strength >= PATTERN_STRENGTH
            && b[n - 1].best_pattern != dominant {
            1nat
        } else {
            0nat
        }
    }
}

/// Statistics of the blocks' peak strengths, as keys.
#[derive(Debug, Clone, Copy, PartialEq, Eq, Structural)]
pub struct StrengthStats {
    /// Their mean.
    pub mean: i64,
    /// Their coefficient of variation.
    pub variation: i64,
    /// Two standard deviations below the mean, at least zero.
    pub low: i64,
}

/// Texts of a CFA report.
pub struct CfaTexts {
    /// The mean strength with two decimals.
    pub mean: String,
    /// The coefficient of variation with two decimals.
    pub variation: String,
}

/// The finding on an image without artifacts.
pub open spec fn no_artifacts_finding(t: CfaTexts) -> FindingView {
    plain_finding(
        "cfa"@,
        "no_cfa_artifacts"@,
        "No CFA demosaicing artifacts detected in Fourier domain (mean spectral peak ratio "@
            + t.mean@ + ") - image was likely not captured by a camera sensor"@,
        Severity::High,
        P65,
    )
}

/// The finding on blocks without peak.
pub open spec fn absent_finding(absent: nat, blocks: nat, t: CfaTexts) -> FindingView {
    plain_finding(
        "cfa"@,
        "cfa_peak_absent"@,
        "CFA spectral peak absent in "@ + percent_text(absent, blocks) + "% of blocks (CV="@ + t.variation@
            + ") - these regions lack demosaicing artifacts, indicating editing or compositing"@,
        Severity::High,
        P70,
    )
}

/// The finding on blocks with another pattern.
pub open spec fn mismatch_finding(
    mismatched: nat,
    blocks: nat,
    dominant: BayerPattern,
) -> FindingView {
    plain_finding(
        "cfa"@,
        "cfa_pattern_mismatch"@,
        "CFA Bayer pattern mismatch: "@ + percent_text(mismatched, blocks)
            + "% of blocks show a different demosaicing pattern than the dominant "@ + pattern_name(
            dominant,
        ) + " - regions may be spliced from a different camera"@,
        Severity::High,
        P75,
    )
}

/// The report on an image's CFA artifacts.
pub open spec fn cfa_findings(
    b: Seq<BlockCfaResult>,
    dominant: Option<BayerPattern>,
    s: StrengthStats,
    t: CfaTexts,
) -> Seq<FindingView> {
    if b.len() == 0 {
        Seq::empty()
    } else if s.mean < NO_ARTIFACTS {
        seq![no_artifacts_finding(t)]
    } else {
        (if s.variation > STRENGTH_VARIATION && share_above(
            absent_count(b, s.low, b.len()) as int,
            b.len() as int,
            5,
            100,
        ) {
            seq![absent_finding(absent_count(b, s.low, b.len()), b.len(), t)]
        } else {
            Seq::empty()
        }) + (match dominant {
            Some(d) => if share_above(
                mismatch_count(b, d, b.len()) as int,
                b.len() as int,
                5,
                100,
            ) {
                seq![mismatch_finding(mismatch_count(b, d, b.len()), b.len(), d)]
            } else {
                Seq::empty()
            },
            None => Seq::empty(),
        })
    }
}

impl CfaAnalyzer {
    /// The colours that are analyzed: resampled to `nw` by `nh` where the image is over the
    /// cap.
    pub fn working_image(&self, rgb: &[u8], w: u32, h: u32, nw: u32, nh: u32) -> (r: Frame)
        requires
            rgb@.len() == w * h * 3,
            w * h > CFA_PIXELS ==> resizable(w, h, nw, nh),
        ensures
            !r.monochrome,
            r.wf(),
            (r.width, r.height, r.samples@) == if w * h > CFA_PIXELS {
                (nw, nh, rgb_resampled(rgb@, w, h, nw, nh))
            } else {
                (w, h, rgb@)
            },
    {
        if area(w, h) > CFA_PIXELS {
            working_rgb(rgb, w, h, Some((nw, nh)))
        } else {
            working_rgb(rgb, w, h, None)
        }
    }

    /// Whether an image is large enough to be analyzed.
    pub fn large_enough(&self, w: usize, h: usize) -> (r: bool)
        ensures
            r == (w >= 192 && h >= 192),
    {
        w >= 192 && h >= 192
    }

    /// The square in the middle of an image that its pattern is taken from: its first
    /// column and row, and its side of at most 256 pixels. `None` if it would be smaller
    /// than 64.
    pub fn central_square(&self, w: usize, h: usize) -> (r: Option<(usize, usize, usize)>)
        ensures
            ({
                let side = imin(256, imin(w as int, h as int));
                r == if side < 64 {
                    None
                } else {
                    Some((((w - side) / 2) as usize, ((h - side) / 2) as usize, side as usize))
                }
            }),
    {
        let mut side: usize = 256;
        if w < side {
            side = w;
        }
        if h < side {
            side = h;
        }
        if side < 64 {
            None
        } else {
            Some(((w - side) / 2, (h - side) / 2, side))
        }
    }

    /// Four times the interpolation residual of the green channel in an area.
    pub fn compute_interpolation_residual(
        &self,
        rgb: &[u8],
        w: usize,
        h: usize,
        x0: usize,
        y0: usize,
        bw: usize,
        bh: usize,
    ) -> (r: Vec<i64>)
        requires
            rgb.len() == w * h * 3,
            x0 + bw <= w,
            y0 + bh <= h,
        ensures
            r@ == area_residual(rgb@, w as int, x0 as int, y0 as int, bw as int, bh as int),
    {
        proof {
            assert(bw * bh <= w * h) by (nonlinear_arith)
                requires
                    0 <= bw <= w,
                    0 <= bh <= h,
            ;
        }
        let total: usize = bw * bh;
        let mut r: Vec<i64> = Vec::new();
        let mut i: usize = 0;
        while i < total
            invariant
                i <= total,
                total == bw * bh,
                rgb.len() == w * h * 3,
                x0 + bw <= w,
                y0 + bh <= h,
                r@ =~= area_residual(
                    rgb@,
                    w as int,
                    x0 as int,
                    y0 as int,
                    bw as int,
                    bh as int,
                ).take(i as int),
            decreases total - i,
        {
            proof {
                lemma_cell_coords(bw as int, bh as int, i as int);
            }
            let dx: usize = i % bw;
            let dy: usize = i / bw;
            if 1 <= dx && dx < bw - 1 && 1 <= dy && dy < bh - 1 {
                let x: usize = x0 + dx;
                let y: usize = y0 + dy;
                let v: i64 = 4 * px3(rgb, w, h, x, y, 1) - (px3(rgb, w, h, x, y - 1, 1) + px3(
                    rgb,
                    w,
                    h,
                    x,
                    y + 1,
                    1,
                ) + px3(rgb, w, h, x - 1, y, 1) + px3(rgb, w, h, x + 1, y, 1));
                r.push(v);
            } else {
                r.push(0);
            }
            i += 1;
        }
        proof {
            assert(r@ =~= area_residual(
                rgb@,
                w as int,
                x0 as int,
                y0 as int,
                bw as int,
                bh as int,
            ));
        }
        r
    }

    /// The pattern with the highest peak, given the peak of each pattern in order.
    pub fn best_pattern(&self, peaks: &Vec<i64>) -> (r: BlockCfaResult)
        requires
            peaks.len() == 4,
        ensures
            r == best_of(peaks@, 4),
    {
        let all = BayerPattern::all();
        let mut best = BlockCfaResult { peak_strength: 0, best_pattern: BayerPattern::Rggb };
        let mut i: usize = 0;
        while i < 4
            invariant
                i <= 4,
                peaks.len() == 4,
                all@ == seq![
                    BayerPattern::Rggb,
                    BayerPattern::Bggr,
                    BayerPattern::Grbg,
                    BayerPattern::Gbrg,
                ],
                best == best_of(peaks@, i as nat),
            decreases 4 - i,
        {
            if peaks[i] > best.peak_strength {
                best = BlockCfaResult { peak_strength: peaks[i], best_pattern: all[i] };
            }
            i += 1;
        }
        best
    }

    /// Counts the blocks whose peak is weaker than a threshold.
    pub fn count_absent(&self, b: &Vec<BlockCfaResult>, threshold: i64) -> (r: usize)
        ensures
            r == absent_count(b@, threshold, b@.len()),
            r <= b.len(),
    {
        let mut c: usize = 0;
        let mut i: usize = 0;
        while i < b.len()
            invariant
                i <= b.len(),
                c <= i,
                c == absent_count(b@, threshold, i as nat),
            decreases b.len() - i,
        {
            if b[i].peak_strength < threshold {
                c += 1;
            }
            i += 1;
        }
        c
    }

    /// Counts the blocks with a clear peak and another pattern than the dominant one.
    pub fn count_mismatched(&self, b: &Vec<BlockCfaResult>, dominant: BayerPattern) -> (r: usize)
        ensures
            r == mismatch_count(b@, dominant, b@.len()),
            r <= b.len(),
    {
        let mut c: usize = 0;
        let mut i: usize = 0;
        while i < b.len()
            invariant
                i <= b.len(),
                c <= i,
                c == mismatch_count(b@, dominant, i as nat),
            decreases b.len() - i,
        {
            if b[i].peak_strength >= PATTERN_STRENGTH && b[i].best_pattern != dominant {
                c += 1;
            }
            i += 1;
        }
        c
    }

    /// Reports on an image's CFA artifacts. `dominant` is the pattern of the whole image.
    pub fn report(
        &self,
        b: &Vec<BlockCfaResult>,
        dominant: Option<BayerPattern>,
        s: StrengthStats,
        t: &CfaTexts,
    ) -> (r: Vec<Finding>)
        requires
            b.len() <= MAX_COUNT,
        ensures
            values(r@) == cfa_findings(b@, dominant, s, *t),
    {
        broadcast use group_values;

        let mut r: Vec<Finding> = Vec::new();
        if b.len() == 0 {
            return r;
        }
        let n: u64 = b.len() as u64;
        if s.mean < NO_ARTIFACTS {
            let mut x =
                "No CFA demosaicing artifacts detected in Fourier domain (mean spectral peak ratio ".to_string();
            x.append(t.mean.as_str());
            x.append(") - image was likely not captured by a camera sensor");
            r.push(Finding::new("cfa", "no_cfa_artifacts", x, Severity::High, P65));
        } else {
            let absent: u64 = self.count_absent(b, s.low) as u64;
            if s.variation > STRENGTH_VARIATION && is_share_above(absent, n, 5, 100) {
                let mut x = "CFA spectral peak absent in ".to_string();
                let share = percent(absent, n);
                x.append(share.as_str());
                x.append("% of blocks (CV=");
                x.append(t.variation.as_str());
                x.append(
                    ") - these regions lack demosaicing artifacts, indicating editing or compositing",
                );
                r.push(Finding::new("cfa", "cfa_peak_absent", x, Severity::High, P70));
            }
            match dominant {
                Some(d) => {
                    let mismatched: u64 = self.count_mismatched(b, d) as u64;
                    if is_share_above(mismatched, n, 5, 100) {
                        let mut x = "CFA Bayer pattern mismatch: ".to_string();
                        let share = percent(mismatched, n);
                        x.append(share.as_str());
                        x.append(
                            "% of blocks show a different demosaicing pattern than the dominant ",
                        );
                        x.append(d.name());
                        x.append(" - regions may be spliced from a different camera");
                        r.push(
                            Finding::new("cfa", "cfa_pattern_mismatch", x, Severity::High, P75),
                        );
                    }
                },
                None => {},
            }
        }
        proof {
            assert(values(r@) =~= cfa_findings(b@, dominant, s, *t));
        }
        r
    }
}

/// The best pattern is that of the highest peak above zero, the first of equals, and the first
/// pattern where there is none.
pub proof fn law_best_pattern(peaks: Seq<i64>, n: nat, i: int)
    requires
        0 <= i < n <= peaks.len(),
        n <= 4,
    ensures
        ({
            let b = best_of(peaks, n);
            &&& b.peak_strength >= peaks[i] && b.peak_strength >= 0
            &&& b.peak_strength == 0 ==> b.best_pattern == BayerPattern::Rggb
            &&& b.peak_strength > 0 ==> exists|k: int|
                0 <= k < n && #[trigger] peaks[k] == b.peak_strength && b.best_pattern == (if k == 0 {
                    BayerPattern::Rggb
                } else if k == 1 {
                    BayerPattern::Bggr
                } else if k == 2 {
                    BayerPattern::Grbg
                } else {
                    BayerPattern::Gbrg
                }) && forall|j: int| 0 <= j < k ==> #[trigger] peaks[j] < peaks[k]
        }),
    decreases n,
{
    let m = (n - 1) as nat;
    let b = best_of(peaks, n);
    assert(best_of(peaks, 0).peak_strength == 0);
    if m > 0 {
        law_best_pattern(peaks, m, if i < m {
            i
        } else {
            0
        });
        let c = best_of(peaks, m);
        if peaks[n - 1] > c.peak_strength {
            assert forall|j: int| 0 <= j < n - 1 implies #[trigger] peaks[j] < peaks[n - 1] by {
                law_best_pattern(peaks, m, j);
            }
            assert(peaks[n - 1] == b.peak_strength);
        } else if c.peak_strength > 0 {
            let k = choose|k: int|
                0 <= k < m && #[trigger] peaks[k] == c.peak_strength && c.best_pattern == (if k == 0 {
                    BayerPattern::Rggb
                } else if k == 1 {
                    BayerPattern::Bggr
                } else if k == 2 {
                    BayerPattern::Grbg
                } else {
                    BayerPattern::Gbrg
                }) && forall|j: int| 0 <= j < k ==> #[trigger] peaks[j] < peaks[k];
            assert(peaks[k] == b.peak_strength);
        }
    } else if peaks[0] > 0 {
        assert(peaks[0] == b.peak_strength);
    }
}

/// Blocks below the threshold are counted.
pub proof fn law_absent(b: Seq<BlockCfaResult>, threshold: i64, n: nat)
    requires
        n <= b.len(),
    ensures
        absent_count(b, threshold, n) == how_many(n, |i: int| threshold > b[i].peak_strength),
    decreases n,
{
    let p = |i: int| threshold > b[i].peak_strength;
    lemma_which(0, p);
    if n > 0 {
        law_absent(b, threshold, (n - 1) as nat);
        lemma_which((n - 1) as nat, p);
    }
}

/// Blocks of another pattern are counted where their peak is 1.5 or more.
pub proof fn law_mismatched(b: Seq<BlockCfaResult>, dominant: BayerPattern, n: nat)
    requires
        n <= b.len(),
    ensures
        mismatch_count(b, dominant, n) == how_many(n, |i: int| !(b[i].peak_strength < 0x3FF8_0000_0000_0000) && !(b[i].best_pattern == dominant)),
    decreases n,
{
    let p = |i: int| !(b[i].peak_strength < 0x3FF8_0000_0000_0000) && !(b[i].best_pattern == dominant);
    lemma_which(0, p);
    if n > 0 {
        law_mismatched(b, dominant, (n - 1) as nat);
        lemma_which((n - 1) as nat, p);
    }
}

/// The residual of an area lies row by row, and is zero along its border.
pub proof fn law_area_residual(
    rgb: Seq<u8>,
    w: int,
    x0: int,
    y0: int,
    bw: int,
    bh: int,
    x: int,
    y: int,
)
    requires
        0 <= x < bw,
        0 <= y < bh,
    ensures
        area_residual(rgb, w, x0, y0, bw, bh).len() == bw * bh,
        x == 0 || y == 0 || x == bw - 1 || y == bh - 1 ==> area_residual(
            rgb,
            w,
            x0,
            y0,
            bw,
            bh,
        )[y * bw + x] == 0,
        0 < x < bw - 1 && 0 < y < bh - 1 ==> area_residual(rgb, w, x0, y0, bw, bh)[y * bw + x]
            == green_residual4(rgb, w, x0 + x, y0 + y) as i64,
{
    vstd::arithmetic::div_mod::lemma_fundamental_div_mod_converse(y * bw + x, bw, y, x);
    assert(0 <= y * bw + x < bw * bh) by (nonlinear_arith)
        requires
            0 <= x < bw,
            0 <= y < bh,
    ;
}

/// No artifacts are told below a mean of nine tenths; otherwise missing peaks where
/// strengths vary by more than four tenths, and other patterns, each above a twentieth of
/// the blocks.
pub proof fn law_when_cfa_is_reported(b: Seq<BlockCfaResult>, dominant: Option<BayerPattern>, s: StrengthStats, t: CfaTexts)
    requires
        b.len() > 0,
    ensures
        ({
            let f = cfa_findings(b, dominant, s, t);
            let d0 = s.mean < 0x3FEC_CCCC_CCCC_CCCC;
            let n1 = if d0 {
                1int
            } else {
                0
            };
            let d1 = s.mean >= 0x3FEC_CCCC_CCCC_CCCC && s.variation > 0x3FD9_9999_9999_999A && share_above(absent_count(b, s.low, b.len()) as int, b.len() as int, 5, 100);
            let n2 = n1 + if d1 {
                1int
            } else {
                0
            };
            let d2 = s.mean >= 0x3FEC_CCCC_CCCC_CCCC && dominant is Some && share_above(mismatch_count(b, dominant->Some_0, b.len()) as int, b.len() as int, 5, 100);
            let n3 = n2 + if d2 {
                1int
            } else {
                0
            };
            &&& f.len() == n3
            &&& d0 ==> f[0].code == "no_cfa_artifacts"@ && f[0].severity == Severity::High && f[0].confidence == 0x3FE4_CCCC_CCCC_CCCD
            &&& d1 ==> f[n1].code == "cfa_peak_absent"@ && f[n1].severity == Severity::High && f[n1].confidence == 0x3FE6_6666_6666_6666
            &&& d2 ==> f[n2].code == "cfa_pattern_mismatch"@ && f[n2].severity == Severity::High && f[n2].confidence == 0x3FE8_0000_0000_0000
        }),
        CFA_PIXELS == 500_000,
        CFA_BLOCK == 64,
{
}

} // verus!
