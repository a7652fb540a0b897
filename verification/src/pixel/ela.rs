//! Error Level Analysis (ELA), multi-scale and normalized by local complexity.
//!
//! An image that was saved as JPEG changes little when it is saved again at the same
//! quality; pasted-in regions change more, or less, than the rest. The re-saves and the
//! per-pixel differences are exact here; means, deviations and the block complexity are
//! computed in floating point by the caller.

use crate::bits::P50;
use crate::bits::P70;
use crate::bits::P75;
use crate::components::lemma_cell;
use crate::components::lemma_cell_coords;
use crate::finding::group_values;
use crate::finding::plain_finding;
use crate::finding::values;
use crate::finding::Finding;
use crate::finding::FindingView;
use crate::finding::Severity;
use crate::grid::abs;
use crate::jpeg::estimate_jpeg_quality;
use crate::jpeg::estimated_quality;
use crate::number::is_share_above;
use crate::number::share_above;
use crate::raster::fitted;
use crate::raster::resaved;
use crate::raster::resizable;
use crate::raster::Frame;
use crate::raster::Picture;
use crate::select::how_many;
use crate::select::lemma_which;
use crate::select::total;
use crate::share::graded;
use crate::share::graded_of;
use crate::share::percent;
use crate::share::percent_text;
use crate::share::rest;
use crate::share::Factor;
use crate::share::MAX_COUNT;
use crate::share::U55;
use crate::share::U85;
use crate::text::append_decimal;
use crate::text::decimal_text;
use vstd::prelude::*;
use vstd::string::*;

verus! {

/// Error Level Analysis analyzer.
pub struct ErrorLevelAnalyzer {
    /// Fallback re-save quality when JPEG quality estimation fails.
    pub resave_quality: u8,
}

/// Cap on the long edge: the error patterns are coarse and survive downsampling.
pub const MAX_LONG_EDGE: u32 = 800;

/// The size of a block in pixels.
pub const ELA_BLOCK: usize = 16;

/// Above this mean error an image is suspicious, as a key: 20.0.
pub const HIGH_MEAN: i64 = 0x4034_0000_0000_0000;

/// Above this deviation the error is uneven, as a key: 25.0.
pub const UNEVEN: i64 = 0x4039_0000_0000_0000;

/// Only pixels above this error can be hotspots, as a key: 15.0.
pub const HOT: i64 = 0x402E_0000_0000_0000;

/// Only blocks above this mean error can be low outliers, as a key: 0.5.
pub const ALIVE: i64 = 0x3FE0_0000_0000_0000;

/// The size that a picture is scaled down to, where its long edge is over the cap.
pub open spec fn work_size(w: u32, h: u32) -> Option<(u32, u32)> {
    let long = if w > h {
        w
    } else {
        h
    };
    if long > MAX_LONG_EDGE {
        Some((((MAX_LONG_EDGE * w) / long as int) as u32, ((MAX_LONG_EDGE * h) / long as int) as u32))
    } else {
        None
    }
}

/// The qualities of the two scales for an estimated quality: five less, and the quality.
pub open spec fn scale_qualities(q: u8) -> Seq<u8> {
    seq![
        if q <= 6 {
            1u8
        } else {
            (q - 5) as u8
        },
        q,
    ]
}

/// The sum of the absolute channel differences of pixel `i`.
pub open spec fn color_error(a: Seq<u8>, b: Seq<u8>, i: int) -> int {
    abs(a[3 * i] - b[3 * i]) + abs(a[3 * i + 1] - b[3 * i + 1]) + abs(a[3 * i + 2] - b[3 * i + 2])
}

/// The channel differences of every pixel.
pub open spec fn error_map(a: Seq<u8>, b: Seq<u8>) -> Seq<u16> {
    Seq::new(a.len() / 3, |i: int| color_error(a, b, i) as u16)
}

/// How many of the first `n` pixels differ by more than 30 per channel.
pub open spec fn hot_count(map: Seq<u16>, n: nat) -> nat
    decreases n,
{
    if n == 0 {
        0
    } else {
        hot_count(map, (n - 1) as nat) + if map[n - 1] > 90 {
            1nat
        } else {
            0
        }
    }
}

/// Whether pixel `k` of the block at (`x0`, `y0`) has an error above the block's threshold
/// and above the fixed one.
pub open spec fn is_hot(e: Seq<i64>, w: int, x0: int, y0: int, t: i64, k: int) -> bool {
    let v = e[(y0 + k / 16) * w + x0 + k % 16];
    v > t && v > HOT
}

/// The hot pixels among the first `n` of a block.
pub open spec fn block_hot(e: Seq<i64>, w: int, x0: int, y0: int, t: i64, n: nat) -> nat
    decreases n,
{
    if n == 0 {
        0
    } else {
        block_hot(e, w, x0, y0, t, (n - 1) as nat) + if is_hot(e, w, x0, y0, t, n - 1) {
            1nat
        } else {
            0
        }
    }
}

/// The hot pixels of the first `n` blocks, each against its own threshold.
pub open spec fn blocks_hot(e: Seq<i64>, w: int, thresholds: Seq<i64>, n: nat) -> nat
    decreases n,
{
    if n == 0 {
        0
    } else {
        blocks_hot(e, w, thresholds, (n - 1) as nat) + block_hot(
            e,
            w,
            ((n - 1) % (w / 16)) * 16,
            ((n - 1) / (w / 16)) * 16,
            thresholds[n - 1],
            256,
        )
    }
}

/// A block's mean error, and the mean error normalized by the block's complexity, as keys.
pub struct BlockStat {
    pub mean_error: i64,
    pub normalized: i64,
}

/// How many of the first `n` blocks have a normalized error above `high`.
pub open spec fn high_count(b: Seq<BlockStat>, high: i64, n: nat) -> nat
    decreases n,
{
    if n == 0 {
        0
    } else {
        high_count(b, high, (n - 1) as nat) + if b[n - 1].normalized > high {
            1nat
        } else {
            0
        }
    }
}

/// How many of the first `n` blocks have a normalized error below `low` and an error at all.
pub open spec fn low_count(b: Seq<BlockStat>, low: i64, n: nat) -> nat
    decreases n,
{
    if n == 0 {
        0
    } else {
        low_count(b, low, (n - 1) as nat) + if b[n - 1].normalized < low && b[n - 1].mean_error
            > ALIVE {
            1nat
        } else {
            0
        }
    }
}

/// The numbers that the multi-scale findings are made of: keys of the global mean and
/// deviation, the count of hot pixels, the counts of outlier blocks, and the totals.
pub struct ErrorStats {
    pub mean: i64,
    pub deviation: i64,
    pub hotspots: u64,
    pub pixels: u64,
    pub high: u64,
    pub low: u64,
    pub blocks: u64,
    /// The estimated quality of the file.
    pub quality: u8,
}

/// The numbers of the findings as text, with one decimal: the mean and the deviation.
pub struct ErrorTexts {
    pub mean: String,
    pub deviation: String,
}

/// The finding of a high mean error.
pub open spec fn mean_finding(s: ErrorStats, t: ErrorTexts) -> Seq<FindingView> {
    if s.mean > HIGH_MEAN {
        seq![
            plain_finding(
                "ela"@,
                "ela_high_mean_error"@,
                "Multi-scale ELA mean error level "@ + t.mean@ + " (estimated Q="@ + decimal_text(
                    s.quality as nat,
                ) + ") exceeds threshold - possible re-save or composite"@,
                Severity::Low,
                P50,
            ),
        ]
    } else {
        seq![]
    }
}

/// The finding of an uneven error.
pub open spec fn uneven_finding(s: ErrorStats, t: ErrorTexts) -> Seq<FindingView> {
    if s.deviation > UNEVEN {
        seq![
            plain_finding(
                "ela"@,
                "ela_uneven_error"@,
                "Uneven ELA distribution (std dev "@ + t.deviation@
                    + ") across multi-scale analysis suggests regions saved at different quality levels"@,
                Severity::High,
                P75,
            ),
        ]
    } else {
        seq![]
    }
}

/// The finding of many hot pixels.
pub open spec fn hot_finding(s: ErrorStats, t: ErrorTexts) -> Seq<FindingView> {
    if share_above(s.hotspots as int, s.pixels as int, 5, 100) {
        seq![
            plain_finding(
                "ela"@,
                "ela_hotspot_regions"@,
                percent_text(s.hotspots as nat, s.pixels as nat)
                    + "% of pixels show elevated error levels (adaptive threshold) - localized manipulation suspected"@,
                Severity::High,
                P70,
            ),
        ]
    } else {
        seq![]
    }
}

/// The finding of many outlier blocks.
pub open spec fn outlier_finding(s: ErrorStats, t: ErrorTexts) -> Seq<FindingView> {
    if share_above(s.high + s.low, s.blocks as int, 5, 100) {
        seq![
            plain_finding(
                "ela"@,
                "ela_block_outliers"@,
                percent_text((s.high + s.low) as nat, s.blocks as nat)
                    + "% of blocks are statistical ELA outliers ("@ + decimal_text(
                    s.high as nat,
                ) + " high, "@ + decimal_text(s.low as nat) + " low out of "@ + decimal_text(
                    s.blocks as nat,
                ) + " blocks) - complexity-normalized analysis indicates tampering"@,
                if share_above(s.high + s.low, s.blocks as int, 15, 100) {
                    Severity::High
                } else {
                    Severity::Medium
                },
                graded_of(
                    U55,
                    (s.high + s.low) as nat,
                    s.blocks as nat,
                    Factor { num: 2, den: 1 },
                    U85,
                ),
            ),
        ]
    } else {
        seq![]
    }
}

/// The findings of the multi-scale analysis.
pub open spec fn ela_findings(s: ErrorStats, t: ErrorTexts) -> Seq<FindingView> {
    if s.blocks == 0 || s.pixels == 0 {
        seq![]
    } else {
        mean_finding(s, t) + uneven_finding(s, t) + hot_finding(s, t) + outlier_finding(s, t)
    }
}

/// The findings on an image too small for blocks: from the keys of the mean error and its
/// deviation, and the counts of hot pixels and of pixels.
pub open spec fn small_findings(
    mean: i64,
    deviation: i64,
    hot: int,
    pixels: int,
    t: ErrorTexts,
) -> Seq<FindingView> {
    let a = if mean > HIGH_MEAN {
        seq![
            plain_finding(
                "ela"@,
                "ela_high_mean_error"@,
                "ELA mean error level "@ + t.mean@
                    + " exceeds threshold - possible re-save or composite"@,
                Severity::Low,
                P50,
            ),
        ]
    } else {
        seq![]
    };
    let b = if deviation > UNEVEN {
        seq![
            plain_finding(
                "ela"@,
                "ela_uneven_error"@,
                "Uneven ELA distribution (std dev "@ + t.deviation@
                    + ") suggests regions saved at different quality levels"@,
                Severity::High,
                P75,
            ),
        ]
    } else {
        seq![]
    };
    let c = if share_above(hot, pixels, 5, 100) {
        seq![
            plain_finding(
                "ela"@,
                "ela_hotspot_regions"@,
                percent_text(hot as nat, pixels as nat)
                    + "% of pixels show elevated error levels - localized manipulation suspected"@,
                Severity::High,
                P70,
            ),
        ]
    } else {
        seq![]
    };
    if pixels == 0 {
        seq![]
    } else {
        a + b + c
    }
}

impl Default for ErrorLevelAnalyzer {
    fn default() -> (r: Self)
        ensures
            r.resave_quality == 92,
    {
        ErrorLevelAnalyzer { resave_quality: 92 }
    }
}

impl ErrorLevelAnalyzer {
    /// The quality of the re-saves: the estimated quality of a file, or the fallback.
    pub fn quality(&self, raw_bytes: &[u8]) -> (r: u8)
        ensures
            r == match estimated_quality(raw_bytes@) {
                Some(q) => q,
                None => self.resave_quality,
            },
    {
        match estimate_jpeg_quality(raw_bytes) {
            Some(q) => q,
            None => self.resave_quality,
        }
    }

    /// Whether an image is too small for blocks.
    pub fn too_small(&self, w: u32, h: u32) -> (r: bool)
        ensures
            r == (w < 48 || h < 48),
    {
        w < 48 || h < 48
    }

    /// The qualities of the two scales.
    pub fn qualities(&self, estimated: u8) -> (r: Vec<u8>)
        ensures
            r@ == scale_qualities(estimated),
    {
        let low: u8 = if estimated <= 6 {
            1
        } else {
            estimated - 5
        };
        let mut r: Vec<u8> = Vec::new();
        r.push(low);
        r.push(estimated);
        assert(r@ =~= scale_qualities(estimated));
        r
    }

    /// The image that is analyzed: the picture, scaled down where its long edge is over the
    /// cap.
    pub fn prepare(&self, p: &Picture) -> (r: Frame)
        requires
            p.wf(),
            p.width > 0,
            p.height > 0,
            p.width > MAX_LONG_EDGE || p.height > MAX_LONG_EDGE ==> resizable(
                p.width,
                p.height,
                MAX_LONG_EDGE,
                MAX_LONG_EDGE,
            ),
        ensures
            r.wf(),
            r.monochrome == p.monochrome,
            ({
                let samples = if p.monochrome {
                    p.gray@
                } else {
                    p.rgb@
                };
                (r.width, r.height, r.samples@) == match work_size(p.width, p.height) {
                    Some(t) => fitted(samples, p.width, p.height, p.monochrome, t.0, t.1),
                    None => (p.width, p.height, samples),
                }
            }),
    {
        let f = p.frame();
        let long: u32 = if p.width > p.height {
            p.width
        } else {
            p.height
        };
        if long > MAX_LONG_EDGE {
            let w: u32 = MAX_LONG_EDGE * p.width / long;
            let h: u32 = MAX_LONG_EDGE * p.height / long;
            proof {
                lemma_scaled(p.width as int, long as int);
                lemma_scaled(p.height as int, long as int);
                assert(p.width * (h + 1) * 16 <= p.width * 801 * 16) by (nonlinear_arith)
                    requires
                        h <= 800,
                        p.width >= 0,
                ;
                assert((w + 1) * (h + 1) * 16 <= 801 * 801 * 16) by (nonlinear_arith)
                    requires
                        0 <= w <= 800,
                        0 <= h <= 800,
                ;
            }
            f.fit(w, h)
        } else {
            f
        }
    }
}

impl ErrorLevelAnalyzer {
    /// Saves the image again at both scales and takes the colours. `None` if either fails.
    pub fn resaved_planes(&self, f: &Frame, estimated: u8) -> (r: Option<Vec<Vec<u8>>>)
        requires
            f.wf(),
        ensures
            ({
                let q = scale_qualities(estimated);
                let a = resaved(f.samples@, f.width, f.height, f.monochrome, q[0]);
                let b = resaved(f.samples@, f.width, f.height, f.monochrome, q[1]);
                match r {
                    Some(v) => v@.len() == 2 && a == Some(v@[0]@) && b == Some(v@[1]@)
                        && v@[0]@.len() == f.width * f.height * 3 && v@[1]@.len() == f.width
                        * f.height * 3,
                    None => a is None || b is None,
                }
            }),
    {
        let q = self.qualities(estimated);
        let a = match f.resave(q[0]) {
            Some(v) => v,
            None => return None,
        };
        let b = match f.resave(q[1]) {
            Some(v) => v,
            None => return None,
        };
        let mut r: Vec<Vec<u8>> = Vec::new();
        r.push(a);
        r.push(b);
        Some(r)
    }

    /// The sum of the absolute channel differences of every pixel.
    pub fn pixel_errors(&self, a: &[u8], b: &[u8]) -> (r: Vec<u16>)
        requires
            a.len() == b.len(),
        ensures
            r@ == error_map(a@, b@),
            forall|i: int| 0 <= i < r@.len() ==> #[trigger] r@[i] <= 765,
    {
        let n: usize = a.len() / 3;
        let mut r: Vec<u16> = Vec::new();
        let mut i: usize = 0;
        while i < n
            invariant
                i <= n,
                n == a.len() / 3,
                a.len() == b.len(),
                r@ == error_map(a@, b@).take(i as int),
                forall|j: int| 0 <= j < i ==> #[trigger] r@[j] <= 765,
            decreases n - i,
        {
            let d: u16 = distance(a[3 * i], b[3 * i]) + distance(a[3 * i + 1], b[3 * i + 1])
                + distance(a[3 * i + 2], b[3 * i + 2]);
            r.push(d);
            i += 1;
            assert(r@ =~= error_map(a@, b@).take(i as int));
        }
        assert(error_map(a@, b@).take(n as int) =~= error_map(a@, b@));
        r
    }

    /// Counts the pixels that differ by more than 30 per channel.
    pub fn count_hot(&self, map: &Vec<u16>) -> (r: usize)
        ensures
            r == hot_count(map@, map@.len()),
            r <= map@.len(),
    {
        let mut c: usize = 0;
        let mut i: usize = 0;
        while i < map.len()
            invariant
                i <= map@.len(),
                c == hot_count(map@, i as nat),
                c <= i,
            decreases map@.len() - i,
        {
            if map[i] > 90 {
                c += 1;
            }
            i += 1;
        }
        c
    }

    /// Counts the hot pixels of every block against the block's own threshold. `errors` are
    /// the keys of the errors of all pixels, `thresholds` the keys of the blocks' thresholds.
    pub fn count_hotspots(
        &self,
        errors: &Vec<i64>,
        w: usize,
        h: usize,
        thresholds: &Vec<i64>,
    ) -> (r: u64)
        requires
            errors@.len() == w * h,
            thresholds@.len() == (w / 16) * (h / 16),
            errors@.len() <= u32::MAX,
        ensures
            r == blocks_hot(errors@, w as int, thresholds@, thresholds@.len()),
    {
        proof {
            assert((w / 16) * (h / 16) <= w * h) by (nonlinear_arith)
                requires
                    w >= 0,
                    h >= 0,
            ;
        }
        let mut total: u64 = 0;
        let mut i: usize = 0;
        while i < thresholds.len()
            invariant
                i <= thresholds@.len(),
                errors@.len() == w * h,
                thresholds@.len() == (w / 16) * (h / 16),
                thresholds@.len() <= errors@.len() <= u32::MAX,
                total == blocks_hot(errors@, w as int, thresholds@, i as nat),
                total <= 256 * i,
            decreases thresholds@.len() - i,
        {
            proof {
                lemma_cell_coords((w / 16) as int, (h / 16) as int, i as int);
            }
            let bx: usize = i % (w / 16);
            let by: usize = i / (w / 16);
            let c = self.block_hotspots(errors, w, h, bx * 16, by * 16, thresholds[i]);
            total += c;
            i += 1;
        }
        total
    }

    /// Counts the hot pixels of one block.
    fn block_hotspots(
        &self,
        errors: &Vec<i64>,
        w: usize,
        h: usize,
        x0: usize,
        y0: usize,
        t: i64,
    ) -> (r: u64)
        requires
            errors@.len() == w * h,
            x0 + 16 <= w,
            y0 + 16 <= h,
        ensures
            r == block_hot(errors@, w as int, x0 as int, y0 as int, t, 256),
            r <= 256,
    {
        let mut c: u64 = 0;
        let mut k: usize = 0;
        while k < 256
            invariant
                k <= 256,
                errors@.len() == w * h,
                x0 + 16 <= w,
                y0 + 16 <= h,
                c == block_hot(errors@, w as int, x0 as int, y0 as int, t, k as nat),
                c <= k,
            decreases 256 - k,
        {
            let y: usize = y0 + k / 16;
            let x: usize = x0 + k % 16;
            assert(errors.len() == w * h);
            proof {
                lemma_cell(w as int, h as int, x as int, y as int);
            }
            let v: i64 = errors[y * w + x];
            if v > t && v > HOT {
                c += 1;
            }
            k += 1;
        }
        c
    }

    /// Counts the blocks above `high`, and those below `low` that have an error at all.
    pub fn count_outliers(&self, b: &Vec<BlockStat>, high: i64, low: i64) -> (r: (u64, u64))
        ensures
            r.0 == high_count(b@, high, b@.len()),
            r.1 == low_count(b@, low, b@.len()),
            r.0 <= b@.len(),
            r.1 <= b@.len(),
    {
        let mut above: u64 = 0;
        let mut below: u64 = 0;
        let mut i: usize = 0;
        while i < b.len()
            invariant
                i <= b@.len(),
                above == high_count(b@, high, i as nat),
                below == low_count(b@, low, i as nat),
                above <= i,
                below <= i,
            decreases b@.len() - i,
        {
            if b[i].normalized > high {
                above += 1;
            }
            if b[i].normalized < low && b[i].mean_error > ALIVE {
                below += 1;
            }
            i += 1;
        }
        (above, below)
    }

    /// The findings of the multi-scale analysis.
    pub fn emit_findings(&self, s: &ErrorStats, t: &ErrorTexts) -> (r: Vec<Finding>)
        requires
            s.hotspots <= s.pixels <= MAX_COUNT,
            s.high + s.low <= s.blocks <= MAX_COUNT,
        ensures
            values(r@) == ela_findings(*s, *t),
    {
        broadcast use group_values;

        let mut r: Vec<Finding> = Vec::new();
        if s.blocks == 0 || s.pixels == 0 {
            assert(values(r@) =~= ela_findings(*s, *t));
            return r;
        }
        if s.mean > HIGH_MEAN {
            let mut d = "Multi-scale ELA mean error level ".to_string();
            d.append(t.mean.as_str());
            d.append(" (estimated Q=");
            append_decimal(&mut d, s.quality as u64);
            d.append(") exceeds threshold - possible re-save or composite");
            r.push(Finding::new("ela", "ela_high_mean_error", d, Severity::Low, P50));
        }
        assert(values(r@) =~= mean_finding(*s, *t));
        if s.deviation > UNEVEN {
            let mut d = "Uneven ELA distribution (std dev ".to_string();
            d.append(t.deviation.as_str());
            d.append(
                ") across multi-scale analysis suggests regions saved at different quality levels",
            );
            r.push(Finding::new("ela", "ela_uneven_error", d, Severity::High, P75));
        }
        assert(values(r@) =~= mean_finding(*s, *t) + uneven_finding(*s, *t));
        if is_share_above(s.hotspots, s.pixels, 5, 100) {
            let mut d = percent(s.hotspots, s.pixels);
            d.append(
                "% of pixels show elevated error levels (adaptive threshold) - localized manipulation suspected",
            );
            r.push(Finding::new("ela", "ela_hotspot_regions", d, Severity::High, P70));
        }
        assert(values(r@) =~= mean_finding(*s, *t) + uneven_finding(*s, *t) + hot_finding(*s, *t));
        if is_share_above(s.high + s.low, s.blocks, 5, 100) {
            let mut d = percent(s.high + s.low, s.blocks);
            d.append("% of blocks are statistical ELA outliers (");
            append_decimal(&mut d, s.high);
            d.append(" high, ");
            append_decimal(&mut d, s.low);
            d.append(" low out of ");
            append_decimal(&mut d, s.blocks);
            d.append(" blocks) - complexity-normalized analysis indicates tampering");
            let severity = if is_share_above(s.high + s.low, s.blocks, 15, 100) {
                Severity::High
            } else {
                Severity::Medium
            };
            let twice = Factor { num: 2, den: 1 };
            let sure: u64 = graded(U55, s.high + s.low, s.blocks, twice, U85);
            r.push(Finding::new("ela", "ela_block_outliers", d, severity, sure));
        }
        assert(values(r@) =~= ela_findings(*s, *t));
        r
    }

    /// The findings on an image too small for blocks.
    pub fn small_image_findings(
        &self,
        mean: i64,
        deviation: i64,
        map: &Vec<u16>,
        t: &ErrorTexts,
    ) -> (r: Vec<Finding>)
        requires
            map.len() <= MAX_COUNT,
        ensures
            values(r@) == small_findings(
                mean,
                deviation,
                hot_count(map@, map@.len()) as int,
                map@.len() as int,
                *t,
            ),
    {
        broadcast use group_values;

        let mut r: Vec<Finding> = Vec::new();
        let hot = self.count_hot(map);
        if map.len() == 0 {
            assert(values(r@) =~= small_findings(mean, deviation, hot as int, 0, *t));
            return r;
        }
        if mean > HIGH_MEAN {
            let mut d = "ELA mean error level ".to_string();
            d.append(t.mean.as_str());
            d.append(" exceeds threshold - possible re-save or composite");
            r.push(Finding::new("ela", "ela_high_mean_error", d, Severity::Low, P50));
        }
        if deviation > UNEVEN {
            let mut d = "Uneven ELA distribution (std dev ".to_string();
            d.append(t.deviation.as_str());
            d.append(") suggests regions saved at different quality levels");
            r.push(Finding::new("ela", "ela_uneven_error", d, Severity::High, P75));
        }
        if is_share_above(hot as u64, map.len() as u64, 5, 100) {
            let mut d = percent(hot as u64, map.len() as u64);
            d.append(
                "% of pixels show elevated error levels - localized manipulation suspected",
            );
            r.push(Finding::new("ela", "ela_hotspot_regions", d, Severity::High, P70));
        }
        assert(values(r@) =~= small_findings(
            mean,
            deviation,
            hot as int,
            map@.len() as int,
            *t,
        ));
        r
    }
}

/// The distance of two samples.
pub fn distance(a: u8, b: u8) -> (r: u16)
    ensures
        r == abs(a - b),
        r <= 255,
{
    if a > b {
        (a - b) as u16
    } else {
        (b - a) as u16
    }
}

/// A re-save that changes nothing leaves no error in any pixel.
pub proof fn law_no_change_no_error(a: Seq<u8>, i: int)
    requires
        0 <= i < a.len() / 3,
    ensures
        error_map(a, a)[i] == 0,
{
}

/// The error between two images is the same whichever of them is taken first.
pub proof fn law_error_symmetric(a: Seq<u8>, b: Seq<u8>)
    requires
        a.len() == b.len(),
    ensures
        error_map(a, b) == error_map(b, a),
{
    assert(error_map(a, b) =~= error_map(b, a));
}

proof fn lemma_scaled(a: int, long: int)
    requires
        0 <= a <= long,
        long > 0,
    ensures
        0 <= (800 * a) / long <= 800,
{
    assert(0 <= (800 * a) / long <= 800) by (nonlinear_arith)
        requires
            0 <= a <= long,
            long > 0,
    ;
}

/// The work image keeps the shape: where the long edge is over 800 pixels it becomes 800, and
/// the other edge shrinks by as much, rounded down; smaller images stay.
pub proof fn law_work_size(w: u32, h: u32)
    requires
        w > 0,
        h > 0,
        w <= 5_000_000,
        h <= 5_000_000,
    ensures
        work_size(w, h) is None <==> w <= 800 && h <= 800,
        work_size(w, h) matches Some(t) ==> (w >= h ==> t.0 == 800 && t.1 * w <= 800 * h < (t.1 + 1)
            * w) && (h >= w ==> t.1 == 800 && t.0 * h <= 800 * w < (t.0 + 1) * h),
{
    let long = if w > h {
        w as int
    } else {
        h as int
    };
    lemma_shrunk(w as int, long);
    lemma_shrunk(h as int, long);
}

proof fn lemma_shrunk(v: int, long: int)
    by (nonlinear_arith)
    requires
        0 < v <= long,
    ensures
        0 <= (800 * v) / long <= 800,
        ((800 * v) / long) * long <= 800 * v < ((800 * v) / long + 1) * long,
        v == long ==> (800 * v) / long == 800,
{
}

/// The two re-save qualities are five below the estimate, but not below one, and the estimate.
pub proof fn law_scale_qualities(q: u8)
    ensures
        scale_qualities(q).len() == 2,
        scale_qualities(q)[1] == q,
        q >= 6 ==> scale_qualities(q)[0] == q - 5,
        q <= 6 ==> scale_qualities(q)[0] == 1,
{
}

/// The error of a pixel is the sum of how far its three channels are apart: that of no other
/// pixel counts, each channel counts by itself, and swapping the images changes nothing.
pub proof fn law_color_error(a: Seq<u8>, b: Seq<u8>, i: int)
    ensures
        color_error(a, b, i) == color_error(b, a, i),
        0 <= color_error(a, b, i) <= 765,
        color_error(a, b, i) == 0 <==> a[3 * i] == b[3 * i] && a[3 * i + 1] == b[3 * i + 1] && a[3 * i
            + 2] == b[3 * i + 2],
        a[3 * i] >= b[3 * i] && a[3 * i + 1] >= b[3 * i + 1] && a[3 * i + 2] >= b[3 * i + 2]
            ==> color_error(a, b, i) == a[3 * i] + a[3 * i + 1] + a[3 * i + 2] - b[3 * i] - b[3 * i
            + 1] - b[3 * i + 2],
        a[3 * i] <= b[3 * i] && a[3 * i + 1] >= b[3 * i + 1] && a[3 * i + 2] <= b[3 * i + 2]
            ==> color_error(a, b, i) == a[3 * i + 1] + b[3 * i] + b[3 * i + 2] - b[3 * i + 1] - a[3
            * i] - a[3 * i + 2],
{
}

/// A pixel of a small image is hot where its three channels differ by more than thirty on
/// average.
pub proof fn law_hot_pixels(map: Seq<u16>, n: nat)
    requires
        n <= map.len(),
    ensures
        hot_count(map, n) == how_many(n, |i: int| map[i] >= 3 * 30 + 1),
    decreases n,
{
    let p = |i: int| map[i] >= 3 * 30 + 1;
    lemma_which(0, p);
    if n > 0 {
        law_hot_pixels(map, (n - 1) as nat);
        lemma_which((n - 1) as nat, p);
    }
}

/// A pixel of a block is hot where its error is above the threshold of the block and above
/// fifteen.
pub proof fn law_block_hotspots(e: Seq<i64>, w: int, x0: int, y0: int, t: i64, n: nat)
    ensures
        block_hot(e, w, x0, y0, t, n) == how_many(n, |i: int| !(e[(y0 + i / 16) * w + x0 + i % 16] <= t) && e[(y0 + i / 16) * w + x0 + i % 16] > 0x402E_0000_0000_0000),
    decreases n,
{
    let p = |i: int| !(e[(y0 + i / 16) * w + x0 + i % 16] <= t) && e[(y0 + i / 16) * w + x0 + i % 16] > 0x402E_0000_0000_0000;
    lemma_which(0, p);
    if n > 0 {
        law_block_hotspots(e, w, x0, y0, t, (n - 1) as nat);
        lemma_which((n - 1) as nat, p);
    }
}

/// The hotspots are those of all blocks, each by its own threshold.
pub proof fn law_hotspots(e: Seq<i64>, w: int, thresholds: Seq<i64>, n: nat)
    ensures
        blocks_hot(e, w, thresholds, n) as int == total(n, |i: int| block_hot(e, w, (i % (w / 16)) * 16, (i / (w / 16)) * 16, thresholds[i], 256) as int),
    decreases n,
{
    if n > 0 {
        law_hotspots(e, w, thresholds, (n - 1) as nat);
    }
}

/// Blocks are high above the upper bound.
pub proof fn law_high_blocks(b: Seq<BlockStat>, high: i64, n: nat)
    requires
        n <= b.len(),
    ensures
        high_count(b, high, n) == how_many(n, |i: int| !(b[i].normalized <= high)),
    decreases n,
{
    let p = |i: int| !(b[i].normalized <= high);
    lemma_which(0, p);
    if n > 0 {
        law_high_blocks(b, high, (n - 1) as nat);
        lemma_which((n - 1) as nat, p);
    }
}

/// Blocks are low below the lower bound, unless their error is a half or less.
pub proof fn law_low_blocks(b: Seq<BlockStat>, low: i64, n: nat)
    requires
        n <= b.len(),
    ensures
        low_count(b, low, n) == how_many(n, |i: int| !(b[i].normalized >= low) && b[i].mean_error > 0x3FE0_0000_0000_0000),
    decreases n,
{
    let p = |i: int| !(b[i].normalized >= low) && b[i].mean_error > 0x3FE0_0000_0000_0000;
    lemma_which(0, p);
    if n > 0 {
        law_low_blocks(b, low, (n - 1) as nat);
        lemma_which((n - 1) as nat, p);
    }
}

/// A mean error above twenty is reported as minor.
pub proof fn law_when_mean_is_high(s: ErrorStats, t: ErrorTexts)
    ensures
        ({
            let f = mean_finding(s, t);
            let due = s.mean > 0x4034_0000_0000_0000;
            &&& f.len() == if due {
                1int
            } else {
                0
            }
            &&& due ==> f[0].analyzer == "ela"@ && f[0].code == "ela_high_mean_error"@ && f[0].severity == Severity::Low
                && f[0].confidence == 0x3FE0_0000_0000_0000
        }),
{
}

/// A deviation above 25 is reported as high.
pub proof fn law_when_error_is_uneven(s: ErrorStats, t: ErrorTexts)
    ensures
        ({
            let f = uneven_finding(s, t);
            let due = s.deviation > 0x4039_0000_0000_0000;
            &&& f.len() == if due {
                1int
            } else {
                0
            }
            &&& due ==> f[0].analyzer == "ela"@ && f[0].code == "ela_uneven_error"@ && f[0].severity == Severity::High
                && f[0].confidence == 0x3FE8_0000_0000_0000
        }),
{
}

/// Hotspots are reported above a twentieth of the pixels.
pub proof fn law_when_hotspots_are_reported(s: ErrorStats, t: ErrorTexts)
    ensures
        ({
            let f = hot_finding(s, t);
            let due = 20 * s.hotspots > s.pixels;
            &&& f.len() == if due {
                1int
            } else {
                0
            }
            &&& due ==> f[0].analyzer == "ela"@ && f[0].code == "ela_hotspot_regions"@ && f[0].severity == Severity::High
                && f[0].confidence == 0x3FE6_6666_6666_6666
        }),
{
}

/// Outlying blocks are reported above a twentieth of the blocks, high and low ones alike,
/// and as high above fifteen percent.
pub proof fn law_when_outliers_are_reported(s: ErrorStats, t: ErrorTexts)
    ensures
        ({
            let f = outlier_finding(s, t);
            let due = 20 * (s.low + s.high) > s.blocks;
            &&& f.len() == if due {
                1int
            } else {
                0
            }
            &&& due ==> f[0].analyzer == "ela"@ && f[0].code == "ela_block_outliers"@ && f[0].severity == if 20 * (s.low + s.high) > 3 * s.blocks { Severity::High } else { Severity::Medium }
        }),
{
}

/// The report holds the mean, the spread, the hotspots and the outliers, in this order.
pub proof fn law_ela_report(s: ErrorStats, t: ErrorTexts)
    requires
        s.blocks > 0,
        s.pixels > 0,
    ensures
        ela_findings(s, t).len() == mean_finding(s, t).len() + uneven_finding(s, t).len() + hot_finding(s, t).len() + outlier_finding(s, t).len(),
        forall|k: int| 0 <= k < mean_finding(s, t).len() ==> ela_findings(s, t)[k] == #[trigger] mean_finding(s, t)[k],
        forall|k: int| 0 <= k < uneven_finding(s, t).len() ==> ela_findings(s, t)[mean_finding(s, t).len() + k] == #[trigger] uneven_finding(s, t)[k],
        forall|k: int| 0 <= k < hot_finding(s, t).len() ==> ela_findings(s, t)[mean_finding(s, t).len() + uneven_finding(s, t).len() + k] == #[trigger] hot_finding(s, t)[k],
        forall|k: int| 0 <= k < outlier_finding(s, t).len() ==> ela_findings(s, t)[mean_finding(s, t).len() + uneven_finding(s, t).len() + hot_finding(s, t).len() + k] == #[trigger] outlier_finding(s, t)[k],
{
}

/// The report on a small image has the same bounds.
pub proof fn law_small_report(mean: i64, deviation: i64, hot: int, pixels: int, t: ErrorTexts)
    requires
        pixels > 0,
    ensures
        ({
            let f = small_findings(mean, deviation, hot, pixels, t);
            let a = mean > 0x4034_0000_0000_0000;
            let b = deviation > 0x4039_0000_0000_0000;
            let c = 20 * hot > pixels;
            &&& f.len() == (if a {
                1int
            } else {
                0
            }) + (if b {
                1int
            } else {
                0
            }) + (if c {
                1int
            } else {
                0
            })
            &&& a ==> f[0].code == "ela_high_mean_error"@ && f[0].severity == Severity::Low
            &&& !a && b ==> f[0].code == "ela_uneven_error"@ && f[0].severity == Severity::High
            &&& c ==> f.last().code == "ela_hotspot_regions"@ && f.last().severity == Severity::High
        }),
{
}

} // verus!
