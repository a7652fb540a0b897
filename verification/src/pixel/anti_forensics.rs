//! Anti-forensics detection.
//!
//! Detects counter-forensic tampering: median filtering (low difference variance),
//! noise injection (a kurtosis near that of a Gaussian), and histogram equalization
//! (flat local histograms). The statistics of a block are computed in floating point
//! by the caller.

use crate::double::DIGITS;
use crate::finding::Finding;
use crate::finding::FindingView;
use crate::finding::Severity;
use crate::finding::plain_finding;
use crate::grid::cell;
use crate::number::is_share_above;
use crate::number::share_above;
use crate::order::sort_bytes;
use crate::order::sorted_bytes;
use crate::outliers::Outliers;
use crate::outliers::THREE;
use crate::outliers::carries_signal;
use crate::outliers::collects;
use crate::outliers::cover;
use crate::outliers::covering_region;
use crate::outliers::find_outliers;
use crate::outliers::near;
use crate::outliers::outlier_severity;
use crate::outliers::severity_at;
use crate::pixel::document_forensics::window;
use crate::pixel::document_forensics::window_of;
use crate::robust::Scored;
use crate::robust::outliers;
use crate::select::how_many;
use crate::select::lemma_which;
use crate::share::Factor;
use crate::share::MAX_COUNT;
use crate::share::TWO_FIFTHS;
use crate::share::U45;
use crate::share::U80;
use crate::share::graded;
use crate::share::graded_of;
use crate::share::percent;
use crate::share::percent_text;
use crate::text::decimal;
use crate::text::decimal_text;
use vstd::prelude::*;
use vstd::string::*;

verus! {

/// The anti-forensics detector.
pub struct AntiForensicsDetector;

/// The size of a block in pixels.
pub const ANTI_BLOCK: usize = 32;

/// A technique that outlier blocks point at.
#[derive(Debug, Clone, Copy, PartialEq, Eq, Structural)]
pub enum Technique {
    MedianFilter,
    HistogramEqualization,
}

/// The code of the finding on a technique.
pub open spec fn code_of(t: Technique) -> Seq<char> {
    match t {
        Technique::MedianFilter => "anti_forensics_median_filter"@,
        Technique::HistogramEqualization => "anti_forensics_histogram_equalization"@,
    }
}

/// What the blocks show.
pub open spec fn property_of(t: Technique) -> Seq<char> {
    match t {
        Technique::MedianFilter => "unusually low first-order difference variance"@,
        Technique::HistogramEqualization => "unnaturally flat local histogram"@,
    }
}

/// What it points at.
pub open spec fn implication_of(t: Technique) -> Seq<char> {
    match t {
        Technique::MedianFilter => "median filtering applied to hide JPEG splice artifacts"@,
        Technique::HistogramEqualization => "histogram equalization applied to mask statistical anomalies"@,
    }
}

/// The finding on outlier blocks.
pub open spec fn technique_finding(
    t: Technique,
    blocks: Seq<usize>,
    blocks_x: int,
    peak: i64,
    z: Seq<char>,
    confidence: u64,
) -> FindingView {
    FindingView {
        region: Some(cover(blocks, blocks_x, 32)),
        ..plain_finding(
            "anti_forensics"@,
            code_of(t),
            decimal_text(blocks.len()) + " blocks show "@ + property_of(t) + " (z-score "@ + z
                + ") - "@ + implication_of(t),
            severity_at(peak),
            confidence,
        )
    }
}

/// Enough blocks carry Gaussian noise: three or more, and more than fifteen percent of the
/// active ones.
pub open spec fn is_injected(gaussian: int, active: int) -> bool {
    gaussian >= 3 && share_above(gaussian, active, 15, 100)
}

/// The finding on injected noise.
pub open spec fn injection_finding(
    blocks: Seq<usize>,
    blocks_x: int,
    active: int,
) -> FindingView {
    FindingView {
        region: Some(cover(blocks, blocks_x, 32)),
        ..plain_finding(
            "anti_forensics"@,
            "anti_forensics_noise_injection"@,
            decimal_text(blocks.len()) + " blocks ("@ + percent_text(blocks.len(), active as nat)
                + "%) show Gaussian noise characteristics (kurtosis ≈ 3.0) - possible artificial noise injection to mask manipulation traces"@,
            Severity::High,
            graded_of(
                U45,
                blocks.len(),
                active as nat,
                Factor { num: TWO_FIFTHS, den: DIGITS },
                U80,
            ),
        )
    }
}

/// Below this distance of a block's kurtosis from three its noise is Gaussian, as a key: 0.5.
pub const KURTOSIS_BAND: i64 = 0x3FE0_0000_0000_0000;

/// What is sampled at an inner pixel of a block: the pixel, its right and its lower
/// neighbour, and the median of the nine samples around it.
#[derive(Debug, Clone, Copy, PartialEq, Eq, Structural)]
pub struct TraceSample {
    pub centre: u8,
    pub right: u8,
    pub below: u8,
    pub median: u8,
}

/// The sample at an inner pixel.
pub open spec fn trace_at(gray: Seq<u8>, w: int, x: int, y: int) -> TraceSample {
    TraceSample {
        centre: gray[y * w + x],
        right: gray[y * w + (x + 1)],
        below: gray[(y + 1) * w + x],
        median: sorted_bytes(window(gray, w, x, y))[4],
    }
}

/// The samples at the inner pixels of a block, row by row.
pub open spec fn block_traces(gray: Seq<u8>, w: int, x0: int, y0: int) -> Seq<TraceSample> {
    Seq::new(900, |i: int| trace_at(gray, w, x0 + 1 + i % 30, y0 + 1 + i / 30))
}

/// The bin of a sample among 32: its share of the full intensity times 31.999, rounded down.
pub open spec fn bin_of(v: u8) -> int {
    v as int * 31999 / 255000
}

/// How many of the first `n` samples lie in a bin.
pub open spec fn count_in(s: Seq<TraceSample>, bin: int, n: nat) -> int
    decreases n,
{
    if n == 0 {
        0
    } else {
        count_in(s, bin, (n - 1) as nat) + if bin_of(s[n - 1].centre) == bin {
            1int
        } else {
            0int
        }
    }
}

proof fn lemma_count_in(s: Seq<TraceSample>, bin: int, n: nat)
    ensures
        0 <= count_in(s, bin, n) <= n,
    decreases n,
{
    if n > 0 {
        lemma_count_in(s, bin, (n - 1) as nat);
    }
}

/// The least spread of a statistic that outliers are looked for among, as a key: 1e-10.
pub const LEAST_DEVIATION: i64 = 0x3DDB_7CDF_D9D7_BDBB;

impl AntiForensicsDetector {
    /// Whether an image is large enough to be analyzed.
    pub fn large_enough(&self, w: usize, h: usize) -> (r: bool)
        ensures
            r == (w >= 128 && h >= 128),
    {
        w >= 128 && h >= 128
    }

    /// Whether a statistic is scored, given the key of its spread.
    pub fn carries_signal(&self, spread: i64) -> (r: bool)
        ensures
            r == (spread >= LEAST_DEVIATION),
    {
        spread >= LEAST_DEVIATION
    }

    /// The blocks that score above three, if there are at least three.
    pub fn stand_out(&self, s: &Vec<Scored>) -> (r: Option<Outliers>)
        ensures
            collects(r, s@, THREE, 3),
    {
        find_outliers(s, THREE, 3)
    }

    /// Whether so many blocks are enough for outliers to be told.
    pub fn enough_blocks(&self, n: usize) -> (r: bool)
        ensures
            r == (n >= 9),
    {
        n >= 9
    }

    /// Samples the inner pixels of a block.
    pub fn block_samples(&self, gray: &[u8], w: usize, h: usize, x0: usize, y0: usize) -> (r: Vec<
        TraceSample,
    >)
        requires
            gray.len() == w * h,
            x0 + 32 <= w,
            y0 + 32 <= h,
        ensures
            r@ == block_traces(gray@, w as int, x0 as int, y0 as int),
    {
        let mut r: Vec<TraceSample> = Vec::new();
        let mut i: usize = 0;
        while i < 900
            invariant
                i <= 900,
                gray.len() == w * h,
                x0 + 32 <= w,
                y0 + 32 <= h,
                r@ =~= block_traces(gray@, w as int, x0 as int, y0 as int).take(i as int),
            decreases 900 - i,
        {
            let x: usize = x0 + 1 + i % 30;
            let y: usize = y0 + 1 + i / 30;
            let around = sort_bytes(&window_of(gray, w, h, x, y));
            let centre: u8 = gray[cell(w, h, x, y)];
            let right: u8 = gray[cell(w, h, x + 1, y)];
            let below: u8 = gray[cell(w, h, x, y + 1)];
            r.push(TraceSample { centre, right, below, median: around[4] });
            i += 1;
        }
        assert(r@ =~= block_traces(gray@, w as int, x0 as int, y0 as int));
        r
    }

    /// Counts the samples in each of 32 bins.
    pub fn intensity_bins(&self, s: &Vec<TraceSample>) -> (r: Vec<u32>)
        requires
            s.len() <= u32::MAX,
        ensures
            r.len() == 32,
            forall|k: int| 0 <= k < 32 ==> #[trigger] r@[k] == count_in(s@, k, s@.len()),
    {
        let mut r: Vec<u32> = vec![0u32; 32];
        let mut i: usize = 0;
        while i < s.len()
            invariant
                i <= s.len() <= u32::MAX,
                r.len() == 32,
                forall|k: int| 0 <= k < 32 ==> #[trigger] r@[k] == count_in(s@, k, i as nat),
            decreases s.len() - i,
        {
            let bin: usize = (s[i].centre as usize * 31999) / 255000;
            assert(bin == bin_of(s@[i as int].centre));
            proof {
                lemma_count_in(s@, bin as int, i as nat);
            }
            r.set(bin, r[bin] + 1);
            i += 1;
        }
        r
    }

    /// Whether the noise of a block is Gaussian: its kurtosis is positive and near three.
    /// Both the kurtosis and its distance from three are keys.
    pub fn is_gaussian(&self, kurtosis: i64, distance: i64) -> (r: bool)
        ensures
            r == (kurtosis > 0 && distance < KURTOSIS_BAND),
    {
        kurtosis > 0 && distance < KURTOSIS_BAND
    }

    /// Reports outlier blocks with a highest score of `peak`, which is `z` with one decimal.
    pub fn report_technique(
        &self,
        t: Technique,
        blocks: &Vec<usize>,
        blocks_x: usize,
        blocks_y: usize,
        peak: i64,
        z: &str,
        confidence: u64,
    ) -> (r: Finding)
        requires
            blocks.len() > 0,
            forall|i: int| 0 <= i < blocks.len() ==> #[trigger] blocks@[i] < blocks_x * blocks_y,
            blocks_x * 32 <= u32::MAX,
            blocks_y * 32 <= u32::MAX,
        ensures
            r@ == technique_finding(t, blocks@, blocks_x as int, peak, z@, confidence),
    {
        let code = match t {
            Technique::MedianFilter => "anti_forensics_median_filter",
            Technique::HistogramEqualization => "anti_forensics_histogram_equalization",
        };
        let property = match t {
            Technique::MedianFilter => "unusually low first-order difference variance",
            Technique::HistogramEqualization => "unnaturally flat local histogram",
        };
        let implication = match t {
            Technique::MedianFilter => "median filtering applied to hide JPEG splice artifacts",
            Technique::HistogramEqualization => "histogram equalization applied to mask statistical anomalies",
        };
        let mut s = decimal(blocks.len() as u64);
        s.append(" blocks show ");
        s.append(property);
        s.append(" (z-score ");
        s.append(z);
        s.append(") - ");
        s.append(implication);
        let region = covering_region(blocks, blocks_x, blocks_y, 32);
        Finding::new("anti_forensics", code, s, outlier_severity(peak), confidence).with_region(
            region,
        )
    }

    /// Whether enough of the active blocks carry Gaussian noise.
    pub fn injected(&self, gaussian: usize, active: usize) -> (r: bool)
        ensures
            r == is_injected(gaussian as int, active as int),
    {
        gaussian >= 3 && is_share_above(gaussian as u64, active as u64, 15, 100)
    }

    /// Reports injected noise in some of the active blocks.
    pub fn report_injection(
        &self,
        blocks: &Vec<usize>,
        blocks_x: usize,
        blocks_y: usize,
        active: usize,
    ) -> (r: Finding)
        requires
            0 < blocks.len() <= active <= MAX_COUNT,
            forall|i: int| 0 <= i < blocks.len() ==> #[trigger] blocks@[i] < blocks_x * blocks_y,
            blocks_x * 32 <= u32::MAX,
            blocks_y * 32 <= u32::MAX,
        ensures
            r@ == injection_finding(blocks@, blocks_x as int, active as int),
    {
        let mut s = decimal(blocks.len() as u64);
        s.append(" blocks (");
        let share = percent(blocks.len() as u64, active as u64);
        s.append(share.as_str());
        s.append(
            "%) show Gaussian noise characteristics (kurtosis ≈ 3.0) - possible artificial noise injection to mask manipulation traces",
        );
        let region = covering_region(blocks, blocks_x, blocks_y, 32);
        let factor = Factor { num: TWO_FIFTHS, den: DIGITS };
        let sure: u64 = graded(U45, blocks.len() as u64, active as u64, factor, U80);
        Finding::new(
            "anti_forensics",
            "anti_forensics_noise_injection",
            s,
            Severity::High,
            sure,
        ).with_region(region)
    }
}

/// Each technique has its own code; noise is told as injected where three blocks or more, and
/// above fifteen in a hundred, look like it.
pub proof fn law_technique_findings(
    t: Technique,
    b: Seq<usize>,
    bx: int,
    peak: i64,
    z: Seq<char>,
    confidence: u64,
    n: int,
    active: int,
)
    ensures
        technique_finding(t, b, bx, peak, z, confidence).code == match t {
            Technique::MedianFilter => "anti_forensics_median_filter"@,
            Technique::HistogramEqualization => "anti_forensics_histogram_equalization"@,
        },
        technique_finding(t, b, bx, peak, z, confidence).severity == severity_at(peak),
        technique_finding(t, b, bx, peak, z, confidence).region == Some(cover(b, bx, 32)),
        is_injected(n, active) <==> n > 2 && share_above(n, active, 15, 100),
        injection_finding(b, bx, active).code == "anti_forensics_noise_injection"@,
        injection_finding(b, bx, active).severity == Severity::High,
        injection_finding(b, bx, active).region == Some(cover(b, bx, 32)),
        ANTI_BLOCK == 32,
        KURTOSIS_BAND == 0x3FE0_0000_0000_0000,
        LEAST_DEVIATION == 0x3DDB_7CDF_D9D7_BDBB,
{
}

/// The traces of a block are those of its thirty inner columns and rows.
pub proof fn law_traces(g: Seq<u8>, w: int, x0: int, y0: int, i: int, j: int)
    requires
        0 <= i < 30,
        0 <= j < 30,
    ensures
        block_traces(g, w, x0, y0).len() == 900,
        ({
            let t = block_traces(g, w, x0, y0)[30 * j + i];
            &&& t.centre == g[(y0 + j + 1) * w + (x0 + i + 1)]
            &&& t.right == g[(y0 + j + 1) * w + (x0 + i + 2)]
            &&& t.below == g[(y0 + j + 2) * w + (x0 + i + 1)]
            &&& t.median == sorted_bytes(window(g, w, x0 + i + 1, y0 + j + 1))[4]
        }),
{
    assert((30 * j + i) % 30 == i && (30 * j + i) / 30 == j);
    assert(x0 + 1 + i == x0 + i + 1 && y0 + 1 + j == y0 + j + 1);
}

/// The 256 values fall into 32 bins in order: the lowest into the first and the highest into the
/// last.
pub proof fn law_value_bins(u: u8, v: u8)
    ensures
        0 <= bin_of(v) < 32,
        u <= v ==> bin_of(u) <= bin_of(v),
        bin_of(0) == 0,
        bin_of(255) == 31,
        255_000 * bin_of(v) <= 31_999 * v < 255_000 * bin_of(v) + 255_000,
{
}

/// The samples whose value lies in a bin are counted.
pub proof fn law_bin_counts(s: Seq<TraceSample>, bin: int, n: nat)
    requires
        n <= s.len(),
    ensures
        count_in(s, bin, n) == how_many(n, |i: int| bin == bin_of(s[i].centre)),
    decreases n,
{
    let p = |i: int| bin == bin_of(s[i].centre);
    lemma_which(0, p);
    if n > 0 {
        law_bin_counts(s, bin, (n - 1) as nat);
        lemma_which((n - 1) as nat, p);
    }
}

} // verus!
