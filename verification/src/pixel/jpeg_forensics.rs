//! JPEG bitstream-level forensics via quantized-coefficient recovery.
//!
//! Dividing DCT coefficients by the quantization table recovers the quantized integers;
//! the fractional parts reveal the compression history. They are computed in floating
//! point by the caller and arrive per block, as keys.

use crate::bits::P75;
use crate::finding::plain_finding;
use crate::finding::Finding;
use crate::finding::FindingView;
use crate::finding::Severity;
use crate::number::is_share_above;
use crate::number::is_share_below;
use crate::number::share_above;
use crate::number::share_below;
use crate::select::how_many;
use crate::select::lemma_which;
use crate::share::graded;
use crate::share::graded_of;
use crate::share::percent;
use crate::share::percent_text;
use crate::share::Factor;
use crate::share::MAX_COUNT;
use crate::share::U55;
use crate::share::U60;
use crate::share::U85;
use crate::share::U90;
use crate::text::append_decimal;
use crate::text::decimal_text;
use vstd::prelude::*;
use vstd::string::*;

verus! {

/// The JPEG forensics analyzer.
pub struct JpegForensicsAnalyzer;

/// Below this mean alignment an image shows no JPEG artifacts, as a key: 0.5.
pub const ALIGNED: i64 = 0x3FE0_0000_0000_0000;

/// Below this interquartile range residuals are uniform, as a key: 0.01.
pub const UNIFORM: i64 = 0x3F84_7AE1_47AE_147B;

/// The residuals of a block.
#[derive(Debug, Clone, Copy, PartialEq, Eq, Structural)]
pub struct BlockResidualStats {
    /// The mean fractional part, as a key.
    pub mean_fractional: i64,
    /// The share of coefficients close to an integer, as a key.
    pub integer_alignment_ratio: i64,
    /// The number of quantized coefficients that are not zero.
    pub non_zero_count: usize,
}

/// The blocks among the first `n` without JPEG artifacts: alignment below a threshold, and
/// more than five coefficients.
pub open spec fn artifact_free(b: Seq<BlockResidualStats>, threshold: i64, n: nat) -> nat
    decreases n,
{
    if n == 0 {
        0
    } else {
        artifact_free(b, threshold, (n - 1) as nat) + if b[n - 1].integer_alignment_ratio
            < threshold && b[n - 1].non_zero_count > 5 {
            1nat
        } else {
            0nat
        }
    }
}

/// The blocks among the first `n` whose fractional part lies above a fence.
pub open spec fn above_fence(b: Seq<BlockResidualStats>, fence: i64, n: nat) -> nat
    decreases n,
{
    if n == 0 {
        0
    } else {
        above_fence(b, fence, (n - 1) as nat) + if b[n - 1].mean_fractional > fence {
            1nat
        } else {
            0nat
        }
    }
}

/// Position `i` of a smoothed histogram is a peak: above its neighbours and a threshold.
pub open spec fn is_peak(s: Seq<i64>, threshold: i64, i: int) -> bool {
    1 <= i < s.len() - 1 && s[i] > s[i - 1] && s[i] > s[i + 1] && s[i] > threshold
}

/// The peaks before position `n`.
pub open spec fn peaks_before(s: Seq<i64>, threshold: i64, n: nat) -> nat
    decreases n,
{
    if n == 0 {
        0
    } else {
        peaks_before(s, threshold, (n - 1) as nat) + if is_peak(s, threshold, n - 1) {
            1nat
        } else {
            0nat
        }
    }
}

/// The finding on blocks without JPEG artifacts.
pub open spec fn free_finding(
    free: int,
    blocks: int,
    threshold: Seq<char>,
    mean: Seq<char>,
) -> FindingView {
    plain_finding(
        "jpeg_forensics"@,
        "jpeg_artifact_free_regions"@,
        percent_text(free as nat, blocks as nat)
            + "% of blocks lack JPEG quantization grid alignment (alignment ratio below "@
            + threshold + " vs image mean "@ + mean
            + ") - these regions were likely pasted from a non-JPEG source (PNG, screenshot, AI output)"@,
        Severity::Critical,
        graded_of(U60, free as nat, blocks as nat, Factor { num: 1, den: 2 }, U90),
    )
}

/// The finding on blocks with anomalous residuals.
pub open spec fn inconsistency_finding(
    outliers: int,
    blocks: int,
    median: Seq<char>,
    range: Seq<char>,
) -> FindingView {
    plain_finding(
        "jpeg_forensics"@,
        "quantization_inconsistency"@,
        percent_text(outliers as nat, blocks as nat)
            + "% of blocks show anomalous DCT quantization residuals (median fractional "@
            + median + ", IQR "@ + range + ", "@ + decimal_text(outliers as nat)
            + " outlier blocks) - indicates regions with different compression history"@,
        Severity::High,
        graded_of(U55, outliers as nat, blocks as nat, Factor { num: 1, den: 2 }, U85),
    )
}

/// The finding on a bimodal distribution of residuals.
pub open spec fn bimodal_finding(peaks: int) -> FindingView {
    plain_finding(
        "jpeg_forensics"@,
        "bimodal_quantization_residual"@,
        "Bimodal distribution of DCT quantization residuals ("@ + decimal_text(peaks as nat)
            + " peaks detected) - image contains blocks with different compression histories, strong indicator of editing or compositing"@,
        Severity::High,
        P75,
    )
}

impl JpegForensicsAnalyzer {
    /// Whether an image is large enough to be analyzed: four blocks of eight pixels on each
    /// side.
    pub fn large_enough(&self, w: usize, h: usize) -> (r: bool)
        ensures
            r == (w / 8 >= 4 && h / 8 >= 4),
    {
        w / 8 >= 4 && h / 8 >= 4
    }

    /// Counts the blocks without JPEG artifacts.
    pub fn count_artifact_free(&self, b: &Vec<BlockResidualStats>, threshold: i64) -> (r: usize)
        ensures
            r == artifact_free(b@, threshold, b@.len()),
    {
        let mut c: usize = 0;
        let mut i: usize = 0;
        while i < b.len()
            invariant
                i <= b.len(),
                c <= i,
                c == artifact_free(b@, threshold, i as nat),
            decreases b.len() - i,
        {
            if b[i].integer_alignment_ratio < threshold && b[i].non_zero_count > 5 {
                c += 1;
            }
            i += 1;
        }
        c
    }

    /// Reports blocks without JPEG artifacts, if the image has artifacts and such blocks are
    /// between three and sixty percent. `mean` is the key of the mean alignment.
    pub fn detect_artifact_free_regions(
        &self,
        mean: i64,
        free: usize,
        blocks: usize,
        threshold_text: &str,
        mean_text: &str,
    ) -> (r: Option<Finding>)
        requires
            blocks <= MAX_COUNT,
        ensures
            ({
                let found = blocks > 0 && mean >= ALIGNED && share_above(
                    free as int,
                    blocks as int,
                    3,
                    100,
                ) && share_below(free as int, blocks as int, 60, 100);
                match r {
                    Some(f) => found && f@ == free_finding(
                        free as int,
                        blocks as int,
                        threshold_text@,
                        mean_text@,
                    ),
                    None => !found,
                }
            }),
    {
        if blocks > 0 && mean >= ALIGNED && is_share_above(free as u64, blocks as u64, 3, 100)
            && is_share_below(free as u64, blocks as u64, 60, 100) {
            let mut t = percent(free as u64, blocks as u64);
            t.append(
                "% of blocks lack JPEG quantization grid alignment (alignment ratio below ",
            );
            t.append(threshold_text);
            t.append(" vs image mean ");
            t.append(mean_text);
            t.append(
                ") - these regions were likely pasted from a non-JPEG source (PNG, screenshot, AI output)",
            );
            let half = Factor { num: 1, den: 2 };
            let sure: u64 = graded(U60, free as u64, blocks as u64, half, U90);
            Some(
                Finding::new(
                    "jpeg_forensics",
                    "jpeg_artifact_free_regions",
                    t,
                    Severity::Critical,
                    sure,
                ),
            )
        } else {
            None
        }
    }

    /// Counts the blocks whose fractional part lies above a fence.
    pub fn count_above_fence(&self, b: &Vec<BlockResidualStats>, fence: i64) -> (r: usize)
        ensures
            r == above_fence(b@, fence, b@.len()),
    {
        let mut c: usize = 0;
        let mut i: usize = 0;
        while i < b.len()
            invariant
                i <= b.len(),
                c <= i,
                c == above_fence(b@, fence, i as nat),
            decreases b.len() - i,
        {
            if b[i].mean_fractional > fence {
                c += 1;
            }
            i += 1;
        }
        c
    }

    /// Reports blocks with anomalous residuals, if the residuals vary and such blocks are
    /// between five and fifty percent. `range` is the key of the interquartile range.
    pub fn detect_quantization_inconsistency(
        &self,
        range: i64,
        outliers: usize,
        blocks: usize,
        median_text: &str,
        range_text: &str,
    ) -> (r: Option<Finding>)
        requires
            blocks <= MAX_COUNT,
        ensures
            ({
                let found = blocks > 0 && range >= UNIFORM && share_above(
                    outliers as int,
                    blocks as int,
                    5,
                    100,
                ) && share_below(outliers as int, blocks as int, 50, 100);
                match r {
                    Some(f) => found && f@ == inconsistency_finding(
                        outliers as int,
                        blocks as int,
                        median_text@,
                        range_text@,
                    ),
                    None => !found,
                }
            }),
    {
        if blocks > 0 && range >= UNIFORM && is_share_above(
            outliers as u64,
            blocks as u64,
            5,
            100,
        ) && is_share_below(outliers as u64, blocks as u64, 50, 100) {
            let mut t = percent(outliers as u64, blocks as u64);
            t.append(
                "% of blocks show anomalous DCT quantization residuals (median fractional ",
            );
            t.append(median_text);
            t.append(", IQR ");
            t.append(range_text);
            t.append(", ");
            append_decimal(&mut t, outliers as u64);
            t.append(
                " outlier blocks) - indicates regions with different compression history",
            );
            let half = Factor { num: 1, den: 2 };
            let sure: u64 = graded(U55, outliers as u64, blocks as u64, half, U85);
            Some(
                Finding::new(
                    "jpeg_forensics",
                    "quantization_inconsistency",
                    t,
                    Severity::High,
                    sure,
                ),
            )
        } else {
            None
        }
    }

    /// Counts the peaks of a smoothed histogram above a threshold.
    pub fn count_peaks(&self, s: &Vec<i64>, threshold: i64) -> (r: usize)
        ensures
            r == peaks_before(s@, threshold, s@.len()),
    {
        let mut c: usize = 0;
        let mut i: usize = 0;
        while i < s.len()
            invariant
                i <= s.len(),
                c <= i,
                c == peaks_before(s@, threshold, i as nat),
            decreases s.len() - i,
        {
            if i >= 1 && s.len() - i > 1 && s[i] > s[i - 1] && s[i] > s[i + 1] && s[i]
                > threshold {
                c += 1;
            }
            i += 1;
        }
        c
    }

    /// Reports a bimodal distribution of residuals, if there are fifty blocks or more and two
    /// peaks or more.
    pub fn detect_double_compression_coefficients(&self, blocks: usize, peaks: usize) -> (r: Option<
        Finding,
    >)
        ensures
            match r {
                Some(f) => blocks >= 50 && peaks >= 2 && f@ == bimodal_finding(peaks as int),
                None => blocks < 50 || peaks < 2,
            },
    {
        if blocks >= 50 && peaks >= 2 {
            let mut t = "Bimodal distribution of DCT quantization residuals (".to_string();
            append_decimal(&mut t, peaks as u64);
            t.append(
                " peaks detected) - image contains blocks with different compression histories, strong indicator of editing or compositing",
            );
            Some(
                Finding::new(
                    "jpeg_forensics",
                    "bimodal_quantization_residual",
                    t,
                    Severity::High,
                    P75,
                ),
            )
        } else {
            None
        }
    }
}

/// Blocks below the threshold are counted where more than five coefficients are not zero.
pub proof fn law_artifact_free(b: Seq<BlockResidualStats>, threshold: i64, n: nat)
    requires
        n <= b.len(),
    ensures
        artifact_free(b, threshold, n) == how_many(n, |i: int| b[i].non_zero_count >= 6 && threshold > b[i].integer_alignment_ratio),
    decreases n,
{
    let p = |i: int| b[i].non_zero_count >= 6 && threshold > b[i].integer_alignment_ratio;
    lemma_which(0, p);
    if n > 0 {
        law_artifact_free(b, threshold, (n - 1) as nat);
        lemma_which((n - 1) as nat, p);
    }
}

/// Blocks above the fence are counted.
pub proof fn law_above_fence(b: Seq<BlockResidualStats>, fence: i64, n: nat)
    requires
        n <= b.len(),
    ensures
        above_fence(b, fence, n) == how_many(n, |i: int| fence < b[i].mean_fractional),
    decreases n,
{
    let p = |i: int| fence < b[i].mean_fractional;
    lemma_which(0, p);
    if n > 0 {
        law_above_fence(b, fence, (n - 1) as nat);
        lemma_which((n - 1) as nat, p);
    }
}

/// Peaks are counted: values above the threshold and above both neighbours.
pub proof fn law_residual_peaks(s: Seq<i64>, threshold: i64, n: nat)
    requires
        n <= s.len(),
    ensures
        peaks_before(s, threshold, n) == how_many(n, |i: int| i > 0 && i + 1 < s.len() && s[i - 1] < s[i] && s[i + 1] < s[i] && threshold < s[i]),
    decreases n,
{
    let p = |i: int| i > 0 && i + 1 < s.len() && s[i - 1] < s[i] && s[i + 1] < s[i] && threshold < s[i];
    lemma_which(0, p);
    if n > 0 {
        law_residual_peaks(s, threshold, (n - 1) as nat);
        lemma_which((n - 1) as nat, p);
    }
}

/// What each finding is: pasted regions are critical, the other two of high severity. A block is
/// aligned from a half on, and blocks are uniform below a hundredth.
pub proof fn law_residual_findings(n: int, blocks: int, a: Seq<char>, b: Seq<char>)
    ensures
        free_finding(n, blocks, a, b).code == "jpeg_artifact_free_regions"@,
        free_finding(n, blocks, a, b).severity == Severity::Critical,
        inconsistency_finding(n, blocks, a, b).code == "quantization_inconsistency"@,
        inconsistency_finding(n, blocks, a, b).severity == Severity::High,
        bimodal_finding(n).code == "bimodal_quantization_residual"@,
        bimodal_finding(n).severity == Severity::High,
        bimodal_finding(n).confidence == 0x3FE8_0000_0000_0000,
        ALIGNED == 0x3FE0_0000_0000_0000,
        UNIFORM == 0x3F84_7AE1_47AE_147B,
{
}

} // verus!
