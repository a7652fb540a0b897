//! Noise consistency via wavelet (Haar-HH) noise estimation.
//!
//! Per block the noise level is the median of the absolute Haar HH coefficients over a
//! constant; cross-block statistics then tell inconsistent, unnaturally low or
//! heavy-tailed noise. The coefficients are multiples of one half, so their medians
//! are exact integers here; the statistics are computed in floating point by the
//! caller.

use crate::bits::P55;
use crate::bits::P60;
use crate::components::lemma_cell_coords;
use crate::finding::group_values;
use crate::finding::plain_finding;
use crate::finding::values;
use crate::finding::Finding;
use crate::finding::FindingView;
use crate::finding::Severity;
use crate::grid::abs;
use crate::grid::pixel;
use crate::grid::px;
use crate::number::is_share_above;
use crate::number::share_above;
use crate::robust::law_ascending;
use crate::robust::law_median_splits;
use crate::robust::law_nth_smallest;
use crate::robust::median;
use crate::robust::middle;
use crate::robust::nth_smallest;
use crate::robust::sort_keys;
use crate::select::how_many;
use crate::select::lemma_which;
use crate::share::percent;
use crate::share::percent_text;
use crate::share::MAX_COUNT;
use crate::text::append_decimal;
use crate::text::decimal_text;
use vstd::prelude::*;
use vstd::string::*;

verus! {

/// The noise analyzer.
pub struct NoiseAnalyzer;

/// Above this robust coefficient of variation noise is inconsistent, as a key: 0.5.
pub const NOISE_VARIATION: i64 = 0x3FE0_0000_0000_0000;

/// Below this median level noise is unnaturally low, as a key: 0.8.
pub const LOW_NOISE: i64 = 0x3FE9_9999_9999_999A;

/// Above this excess kurtosis the tails are heavy, as a key: 3.0.
pub const HEAVY_TAILS: i64 = 0x4008_0000_0000_0000;

/// Twice the absolute HH coefficient number `k` of a block.
pub open spec fn hh_at(gray: Seq<u8>, w: int, x0: int, y0: int, k: int) -> int {
    let x = x0 + 2 * (k % 16);
    let y = y0 + 2 * (k / 16);
    abs(
        pixel(gray, w, x, y) - pixel(gray, w, x + 1, y) - pixel(gray, w, x, y + 1) + pixel(
            gray,
            w,
            x + 1,
            y + 1,
        ),
    )
}

/// Twice the absolute HH coefficients of a block.
pub open spec fn hh_of(gray: Seq<u8>, w: int, x0: int, y0: int) -> Seq<i64> {
    Seq::new(256, |k: int| hh_at(gray, w, x0, y0, k) as i64)
}

/// Twice the median absolute HH coefficient of every block.
pub open spec fn block_medians(gray: Seq<u8>, w: int, h: int) -> Seq<i64> {
    Seq::new(
        ((w / 32) * (h / 32)) as nat,
        |b: int| middle(hh_of(gray, w, (b % (w / 32)) * 32, (b / (w / 32)) * 32)),
    )
}

/// The quartiles of the noise levels, as keys.
#[derive(Debug, Clone, Copy, PartialEq, Eq, Structural)]
pub struct Quartiles {
    pub lower: i64,
    pub median: i64,
    pub upper: i64,
}

/// The quartiles of a list of keys.
pub open spec fn quartiles_of(v: Seq<i64>) -> Quartiles {
    Quartiles {
        lower: nth_smallest(v, v.len() as int / 4),
        median: nth_smallest(v, v.len() as int / 2),
        upper: nth_smallest(v, 3 * v.len() as int / 4),
    }
}

/// How many of the first `n` keys lie below both limits.
pub open spec fn below_both(v: Seq<i64>, a: i64, b: i64, n: nat) -> nat
    decreases n,
{
    if n == 0 {
        0
    } else {
        below_both(v, a, b, (n - 1) as nat) + if v[n - 1] < a && v[n - 1] < b {
            1nat
        } else {
            0nat
        }
    }
}

/// How many of the first `n` keys lie above both limits.
pub open spec fn above_both(v: Seq<i64>, a: i64, b: i64, n: nat) -> nat
    decreases n,
{
    if n == 0 {
        0
    } else {
        above_both(v, a, b, (n - 1) as nat) + if v[n - 1] > a && v[n - 1] > b {
            1nat
        } else {
            0nat
        }
    }
}

/// What is known of the noise of an image.
pub struct NoiseSummary {
    /// The number of blocks.
    pub blocks: usize,
    /// The number of blocks with unusually little noise.
    pub low: usize,
    /// The number of blocks with unusually much noise.
    pub high: usize,
    /// The robust coefficient of variation, as a key.
    pub variation: i64,
    /// The median level, as a key.
    pub median: i64,
    /// The excess kurtosis, as a key, unless the levels are all equal.
    pub kurtosis: Option<i64>,
}

/// Texts and confidences of a noise report.
pub struct NoiseNumbers {
    /// The median level with two decimals.
    pub median2: String,
    /// The median level with three decimals.
    pub median3: String,
    /// The coefficient of variation with two decimals.
    pub variation: String,
    /// The excess kurtosis with two decimals.
    pub kurtosis: String,
    /// The confidence in inconsistency, as bits.
    pub confidence: u64,
}

/// The finding on inconsistent noise.
pub open spec fn inconsistent_noise(s: NoiseSummary, n: NoiseNumbers) -> FindingView {
    plain_finding(
        "noise"@,
        "noise_inconsistency"@,
        "Noise level inconsistency detected via wavelet MAD estimation (median σ="@ + n.median2@
            + ", robust CV="@ + n.variation@ + ", "@ + percent_text(
            (s.low + s.high) as nat,
            s.blocks as nat,
        ) + "% anomalous blocks: "@
            + decimal_text(s.low as nat) + " low-noise, "@ + decimal_text(s.high as nat)
            + " high-noise) - suggests splicing or AI generation"@,
        if share_above(s.low + s.high, s.blocks as int, 15, 100) {
            Severity::High
        } else {
            Severity::Medium
        },
        n.confidence,
    )
}

/// The finding on unnaturally low noise.
pub open spec fn low_noise(n: NoiseNumbers) -> FindingView {
    plain_finding(
        "noise"@,
        "unnaturally_low_noise"@,
        "Extremely low sensor noise (median σ="@ + n.median3@
            + " via wavelet estimation) - image may be AI-generated or heavily denoised"@,
        Severity::Medium,
        P60,
    )
}

/// The finding on heavy tails.
pub open spec fn heavy_tails(n: NoiseNumbers) -> FindingView {
    plain_finding(
        "noise"@,
        "noise_distribution_anomaly"@,
        "Noise level distribution has excess kurtosis "@ + n.kurtosis@
            + " (expected ~0 for genuine photos) - heavy tails suggest mixed content from multiple sources"@,
        Severity::Medium,
        P55,
    )
}

/// The report on the noise of an image.
pub open spec fn noise_findings(s: NoiseSummary, n: NoiseNumbers) -> Seq<FindingView> {
    if s.blocks == 0 {
        Seq::empty()
    } else {
        (if s.variation > NOISE_VARIATION || share_above(
            s.low + s.high,
            s.blocks as int,
            8,
            100,
        ) {
            seq![inconsistent_noise(s, n)]
        } else {
            Seq::empty()
        }) + (if s.median < LOW_NOISE {
            seq![low_noise(n)]
        } else {
            Seq::empty()
        }) + (if s.kurtosis is Some && s.kurtosis->0 > HEAVY_TAILS {
            seq![heavy_tails(n)]
        } else {
            Seq::empty()
        })
    }
}

impl NoiseAnalyzer {
    /// Whether an image is large enough to be analyzed.
    pub fn large_enough(&self, w: usize, h: usize) -> (r: bool)
        ensures
            r == (w >= 96 && h >= 96),
    {
        w >= 96 && h >= 96
    }

    /// Twice the median of the absolute Haar HH coefficients of a block.
    pub fn block_median_hh_cpu(&self, gray: &[u8], w: usize, h: usize, x0: usize, y0: usize) -> (r:
        i64)
        requires
            gray.len() == w * h,
            x0 + 32 <= w,
            y0 + 32 <= h,
        ensures
            r == middle(hh_of(gray@, w as int, x0 as int, y0 as int)),
    {
        let mut v: Vec<i64> = Vec::new();
        let mut k: usize = 0;
        while k < 256
            invariant
                k <= 256,
                gray.len() == w * h,
                x0 + 32 <= w,
                y0 + 32 <= h,
                v.len() == k,
                forall|j: int|
                    0 <= j < k ==> v@[j] == #[trigger] hh_of(
                        gray@,
                        w as int,
                        x0 as int,
                        y0 as int,
                    )[j],
            decreases 256 - k,
        {
            let x: usize = x0 + 2 * (k % 16);
            let y: usize = y0 + 2 * (k / 16);
            let d: i64 = px(gray, w, h, x, y) - px(gray, w, h, x + 1, y) - px(gray, w, h, x, y + 1)
                + px(gray, w, h, x + 1, y + 1);
            v.push(if d < 0 {
                -d
            } else {
                d
            });
            k += 1;
        }
        proof {
            assert(v@ =~= hh_of(gray@, w as int, x0 as int, y0 as int));
        }
        median(&v)
    }

    /// Twice the median absolute HH coefficient of every block.
    pub fn medians(&self, gray: &[u8], w: usize, h: usize) -> (r: Vec<i64>)
        requires
            gray.len() == w * h,
        ensures
            r@ == block_medians(gray@, w as int, h as int),
    {
        let bx: usize = w / 32;
        let by: usize = h / 32;
        proof {
            assert(bx * by <= w * h) by (nonlinear_arith)
                requires
                    0 <= bx <= w,
                    0 <= by <= h,
            ;
        }
        let total: usize = bx * by;
        let mut r: Vec<i64> = Vec::new();
        let mut b: usize = 0;
        while b < total
            invariant
                b <= total,
                bx == w / 32,
                by == h / 32,
                total == bx * by,
                gray.len() == w * h,
                r@ =~= block_medians(gray@, w as int, h as int).take(b as int),
            decreases total - b,
        {
            proof {
                lemma_cell_coords(bx as int, by as int, b as int);
            }
            let m: i64 = self.block_median_hh_cpu(gray, w, h, (b % bx) * 32, (b / bx) * 32);
            r.push(m);
            b += 1;
        }
        proof {
            assert(r@ =~= block_medians(gray@, w as int, h as int));
        }
        r
    }

    /// The quartiles of the noise levels.
    pub fn quartiles(&self, levels: &Vec<i64>) -> (r: Quartiles)
        requires
            0 < levels.len() <= usize::MAX / 3,
        ensures
            r == quartiles_of(levels@),
    {
        let sorted = sort_keys(levels);
        let n: usize = sorted.len();
        Quartiles { lower: sorted[n / 4], median: sorted[n / 2], upper: sorted[3 * n / 4] }
    }

    /// Counts the levels that lie below the lower fence and half the median, and those
    /// that lie above the upper fence and one and a half times the median.
    pub fn count_anomalous(
        &self,
        levels: &Vec<i64>,
        lower_fence: i64,
        half_median: i64,
        upper_fence: i64,
        above_median: i64,
    ) -> (r: (usize, usize))
        ensures
            r.0 == below_both(levels@, lower_fence, half_median, levels@.len()),
            r.1 == above_both(levels@, upper_fence, above_median, levels@.len()),
    {
        let mut low: usize = 0;
        let mut high: usize = 0;
        let mut i: usize = 0;
        while i < levels.len()
            invariant
                i <= levels.len(),
                low <= i,
                high <= i,
                low == below_both(levels@, lower_fence, half_median, i as nat),
                high == above_both(levels@, upper_fence, above_median, i as nat),
            decreases levels.len() - i,
        {
            let v: i64 = levels[i];
            if v < lower_fence && v < half_median {
                low += 1;
            }
            if v > upper_fence && v > above_median {
                high += 1;
            }
            i += 1;
        }
        (low, high)
    }

    /// Reports on the noise of an image.
    pub fn emit_findings(&self, s: &NoiseSummary, n: &NoiseNumbers) -> (r: Vec<Finding>)
        requires
            s.low + s.high <= s.blocks <= MAX_COUNT,
        ensures
            values(r@) == noise_findings(*s, *n),
    {
        broadcast use group_values;

        let mut r: Vec<Finding> = Vec::new();
        if s.blocks == 0 {
            return r;
        }
        let odd: u64 = (s.low + s.high) as u64;
        if s.variation > NOISE_VARIATION || is_share_above(odd, s.blocks as u64, 8, 100) {
            let mut t =
                "Noise level inconsistency detected via wavelet MAD estimation (median σ=".to_string();
            t.append(n.median2.as_str());
            t.append(", robust CV=");
            t.append(n.variation.as_str());
            t.append(", ");
            let share = percent(odd, s.blocks as u64);
            t.append(share.as_str());
            t.append("% anomalous blocks: ");
            append_decimal(&mut t, s.low as u64);
            t.append(" low-noise, ");
            append_decimal(&mut t, s.high as u64);
            t.append(" high-noise) - suggests splicing or AI generation");
            let severity = if is_share_above(odd, s.blocks as u64, 15, 100) {
                Severity::High
            } else {
                Severity::Medium
            };
            r.push(Finding::new("noise", "noise_inconsistency", t, severity, n.confidence));
        }
        if s.median < LOW_NOISE {
            let mut t = "Extremely low sensor noise (median σ=".to_string();
            t.append(n.median3.as_str());
            t.append(" via wavelet estimation) - image may be AI-generated or heavily denoised");
            r.push(
                Finding::new("noise", "unnaturally_low_noise", t, Severity::Medium, P60),
            );
        }
        match s.kurtosis {
            Some(k) => {
                if k > HEAVY_TAILS {
                    let mut t = "Noise level distribution has excess kurtosis ".to_string();
                    t.append(n.kurtosis.as_str());
                    t.append(
                        " (expected ~0 for genuine photos) - heavy tails suggest mixed content from multiple sources",
                    );
                    r.push(
                        Finding::new(
                            "noise",
                            "noise_distribution_anomaly",
                            t,
                            Severity::Medium,
                            P55,
                        ),
                    );
                }
            },
            None => {},
        }
        proof {
            assert(values(r@) =~= noise_findings(*s, *n));
        }
        r
    }
}

/// A coefficient is the absolute difference of the sums of the two diagonals of a square of two
/// pixels, twice its size apart from the next: none on a plane, and unchanged where all four
/// are raised alike.
pub proof fn law_diagonal_detail(gray: Seq<u8>, w: int, x0: int, y0: int, c: int, r: int)
    requires
        0 <= c < 16,
        0 <= r < 16,
    ensures
        ({
            let (x, y) = (x0 + 2 * c, y0 + 2 * r);
            let a = gray[y * w + x] + gray[(y + 1) * w + (x + 1)];
            let b = gray[y * w + (x + 1)] + gray[(y + 1) * w + x];
            hh_at(gray, w, x0, y0, 16 * r + c) == if a >= b {
                a - b
            } else {
                b - a
            }
        }),
{
}

/// The level of a block is the median of its 256 coefficients: at least half are no greater
/// and at least half no smaller.
pub proof fn law_block_levels(gray: Seq<u8>, w: int, h: int, b: int)
    requires
        0 <= b < (w / 32) * (h / 32),
    ensures
        ({
            let c = hh_of(gray, w, (b % (w / 32)) * 32, (b / (w / 32)) * 32);
            let m = block_medians(gray, w, h)[b];
            &&& c.contains(m)
            &&& 2 * how_many(256, |i: int| c[i] <= m) > 256
            &&& 2 * how_many(256, |i: int| c[i] >= m) >= 256
        }),
{
    let c = hh_of(gray, w, (b % (w / 32)) * 32, (b / (w / 32)) * 32);
    law_median_splits(c);
}

/// A quarter of the levels lie no higher than the lower quartile, a quarter no lower than the
/// upper one, and the median lies between.
pub proof fn law_quartiles(v: Seq<i64>)
    requires
        4 <= v.len() <= usize::MAX,
    ensures
        ({
            let q = quartiles_of(v);
            &&& q.lower <= q.median <= q.upper
            &&& 4 * how_many(v.len(), |i: int| v[i] <= q.lower) > v.len()
            &&& 4 * how_many(v.len(), |i: int| v[i] >= q.lower) >= 3 * v.len()
            &&& 2 * how_many(v.len(), |i: int| v[i] <= q.median) > v.len()
            &&& 2 * how_many(v.len(), |i: int| v[i] >= q.median) >= v.len()
            &&& 4 * how_many(v.len(), |i: int| v[i] <= q.upper) > 3 * v.len()
            &&& 4 * how_many(v.len(), |i: int| v[i] >= q.upper) >= v.len()
        }),
{
    let n = v.len() as int;
    law_nth_smallest(v, n / 4);
    law_nth_smallest(v, n / 2);
    law_nth_smallest(v, 3 * n / 4);
    law_ascending(v, n / 4, n / 2);
    law_ascending(v, n / 2, 3 * n / 4);
}

/// A block has too little noise where it lies below both bounds.
pub proof fn law_quiet_blocks(v: Seq<i64>, a: i64, b: i64, n: nat)
    requires
        n <= v.len(),
    ensures
        below_both(v, a, b, n) == how_many(n, |i: int| !(v[i] >= a || v[i] >= b)),
    decreases n,
{
    let p = |i: int| !(v[i] >= a || v[i] >= b);
    lemma_which(0, p);
    if n > 0 {
        law_quiet_blocks(v, a, b, (n - 1) as nat);
        lemma_which((n - 1) as nat, p);
    }
}

/// A block has too much noise where it lies above both bounds.
pub proof fn law_noisy_blocks(v: Seq<i64>, a: i64, b: i64, n: nat)
    requires
        n <= v.len(),
    ensures
        above_both(v, a, b, n) == how_many(n, |i: int| !(v[i] <= a || v[i] <= b)),
    decreases n,
{
    let p = |i: int| !(v[i] <= a || v[i] <= b);
    lemma_which(0, p);
    if n > 0 {
        law_noisy_blocks(v, a, b, (n - 1) as nat);
        lemma_which((n - 1) as nat, p);
    }
}

/// Noise is inconsistent where its variation is above a half or more than eight percent of the
/// blocks deviate, to either side; it is of high severity above fifteen percent. A median below
/// 0.8 is too little noise, and a kurtosis above three too heavy a tail.
pub proof fn law_when_noise_is_reported(s: NoiseSummary, n: NoiseNumbers)
    requires
        s.blocks > 0,
    ensures
        ({
            let f = noise_findings(s, n);
            let a = s.variation > 0x3FE0_0000_0000_0000 || 100 * (s.high + s.low) > 8 * s.blocks;
            let b = s.median < 0x3FE9_9999_9999_999A;
            let c = s.kurtosis matches Some(k) && k > 0x4008_0000_0000_0000;
            let i = if a {
                1int
            } else {
                0
            };
            &&& f.len() == i + (if b {
                1int
            } else {
                0
            }) + (if c {
                1int
            } else {
                0
            })
            &&& a ==> f[0].code == "noise_inconsistency"@ && f[0].severity == if 100 * (s.high + s.low)
                > 15 * s.blocks {
                Severity::High
            } else {
                Severity::Medium
            }
            &&& b ==> f[i].code == "unnaturally_low_noise"@ && f[i].severity == Severity::Medium
            &&& c ==> f.last().code == "noise_distribution_anomaly"@ && f.last().severity
                == Severity::Medium
        }),
{
}

} // verus!
