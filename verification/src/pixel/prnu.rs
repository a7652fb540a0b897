//! PRNU sensor-fingerprint analysis.
//!
//! The residual of an image against its denoised version carries the fingerprint of the
//! sensor. Blocks that correlate less with the others come from a different sensor; no
//! correlation at all means no sensor. Denoising and correlation are computed in
//! floating point by the caller.

use crate::bits::P50;
use crate::bits::P60;
use crate::components::lemma_cell_coords;
use crate::finding::Finding;
use crate::finding::FindingView;
use crate::finding::Severity;
use crate::finding::group_values;
use crate::finding::plain_finding;
use crate::finding::values;
use crate::grid::cell;
use crate::number::is_share_above;
use crate::number::is_share_below;
use crate::number::share_above;
use crate::number::share_below;
use crate::pixel::downsample::downsample;
use crate::pixel::downsample::downsampled;
use crate::select::how_many;
use crate::select::lemma_which;
use crate::share::Factor;
use crate::share::MAX_COUNT;
use crate::share::U60;
use crate::share::U92;
use crate::share::graded;
use crate::share::graded_of;
use crate::share::percent;
use crate::share::percent_text;
use crate::text::append_decimal;
use crate::text::decimal_text;
use vstd::prelude::*;
use vstd::string::*;

verus! {

/// The PRNU analyzer.
pub struct PrnuAnalyzer;

/// The size of a block in pixels.
pub const PRNU_BLOCK: usize = 64;

/// Larger images are downsampled to this side length.
pub const MAX_PRNU_DIM: usize = 800;

/// Below this correlation there is no fingerprint, as a key: 0.05.
pub const NO_FINGERPRINT: i64 = 0x3FA9_9999_9999_999A;

/// Below this energy ratio the fingerprint is weak, as a key: 30.
pub const WEAK_ENERGY: i64 = 0x403E_0000_0000_0000;

/// Above this correlation a weak fingerprint counts, as a key: 0.01.
pub const SOME_CORRELATION: i64 = 0x3F84_7AE1_47AE_147B;

/// The largest multiple of sixteen that is not above a size.
pub open spec fn aligned(n: int) -> int {
    n / 16 * 16
}

/// The top left part of a raster.
pub open spec fn cropped(gray: Seq<u8>, w: int, dw: int, dh: int) -> Seq<u8> {
    Seq::new((dw * dh) as nat, |i: int| gray[(i / dw) * w + i % dw])
}

/// The blocks among the first `n` whose mean correlation lies below a threshold.
pub open spec fn weak_count(c: Seq<i64>, threshold: i64, n: nat) -> nat
    decreases n,
{
    if n == 0 {
        0
    } else {
        weak_count(c, threshold, (n - 1) as nat) + if c[n - 1] < threshold {
            1nat
        } else {
            0nat
        }
    }
}

/// Texts and confidences of a PRNU report.
pub struct PrnuNumbers {
    /// The mean correlation with four decimals.
    pub correlation: String,
    /// The energy ratio with one decimal.
    pub energy: String,
}

/// The finding on blocks from a different sensor.
pub open spec fn inconsistent_sensor(weak: int, blocks: int, n: PrnuNumbers) -> FindingView {
    plain_finding(
        "prnu"@,
        "prnu_inconsistency"@,
        "PRNU sensor fingerprint inconsistency: "@ + percent_text(weak as nat, blocks as nat)
            + "% of blocks show different sensor noise patterns (wavelet-based extraction, global correlation "@
            + n.correlation@ + ", "@ + decimal_text(weak as nat)
            + " anomalous blocks below Grubbs threshold) - indicates content from different cameras or synthetic generation"@,
        Severity::Critical,
        graded_of(U60, weak as nat, blocks as nat, Factor { num: 1, den: 2 }, U92),
    )
}

/// The finding that there is no fingerprint.
pub open spec fn no_sensor(n: PrnuNumbers) -> FindingView {
    plain_finding(
        "prnu"@,
        "prnu_absent"@,
        "No detectable PRNU sensor fingerprint (mean correlation "@ + n.correlation@
            + ", wavelet denoising with 4 decomposition levels) - image was likely not captured by a physical camera sensor"@,
        Severity::High,
        P60,
    )
}

/// The finding on a weak fingerprint.
pub open spec fn weak_sensor(n: PrnuNumbers) -> FindingView {
    plain_finding(
        "prnu"@,
        "low_pce"@,
        "Low Peak-to-Correlation Energy ("@ + n.energy@
            + ") indicates weak sensor fingerprint - below threshold for confident camera attribution"@,
        Severity::Medium,
        P50,
    )
}

/// The report on an image's sensor fingerprint: `weak` of `blocks` blocks correlate less
/// than the threshold; `correlation` and `energy` are keys.
pub open spec fn prnu_findings(
    weak: int,
    blocks: int,
    correlation: i64,
    energy: i64,
    n: PrnuNumbers,
) -> Seq<FindingView> {
    (if share_above(weak, blocks, 5, 100) && share_below(weak, blocks, 70, 100) {
        seq![inconsistent_sensor(weak, blocks, n)]
    } else {
        Seq::empty()
    }) + (if 0 <= correlation < NO_FINGERPRINT {
        seq![no_sensor(n)]
    } else {
        Seq::empty()
    }) + (if energy < WEAK_ENERGY && correlation > SOME_CORRELATION {
        seq![weak_sensor(n)]
    } else {
        Seq::empty()
    })
}

impl PrnuAnalyzer {
    /// Downsamples a luminance plane to `dw` by `dh`, with samples mixed from their four
    /// neighbours in the source.
    pub fn downsample_gray(src: &[u8], sw: usize, sh: usize, dw: usize, dh: usize) -> (r: Vec<u8>)
        requires
            src.len() == sw * sh,
            0 < dw <= sw <= u32::MAX,
            0 < dh <= sh <= u32::MAX,
        ensures
            r@ == downsampled(src@, sw as int, sh as int, dw as int, dh as int),
    {
        downsample(src, sw, sh, dw, dh)
    }

    /// Whether an image is large enough to be analyzed.
    pub fn large_enough(&self, w: usize, h: usize) -> (r: bool)
        ensures
            r == (w >= 128 && h >= 128),
    {
        w >= 128 && h >= 128
    }

    /// Whether so many blocks are enough for their patterns to be correlated.
    pub fn enough_blocks(&self, n: usize) -> (r: bool)
        ensures
            r == (n >= 4),
    {
        n >= 4
    }

    /// Whether so many coefficients are enough to estimate their noise.
    pub fn can_shrink(&self, n: usize) -> (r: bool)
        ensures
            r == (n >= 4),
    {
        n >= 4
    }

    /// Whether a plane is large enough for one more level of the wavelet transform.
    pub fn can_split(&self, w: usize, h: usize) -> (r: bool)
        ensures
            r == (w >= 16 && h >= 16),
    {
        w >= 16 && h >= 16
    }

    /// Whether an image is downsampled first.
    pub fn too_large(&self, w: usize, h: usize) -> (r: bool)
        ensures
            r == (w > MAX_PRNU_DIM || h > MAX_PRNU_DIM),
    {
        w > MAX_PRNU_DIM || h > MAX_PRNU_DIM
    }

    /// The largest multiple of sixteen that is not above a size.
    pub fn align(&self, n: usize) -> (r: usize)
        ensures
            r == aligned(n as int),
            r <= n,
    {
        n / 16 * 16
    }

    /// Cuts an image down to its top left part.
    pub fn crop(&self, gray: &[u8], w: usize, h: usize, dw: usize, dh: usize) -> (r: Vec<u8>)
        requires
            gray.len() == w * h,
            dw <= w,
            dh <= h,
        ensures
            r@ == cropped(gray@, w as int, dw as int, dh as int),
    {
        proof {
            assert(dw * dh <= w * h) by (nonlinear_arith)
                requires
                    0 <= dw <= w,
                    0 <= dh <= h,
            ;
        }
        let total: usize = dw * dh;
        let mut r: Vec<u8> = Vec::new();
        let mut i: usize = 0;
        while i < total
            invariant
                i <= total,
                total == dw * dh,
                gray.len() == w * h,
                dw <= w,
                dh <= h,
                r@ =~= cropped(gray@, w as int, dw as int, dh as int).take(i as int),
            decreases total - i,
        {
            proof {
                lemma_cell_coords(dw as int, dh as int, i as int);
            }
            let at: usize = cell(w, h, i % dw, i / dw);
            r.push(gray[at]);
            i += 1;
        }
        proof {
            assert(r@ =~= cropped(gray@, w as int, dw as int, dh as int));
        }
        r
    }

    /// Counts the blocks whose mean correlation lies below a threshold.
    pub fn count_weak(&self, c: &Vec<i64>, threshold: i64) -> (r: usize)
        ensures
            r == weak_count(c@, threshold, c@.len()),
    {
        let mut k: usize = 0;
        let mut i: usize = 0;
        while i < c.len()
            invariant
                i <= c.len(),
                k <= i,
                k == weak_count(c@, threshold, i as nat),
            decreases c.len() - i,
        {
            if c[i] < threshold {
                k += 1;
            }
            i += 1;
        }
        k
    }

    /// Reports on an image's sensor fingerprint.
    pub fn report(
        &self,
        weak: usize,
        blocks: usize,
        correlation: i64,
        energy: i64,
        n: &PrnuNumbers,
    ) -> (r: Vec<Finding>)
        requires
            blocks <= MAX_COUNT,
        ensures
            values(r@) == prnu_findings(weak as int, blocks as int, correlation, energy, *n),
    {
        broadcast use group_values;

        let mut r: Vec<Finding> = Vec::new();
        if is_share_above(weak as u64, blocks as u64, 5, 100) && is_share_below(
            weak as u64,
            blocks as u64,
            70,
            100,
        ) {
            let mut t = "PRNU sensor fingerprint inconsistency: ".to_string();
            let share = percent(weak as u64, blocks as u64);
            t.append(share.as_str());
            t.append(
                "% of blocks show different sensor noise patterns (wavelet-based extraction, global correlation ",
            );
            t.append(n.correlation.as_str());
            t.append(", ");
            append_decimal(&mut t, weak as u64);
            t.append(
                " anomalous blocks below Grubbs threshold) - indicates content from different cameras or synthetic generation",
            );
            let half = Factor { num: 1, den: 2 };
            let sure: u64 = graded(U60, weak as u64, blocks as u64, half, U92);
            r.push(Finding::new("prnu", "prnu_inconsistency", t, Severity::Critical, sure));
        }
        if 0 <= correlation && correlation < NO_FINGERPRINT {
            let mut t = "No detectable PRNU sensor fingerprint (mean correlation ".to_string();
            t.append(n.correlation.as_str());
            t.append(
                ", wavelet denoising with 4 decomposition levels) - image was likely not captured by a physical camera sensor",
            );
            r.push(Finding::new("prnu", "prnu_absent", t, Severity::High, P60));
        }
        if energy < WEAK_ENERGY && correlation > SOME_CORRELATION {
            let mut t = "Low Peak-to-Correlation Energy (".to_string();
            t.append(n.energy.as_str());
            t.append(
                ") indicates weak sensor fingerprint - below threshold for confident camera attribution",
            );
            r.push(Finding::new("prnu", "low_pce", t, Severity::Medium, P50));
        }
        proof {
            assert(values(r@) =~= prnu_findings(
                weak as int,
                blocks as int,
                correlation,
                energy,
                *n,
            ));
        }
        r
    }
}

/// A side is cut to the greatest multiple of sixteen that it holds.
pub proof fn law_aligned(n: int)
    requires
        0 <= n,
    ensures
        aligned(n) % 16 == 0,
        aligned(n) <= n < aligned(n) + 16,
{
}

/// A cut keeps the pixels of the upper left.
pub proof fn law_cropped(g: Seq<u8>, w: int, dw: int, dh: int, x: int, y: int)
    requires
        0 <= x < dw,
        0 <= y < dh,
    ensures
        cropped(g, w, dw, dh).len() == dw * dh,
        cropped(g, w, dw, dh)[y * dw + x] == g[y * w + x],
{
    vstd::arithmetic::div_mod::lemma_fundamental_div_mod_converse(y * dw + x, dw, y, x);
    assert(0 <= y * dw + x < dw * dh) by (nonlinear_arith)
        requires
            0 <= x < dw,
            0 <= y < dh,
    ;
}

/// Blocks with a correlation below the threshold are counted.
pub proof fn law_weak_blocks(c: Seq<i64>, threshold: i64, n: nat)
    requires
        n <= c.len(),
    ensures
        weak_count(c, threshold, n) == how_many(n, |i: int| threshold > c[i]),
    decreases n,
{
    let p = |i: int| threshold > c[i];
    lemma_which(0, p);
    if n > 0 {
        law_weak_blocks(c, threshold, (n - 1) as nat);
        lemma_which((n - 1) as nat, p);
    }
}

/// Weak blocks are told above a twentieth and below seven tenths; no fingerprint from a
/// correlation of zero to below 0.05; a weak one below an energy of thirty where the
/// correlation is above 0.01.
pub proof fn law_when_sensors_are_reported(weak: int, blocks: int, correlation: i64, energy: i64, t: PrnuNumbers)
    ensures
        ({
            let f = prnu_findings(weak, blocks, correlation, energy, t);
            let d0 = share_above(weak, blocks, 5, 100) && share_below(weak, blocks, 70, 100);
            let n1 = if d0 {
                1int
            } else {
                0
            };
            let d1 = correlation >= 0 && correlation < 0x3FA9_9999_9999_999A;
            let n2 = n1 + if d1 {
                1int
            } else {
                0
            };
            let d2 = energy < 0x403E_0000_0000_0000 && correlation > 0x3F84_7AE1_47AE_147B;
            let n3 = n2 + if d2 {
                1int
            } else {
                0
            };
            &&& f.len() == n3
            &&& d0 ==> f[0].code == "prnu_inconsistency"@ && f[0].severity == Severity::Critical
            &&& d1 ==> f[n1].code == "prnu_absent"@ && f[n1].severity == Severity::High && f[n1].confidence == 0x3FE3_3333_3333_3333
            &&& d2 ==> f[n2].code == "low_pce"@ && f[n2].severity == Severity::Medium && f[n2].confidence == 0x3FE0_0000_0000_0000
        }),
        PRNU_BLOCK == 64,
        MAX_PRNU_DIM == 800,
{
}

} // verus!
