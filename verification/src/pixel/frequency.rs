//! Frequency-domain analysis of synthetic images.
//!
//! Signals: the falloff exponent of the radial power spectrum, spectral flatness, peaks of
//! the azimuthal spectrum, and mid and high frequency energy ratios. The spectrum is
//! computed by the caller; its statistics arrive as keys.

use crate::bits::P55;
use crate::bits::P65;
use crate::bits::P70;
use crate::bits::P75;
use crate::finding::Finding;
use crate::finding::FindingView;
use crate::finding::Severity;
use crate::finding::group_values;
use crate::finding::plain_finding;
use crate::finding::values;
use crate::grid::imin;
use crate::raster::Frame;
use crate::raster::gray_resampled;
use crate::raster::resizable;
use crate::raster::working_gray;
use crate::robust::median;
use crate::robust::middle;
use crate::select::how_many;
use crate::select::lemma_which;
use crate::select::which;
use vstd::prelude::*;
use vstd::string::*;

verus! {

/// The frequency analyzer.
pub struct FrequencyAnalyzer;

/// The key of 1.3.
pub const LOW_EXPONENT: i64 = 0x3FF4_CCCC_CCCC_CCCD;

/// The key of 3.2.
pub const HIGH_EXPONENT: i64 = 0x4009_9999_9999_999A;

/// The key of 0.65.
pub const FLAT: i64 = 0x3FE4_CCCC_CCCC_CCCD;

/// The key of 3.0.
pub const PEAK_RATIO: i64 = 0x4008_0000_0000_0000;

/// The key of 0.55.
pub const MID_ENERGY: i64 = 0x3FE1_9999_9999_999A;

/// The key of 0.03.
pub const HIGH_ENERGY: i64 = 0x3F9E_B851_EB85_1EB8;

/// Statistics of a spectrum, as keys.
#[derive(Debug, Clone, Copy, PartialEq, Eq, Structural)]
pub struct SpectrumStats {
    pub spectral_exponent: i64,
    pub spectral_flatness: i64,
    pub high_freq_ratio: i64,
    pub mid_freq_ratio: i64,
    pub periodic_peaks_detected: bool,
    pub azimuthal_peak_ratio: i64,
}

/// The statistics as text: the exponent with two decimals, flatness with three, the peak
/// ratio with one, the mid ratio with three and the high ratio with four.
pub struct SpectrumTexts {
    pub exponent: String,
    pub flatness: String,
    pub peak: String,
    pub mid: String,
    pub high: String,
}

/// The report on a spectrum.
pub open spec fn spectrum_findings(s: SpectrumStats, t: SpectrumTexts) -> Seq<FindingView> {
    (if s.spectral_exponent < LOW_EXPONENT || s.spectral_exponent > HIGH_EXPONENT {
        seq![
            plain_finding(
                "frequency"@,
                "spectral_exponent_anomaly"@,
                "Spectral falloff exponent β="@ + t.exponent@
                    + " deviates from natural range [1.5, 2.5]"@,
                Severity::High,
                P70,
            ),
        ]
    } else {
        Seq::empty()
    }) + (if s.spectral_flatness > FLAT {
        seq![
            plain_finding(
                "frequency"@,
                "flat_spectrum"@,
                "Wiener entropy "@ + t.flatness@
                    + " indicates unusually flat frequency spectrum"@,
                Severity::High,
                P65,
            ),
        ]
    } else {
        Seq::empty()
    }) + (if s.periodic_peaks_detected && s.azimuthal_peak_ratio > PEAK_RATIO {
        seq![
            plain_finding(
                "frequency"@,
                "gan_spectral_peaks"@,
                "Periodic peaks in azimuthal spectrum (peak/median ratio "@ + t.peak@
                    + "x) - characteristic of GAN transposed-convolution artifacts"@,
                Severity::Critical,
                P75,
            ),
        ]
    } else {
        Seq::empty()
    }) + (if s.mid_freq_ratio > MID_ENERGY {
        seq![
            plain_finding(
                "frequency"@,
                "mid_freq_anomaly"@,
                "Elevated mid-frequency energy ratio ("@ + t.mid@
                    + ") - may indicate diffusion model generation"@,
                Severity::Medium,
                P55,
            ),
        ]
    } else {
        Seq::empty()
    }) + (if s.high_freq_ratio < HIGH_ENERGY {
        seq![
            plain_finding(
                "frequency"@,
                "low_high_freq_energy"@,
                "Abnormally low high-frequency energy ("@ + t.high@
                    + ") - may indicate AI upscaling or synthetic generation"@,
                Severity::Medium,
                P55,
            ),
        ]
    } else {
        Seq::empty()
    })
}

/// The positive ones of the first `n` keys.
pub open spec fn positive(v: Seq<i64>, n: nat) -> Seq<i64>
    decreases n,
{
    if n == 0 {
        Seq::empty()
    } else if v[n - 1] > 0 {
        positive(v, (n - 1) as nat).push(v[n - 1])
    } else {
        positive(v, (n - 1) as nat)
    }
}

/// How many of the first `n` keys exceed a threshold.
pub open spec fn count_above(v: Seq<i64>, threshold: i64, n: nat) -> nat
    decreases n,
{
    if n == 0 {
        0
    } else {
        count_above(v, threshold, (n - 1) as nat) + if v[n - 1] > threshold {
            1nat
        } else {
            0nat
        }
    }
}

/// The azimuthal spectrum has periodic peaks: a peak of more than three times the median, and
/// two to sixteen values above two and a half times the median.
pub open spec fn has_peaks(ratio: i64, peaks: int) -> bool {
    ratio > PEAK_RATIO && 2 <= peaks <= 16
}

/// A band of frequencies.
#[derive(Debug, Clone, Copy, PartialEq, Eq, Structural)]
pub enum Band {
    Low,
    Mid,
    High,
}

/// The signed frequency of index `x` of a transform of length `n`.
pub open spec fn frequency_of(x: int, n: int) -> int {
    (x + n / 2) % n - n / 2
}

/// The squared distance of a coefficient from the mean.
pub open spec fn squared_radius(x: int, y: int, w: int, h: int) -> int {
    frequency_of(x, w) * frequency_of(x, w) + frequency_of(y, h) * frequency_of(y, h)
}

/// The largest distance that is measured.
pub open spec fn max_radius(w: int, h: int) -> int {
    imin(w / 2, h / 2)
}

/// The band of a coefficient: below a quarter of the largest distance, up to three quarters of
/// it, or above. The mean and the coefficients farther off belong to none.
pub open spec fn band_at(x: int, y: int, w: int, h: int) -> Option<Band> {
    let r = squared_radius(x, y, w, h);
    let m = max_radius(w, h) * max_radius(w, h);
    if r < 1 || r >= m {
        None
    } else if 16 * r > 9 * m {
        Some(Band::High)
    } else if 16 * r > m {
        Some(Band::Mid)
    } else {
        Some(Band::Low)
    }
}

fn signed_frequency(x: usize, n: usize) -> (r: i128)
    requires
        x < n <= u32::MAX,
    ensures
        r == frequency_of(x as int, n as int),
        -0x1_0000_0000 <= r <= 0x1_0000_0000,
{
    ((x as u64 + n as u64 / 2) % n as u64) as i128 - (n / 2) as i128
}

impl FrequencyAnalyzer {
    /// The band that a coefficient of a two-dimensional transform belongs to.
    pub fn band_of(&self, x: usize, y: usize, w: usize, h: usize) -> (r: Option<Band>)
        requires
            x < w <= u32::MAX,
            y < h <= u32::MAX,
        ensures
            r == band_at(x as int, y as int, w as int, h as int),
    {
        let fx: i128 = signed_frequency(x, w);
        let fy: i128 = signed_frequency(y, h);
        let most: i128 = if w / 2 < h / 2 {
            (w / 2) as i128
        } else {
            (h / 2) as i128
        };
        proof {
            assert(0 <= fx * fx <= 0x1_0000_0000_0000_0000) by (nonlinear_arith)
                requires
                    -0x1_0000_0000 <= fx <= 0x1_0000_0000,
            ;
            assert(0 <= fy * fy <= 0x1_0000_0000_0000_0000) by (nonlinear_arith)
                requires
                    -0x1_0000_0000 <= fy <= 0x1_0000_0000,
            ;
            assert(0 <= most * most <= 0x1_0000_0000_0000_0000) by (nonlinear_arith)
                requires
                    0 <= most <= 0x1_0000_0000,
            ;
        }
        let r: i128 = fx * fx + fy * fy;
        let m: i128 = most * most;
        if r < 1 || r >= m {
            None
        } else if 16 * r > 9 * m {
            Some(Band::High)
        } else if 16 * r > m {
            Some(Band::Mid)
        } else {
            Some(Band::Low)
        }
    }

    /// Whether an image is large enough to be analyzed.
    pub fn large_enough(&self, w: u32, h: u32) -> (r: bool)
        ensures
            r == (w >= 64 && h >= 64),
    {
        w >= 64 && h >= 64
    }

    /// Whether so many radii are enough to fit the fall of a spectrum.
    pub fn enough_for_slope(&self, n: usize) -> (r: bool)
        ensures
            r == (n >= 3),
    {
        n >= 3
    }

    /// Whether so many radii are enough to tell the flatness of a spectrum.
    pub fn enough_for_flatness(&self, n: usize) -> (r: bool)
        ensures
            r == (n >= 2),
    {
        n >= 2
    }

    /// Whether an image is downsampled first.
    pub fn too_large(&self, w: u32, h: u32) -> (r: bool)
        ensures
            r == (w > 800 || h > 600),
    {
        w > 800 || h > 600
    }

    /// The luminance plane that is analyzed: resampled to `nw` by `nh` where the image is too
    /// large.
    pub fn working_image(&self, gray: &[u8], w: u32, h: u32, nw: u32, nh: u32) -> (r: Frame)
        requires
            gray@.len() == w * h,
            w > 800 || h > 600 ==> resizable(w, h, nw, nh),
        ensures
            r.monochrome,
            r.wf(),
            (r.width, r.height, r.samples@) == if w > 800 || h > 600 {
                (nw, nh, gray_resampled(gray@, w, h, nw, nh))
            } else {
                (w, h, gray@)
            },
    {
        if self.too_large(w, h) {
            working_gray(gray, w, h, Some((nw, nh)))
        } else {
            working_gray(gray, w, h, None)
        }
    }

    /// The positive values of an azimuthal spectrum and their median, if there are at least
    /// ten.
    pub fn azimuthal_median(&self, v: &Vec<i64>) -> (r: Option<(Vec<i64>, i64)>)
        ensures
            match r {
                Some((p, m)) => p@ == positive(v@, v@.len()) && p.len() >= 10 && m == middle(p@),
                None => positive(v@, v@.len()).len() < 10,
            },
    {
        let mut p: Vec<i64> = Vec::new();
        let mut i: usize = 0;
        while i < v.len()
            invariant
                i <= v.len(),
                p@ == positive(v@, i as nat),
            decreases v.len() - i,
        {
            if v[i] > 0 {
                p.push(v[i]);
            }
            i += 1;
        }
        if p.len() < 10 {
            return None;
        }
        let m: i64 = median(&p);
        Some((p, m))
    }

    /// Whether an azimuthal spectrum has periodic peaks. `ratio` is the key of the largest
    /// value over the median, `threshold` that of two and a half times the median.
    pub fn detect_periodic_peaks(&self, p: &Vec<i64>, ratio: i64, threshold: i64) -> (r: bool)
        ensures
            r == has_peaks(ratio, count_above(p@, threshold, p@.len()) as int),
    {
        let mut c: usize = 0;
        let mut i: usize = 0;
        while i < p.len()
            invariant
                i <= p.len(),
                c <= i,
                c == count_above(p@, threshold, i as nat),
            decreases p.len() - i,
        {
            if p[i] > threshold {
                c += 1;
            }
            i += 1;
        }
        ratio > PEAK_RATIO && 2 <= c && c <= 16
    }

    /// Reports on a spectrum.
    pub fn report(&self, s: SpectrumStats, t: &SpectrumTexts) -> (r: Vec<Finding>)
        ensures
            values(r@) == spectrum_findings(s, *t),
    {
        broadcast use group_values;

        let mut r: Vec<Finding> = Vec::new();
        if s.spectral_exponent < LOW_EXPONENT || s.spectral_exponent > HIGH_EXPONENT {
            let mut x = "Spectral falloff exponent β=".to_string();
            x.append(t.exponent.as_str());
            x.append(" deviates from natural range [1.5, 2.5]");
            r.push(
                Finding::new("frequency", "spectral_exponent_anomaly", x, Severity::High, P70),
            );
        }
        if s.spectral_flatness > FLAT {
            let mut x = "Wiener entropy ".to_string();
            x.append(t.flatness.as_str());
            x.append(" indicates unusually flat frequency spectrum");
            r.push(Finding::new("frequency", "flat_spectrum", x, Severity::High, P65));
        }
        if s.periodic_peaks_detected && s.azimuthal_peak_ratio > PEAK_RATIO {
            let mut x = "Periodic peaks in azimuthal spectrum (peak/median ratio ".to_string();
            x.append(t.peak.as_str());
            x.append("x) - characteristic of GAN transposed-convolution artifacts");
            r.push(
                Finding::new("frequency", "gan_spectral_peaks", x, Severity::Critical, P75),
            );
        }
        if s.mid_freq_ratio > MID_ENERGY {
            let mut x = "Elevated mid-frequency energy ratio (".to_string();
            x.append(t.mid.as_str());
            x.append(") - may indicate diffusion model generation");
            r.push(Finding::new("frequency", "mid_freq_anomaly", x, Severity::Medium, P55));
        }
        if s.high_freq_ratio < HIGH_ENERGY {
            let mut x = "Abnormally low high-frequency energy (".to_string();
            x.append(t.high.as_str());
            x.append(") - may indicate AI upscaling or synthetic generation");
            r.push(
                Finding::new("frequency", "low_high_freq_energy", x, Severity::Medium, P55),
            );
        }
        proof {
            assert(values(r@) =~= spectrum_findings(s, *t));
        }
        r
    }
}

/// What a spectrum tells: an exponent below 1.3 or above 3.2, a flatness above 0.65, peaks
/// above a ratio of three, much energy in the middle, above 0.55, and little in the high
/// band, below 0.03.
pub proof fn law_when_spectra_are_reported(s: SpectrumStats, t: SpectrumTexts)
    ensures
        ({
            let f = spectrum_findings(s, t);
            let d0 = s.spectral_exponent < 0x3FF4_CCCC_CCCC_CCCD || s.spectral_exponent > 0x4009_9999_9999_999A;
            let n1 = if d0 {
                1int
            } else {
                0
            };
            let d1 = s.spectral_flatness > 0x3FE4_CCCC_CCCC_CCCD;
            let n2 = n1 + if d1 {
                1int
            } else {
                0
            };
            let d2 = s.periodic_peaks_detected && s.azimuthal_peak_ratio > 0x4008_0000_0000_0000;
            let n3 = n2 + if d2 {
                1int
            } else {
                0
            };
            let d3 = s.mid_freq_ratio > 0x3FE1_9999_9999_999A;
            let n4 = n3 + if d3 {
                1int
            } else {
                0
            };
            let d4 = s.high_freq_ratio < 0x3F9E_B851_EB85_1EB8;
            let n5 = n4 + if d4 {
                1int
            } else {
                0
            };
            &&& f.len() == n5
            &&& d0 ==> f[0].code == "spectral_exponent_anomaly"@ && f[0].severity == Severity::High && f[0].confidence == 0x3FE6_6666_6666_6666
            &&& d1 ==> f[n1].code == "flat_spectrum"@ && f[n1].severity == Severity::High && f[n1].confidence == 0x3FE4_CCCC_CCCC_CCCD
            &&& d2 ==> f[n2].code == "gan_spectral_peaks"@ && f[n2].severity == Severity::Critical && f[n2].confidence == 0x3FE8_0000_0000_0000
            &&& d3 ==> f[n3].code == "mid_freq_anomaly"@ && f[n3].severity == Severity::Medium && f[n3].confidence == 0x3FE1_9999_9999_999A
            &&& d4 ==> f[n4].code == "low_high_freq_energy"@ && f[n4].severity == Severity::Medium && f[n4].confidence == 0x3FE1_9999_9999_999A
        }),
{
}

/// The values above zero are kept.
pub proof fn law_positive(v: Seq<i64>, n: nat)
    requires
        n <= v.len(),
    ensures
        positive(v, n) == which(n, |i: int| 0 < v[i]).map_values(|i: int| v[i]),
    decreases n,
{
    let p = |i: int| 0 < v[i];
    let f = |i: int| v[i];
    lemma_which(0, p);
    if n > 0 {
        let lower = (n - 1) as nat;
        law_positive(v, lower);
        lemma_which(lower, p);
        assert(which(n, p).map_values(f) =~= if p(lower as int) {
            which(lower, p).map_values(f).push(f(lower as int))
        } else {
            which(lower, p).map_values(f)
        });
    } else {
        assert(which(0, p).map_values(f) =~= Seq::<i64>::empty());
    }
}

/// Values above a threshold are counted.
pub proof fn law_count_above(v: Seq<i64>, threshold: i64, n: nat)
    requires
        n <= v.len(),
    ensures
        count_above(v, threshold, n) == how_many(n, |i: int| threshold < v[i]),
    decreases n,
{
    let p = |i: int| threshold < v[i];
    lemma_which(0, p);
    if n > 0 {
        law_count_above(v, threshold, (n - 1) as nat);
        lemma_which((n - 1) as nat, p);
    }
}

/// Peaks are periodic above a ratio of three where there are two to sixteen.
pub proof fn law_has_peaks(ratio: i64, peaks: int)
    ensures
        has_peaks(ratio, peaks) <==> ratio > 0x4008_0000_0000_0000 && peaks > 1 && peaks < 17,
{
}

/// The frequency of a column is its number up to the middle, and counted back from the end beyond
/// it.
pub proof fn law_frequency(x: int, n: int)
    requires
        0 <= x < n,
    ensures
        2 * x < n && x < n - n / 2 ==> frequency_of(x, n) == x,
        x >= n - n / 2 ==> frequency_of(x, n) == x - n,
{
    if x < n - n / 2 {
        vstd::arithmetic::div_mod::lemma_small_mod((x + n / 2) as nat, n as nat);
    } else {
        let r = x + n / 2 - n;
        vstd::arithmetic::div_mod::lemma_small_mod(r as nat, n as nat);
        vstd::arithmetic::div_mod::lemma_mod_add_multiples_vanish(r, n);
        assert(n + r == x + n / 2);
    }
}

/// A band by the distance from the centre: low up to a quarter of the greatest, high beyond three
/// quarters, and none at the centre or from the greatest on.
pub proof fn law_bands(x: int, y: int, w: int, h: int)
    ensures
        ({
            let (a, b) = (frequency_of(x, w), frequency_of(y, h));
            let r = a * a + b * b;
            let k = if w < h {
                w / 2
            } else {
                h / 2
            };
            let m = k * k;
            &&& band_at(x, y, w, h) is None <==> r <= 0 || m <= r
            &&& band_at(x, y, w, h) == Some(Band::Low) <==> 0 < r < m && 16 * r <= m
            &&& band_at(x, y, w, h) == Some(Band::Mid) <==> 0 < r < m && m < 16 * r <= 9 * m
            &&& band_at(x, y, w, h) == Some(Band::High) <==> 0 < r < m && 9 * m < 16 * r
        }),
{
    let k = if w < h {
        w / 2
    } else {
        h / 2
    };
    assert(max_radius(w, h) == k);
    assert(k * k >= 0) by (nonlinear_arith);
}

} // verus!
