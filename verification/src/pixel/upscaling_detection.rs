//! Upscaling and super-resolution detection.
//!
//! Two signals: periodicity of the second derivative at integer factors, and suppressed
//! high-frequency energy relative to the stated resolution. Autocorrelations and means are
//! computed in floating point by the caller.

use crate::components::lemma_cell_coords;
use crate::finding::Finding;
use crate::finding::FindingView;
use crate::finding::Severity;
use crate::finding::plain_finding;
use crate::grid::imin;
use crate::grid::pixel;
use crate::grid::px;
use crate::pixel::resampling::second_difference;
use crate::select::total;
use crate::text::append_decimal;
use crate::text::decimal_text;
use vstd::prelude::*;
use vstd::string::*;

verus! {

/// The upscaling detector.
pub struct UpscalingDetector;

/// Above this autocorrelation the second derivative is periodic, as a key: 0.4.
pub const PERIODIC: i64 = 0x3FD9_9999_9999_999A;

/// Below this mean ratio high frequencies are suppressed, as a key: 0.015.
pub const SUPPRESSED: i64 = 0x3F8E_B851_EB85_1EB8;

/// The second derivative of the middle row, over at most 1024 samples.
pub open spec fn middle_row(g: Seq<u8>, w: int, h: int) -> Seq<i64> {
    Seq::new(
        (imin(w, 1024) - 2) as nat,
        |i: int| second_difference(g, w, true, h / 2, i) as i64,
    )
}

/// The factor with the highest autocorrelation above the threshold, and that
/// autocorrelation. A factor of zero means that there is none.
#[derive(Debug, Clone, Copy, PartialEq, Eq, Structural)]
pub struct Factor {
    pub factor: u64,
    pub correlation: i64,
}

/// The best of the first `n` factors from two on, the first of equals.
pub open spec fn best_factor(c: Seq<i64>, n: nat) -> Factor
    decreases n,
{
    if n == 0 {
        Factor { factor: 0, correlation: 0 }
    } else {
        let b = best_factor(c, (n - 1) as nat);
        if c[n - 1] > PERIODIC && c[n - 1] > b.correlation {
            Factor { factor: (n + 1) as u64, correlation: c[n - 1] }
        } else {
            b
        }
    }
}

/// The energies of a block, times sixteen: of its detail, and of all its subbands.
#[derive(Debug, Clone, Copy, PartialEq, Eq, Structural)]
pub struct BlockEnergy {
    pub detail: u64,
    pub total: u64,
}

/// The approximation and the detail energy, times sixteen, of the two by two pixels at
/// `(x, y)`.
pub open spec fn cell_energy(g: Seq<u8>, w: int, x: int, y: int) -> (int, int) {
    let a = pixel(g, w, x, y);
    let b = pixel(g, w, x + 1, y);
    let c = pixel(g, w, x, y + 1);
    let d = pixel(g, w, x + 1, y + 1);
    (
        (a + b + c + d) * (a + b + c + d),
        (a + b - c - d) * (a + b - c - d) + (a - b + c - d) * (a - b + c - d) + (a - b - c + d) * (a
            - b - c + d),
    )
}

/// The energies of the first `n` two by two cells of a block.
pub open spec fn energy_of(g: Seq<u8>, w: int, x0: int, y0: int, n: nat) -> (int, int)
    decreases n,
{
    if n == 0 {
        (0, 0)
    } else {
        let e = energy_of(g, w, x0, y0, (n - 1) as nat);
        let c = cell_energy(g, w, x0 + 2 * ((n - 1) % 32), y0 + 2 * ((n - 1) / 32));
        (e.0 + c.0, e.1 + c.1)
    }
}

/// The energies of all blocks.
pub open spec fn energies_of(g: Seq<u8>, w: int, h: int) -> Seq<BlockEnergy> {
    Seq::new(
        ((w / 64) * (h / 64)) as nat,
        |b: int|
            {
                let e = energy_of(g, w, (b % (w / 64)) * 64, (b / (w / 64)) * 64, 1024);
                BlockEnergy { detail: e.1 as u64, total: (e.0 + e.1) as u64 }
            },
    )
}

/// The finding on a periodic second derivative.
pub open spec fn periodicity_finding(f: Factor, text: Seq<char>, confidence: u64) -> FindingView {
    plain_finding(
        "upscaling_detection"@,
        "upscaling_interpolation_periodicity"@,
        "Second derivative shows "@ + decimal_text(f.factor as nat)
            + "× periodicity (autocorrelation "@ + text
            + ") - image appears to be upscaled by factor "@ + decimal_text(f.factor as nat)
            + " from lower resolution"@,
        Severity::Medium,
        confidence,
    )
}

/// The finding on suppressed high frequencies.
pub open spec fn suppression_finding(
    w: int,
    h: int,
    mean: Seq<char>,
    confidence: u64,
) -> FindingView {
    plain_finding(
        "upscaling_detection"@,
        "upscaling_hf_suppression"@,
        "Image has very low high-frequency energy ratio ("@ + mean + ") for its resolution ("@
            + decimal_text(w as nat) + "×"@ + decimal_text(h as nat)
            + ") - consistent with upscaling from lower resolution or AI super-resolution"@,
        Severity::Medium,
        confidence,
    )
}

proof fn lemma_square(v: int, b: int)
    by (nonlinear_arith)
    requires
        -b <= v <= b,
    ensures
        0 <= v * v <= b * b,
{
}

fn energy_at(g: &[u8], w: usize, h: usize, x: usize, y: usize) -> (r: (u64, u64))
    requires
        g.len() == w * h,
        x + 1 < w,
        y + 1 < h,
    ensures
        (r.0 as int, r.1 as int) == cell_energy(g@, w as int, x as int, y as int),
        r.0 <= 1040400,
        r.1 <= 780300,
{
    let a: i64 = px(g, w, h, x, y);
    let b: i64 = px(g, w, h, x + 1, y);
    let c: i64 = px(g, w, h, x, y + 1);
    let d: i64 = px(g, w, h, x + 1, y + 1);
    let ll: i64 = a + b + c + d;
    let lh: i64 = a + b - c - d;
    let hl: i64 = a - b + c - d;
    let hh: i64 = a - b - c + d;
    proof {
        lemma_square(ll as int, 1020);
        lemma_square(lh as int, 510);
        lemma_square(hl as int, 510);
        lemma_square(hh as int, 510);
    }
    ((ll * ll) as u64, (lh * lh + hl * hl + hh * hh) as u64)
}

/// The least variance of differences that are correlated, as a key: 0.1.
pub const LEAST_VARIANCE: i64 = 0x3FB9_9999_9999_999A;

impl UpscalingDetector {
    /// Whether an image is large enough to be analyzed.
    pub fn large_enough(&self, w: usize, h: usize) -> (r: bool)
        ensures
            r == (w >= 200 && h >= 200),
    {
        w >= 200 && h >= 200
    }

    /// Whether so many differences of such a variance, as a key, are correlated.
    pub fn carries_signal(&self, n: usize, variance: i64) -> (r: bool)
        ensures
            r == (n >= 32 && variance >= LEAST_VARIANCE),
    {
        n >= 32 && variance >= LEAST_VARIANCE
    }

    /// The second derivative of the middle row.
    pub fn middle_differences(&self, g: &[u8], w: usize, h: usize) -> (r: Vec<i64>)
        requires
            g.len() == w * h,
            w >= 2,
            h >= 1,
        ensures
            r@ == middle_row(g@, w as int, h as int),
    {
        let n: usize = if w < 1024 {
            w
        } else {
            1024
        };
        let mut r: Vec<i64> = Vec::new();
        let mut i: usize = 0;
        while i < n - 2
            invariant
                i <= n - 2,
                2 <= n <= w,
                n == imin(w as int, 1024),
                h >= 1,
                g.len() == w * h,
                r@ =~= middle_row(g@, w as int, h as int).take(i as int),
            decreases n - 2 - i,
        {
            let y: usize = h / 2;
            r.push(px(g, w, h, i + 2, y) - 2 * px(g, w, h, i + 1, y) + px(g, w, h, i, y));
            i += 1;
        }
        proof {
            assert(r@ =~= middle_row(g@, w as int, h as int));
        }
        r
    }

    /// The factor, two to four, with the highest autocorrelation, given as keys in order.
    pub fn detect_factor(&self, c: &Vec<i64>) -> (r: Factor)
        requires
            c.len() == 3,
        ensures
            r == best_factor(c@, 3),
    {
        let mut b = Factor { factor: 0, correlation: 0 };
        let mut i: usize = 0;
        while i < 3
            invariant
                i <= 3,
                c.len() == 3,
                b == best_factor(c@, i as nat),
            decreases 3 - i,
        {
            if c[i] > PERIODIC && c[i] > b.correlation {
                b = Factor { factor: i as u64 + 2, correlation: c[i] };
            }
            i += 1;
        }
        b
    }

    /// The energies of all blocks.
    pub fn block_energies(&self, g: &[u8], w: usize, h: usize) -> (r: Vec<BlockEnergy>)
        requires
            g.len() == w * h,
        ensures
            r@ == energies_of(g@, w as int, h as int),
    {
        let bx: usize = w / 64;
        let by: usize = h / 64;
        proof {
            assert(bx * by <= w * h) by (nonlinear_arith)
                requires
                    0 <= bx <= w,
                    0 <= by <= h,
            ;
        }
        let total: usize = bx * by;
        let mut r: Vec<BlockEnergy> = Vec::new();
        let mut b: usize = 0;
        while b < total
            invariant
                b <= total,
                bx == w / 64,
                by == h / 64,
                total == bx * by,
                g.len() == w * h,
                r@ =~= energies_of(g@, w as int, h as int).take(b as int),
            decreases total - b,
        {
            proof {
                lemma_cell_coords(bx as int, by as int, b as int);
            }
            let x0: usize = (b % bx) * 64;
            let y0: usize = (b / bx) * 64;
            let mut rough: u64 = 0;
            let mut detail: u64 = 0;
            let mut k: usize = 0;
            while k < 1024
                invariant
                    k <= 1024,
                    g.len() == w * h,
                    x0 + 64 <= w,
                    y0 + 64 <= h,
                    (rough as int, detail as int) == energy_of(
                        g@,
                        w as int,
                        x0 as int,
                        y0 as int,
                        k as nat,
                    ),
                    rough <= 1040400 * k,
                    detail <= 780300 * k,
                decreases 1024 - k,
            {
                let e = energy_at(g, w, h, x0 + 2 * (k % 32), y0 + 2 * (k / 32));
                rough += e.0;
                detail += e.1;
                k += 1;
            }
            r.push(BlockEnergy { detail, total: rough + detail });
            b += 1;
        }
        proof {
            assert(r@ =~= energies_of(g@, w as int, h as int));
        }
        r
    }

    /// Reports a periodic second derivative, if there is a factor. `text` is its
    /// autocorrelation with two decimals.
    pub fn report_periodicity(&self, f: Factor, text: &str, confidence: u64) -> (r: Option<Finding>)
        ensures
            match r {
                Some(x) => f.factor > 0 && x@ == periodicity_finding(f, text@, confidence),
                None => f.factor == 0,
            },
    {
        if f.factor == 0 {
            return None;
        }
        let mut t = "Second derivative shows ".to_string();
        append_decimal(&mut t, f.factor);
        t.append("× periodicity (autocorrelation ");
        t.append(text);
        t.append(") - image appears to be upscaled by factor ");
        append_decimal(&mut t, f.factor);
        t.append(" from lower resolution");
        Some(
            Finding::new(
                "upscaling_detection",
                "upscaling_interpolation_periodicity",
                t,
                Severity::Medium,
                confidence,
            ),
        )
    }

    /// Reports suppressed high frequencies, if the mean energy ratio, given as a key, is too
    /// low. `text` is the ratio with four decimals.
    pub fn report_suppression(&self, mean: i64, w: u32, h: u32, text: &str, confidence: u64) -> (r:
        Option<Finding>)
        ensures
            match r {
                Some(x) => mean < SUPPRESSED && x@ == suppression_finding(
                    w as int,
                    h as int,
                    text@,
                    confidence,
                ),
                None => mean >= SUPPRESSED,
            },
    {
        if mean >= SUPPRESSED {
            return None;
        }
        let mut t = "Image has very low high-frequency energy ratio (".to_string();
        t.append(text);
        t.append(") for its resolution (");
        append_decimal(&mut t, w as u64);
        t.append("×");
        append_decimal(&mut t, h as u64);
        t.append(
            ") - consistent with upscaling from lower resolution or AI super-resolution",
        );
        Some(
            Finding::new(
                "upscaling_detection",
                "upscaling_hf_suppression",
                t,
                Severity::Medium,
                confidence,
            ),
        )
    }
}

/// The factor is that of the greatest correlation among those above 0.4, the first of equals;
/// the first correlation is that of factor two.
pub proof fn law_best_factor(c: Seq<i64>, n: nat, k: int)
    requires
        0 <= k < n <= c.len(),
        n < 1000,
    ensures
        ({
            let b = best_factor(c, n);
            &&& b.factor == 0 ==> c[k] <= 0x3FD9_9999_9999_999A && b.correlation == 0
            &&& b.factor > 0 ==> 2 <= b.factor <= n + 1 && c[b.factor - 2] == b.correlation
                && b.correlation > 0x3FD9_9999_9999_999A && c[k] <= b.correlation && (k < b.factor - 2
                ==> c[k] < b.correlation)
        }),
    decreases n,
{
    if n > 1 {
        law_best_factor(c, (n - 1) as nat, if k < n - 1 {
            k
        } else {
            0
        });
    } else {
        assert(best_factor(c, 0) == (Factor { factor: 0, correlation: 0 }));
    }
}

/// The middle row is searched, a thousand and 24 pixels of it at most.
pub proof fn law_middle_row(g: Seq<u8>, w: int, h: int, i: int)
    requires
        3 <= w,
        0 <= i < middle_row(g, w, h).len(),
    ensures
        middle_row(g, w, h).len() == if w < 1024 {
            w - 2
        } else {
            1022
        },
        middle_row(g, w, h)[i] == (g[(h / 2) * w + (i + 2)] - 2 * g[(h / 2) * w + (i + 1)] + g[(h / 2)
            * w + i]) as i64,
{
}

/// On a flat square there is no detail, and the energies of a square are four times the sum of
/// the squares of its samples.
pub proof fn law_cell_energy(g: Seq<u8>, w: int, x: int, y: int)
    ensures
        ({
            let (a, b) = (g[y * w + x] as int, g[y * w + (x + 1)] as int);
            let (c, d) = (g[(y + 1) * w + x] as int, g[(y + 1) * w + (x + 1)] as int);
            let e = cell_energy(g, w, x, y);
            &&& e.0 + e.1 == 4 * (a * a + b * b + c * c + d * d)
            &&& a == b && b == c && c == d ==> e.1 == 0
            &&& e.0 == (a + b + c + d) * (a + b + c + d)
        }),
{
    let (a, b) = (g[y * w + x] as int, g[y * w + (x + 1)] as int);
    let (c, d) = (g[(y + 1) * w + x] as int, g[(y + 1) * w + (x + 1)] as int);
    assert((a + b + c + d) * (a + b + c + d) + (a + b - c - d) * (a + b - c - d) + (a - b + c - d) * (a
        - b + c - d) + (a - b - c + d) * (a - b - c + d) == 4 * (a * a + b * b + c * c + d * d))
        by (nonlinear_arith);
    if a == b && b == c && c == d {
        let (r, s, t) = (a + b - c - d, a - b + c - d, a - b - c + d);
        assert(r * r == 0 && s * s == 0 && t * t == 0) by (nonlinear_arith)
            requires
                r == 0,
                s == 0,
                t == 0,
        ;
    }
}

/// The energies of a block are those of its squares, 32 to a row and two pixels apart.
pub proof fn law_block_energy(g: Seq<u8>, w: int, x0: int, y0: int, n: nat)
    ensures
        energy_of(g, w, x0, y0, n).0 == total(
            n,
            |i: int| cell_energy(g, w, x0 + (i % 32) * 2, y0 + (i / 32) * 2).0,
        ),
        energy_of(g, w, x0, y0, n).1 == total(
            n,
            |i: int| cell_energy(g, w, x0 + (i % 32) * 2, y0 + (i / 32) * 2).1,
        ),
    decreases n,
{
    if n > 0 {
        law_block_energy(g, w, x0, y0, (n - 1) as nat);
    }
}

/// Upscaling is of medium severity, whichever sign shows it; correlations count above 0.4, and
/// detail is suppressed below 0.015.
pub proof fn law_upscaling_findings(
    f: Factor,
    w: int,
    h: int,
    t: Seq<char>,
    confidence: u64,
)
    ensures
        periodicity_finding(f, t, confidence).severity == Severity::Medium,
        periodicity_finding(f, t, confidence).code == "upscaling_interpolation_periodicity"@,
        suppression_finding(w, h, t, confidence).severity == Severity::Medium,
        suppression_finding(w, h, t, confidence).code == "upscaling_hf_suppression"@,
        PERIODIC == 0x3FD9_9999_9999_999A,
        SUPPRESSED == 0x3F8E_B851_EB85_1EB8,
{
}

/// The energies of the blocks lie row by row, blocks of 64 pixels a side.
pub proof fn law_block_energies(g: Seq<u8>, w: int, h: int, x: int, y: int)
    requires
        0 <= x < w / 64,
        0 <= y < h / 64,
    ensures
        energies_of(g, w, h).len() == (w / 64) * (h / 64),
        ({
            let e = energy_of(g, w, 64 * x, 64 * y, 1024);
            energies_of(g, w, h)[y * (w / 64) + x] == (BlockEnergy {
                detail: e.1 as u64,
                total: (e.1 + e.0) as u64,
            })
        }),
{
    let n = w / 64;
    vstd::arithmetic::div_mod::lemma_fundamental_div_mod_converse(y * n + x, n, y, x);
    assert(0 <= y * n + x < n * (h / 64)) by (nonlinear_arith)
        requires
            0 <= x < n,
            0 <= y < h / 64,
    ;
}

} // verus!
