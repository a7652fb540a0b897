//! Screenshot and photo-of-photo detection.
//!
//! Three signals: reduced color depth (6-bit display output), an unnaturally perfect
//! pixel grid (no optical blur), and moiré periodicity from a display grid.

use crate::bits::P45;
use crate::bits::P50;
use crate::bits::P55;
use crate::bits::P70;
use crate::components::lemma_cell;
use crate::components::lemma_cell_coords;
use crate::finding::Finding;
use crate::finding::FindingView;
use crate::finding::Severity;
use crate::finding::plain_finding;
use crate::grid::abs;
use crate::grid::imax;
use crate::grid::imin;
use crate::grid::pixel;
use crate::grid::px;
use crate::select::how_many;
use crate::select::lemma_which;
use crate::select::lemma_which_are;
use crate::select::total;
use crate::text::append_decimal;
use crate::text::decimal;
use crate::text::decimal_text;
use vstd::prelude::*;
use vstd::string::*;

verus! {

/// The screenshot detector.
pub struct ScreenshotDetector;

/// The distance between sampled pixels: one, or what leaves about fifty thousand.
pub open spec fn color_step(n: int) -> int {
    imax(n / 50000, 1)
}

/// Some sampled pixel among the first `k` samples has the value `v` in channel `c`.
pub open spec fn uses(rgb: Seq<u8>, c: int, step: int, v: int, k: int) -> bool {
    exists|j: int| 0 <= j < k && #[trigger] rgb[(j * step) * 3 + c] == v
}

/// The number of samples of `n` pixels.
pub open spec fn sample_count(n: int) -> int {
    (n + color_step(n) - 1) / color_step(n)
}

/// How many of the first `n` values are used.
pub open spec fn used_count(used: Seq<bool>, n: nat) -> nat
    decreases n,
{
    if n == 0 {
        0
    } else {
        used_count(used, (n - 1) as nat) + if used[n - 1] {
            1nat
        } else {
            0nat
        }
    }
}

/// How many of the first `n` values are used and divisible by four, or not divisible.
pub open spec fn used_by_four(used: Seq<bool>, multiple: bool, n: nat) -> nat
    decreases n,
{
    if n == 0 {
        0
    } else {
        used_by_four(used, multiple, (n - 1) as nat) + if used[n - 1] && ((n - 1) % 4 == 0)
            == multiple {
            1nat
        } else {
            0nat
        }
    }
}

/// A channel is quantized to six bits: more than forty multiples of four are used, and
/// less than a third as many other values.
pub open spec fn is_quantized(used: Seq<bool>) -> bool {
    let at = used_by_four(used, true, 256);
    at > 40 && used_by_four(used, false, 256) < at / 3
}

/// The values that the sampled pixels use in a channel.
pub open spec fn used_values(rgb: Seq<u8>, c: int) -> Seq<bool> {
    let n = rgb.len() as int / 3;
    Seq::new(256, |v: int| uses(rgb, c, color_step(n), v, sample_count(n)))
}

/// The colors that an image uses.
#[derive(Debug, Clone, Copy, PartialEq, Eq, Structural)]
pub struct ColorUse {
    /// The number of values used in each channel.
    pub red: usize,
    pub green: usize,
    pub blue: usize,
    /// The number of channels that are quantized.
    pub quantized: usize,
}

/// One if the condition holds, else zero.
pub open spec fn one_if(b: bool) -> int {
    if b {
        1
    } else {
        0
    }
}

/// The colors that an image uses.
pub open spec fn color_use(rgb: Seq<u8>) -> ColorUse {
    ColorUse {
        red: used_count(used_values(rgb, 0), 256) as usize,
        green: used_count(used_values(rgb, 1), 256) as usize,
        blue: used_count(used_values(rgb, 2), 256) as usize,
        quantized: (one_if(is_quantized(used_values(rgb, 0))) + one_if(
            is_quantized(used_values(rgb, 1)),
        ) + one_if(is_quantized(used_values(rgb, 2)))) as usize,
    }
}

/// The finding on color use, if there is one.
pub open spec fn color_finding(u: ColorUse) -> Option<FindingView> {
    if u.quantized >= 2 {
        Some(
            plain_finding(
                "screenshot_detection"@,
                "screenshot_color_quantization"@,
                decimal_text(u.quantized as nat)
                    + " color channels show 6-bit quantization pattern (R:"@ + decimal_text(
                    u.red as nat,
                ) + ", G:"@ + decimal_text(u.green as nat) + ", B:"@ + decimal_text(u.blue as nat)
                    + " unique values) - image appears to be a screenshot or display capture"@,
                Severity::Medium,
                P70,
            ),
        )
    } else if u.red < 100 && u.green < 100 && u.blue < 100 {
        Some(
            plain_finding(
                "screenshot_detection"@,
                "screenshot_low_color_depth"@,
                "Very low color diversity (R:"@ + decimal_text(u.red as nat) + ", G:"@
                    + decimal_text(u.green as nat) + ", B:"@ + decimal_text(u.blue as nat)
                    + " unique values) - possible screenshot, synthetic image, or heavy posterization"@,
                Severity::Low,
                P50,
            ),
        )
    } else {
        None
    }
}

/// The value of an optional finding.
pub open spec fn finding_value(f: Option<Finding>) -> Option<FindingView> {
    match f {
        Some(x) => Some(x@),
        None => None,
    }
}

fn mark_used(rgb: &[u8], c: usize, step: usize) -> (r: Vec<bool>)
    requires
        c < 3,
        step == color_step(rgb.len() as int / 3),
    ensures
        r@ == used_values(rgb@, c as int),
{
    let n: usize = rgb.len() / 3;
    let mut r: Vec<bool> = vec![false; 256];
    let mut at: usize = 0;
    let ghost mut k: int = 0;
    let ghost s = step as int;
    proof {
        assert(0 * s == 0) by (nonlinear_arith);
    }
    while at < n
        invariant
            c < 3,
            n == rgb.len() / 3,
            s == step,
            s == color_step(n as int),
            s >= 1,
            at == k * s,
            k >= 0,
            at < n + s,
            r.len() == 256,
            forall|v: int| 0 <= v < 256 ==> #[trigger] r@[v] == uses(rgb@, c as int, s, v, k),
        decreases n + s - at,
    {
        let v: usize = rgb[at * 3 + c] as usize;
        let ghost before = r@;
        r.set(v, true);
        proof {
            assert(rgb@[(k * s) * 3 + c] == v);
            assert forall|u: int| 0 <= u < 256 implies #[trigger] r@[u] == uses(
                rgb@,
                c as int,
                s,
                u,
                k + 1,
            ) by {
                if before[u] {
                    let j = choose|j: int| 0 <= j < k && #[trigger] rgb@[(j * s) * 3 + c] == u;
                    assert(rgb@[(j * s) * 3 + c] == u);
                }
                if uses(rgb@, c as int, s, u, k + 1) {
                    let j = choose|j: int| 0 <= j < k + 1 && #[trigger] rgb@[(j * s) * 3 + c] == u;
                    if j < k {
                        assert(uses(rgb@, c as int, s, u, k));
                    }
                }
            }
            assert((k + 1) * s == k * s + s) by (nonlinear_arith);
            k = k + 1;
        }
        if n - at <= step {
            proof {
                assert(k == (n + s - 1) / s) by (nonlinear_arith)
                    requires
                        at == (k - 1) * s,
                        k * s == (k - 1) * s + s,
                        at < n,
                        n - at <= s,
                        s >= 1,
                ;
                assert(r@ =~= used_values(rgb@, c as int));
            }
            return r;
        }
        at += step;
    }
    proof {
        assert(k == (n + s - 1) / s) by (nonlinear_arith)
            requires
                at == k * s,
                n <= at < n + s,
                s >= 1,
        ;
        assert(r@ =~= used_values(rgb@, c as int));
    }
    r
}

fn count_used(used: &Vec<bool>) -> (r: usize)
    requires
        used.len() == 256,
    ensures
        r == used_count(used@, 256),
        r <= 256,
{
    let mut c: usize = 0;
    let mut i: usize = 0;
    while i < 256
        invariant
            i <= 256,
            c <= i,
            used.len() == 256,
            c == used_count(used@, i as nat),
        decreases 256 - i,
    {
        if used[i] {
            c += 1;
        }
        i += 1;
    }
    c
}

fn check_quantized(used: &Vec<bool>) -> (r: bool)
    requires
        used.len() == 256,
    ensures
        r == is_quantized(used@),
{
    let mut at: usize = 0;
    let mut between: usize = 0;
    let mut i: usize = 0;
    while i < 256
        invariant
            i <= 256,
            at <= i,
            between <= i,
            used.len() == 256,
            at == used_by_four(used@, true, i as nat),
            between == used_by_four(used@, false, i as nat),
        decreases 256 - i,
    {
        if used[i] {
            if i % 4 == 0 {
                at += 1;
            } else {
                between += 1;
            }
        }
        i += 1;
    }
    at > 40 && between < at / 3
}

/// The larger of the differences of a pixel from its right and from its lower neighbour.
pub open spec fn step_at(gray: Seq<u8>, w: int, x: int, y: int) -> int {
    imax(
        abs(pixel(gray, w, x + 1, y) - pixel(gray, w, x, y)),
        abs(pixel(gray, w, x, y + 1) - pixel(gray, w, x, y)),
    )
}

/// What the sampled steps of an image add up to.
#[derive(Debug, Clone, Copy, PartialEq, Eq, Structural)]
pub struct Steps {
    pub sum: u64,
    pub largest: u64,
    pub count: u64,
}

/// The distance between sampled inner pixels: one, or what leaves about a hundred
/// thousand.
pub open spec fn grid_step(w: int, h: int) -> int {
    imax((w * h) / 100000, 1)
}

/// The sampled steps among the first `n` inner pixels: every `step`-th is sampled.
pub open spec fn steps_of(gray: Seq<u8>, w: int, step: int, n: nat) -> Steps
    decreases n,
{
    if n == 0 {
        Steps { sum: 0, largest: 0, count: 0 }
    } else {
        let s = steps_of(gray, w, step, (n - 1) as nat);
        if n as int % step != 0 {
            s
        } else {
            let v = step_at(gray, w, 1 + (n - 1) % (w - 2), 1 + (n - 1) / (w - 2));
            Steps {
                sum: (s.sum + v) as u64,
                largest: imax(s.largest as int, v) as u64,
                count: (s.count + 1) as u64,
            }
        }
    }
}

/// The steps look like those of a screenshot: enough samples, a mean below five, one
/// above a hundred, and a largest one more than thirty times the mean.
pub open spec fn is_grid(s: Steps, ratio: i64) -> bool {
    s.count >= 100 && s.sum < 5 * s.count && s.largest > 100 && ratio > GRID_RATIO
}

/// Above this ratio of the largest to the mean step a grid is perfect, as a key: 30.
pub const GRID_RATIO: i64 = 0x403E_0000_0000_0000;

/// The finding on a perfect pixel grid.
pub open spec fn grid_finding(s: Steps, mean: Seq<char>, ratio: Seq<char>) -> FindingView {
    plain_finding(
        "screenshot_detection"@,
        "screenshot_pixel_grid"@,
        "Pixel gradient distribution consistent with screenshot (mean "@ + mean + ", max "@
            + decimal_text(s.largest as nat) + ", ratio "@ + ratio
            + ") - sharp boundaries with flat regions, no optical blur"@,
        Severity::Low,
        P45,
    )
}

/// The position of the `i`-th sample of a scan line: along row `fixed`, or along column
/// `fixed`.
pub open spec fn line_index(stride: int, fixed: int, horizontal: bool, i: int) -> int {
    if horizontal {
        fixed * stride + i
    } else {
        i * stride + fixed
    }
}

/// A scan line lies inside the raster.
pub open spec fn line_fits(len: int, stride: int, fixed: int, horizontal: bool, n: int) -> bool {
    forall|i: int| 0 <= i < n ==> 0 <= #[trigger] line_index(stride, fixed, horizontal, i) < len
}

/// The samples of a scan line.
pub open spec fn line_of(
    gray: Seq<u8>,
    stride: int,
    fixed: int,
    horizontal: bool,
    n: nat,
) -> Seq<u8> {
    Seq::new(n, |i: int| gray[line_index(stride, fixed, horizontal, i)])
}

/// The least variance of a periodic line, and the correlation that comes before the first
/// lag, as a key: 1.0.
pub const UNIT: i64 = 0x3FF0_0000_0000_0000;

/// The correlation above which a lag can be a peak, as a key: 0.3.
pub const PEAK_CORRELATION: i64 = 0x3FD3_3333_3333_3333;

/// The least number of samples of a scan line that is examined.
pub const LEAST_LINE: usize = 64;

/// The number of lags, from two on, that a line of `n` samples is correlated at: those
/// below 32 and below a quarter of the samples.
pub open spec fn lag_count(n: int) -> int {
    imax(imin(32, n / 4) - 2, 0)
}

/// The `k`-th correlation is a peak: above three tenths, and above the one before. What
/// comes before the first counts as one.
pub open spec fn is_moire_peak(correlations: Seq<i64>, k: int) -> bool {
    let before = if k == 0 {
        UNIT
    } else {
        correlations[k - 1]
    };
    correlations[k] > PEAK_CORRELATION && correlations[k] > before
}

/// The peaks among the first `n` correlations.
pub open spec fn moire_peaks(correlations: Seq<i64>, n: nat) -> nat
    decreases n,
{
    if n == 0 {
        0
    } else {
        moire_peaks(correlations, (n - 1) as nat) + if is_moire_peak(correlations, n - 1) {
            1nat
        } else {
            0nat
        }
    }
}

/// A line is periodic: its variance is one or more, and its correlations have two peaks or
/// more.
pub open spec fn is_periodic(variance: i64, correlations: Seq<i64>) -> bool {
    variance >= UNIT && moire_peaks(correlations, correlations.len()) >= 2
}

/// A line whose correlations only fall is not periodic.
pub proof fn law_falling_is_not_periodic(variance: i64, correlations: Seq<i64>)
    requires
        forall|i: int, j: int|
            0 <= i < j < correlations.len() ==> #[trigger] correlations[i]
                >= #[trigger] correlations[j],
    ensures
        !is_periodic(variance, correlations),
{
    lemma_falling(correlations, correlations.len());
}

proof fn lemma_falling(correlations: Seq<i64>, n: nat)
    requires
        n <= correlations.len(),
        forall|i: int, j: int|
            0 <= i < j < correlations.len() ==> #[trigger] correlations[i]
                >= #[trigger] correlations[j],
    ensures
        moire_peaks(correlations, n) <= 1,
        n > 0 ==> moire_peaks(correlations, n) == moire_peaks(correlations, 1),
    decreases n,
{
    if n > 1 {
        lemma_falling(correlations, (n - 1) as nat);
        assert(correlations[n - 2] >= correlations[n - 1]);
    } else if n == 1 {
        assert(moire_peaks(correlations, 0) == 0);
    }
}

/// The finding on moiré, if a middle line is periodic.
pub open spec fn moire_finding(across: bool, down: bool) -> Option<FindingView> {
    if across || down {
        Some(
            plain_finding(
                "screenshot_detection"@,
                "screenshot_moire_pattern"@,
                "Periodic pattern detected in "@ + (if across && down {
                    "horizontal and vertical"@
                } else if across {
                    "horizontal"@
                } else {
                    "vertical"@
                }) + " direction - possible moiré from photographing a screen or printed image"@,
                Severity::Medium,
                P55,
            ),
        )
    } else {
        None
    }
}

impl ScreenshotDetector {
    /// Whether an image is large enough to be analyzed.
    pub fn large_enough(&self, w: usize, h: usize) -> (r: bool)
        ensures
            r == (w >= 200 && h >= 200),
    {
        w >= 200 && h >= 200
    }

    /// The colors that an image uses.
    pub fn color_use(&self, rgb: &[u8]) -> (r: ColorUse)
        ensures
            r == color_use(rgb@),
    {
        let n: usize = rgb.len() / 3;
        let step: usize = if n / 50000 > 1 {
            n / 50000
        } else {
            1
        };
        let red = mark_used(rgb, 0, step);
        let green = mark_used(rgb, 1, step);
        let blue = mark_used(rgb, 2, step);
        let mut quantized: usize = 0;
        if check_quantized(&red) {
            quantized += 1;
        }
        if check_quantized(&green) {
            quantized += 1;
        }
        if check_quantized(&blue) {
            quantized += 1;
        }
        ColorUse {
            red: count_used(&red),
            green: count_used(&green),
            blue: count_used(&blue),
            quantized,
        }
    }

    /// Reduced color depth (6-bit display output / posterization).
    pub fn detect_color_quantization(&self, u: ColorUse) -> (r: Option<Finding>)
        ensures
            finding_value(r) == color_finding(u),
    {
        if u.quantized >= 2 {
            let mut t = decimal(u.quantized as u64);
            t.append(" color channels show 6-bit quantization pattern (R:");
            append_decimal(&mut t, u.red as u64);
            t.append(", G:");
            append_decimal(&mut t, u.green as u64);
            t.append(", B:");
            append_decimal(&mut t, u.blue as u64);
            t.append(" unique values) - image appears to be a screenshot or display capture");
            Some(
                Finding::new(
                    "screenshot_detection",
                    "screenshot_color_quantization",
                    t,
                    Severity::Medium,
                    P70,
                ),
            )
        } else if u.red < 100 && u.green < 100 && u.blue < 100 {
            let mut t = "Very low color diversity (R:".to_string();
            append_decimal(&mut t, u.red as u64);
            t.append(", G:");
            append_decimal(&mut t, u.green as u64);
            t.append(", B:");
            append_decimal(&mut t, u.blue as u64);
            t.append(
                " unique values) - possible screenshot, synthetic image, or heavy posterization",
            );
            Some(
                Finding::new(
                    "screenshot_detection",
                    "screenshot_low_color_depth",
                    t,
                    Severity::Low,
                    P50,
                ),
            )
        } else {
            None
        }
    }

    /// Adds up the sampled steps between neighbouring pixels.
    pub fn pixel_steps(&self, gray: &[u8], w: usize, h: usize) -> (r: Steps)
        requires
            gray.len() == w * h,
            w >= 3,
            h >= 3,
            255 * (w * h) <= u64::MAX,
        ensures
            r == steps_of(
                gray@,
                w as int,
                grid_step(w as int, h as int),
                ((w - 2) * (h - 2)) as nat,
            ),
            r.count <= gray.len(),
    {
        proof {
            assert((w - 2) * (h - 2) <= w * h) by (nonlinear_arith)
                requires
                    w >= 2,
                    h >= 2,
            ;
        }
        let total: usize = (w - 2) * (h - 2);
        let step: usize = if w * h / 100000 > 1 {
            w * h / 100000
        } else {
            1
        };
        let mut s = Steps { sum: 0, largest: 0, count: 0 };
        let mut k: usize = 0;
        while k < total
            invariant
                k <= total,
                gray.len() == w * h,
                w >= 3,
                h >= 3,
                total == (w - 2) * (h - 2),
                total <= w * h,
                255 * (w * h) <= u64::MAX,
                step == grid_step(w as int, h as int),
                step >= 1,
                s == steps_of(gray@, w as int, step as int, k as nat),
                s.sum <= 255 * k,
                s.largest <= 255,
                s.count <= k,
            decreases total - k,
        {
            if (k + 1) % step == 0 {
                proof {
                    lemma_cell_coords(w - 2, h - 2, k as int);
                }
                let x: usize = 1 + k % (w - 2);
                let y: usize = 1 + k / (w - 2);
                let c: i64 = px(gray, w, h, x, y);
                let right: i64 = px(gray, w, h, x + 1, y);
                let below: i64 = px(gray, w, h, x, y + 1);
                let dx: i64 = if right >= c {
                    right - c
                } else {
                    c - right
                };
                let dy: i64 = if below >= c {
                    below - c
                } else {
                    c - below
                };
                let v: u64 = if dx >= dy {
                    dx as u64
                } else {
                    dy as u64
                };
                s = Steps {
                    sum: s.sum + v,
                    largest: if v > s.largest {
                        v
                    } else {
                        s.largest
                    },
                    count: s.count + 1,
                };
            }
            k += 1;
        }
        s
    }

    /// Unnaturally perfect pixel grid (no lens blur). `ratio` is the key of the largest step
    /// over the mean step, which counts as at least 0.1; `mean_text` has one decimal and
    /// `ratio_text` none.
    pub fn detect_pixel_grid(&self, s: Steps, ratio: i64, mean_text: &str, ratio_text: &str) -> (r:
        Option<Finding>)
        requires
            s.count <= u64::MAX / 5,
        ensures
            finding_value(r) == (if is_grid(s, ratio) {
                Some(grid_finding(s, mean_text@, ratio_text@))
            } else {
                None
            }),
    {
        if s.count >= 100 && s.sum < 5 * s.count && s.largest > 100 && ratio > GRID_RATIO {
            let mut t =
                "Pixel gradient distribution consistent with screenshot (mean ".to_string();
            t.append(mean_text);
            t.append(", max ");
            append_decimal(&mut t, s.largest);
            t.append(", ratio ");
            t.append(ratio_text);
            t.append(") - sharp boundaries with flat regions, no optical blur");
            Some(
                Finding::new(
                    "screenshot_detection",
                    "screenshot_pixel_grid",
                    t,
                    Severity::Low,
                    P45,
                ),
            )
        } else {
            None
        }
    }

    /// The samples of a scan line: of row `fixed_coord` if `horizontal` is set, else of
    /// column `fixed_coord`. `None` if there are too few.
    pub fn scan_line(
        &self,
        gray: &[u8],
        stride: usize,
        fixed_coord: usize,
        horizontal: bool,
        length: usize,
    ) -> (r: Option<Vec<u8>>)
        requires
            length >= LEAST_LINE ==> line_fits(
                gray.len() as int,
                stride as int,
                fixed_coord as int,
                horizontal,
                length as int,
            ),
        ensures
            match r {
                Some(v) => length >= LEAST_LINE && v@ == line_of(
                    gray@,
                    stride as int,
                    fixed_coord as int,
                    horizontal,
                    length as nat,
                ),
                None => length < LEAST_LINE,
            },
    {
        if length < LEAST_LINE {
            return None;
        }
        let ghost line = line_of(
            gray@,
            stride as int,
            fixed_coord as int,
            horizontal,
            length as nat,
        );
        let mut v: Vec<u8> = Vec::new();
        let mut i: usize = 0;
        while i < length
            invariant
                i <= length,
                line_fits(
                    gray.len() as int,
                    stride as int,
                    fixed_coord as int,
                    horizontal,
                    length as int,
                ),
                line == line_of(
                    gray@,
                    stride as int,
                    fixed_coord as int,
                    horizontal,
                    length as nat,
                ),
                v@ =~= line.take(i as int),
            decreases length - i,
        {
            proof {
                let p = line_index(stride as int, fixed_coord as int, horizontal, i as int);
                assert(0 <= p < gray.len());
                assert(0 <= fixed_coord * stride && 0 <= i * stride) by (nonlinear_arith);
            }
            let at: usize = if horizontal {
                fixed_coord * stride + i
            } else {
                i * stride + fixed_coord
            };
            v.push(gray[at]);
            i += 1;
        }
        proof {
            assert(v@ =~= line);
        }
        Some(v)
    }

    /// The middle row of an image, and its middle column.
    pub fn middle_lines(&self, gray: &[u8], w: usize, h: usize) -> (r: (
        Option<Vec<u8>>,
        Option<Vec<u8>>,
    ))
        requires
            gray.len() == w * h,
            w > 0,
            h > 0,
        ensures
            match r.0 {
                Some(v) => w >= LEAST_LINE && v@ == line_of(
                    gray@,
                    w as int,
                    h as int / 2,
                    true,
                    w as nat,
                ),
                None => w < LEAST_LINE,
            },
            match r.1 {
                Some(v) => h >= LEAST_LINE && v@ == line_of(
                    gray@,
                    w as int,
                    w as int / 2,
                    false,
                    h as nat,
                ),
                None => h < LEAST_LINE,
            },
    {
        proof {
            assert forall|i: int| 0 <= i < w implies 0 <= #[trigger] line_index(
                w as int,
                h as int / 2,
                true,
                i,
            ) < gray.len() by {
                lemma_cell(w as int, h as int, i, h as int / 2);
            }
            assert forall|i: int| 0 <= i < h implies 0 <= #[trigger] line_index(
                w as int,
                w as int / 2,
                false,
                i,
            ) < gray.len() by {
                lemma_cell(w as int, h as int, w as int / 2, i);
            }
        }
        (self.scan_line(gray, w, h / 2, true, w), self.scan_line(gray, w, w / 2, false, h))
    }

    /// The number of lags, from two on, that a line of `length` samples is correlated at.
    pub fn lags(&self, length: usize) -> (r: usize)
        ensures
            r == lag_count(length as int),
            r <= 30,
    {
        if length / 4 >= 32 {
            30
        } else if length / 4 >= 2 {
            length / 4 - 2
        } else {
            0
        }
    }

    /// Whether a scan line is periodic, given the keys of its variance and of its
    /// autocorrelation at the lags from two on.
    pub fn check_periodicity(&self, variance: i64, correlations: &Vec<i64>) -> (r: bool)
        ensures
            r == is_periodic(variance, correlations@),
    {
        if variance < UNIT {
            return false;
        }
        let mut peaks: usize = 0;
        let mut before: i64 = UNIT;
        let mut k: usize = 0;
        while k < correlations.len()
            invariant
                k <= correlations.len(),
                before == (if k == 0 {
                    UNIT
                } else {
                    correlations@[k - 1]
                }),
                peaks <= k,
                peaks == moire_peaks(correlations@, k as nat),
            decreases correlations.len() - k,
        {
            let c: i64 = correlations[k];
            if c > PEAK_CORRELATION && c > before {
                peaks += 1;
            }
            before = c;
            k += 1;
        }
        peaks >= 2
    }

    /// Reports moiré where the middle row or the middle column is periodic.
    pub fn detect_moire(&self, across: bool, down: bool) -> (r: Option<Finding>)
        ensures
            finding_value(r) == moire_finding(across, down),
    {
        if across || down {
            let mut t = "Periodic pattern detected in ".to_string();
            t.append(
                if across && down {
                    "horizontal and vertical"
                } else if across {
                    "horizontal"
                } else {
                    "vertical"
                },
            );
            t.append(
                " direction - possible moiré from photographing a screen or printed image",
            );
            Some(
                Finding::new(
                    "screenshot_detection",
                    "screenshot_moire_pattern",
                    t,
                    Severity::Medium,
                    P55,
                ),
            )
        } else {
            None
        }
    }
}

/// The values that are used are counted.
pub proof fn law_used_values(used: Seq<bool>, n: nat)
    requires
        n <= used.len(),
    ensures
        used_count(used, n) == how_many(n, |i: int| used[i]),
    decreases n,
{
    let p = |i: int| used[i];
    lemma_which(0, p);
    if n > 0 {
        law_used_values(used, (n - 1) as nat);
        lemma_which((n - 1) as nat, p);
    }
}

/// A channel is quantized where more than forty multiples of four are used, and less than a
/// third as many of the other values, rounded down.
pub proof fn law_quantized(used: Seq<bool>)
    requires
        used.len() == 256,
    ensures
        ({
            let at = how_many(256, |i: int| used[i] && i % 4 == 0);
            let off = how_many(256, |i: int| used[i] && i % 4 != 0);
            is_quantized(used) <==> at > 40 && 3 * off + 3 <= at
        }),
{
    lemma_by_four(used, 256);
}

proof fn lemma_by_four(used: Seq<bool>, n: nat)
    requires
        n <= used.len(),
    ensures
        used_by_four(used, true, n) == how_many(n, |i: int| used[i] && i % 4 == 0),
        used_by_four(used, false, n) == how_many(n, |i: int| used[i] && i % 4 != 0),
    decreases n,
{
    let p = |i: int| used[i] && i % 4 == 0;
    let q = |i: int| used[i] && i % 4 != 0;
    lemma_which(0, p);
    lemma_which(0, q);
    if n > 0 {
        lemma_by_four(used, (n - 1) as nat);
        lemma_which((n - 1) as nat, p);
        lemma_which((n - 1) as nat, q);
    }
}

/// A channel is its own: a value is used where a sampled pixel has it in that channel, and all
/// pixels are sampled up to a hundred thousand of them.
pub proof fn law_channel_values(rgb: Seq<u8>, c: int, k: int)
    requires
        0 <= c < 3,
        0 <= k < rgb.len() / 3,
        rgb.len() / 3 < 100_000,
    ensures
        used_values(rgb, c).len() == 256,
        used_values(rgb, c)[rgb[3 * k + c] as int],
{
    let n = rgb.len() as int / 3;
    assert(color_step(n) == 1);
    assert(sample_count(n) == n);
    assert(rgb[(k * 1) * 3 + c] == rgb[3 * k + c]);
    assert(uses(rgb, c, 1, rgb[3 * k + c] as int, n)) by {
        assert((k * 1) * 3 + c == 3 * k + c);
    }
}

/// The quantized channels are counted, each once.
pub proof fn law_quantized_channels(rgb: Seq<u8>)
    ensures
        color_use(rgb).quantized == how_many(3, |c: int| is_quantized(used_values(rgb, c))),
{
    let p = |c: int| is_quantized(used_values(rgb, c));
    lemma_which(0, p);
    lemma_which(1, p);
    lemma_which(2, p);
}

/// Two quantized channels are of medium severity; fewer than a hundred values in every
/// channel are minor.
pub proof fn law_when_colours_are_reported(u: ColorUse)
    ensures
        color_finding(u) is Some <==> (u.quantized > 1) || (u.quantized <= 1 && u.red <= 99 && u.green <= 99 && u.blue <= 99),
        (u.quantized > 1) ==> color_finding(u)->Some_0.code == "screenshot_color_quantization"@ && color_finding(u)->Some_0.severity == Severity::Medium,
        (u.quantized <= 1 && u.red <= 99 && u.green <= 99 && u.blue <= 99) ==> color_finding(u)->Some_0.code == "screenshot_low_color_depth"@ && color_finding(u)->Some_0.severity == Severity::Low,
{
}

/// A step is the larger of the differences to the right and below.
pub proof fn law_step(gray: Seq<u8>, w: int, x: int, y: int)
    ensures
        ({
            let c = gray[y * w + x] as int;
            let (r, b) = (gray[y * w + (x + 1)] as int, gray[(y + 1) * w + x] as int);
            let s = step_at(gray, w, x, y);
            &&& s >= r - c && s >= c - r && s >= b - c && s >= c - b
            &&& s == r - c || s == c - r || s == b - c || s == c - b
        }),
{
}

/// A grid shows where a hundred steps or more are below five on average and the largest is
/// above a hundred and more than thirty times their mean.
pub proof fn law_grid(s: Steps, ratio: i64)
    ensures
        is_grid(s, ratio) <==> s.count > 99 && s.sum < 5 * s.count && s.largest > 100 && ratio
            > 0x403E_0000_0000_0000,
{
}

/// The sampled steps are added up and counted, and the largest is kept.
pub proof fn law_steps(gray: Seq<u8>, w: int, step: int, n: nat, k: int)
    requires
        step > 0,
        n * 255 <= u64::MAX,
    ensures
        steps_of(gray, w, step, n).count == how_many(n, |i: int| (i + 1) % step == 0),
        steps_of(gray, w, step, n).sum == total(
            n,
            |i: int|
                if (i + 1) % step == 0 {
                    step_at(gray, w, 1 + i % (w - 2), 1 + i / (w - 2))
                } else {
                    0
                },
        ),
        0 <= k < n && (k + 1) % step == 0 ==> step_at(gray, w, 1 + k % (w - 2), 1 + k / (w - 2))
            <= steps_of(gray, w, step, n).largest,
        steps_of(gray, w, step, n).sum <= 255 * n,
        steps_of(gray, w, step, n).largest <= 255,
    decreases n,
{
    let p = |i: int| (i + 1) % step == 0;
    lemma_which(0, p);
    lemma_which_are(n, p);
    if n > 0 {
        law_steps(gray, w, step, (n - 1) as nat, k);
        lemma_which((n - 1) as nat, p);
    }
}

/// The samples of a line follow each other along a row, or lie a row apart along a column.
pub proof fn law_scan_line(gray: Seq<u8>, stride: int, fixed: int, n: nat, i: int)
    requires
        0 <= i < n,
    ensures
        line_of(gray, stride, fixed, true, n)[i] == gray[stride * fixed + i],
        line_of(gray, stride, fixed, false, n)[i] == gray[stride * i + fixed],
{
    assert(fixed * stride == stride * fixed && i * stride == stride * i) by (nonlinear_arith);
}

/// Lags run from two to below 32, and to below a quarter of the samples.
pub proof fn law_lags(n: int, lag: int)
    requires
        n >= 0,
        2 <= lag,
    ensures
        lag < lag_count(n) + 2 <==> lag < 32 && 4 * lag + 4 <= n,
{
}

/// A line has moiré where its variance is one or more and two correlations or more are above
/// three tenths and above the one before, the first being held against one.
pub proof fn law_periodic(variance: i64, c: Seq<i64>)
    ensures
        is_periodic(variance, c) <==> variance >= 0x3FF0_0000_0000_0000 && how_many(
            c.len(),
            |k: int|
                c[k] > 0x3FD3_3333_3333_3333 && c[k] > (if k > 0 {
                    c[k - 1]
                } else {
                    0x3FF0_0000_0000_0000
                }),
        ) > 1,
{
    lemma_moire_peaks(c, c.len());
}

proof fn lemma_moire_peaks(c: Seq<i64>, n: nat)
    requires
        n <= c.len(),
    ensures
        moire_peaks(c, n) == how_many(
            n,
            |k: int|
                c[k] > 0x3FD3_3333_3333_3333 && c[k] > (if k > 0 {
                    c[k - 1]
                } else {
                    0x3FF0_0000_0000_0000
                }),
        ),
    decreases n,
{
    let p = |k: int|
        c[k] > 0x3FD3_3333_3333_3333 && c[k] > (if k > 0 {
            c[k - 1]
        } else {
            0x3FF0_0000_0000_0000
        });
    lemma_which(0, p);
    if n > 0 {
        lemma_moire_peaks(c, (n - 1) as nat);
        lemma_which((n - 1) as nat, p);
    }
}

/// Moiré is reported where a line shows it, and its directions are named as they are.
pub proof fn law_moire(across: bool, down: bool)
    ensures
        moire_finding(across, down) is Some <==> across || down,
        across || down ==> moire_finding(across, down)->Some_0.severity == Severity::Medium
            && moire_finding(across, down)->Some_0.code == "screenshot_moire_pattern"@
            && moire_finding(across, down)->Some_0.description == "Periodic pattern detected in "@ + (
        if !down {
            "horizontal"@
        } else if !across {
            "vertical"@
        } else {
            "horizontal and vertical"@
        }) + " direction - possible moiré from photographing a screen or printed image"@,
{
}

/// About fifty thousand pixels are sampled of a large image for its colours, and about a hundred
/// thousand for its steps; all of a small one.
pub proof fn law_sampling(n: int, w: int, h: int)
    requires
        0 <= n,
        0 <= w,
        0 <= h,
    ensures
        n < 100_000 ==> color_step(n) == 1 && sample_count(n) == n,
        n >= 100_000 ==> color_step(n) * 50_000 <= n < color_step(n) * 50_000 + 50_000,
        w * h < 200_000 ==> grid_step(w, h) == 1,
        w * h >= 200_000 ==> grid_step(w, h) * 100_000 <= w * h < grid_step(w, h) * 100_000 + 100_000,
        LEAST_LINE == 64,
{
    assert(w * h >= 0) by (nonlinear_arith)
        requires
            w >= 0,
            h >= 0,
    ;
    if n < 100_000 {
        let s = color_step(n);
        assert((n + s - 1) / s == n) by (nonlinear_arith)
            requires
                s == 1,
        ;
    }
}

} // verus!
