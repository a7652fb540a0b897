//! Resampling and interpolation-artifact detection.
//!
//! Resizing or rotating an image leaves periodic correlations in the second derivative.
//! Global artifacts are informational; a mix of resampled and other blocks points at
//! spliced content. Autocovariances are computed in floating point by the caller.

use crate::bits::P70;
use crate::finding::group_values;
use crate::finding::plain_finding;
use crate::finding::values;
use crate::finding::Finding;
use crate::finding::FindingView;
use crate::finding::Severity;
use crate::grid::cell;
use crate::grid::imax;
use crate::grid::imin;
use crate::grid::pixel;
use crate::grid::px;
use crate::number::is_share_above;
use crate::number::is_share_below;
use crate::number::share_above;
use crate::number::share_below;
use crate::share::graded;
use crate::share::graded_of;
use crate::share::percent;
use crate::share::percent_text;
use crate::share::rest;
use crate::share::rest_text;
use crate::share::Factor;
use crate::share::MAX_COUNT;
use crate::share::POWER_54;
use crate::share::THREE_TENTHS;
use crate::share::U55;
use crate::share::U85;
use vstd::arithmetic::div_mod::lemma_fundamental_div_mod;
use vstd::arithmetic::div_mod::lemma_fundamental_div_mod_converse;
use vstd::arithmetic::div_mod::lemma_mod_bound;
use vstd::prelude::*;
use vstd::string::*;

verus! {

/// The resampling detector.
pub struct ResamplingDetector;

/// The size of a block in pixels.
pub const RESAMPLING_BLOCK: usize = 64;

/// Above this peak ratio an image is resampled, as a key: 0.4.
pub const RESAMPLED: i64 = 0x3FD9_9999_9999_999A;

/// The second derivative at position `i + 1` of a line: along row `line`, or along column
/// `line`.
pub open spec fn second_difference(g: Seq<u8>, w: int, horizontal: bool, line: int, i: int) -> int {
    if horizontal {
        pixel(g, w, i + 2, line) - 2 * pixel(g, w, i + 1, line) + pixel(g, w, i, line)
    } else {
        pixel(g, w, line, i + 2) - 2 * pixel(g, w, line, i + 1) + pixel(g, w, line, i)
    }
}

/// The second derivative of a line of `n` samples.
pub open spec fn second_differences(
    g: Seq<u8>,
    w: int,
    horizontal: bool,
    line: int,
    n: int,
) -> Seq<i64> {
    Seq::new(
        (n - 2) as nat,
        |i: int| second_difference(g, w, horizontal, line, i) as i64,
    )
}

/// A block of a raster.
pub open spec fn block_of(g: Seq<u8>, w: int, x0: int, y0: int, bs: int) -> Seq<u8> {
    Seq::new((bs * bs) as nat, |i: int| g[(y0 + i / bs) * w + (x0 + i % bs)])
}

/// The finding on a resampled image.
pub open spec fn global_finding(
    across: bool,
    down: bool,
    across_text: Seq<char>,
    down_text: Seq<char>,
) -> FindingView {
    plain_finding(
        "resampling"@,
        "global_resampling"@,
        "Image shows "@ + (if across && down {
            "both horizontal and vertical"@
        } else if across {
            "horizontal"@
        } else {
            "vertical"@
        }) + " resampling artifacts (H peak ratio: "@ + across_text + ", V peak ratio: "@
            + down_text + ") - image has been resized or rotated"@,
        Severity::Low,
        P70,
    )
}

/// The finding on a mix of resampled and other blocks.
pub open spec fn mixed_finding(resampled: int, blocks: int) -> FindingView {
    plain_finding(
        "resampling"@,
        "resampling_inconsistency"@,
        "Resampling artifact inconsistency: "@ + percent_text(resampled as nat, blocks as nat)
            + "% of blocks show interpolation artifacts while "@ + rest_text(
            resampled as nat,
            blocks as nat,
        )
            + "% do not - indicates spliced content from a resized/rotated source"@,
        Severity::High,
        graded_of(
            U55,
            resampled as nat,
            blocks as nat,
            Factor { num: THREE_TENTHS, den: POWER_54 },
            U85,
        ),
    )
}

/// A mix: nine blocks or more, between a tenth and four fifths of them resampled.
pub open spec fn is_mixed(resampled: int, blocks: int) -> bool {
    blocks >= 9 && share_above(resampled, blocks, 10, 100) && share_below(
        resampled,
        blocks,
        80,
        100,
    )
}

/// The report on resampling.
pub open spec fn resampling_findings(
    across: i64,
    down: i64,
    across_text: Seq<char>,
    down_text: Seq<char>,
    resampled: int,
    blocks: int,
) -> Seq<FindingView> {
    (if across > RESAMPLED || down > RESAMPLED {
        seq![global_finding(across > RESAMPLED, down > RESAMPLED, across_text, down_text)]
    } else {
        Seq::empty()
    }) + (if is_mixed(resampled, blocks) {
        seq![mixed_finding(resampled, blocks)]
    } else {
        Seq::empty()
    })
}

/// The step between the lines that are sampled, so that there are about a hundred.
pub open spec fn line_step(lines: int) -> int {
    imax(lines / 100, 1)
}

/// The lines that are sampled: every one that is a multiple of the step.
pub open spec fn line_samples(lines: int) -> Seq<usize> {
    let step = line_step(lines);
    Seq::new(((lines + step - 1) / step) as nat, |k: int| (k * step) as usize)
}

/// A lag is a peak of covariances: above both of its neighbours.
pub open spec fn is_covariance_peak(c: Seq<i64>, lag: int) -> bool {
    c[lag] > c[lag - 1] && c[lag] > c[lag + 1]
}

/// The peaks among the lags from two up to `n`.
pub open spec fn covariance_peaks(c: Seq<i64>, n: nat) -> Seq<usize>
    decreases n,
{
    if n <= 2 {
        Seq::empty()
    } else if is_covariance_peak(c, n - 1) {
        covariance_peaks(c, (n - 1) as nat).push((n - 1) as usize)
    } else {
        covariance_peaks(c, (n - 1) as nat)
    }
}

impl ResamplingDetector {
    /// Whether an image is large enough to be analyzed.
    pub fn large_enough(&self, w: usize, h: usize) -> (r: bool)
        ensures
            r == (w >= 192 && h >= 192),
    {
        w >= 192 && h >= 192
    }

    /// The number of lags at which lines of `length` samples are correlated: sixteen, or a
    /// quarter of the samples. `None` if there are too few samples.
    pub fn lags(&self, length: usize) -> (r: Option<usize>)
        ensures
            r == if length < 16 {
                None
            } else {
                Some(imin(16, length as int / 4) as usize)
            },
    {
        if length < 16 {
            None
        } else if length / 4 < 16 {
            Some(length / 4)
        } else {
            Some(16)
        }
    }

    /// The lines that are sampled.
    pub fn sampled_lines(&self, lines: usize) -> (r: Vec<usize>)
        ensures
            r@ == line_samples(lines as int),
    {
        let step: usize = if lines / 100 > 1 {
            lines / 100
        } else {
            1
        };
        proof {
            let (l, s) = (lines as int, step as int);
            lemma_fundamental_div_mod(l, s);
            assert(l % s > 0 ==> l / s < l) by (nonlinear_arith)
                requires
                    l == s * (l / s) + l % s,
                    s >= 1,
                    l >= 0,
                    l / s >= 0,
            ;
        }
        let count: usize = if lines % step > 0 {
            lines / step + 1
        } else {
            lines / step
        };
        proof {
            let (l, s) = (lines as int, step as int);
            lemma_fundamental_div_mod(l, s);
            lemma_mod_bound(l, s);
            if l % s > 0 {
                assert(l + s - 1 == (l / s + 1) * s + (l % s - 1)) by (nonlinear_arith)
                    requires
                        l == s * (l / s) + l % s,
                ;
                lemma_fundamental_div_mod_converse(l + s - 1, s, l / s + 1, l % s - 1);
            } else {
                assert(l + s - 1 == (l / s) * s + (s - 1)) by (nonlinear_arith)
                    requires
                        l == s * (l / s),
                ;
                lemma_fundamental_div_mod_converse(l + s - 1, s, l / s, s - 1);
            }
            assert(count == (l + s - 1) / s);
        }
        let mut r: Vec<usize> = Vec::new();
        let mut k: usize = 0;
        while k < count
            invariant
                k <= count,
                step >= 1,
                step == line_step(lines as int),
                count == (lines + step - 1) / step as int,
                r@ =~= line_samples(lines as int).take(k as int),
            decreases count - k,
        {
            proof {
                let (l, s) = (lines as int, step as int);
                lemma_fundamental_div_mod(l + s - 1, s);
                lemma_mod_bound(l + s - 1, s);
                assert(0 <= k * s <= l) by (nonlinear_arith)
                    requires
                        0 <= k <= count - 1,
                        l + s - 1 == s * count + (l + s - 1) % s,
                        0 <= (l + s - 1) % s,
                        s >= 1,
                ;
            }
            r.push(k * step);
            k += 1;
        }
        proof {
            assert(r@ =~= line_samples(lines as int));
        }
        r
    }

    /// The lags, from two on, at which covariances have inner peaks; none of four lags or
    /// fewer.
    pub fn secondary_peaks(&self, c: &Vec<i64>) -> (r: Vec<usize>)
        ensures
            r@ == if c.len() > 4 {
                covariance_peaks(c@, (c@.len() - 1) as nat)
            } else {
                Seq::empty()
            },
            forall|i: int| 0 <= i < r.len() ==> 2 <= #[trigger] r@[i] < c.len(),
    {
        let mut r: Vec<usize> = Vec::new();
        if c.len() <= 4 {
            return r;
        }
        let mut lag: usize = 2;
        while lag < c.len() - 1
            invariant
                c.len() > 4,
                2 <= lag <= c.len() - 1,
                r@ == covariance_peaks(c@, lag as nat),
                forall|i: int| 0 <= i < r.len() ==> 2 <= #[trigger] r@[i] < c.len(),
            decreases c.len() - lag,
        {
            if c[lag] > c[lag - 1] && c[lag] > c[lag + 1] {
                r.push(lag);
            }
            lag += 1;
        }
        r
    }

    /// The second derivative of a row or of a column.
    pub fn differences(&self, g: &[u8], w: usize, h: usize, horizontal: bool, line: usize) -> (r: Vec<
        i64,
    >)
        requires
            g.len() == w * h,
            w >= 2,
            h >= 2,
            horizontal ==> line < h,
            !horizontal ==> line < w,
        ensures
            r@ == second_differences(
                g@,
                w as int,
                horizontal,
                line as int,
                if horizontal {
                    w as int
                } else {
                    h as int
                },
            ),
    {
        let n: usize = if horizontal {
            w
        } else {
            h
        };
        let mut r: Vec<i64> = Vec::new();
        let mut i: usize = 0;
        while i < n - 2
            invariant
                i <= n - 2,
                n >= 2,
                n == (if horizontal {
                    w
                } else {
                    h
                }),
                g.len() == w * h,
                horizontal ==> line < h,
                !horizontal ==> line < w,
                r@ =~= second_differences(
                    g@,
                    w as int,
                    horizontal,
                    line as int,
                    n as int,
                ).take(i as int),
            decreases n - 2 - i,
        {
            let d: i64 = if horizontal {
                px(g, w, h, i + 2, line) - 2 * px(g, w, h, i + 1, line) + px(g, w, h, i, line)
            } else {
                px(g, w, h, line, i + 2) - 2 * px(g, w, h, line, i + 1) + px(g, w, h, line, i)
            };
            r.push(d);
            i += 1;
        }
        proof {
            assert(r@ =~= second_differences(g@, w as int, horizontal, line as int, n as int));
        }
        r
    }

    /// Cuts a block out of an image.
    pub fn cut_block(&self, g: &[u8], w: usize, h: usize, x0: usize, y0: usize) -> (r: Vec<u8>)
        requires
            g.len() == w * h,
            x0 + 64 <= w,
            y0 + 64 <= h,
        ensures
            r@ == block_of(g@, w as int, x0 as int, y0 as int, 64),
    {
        let mut r: Vec<u8> = Vec::new();
        let mut i: usize = 0;
        while i < 4096
            invariant
                i <= 4096,
                g.len() == w * h,
                x0 + 64 <= w,
                y0 + 64 <= h,
                r.len() == i,
                forall|j: int|
                    0 <= j < i ==> r@[j] == #[trigger] block_of(
                        g@,
                        w as int,
                        x0 as int,
                        y0 as int,
                        64,
                    )[j],
            decreases 4096 - i,
        {
            let at: usize = cell(w, h, x0 + i % 64, y0 + i / 64);
            r.push(g[at]);
            i += 1;
        }
        proof {
            assert(r@ =~= block_of(g@, w as int, x0 as int, y0 as int, 64));
        }
        r
    }

    /// Whether a peak ratio, given as a key, tells of resampling.
    pub fn is_resampled(&self, ratio: i64) -> (r: bool)
        ensures
            r == (ratio > RESAMPLED),
    {
        ratio > RESAMPLED
    }

    /// Reports on resampling: the peak ratios of the image, as keys and with two decimals, and
    /// the number of resampled blocks.
    pub fn report(
        &self,
        across: i64,
        down: i64,
        across_text: &str,
        down_text: &str,
        resampled: usize,
        blocks: usize,
    ) -> (r: Vec<Finding>)
        requires
            blocks <= MAX_COUNT,
        ensures
            values(r@) == resampling_findings(
                across,
                down,
                across_text@,
                down_text@,
                resampled as int,
                blocks as int,
            ),
    {
        broadcast use group_values;

        let mut r: Vec<Finding> = Vec::new();
        if across > RESAMPLED || down > RESAMPLED {
            let mut t = "Image shows ".to_string();
            t.append(
                if across > RESAMPLED && down > RESAMPLED {
                    "both horizontal and vertical"
                } else if across > RESAMPLED {
                    "horizontal"
                } else {
                    "vertical"
                },
            );
            t.append(" resampling artifacts (H peak ratio: ");
            t.append(across_text);
            t.append(", V peak ratio: ");
            t.append(down_text);
            t.append(") - image has been resized or rotated");
            r.push(Finding::new("resampling", "global_resampling", t, Severity::Low, P70));
        }
        if blocks >= 9 && is_share_above(resampled as u64, blocks as u64, 10, 100)
            && is_share_below(resampled as u64, blocks as u64, 80, 100) {
            let mut t = "Resampling artifact inconsistency: ".to_string();
            let share = percent(resampled as u64, blocks as u64);
            t.append(share.as_str());
            t.append("% of blocks show interpolation artifacts while ");
            let left = rest(resampled as u64, blocks as u64);
            t.append(left.as_str());
            t.append("% do not - indicates spliced content from a resized/rotated source");
            let factor = Factor { num: THREE_TENTHS, den: POWER_54 };
            let sure: u64 = graded(U55, resampled as u64, blocks as u64, factor, U85);
            r.push(
                Finding::new("resampling", "resampling_inconsistency", t, Severity::High, sure),
            );
        }
        proof {
            assert(values(r@) =~= resampling_findings(
                across,
                down,
                across_text@,
                down_text@,
                resampled as int,
                blocks as int,
            ));
        }
        r
    }
}

/// A second difference is that of two neighbouring differences: none along a straight slope,
/// and that of a row of an image is that of a column of the image with both exchanged.
pub proof fn law_second_difference(g: Seq<u8>, w: int, line: int, i: int)
    ensures
        second_difference(g, w, true, line, i) == (g[line * w + (i + 2)] - g[line * w + (i + 1)]) - (
        g[line * w + (i + 1)] - g[line * w + i]),
        second_difference(g, w, false, line, i) == (g[(i + 2) * w + line] - g[(i + 1) * w + line]) - (
        g[(i + 1) * w + line] - g[i * w + line]),
{
}

/// A block holds the samples of its columns and rows.
pub proof fn law_block(g: Seq<u8>, w: int, x0: int, y0: int, bs: int, x: int, y: int)
    requires
        0 <= x < bs,
        0 <= y < bs,
    ensures
        block_of(g, w, x0, y0, bs)[y * bs + x] == g[(y0 + y) * w + (x0 + x)],
{
    vstd::arithmetic::div_mod::lemma_fundamental_div_mod_converse(y * bs + x, bs, y, x);
    assert(0 <= y * bs + x < bs * bs) by (nonlinear_arith)
        requires
            0 <= x < bs,
            0 <= y < bs,
    ;
}

/// Resampling of the image is told as minor where a direction is above 0.4; a mix is of high
/// severity where there are nine blocks or more, of which more than a tenth and less than
/// eight tenths are resampled.
pub proof fn law_when_resampling_is_reported(
    across: i64,
    down: i64,
    a: Seq<char>,
    d: Seq<char>,
    resampled: int,
    blocks: int,
)
    ensures
        ({
            let f = resampling_findings(across, down, a, d, resampled, blocks);
            let g = across > 0x3FD9_9999_9999_999A || down > 0x3FD9_9999_9999_999A;
            let m = blocks > 8 && 10 * resampled > blocks && 10 * resampled < 8 * blocks;
            &&& f.len() == (if g {
                1int
            } else {
                0
            }) + (if m {
                1int
            } else {
                0
            })
            &&& g ==> f[0].code == "global_resampling"@ && f[0].severity == Severity::Low
            &&& m ==> f.last().code == "resampling_inconsistency"@ && f.last().severity
                == Severity::High
        }),
{
}

/// Directions are named as they are: both where both are above, else the one.
pub proof fn law_directions(across: bool, down: bool, a: Seq<char>, d: Seq<char>)
    requires
        across || down,
    ensures
        global_finding(across, down, a, d).description == "Image shows "@ + (if !down {
            "horizontal"@
        } else if !across {
            "vertical"@
        } else {
            "both horizontal and vertical"@
        }) + " resampling artifacts (H peak ratio: "@ + a + ", V peak ratio: "@ + d
            + ") - image has been resized or rotated"@,
{
}

/// Every sampled line is a line, the first is the first, and the next is a step further; at
/// most 200 are sampled.
pub proof fn law_sampled_lines(lines: int, k: int)
    requires
        0 <= lines <= usize::MAX,
        0 <= k < line_samples(lines).len(),
    ensures
        line_samples(lines)[k] < lines,
        line_samples(lines)[0] == 0,
        k > 0 ==> line_samples(lines)[k] - line_samples(lines)[k - 1] == (if lines < 200 {
            1
        } else {
            lines / 100
        }),
        line_samples(lines).len() < 200,
        lines < 200 ==> line_samples(lines).len() == lines,
{
    let s = line_step(lines);
    let n = (lines + s - 1) / s;
    vstd::arithmetic::div_mod::lemma_fundamental_div_mod(lines + s - 1, s);
    vstd::arithmetic::div_mod::lemma_mod_bound(lines + s - 1, s);
    assert(0 <= k * s && k * s < lines) by (nonlinear_arith)
        requires
            0 <= k <= n - 1,
            s * n <= lines + s - 1,
            s >= 1,
    ;
    assert(k > 0 ==> (k - 1) * s == k * s - s && (k - 1) * s >= 0) by (nonlinear_arith)
        requires
            s >= 1,
    ;
    assert(0 * s == 0);
    if lines < 200 {
        assert(s == 1);
        assert(n == lines) by (nonlinear_arith)
            requires
                s == 1,
                n == (lines + s - 1) / s,
        ;
    } else {
        assert(100 * s <= lines < 100 * s + 100);
        assert(n < 200) by (nonlinear_arith)
            requires
                s * n <= lines + s - 1,
                lines < 100 * s + 100,
                s >= 2,
        ;
    }
}

/// The peaks are the lags from two on that lie above both of their neighbours.
pub proof fn law_covariance_peaks(c: Seq<i64>, n: nat, lag: int)
    requires
        n < c.len() <= usize::MAX,
    ensures
        covariance_peaks(c, n).contains(lag as usize) && 0 <= lag < n ==> lag >= 2 && c[lag - 1]
            < c[lag] && c[lag] > c[lag + 1],
        2 <= lag < n && c[lag - 1] < c[lag] && c[lag + 1] < c[lag] ==> covariance_peaks(
            c,
            n,
        ).contains(lag as usize),
    decreases n,
{
    if n > 2 {
        let before = covariance_peaks(c, (n - 1) as nat);
        let all = covariance_peaks(c, n);
        law_covariance_peaks(c, (n - 1) as nat, lag);
        lemma_peaks_below(c, (n - 1) as nat);
        if 2 <= lag < n - 1 && before.contains(lag as usize) {
            assert(all[before.index_of(lag as usize)] == lag);
        }
        if lag == n - 1 && is_covariance_peak(c, n - 1) {
            assert(all[before.len() as int] == lag);
        }
        if all.contains(lag as usize) && 0 <= lag < n && !before.contains(lag as usize) {
            assert(all[all.index_of(lag as usize)] == lag);
            assert(lag == n - 1);
        }
    }
}

proof fn lemma_peaks_below(c: Seq<i64>, n: nat)
    requires
        n < c.len() <= usize::MAX,
    ensures
        forall|k: int|
            0 <= k < covariance_peaks(c, n).len() ==> 2 <= #[trigger] covariance_peaks(c, n)[k] < n,
    decreases n,
{
    if n > 2 {
        lemma_peaks_below(c, (n - 1) as nat);
        let before = covariance_peaks(c, (n - 1) as nat);
        let all = covariance_peaks(c, n);
        assert forall|k: int| 0 <= k < all.len() implies 2 <= #[trigger] all[k] < n by {
            if k < before.len() {
                assert(all[k] == before[k]);
            }
        }
    }
}

/// The second differences of a line are all that it has, in turn.
pub proof fn law_second_differences(g: Seq<u8>, w: int, line: int, n: int, i: int)
    requires
        0 <= i < n - 2,
    ensures
        second_differences(g, w, true, line, n).len() == n - 2,
        second_differences(g, w, true, line, n)[i] == g[line * w + (i + 2)] - 2 * g[line * w + (i
            + 1)] + g[line * w + i],
        second_differences(g, w, false, line, n)[i] == g[(i + 2) * w + line] - 2 * g[(i + 1) * w
            + line] + g[i * w + line],
        RESAMPLING_BLOCK == 64,
        RESAMPLED == 0x3FD9_9999_9999_999A,
{
}

} // verus!
