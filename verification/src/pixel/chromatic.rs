//! Chromatic-aberration consistency.
//!
//! Real lenses produce a radial displacement of the color channels. Per-block
//! displacements are fitted to a radial model; blocks that deviate from it come from a
//! different lens, and no displacement at all suggests synthetic content. The fit picks
//! its samples from a generator with a fixed seed, so it is reproducible. Displacements
//! and fits are computed in floating point by the caller.

use crate::bits::P50;
use crate::bits::P55;
use crate::finding::Finding;
use crate::finding::FindingView;
use crate::finding::Severity;
use crate::finding::group_values;
use crate::finding::plain_finding;
use crate::finding::values;
use crate::grid::channel;
use crate::grid::px3;
use crate::number::is_share_above;
use crate::number::is_share_below;
use crate::number::share_above;
use crate::number::share_below;
use crate::select::how_many;
use crate::select::lemma_which;
use crate::share::Factor;
use crate::share::MAX_COUNT;
use crate::share::POWER_54;
use crate::share::TWO_FIFTHS;
use crate::share::U55;
use crate::share::U85;
use crate::share::graded;
use crate::share::graded_of;
use crate::share::percent;
use crate::share::percent_text;
use crate::share::rest;
use vstd::prelude::*;
use vstd::string::*;

verus! {

/// The chromatic-aberration analyzer.
pub struct ChromaticAberrationAnalyzer;

/// The size of a block in pixels.
pub const CHROMATIC_BLOCK: usize = 64;

/// The number of samples that the fit tries.
pub const RANSAC_ITERATIONS: usize = 500;

/// Below this mean displacement there is no aberration, as a key: 0.01.
pub const NO_ABERRATION: i64 = 0x3F84_7AE1_47AE_147B;

/// The state of the generator after one more step.
pub open spec fn next_state(s: u64) -> u64 {
    ((s as int * 6364136223846793005 + 1442695040888963407) % 0x1_0000_0000_0000_0000) as u64
}

/// The index that a state of the generator stands for.
pub open spec fn index_of(s: u64, n: int) -> int {
    (s as int / 0x2_0000_0000) % n
}

/// Three indices.
#[derive(Debug, Clone, Copy, PartialEq, Eq, Structural)]
pub struct Triple {
    pub a: usize,
    pub b: usize,
    pub c: usize,
}

/// The state of the generator after `k` steps from the seed.
pub open spec fn state_after(k: nat) -> u64
    decreases k,
{
    if k == 0 {
        42
    } else {
        next_state(state_after((k - 1) as nat))
    }
}

/// The triple that the `k`-th attempt picks among `n` items.
pub open spec fn triple_at(n: int, k: nat) -> Triple {
    Triple {
        a: index_of(state_after(3 * k + 1), n) as usize,
        b: index_of(state_after(3 * k + 2), n) as usize,
        c: index_of(state_after(3 * k + 3), n) as usize,
    }
}

/// The indices of a triple differ.
pub open spec fn is_distinct(t: Triple) -> bool {
    t.a != t.b && t.b != t.c && t.a != t.c
}

/// The triples of distinct indices that the first `k` attempts pick.
pub open spec fn triples(n: int, k: nat) -> Seq<Triple>
    decreases k,
{
    if k == 0 {
        Seq::empty()
    } else {
        let rest = triples(n, (k - 1) as nat);
        if is_distinct(triple_at(n, (k - 1) as nat)) {
            rest.push(triple_at(n, (k - 1) as nat))
        } else {
            rest
        }
    }
}

fn step(s: u64) -> (r: u64)
    ensures
        r == next_state(s),
{
    s.wrapping_mul(6364136223846793005).wrapping_add(1442695040888963407)
}

fn pick(s: u64, n: usize) -> (r: usize)
    requires
        n > 0,
    ensures
        r == index_of(s, n as int),
        r < n,
{
    let high: u64 = s / 0x2_0000_0000;
    (high % n as u64) as usize
}

/// The Sobel responses of a channel at an inner pixel.
pub open spec fn channel_gradient(rgb: Seq<u8>, w: int, x: int, y: int, c: int) -> (int, int) {
    (
        channel(rgb, w, x + 1, y - 1, c) - channel(rgb, w, x - 1, y - 1, c) + 2 * channel(
            rgb,
            w,
            x + 1,
            y,
            c,
        ) - 2 * channel(rgb, w, x - 1, y, c) + channel(rgb, w, x + 1, y + 1, c) - channel(
            rgb,
            w,
            x - 1,
            y + 1,
            c,
        ),
        channel(rgb, w, x - 1, y + 1, c) - channel(rgb, w, x - 1, y - 1, c) + 2 * channel(
            rgb,
            w,
            x,
            y + 1,
            c,
        ) - 2 * channel(rgb, w, x, y - 1, c) + channel(rgb, w, x + 1, y + 1, c) - channel(
            rgb,
            w,
            x + 1,
            y - 1,
            c,
        ),
    )
}

/// The gradients of a channel over the inner pixels of a block, row by row.
pub struct ChannelGradients {
    pub gx: Vec<i64>,
    pub gy: Vec<i64>,
}

/// `g` holds the gradients of a channel over the first `n` inner pixels of a block.
pub open spec fn holds_gradients(
    g: ChannelGradients,
    rgb: Seq<u8>,
    w: int,
    x0: int,
    y0: int,
    c: int,
    n: int,
) -> bool {
    &&& g.gx.len() == n
    &&& g.gy.len() == n
    &&& forall|k: int|
        0 <= k < n ==> (#[trigger] g.gx@[k]) as int == channel_gradient(
            rgb,
            w,
            x0 + 1 + k % 62,
            y0 + 1 + k / 62,
            c,
        ).0
    &&& forall|k: int|
        0 <= k < n ==> (#[trigger] g.gy@[k]) as int == channel_gradient(
            rgb,
            w,
            x0 + 1 + k % 62,
            y0 + 1 + k / 62,
            c,
        ).1
}

/// The edge pixels among the first `n` inner pixels: a green gradient magnitude above twenty.
pub open spec fn green_edges(rgb: Seq<u8>, w: int, x0: int, y0: int, n: nat) -> nat
    decreases n,
{
    if n == 0 {
        0
    } else {
        let g = channel_gradient(rgb, w, x0 + 1 + (n - 1) % 62, y0 + 1 + (n - 1) / 62, 1);
        green_edges(rgb, w, x0, y0, (n - 1) as nat) + if g.0 * g.0 + g.1 * g.1 > 400 {
            1nat
        } else {
            0nat
        }
    }
}

/// Texts and confidences of a report.
pub struct ChromaticNumbers {
    /// The mean red-green displacement with four decimals.
    pub mean_rg: String,
    /// The mean blue-green displacement with four decimals.
    pub mean_bg: String,
    /// The quadratic coefficient of the model with four decimals.
    pub a: String,
    /// The linear coefficient of the model with four decimals.
    pub b: String,
}

/// The finding that there is no aberration.
pub open spec fn no_aberration(n: ChromaticNumbers) -> FindingView {
    plain_finding(
        "chromatic_aberration"@,
        "no_chromatic_aberration"@,
        "No detectable chromatic aberration (R-G: "@ + n.mean_rg@ + "px, B-G: "@ + n.mean_bg@
            + "px) - inconsistent with real camera optics, suggests synthetic generation"@,
        Severity::Medium,
        P55,
    )
}

/// The finding on blocks from a different lens.
pub open spec fn deviating_blocks(
    outliers: int,
    inliers: int,
    blocks: int,
    n: ChromaticNumbers,
) -> FindingView {
    plain_finding(
        "chromatic_aberration"@,
        "chromatic_aberration_inconsistency"@,
        "Chromatic aberration inconsistency: "@ + percent_text(outliers as nat, blocks as nat)
            + "% of edge-rich blocks deviate from RANSAC-fitted radial CA model (a="@ + n.a@
            + ", b="@ + n.b@ + ", "@ + percent_text(inliers as nat, blocks as nat)
            + "% inliers) - indicates spliced content from a different lens"@,
        Severity::High,
        graded_of(
            U55,
            outliers as nat,
            blocks as nat,
            Factor { num: TWO_FIFTHS, den: POWER_54 },
            U85,
        ),
    )
}

/// The finding on a model that fits badly.
pub open spec fn poor_fit(inliers: int, blocks: int) -> FindingView {
    plain_finding(
        "chromatic_aberration"@,
        "ca_model_poor_fit"@,
        "Radial CA model fits only "@ + percent_text(inliers as nat, blocks as nat)
            + "% of blocks - chromatic aberration pattern does not follow any consistent lens model"@,
        Severity::Medium,
        P50,
    )
}

/// There is no aberration: both mean displacements are negligible.
pub open spec fn lacks_aberration(mean_rg: i64, mean_bg: i64) -> bool {
    mean_rg < NO_ABERRATION && mean_bg < NO_ABERRATION
}

/// The report on the blocks that were fitted.
pub open spec fn fit_findings(
    outliers: int,
    inliers: int,
    blocks: int,
    n: ChromaticNumbers,
) -> Seq<FindingView> {
    (if share_above(outliers, blocks, 10, 100) && share_below(outliers, blocks, 60, 100) {
        seq![deviating_blocks(outliers, inliers, blocks, n)]
    } else {
        Seq::empty()
    }) + (if share_below(inliers, blocks, 40, 100) && blocks >= 10 {
        seq![poor_fit(inliers, blocks)]
    } else {
        Seq::empty()
    })
}

impl ChromaticAberrationAnalyzer {
    /// Whether an image is large enough to be analyzed.
    pub fn large_enough(&self, w: usize, h: usize) -> (r: bool)
        ensures
            r == (w >= 192 && h >= 192),
    {
        w >= 192 && h >= 192
    }

    /// Whether so many measured blocks are enough for a lens model.
    pub fn enough_blocks(&self, n: usize) -> (r: bool)
        ensures
            r == (n >= 6),
    {
        n >= 6
    }

    /// Whether so many points determine a radial model of their own.
    pub fn can_refine(&self, n: usize) -> (r: bool)
        ensures
            r == (n >= 3),
    {
        n >= 3
    }

    /// The gradients of a channel over the inner pixels of a block.
    pub fn block_gradients(
        &self,
        rgb: &[u8],
        w: usize,
        h: usize,
        x0: usize,
        y0: usize,
        c: usize,
    ) -> (r: ChannelGradients)
        requires
            rgb.len() == w * h * 3,
            x0 + 64 <= w,
            y0 + 64 <= h,
            c < 3,
        ensures
            holds_gradients(r, rgb@, w as int, x0 as int, y0 as int, c as int, 3844),
    {
        let mut g = ChannelGradients { gx: Vec::new(), gy: Vec::new() };
        let mut k: usize = 0;
        while k < 3844
            invariant
                k <= 3844,
                rgb.len() == w * h * 3,
                x0 + 64 <= w,
                y0 + 64 <= h,
                c < 3,
                holds_gradients(g, rgb@, w as int, x0 as int, y0 as int, c as int, k as int),
            decreases 3844 - k,
        {
            let x: usize = x0 + 1 + k % 62;
            let y: usize = y0 + 1 + k / 62;
            let p00: i64 = px3(rgb, w, h, x - 1, y - 1, c);
            let p01: i64 = px3(rgb, w, h, x, y - 1, c);
            let p02: i64 = px3(rgb, w, h, x + 1, y - 1, c);
            let p10: i64 = px3(rgb, w, h, x - 1, y, c);
            let p12: i64 = px3(rgb, w, h, x + 1, y, c);
            let p20: i64 = px3(rgb, w, h, x - 1, y + 1, c);
            let p21: i64 = px3(rgb, w, h, x, y + 1, c);
            let p22: i64 = px3(rgb, w, h, x + 1, y + 1, c);
            g.gx.push(p02 - p00 + 2 * p12 - 2 * p10 + p22 - p20);
            g.gy.push(p20 - p00 + 2 * p21 - 2 * p01 + p22 - p02);
            k += 1;
        }
        g
    }

    /// Counts the edge pixels of a block.
    pub fn count_edges(&self, rgb: &[u8], w: usize, h: usize, x0: usize, y0: usize) -> (r: usize)
        requires
            rgb.len() == w * h * 3,
            x0 + 64 <= w,
            y0 + 64 <= h,
        ensures
            r == green_edges(rgb@, w as int, x0 as int, y0 as int, 3844),
    {
        let green = self.block_gradients(rgb, w, h, x0, y0, 1);
        let mut c: usize = 0;
        let mut k: usize = 0;
        while k < 3844
            invariant
                k <= 3844,
                c <= k,
                holds_gradients(green, rgb@, w as int, x0 as int, y0 as int, 1, 3844),
                c == green_edges(rgb@, w as int, x0 as int, y0 as int, k as nat),
            decreases 3844 - k,
        {
            let a: i64 = green.gx[k];
            let b: i64 = green.gy[k];
            proof {
                let g = channel_gradient(
                    rgb@,
                    w as int,
                    x0 + 1 + k as int % 62,
                    y0 + 1 + k as int / 62,
                    1,
                );
                assert(a == g.0);
                assert(b == g.1);
                assert(0 <= a * a <= 1040400) by (nonlinear_arith)
                    requires
                        -1020 <= a <= 1020,
                ;
                assert(0 <= b * b <= 1040400) by (nonlinear_arith)
                    requires
                        -1020 <= b <= 1020,
                ;
            }
            if a * a + b * b > 400 {
                c += 1;
            }
            k += 1;
        }
        c
    }

    /// Whether a block has enough edges: more than five percent of its inner pixels.
    pub fn is_edge_rich(&self, edges: usize) -> (r: bool)
        ensures
            r == share_above(edges as int, 3844, 5, 100),
    {
        is_share_above(edges as u64, 3844, 5, 100)
    }

    /// The triples of distinct indices below `n` that the fit tries.
    pub fn samples(&self, n: usize) -> (r: Vec<Triple>)
        requires
            n > 0,
        ensures
            r@ == triples(n as int, RANSAC_ITERATIONS as nat),
            forall|i: int|
                0 <= i < r.len() ==> (#[trigger] r@[i]).a < n && r@[i].b < n && r@[i].c < n,
    {
        let mut r: Vec<Triple> = Vec::new();
        let mut s: u64 = 42;
        let mut k: usize = 0;
        while k < RANSAC_ITERATIONS
            invariant
                k <= RANSAC_ITERATIONS,
                n > 0,
                s == state_after((3 * k) as nat),
                r@ == triples(n as int, k as nat),
                forall|i: int|
                    0 <= i < r.len() ==> (#[trigger] r@[i]).a < n && r@[i].b < n && r@[i].c < n,
            decreases RANSAC_ITERATIONS - k,
        {
            let s1: u64 = step(s);
            let s2: u64 = step(s1);
            let s3: u64 = step(s2);
            proof {
                assert(s1 == state_after((3 * k + 1) as nat));
                assert(s2 == state_after((3 * k + 2) as nat));
                assert(s3 == state_after((3 * k + 3) as nat));
            }
            let t = Triple { a: pick(s1, n), b: pick(s2, n), c: pick(s3, n) };
            if t.a != t.b && t.b != t.c && t.a != t.c {
                r.push(t);
            }
            s = s3;
            k += 1;
        }
        r
    }

    /// Reports that there is no aberration, if both mean displacements, given as keys, are
    /// negligible.
    pub fn report_absent(&self, mean_rg: i64, mean_bg: i64, n: &ChromaticNumbers) -> (r: Option<
        Finding,
    >)
        ensures
            match r {
                Some(f) => lacks_aberration(mean_rg, mean_bg) && f@ == no_aberration(*n),
                None => !lacks_aberration(mean_rg, mean_bg),
            },
    {
        if mean_rg < NO_ABERRATION && mean_bg < NO_ABERRATION {
            let mut t = "No detectable chromatic aberration (R-G: ".to_string();
            t.append(n.mean_rg.as_str());
            t.append("px, B-G: ");
            t.append(n.mean_bg.as_str());
            t.append(
                "px) - inconsistent with real camera optics, suggests synthetic generation",
            );
            Some(
                Finding::new(
                    "chromatic_aberration",
                    "no_chromatic_aberration",
                    t,
                    Severity::Medium,
                    P55,
                ),
            )
        } else {
            None
        }
    }

    /// Reports on a fit: `outliers` of `blocks` blocks deviate from the model, and `inliers`
    /// agree with it.
    pub fn report_fit(
        &self,
        outliers: usize,
        inliers: usize,
        blocks: usize,
        n: &ChromaticNumbers,
    ) -> (r: Vec<Finding>)
        requires
            inliers <= blocks <= MAX_COUNT,
        ensures
            values(r@) == fit_findings(outliers as int, inliers as int, blocks as int, *n),
    {
        broadcast use group_values;

        let mut r: Vec<Finding> = Vec::new();
        if is_share_above(outliers as u64, blocks as u64, 10, 100) && is_share_below(
            outliers as u64,
            blocks as u64,
            60,
            100,
        ) {
            let mut t = "Chromatic aberration inconsistency: ".to_string();
            let share = percent(outliers as u64, blocks as u64);
            t.append(share.as_str());
            t.append(
                "% of edge-rich blocks deviate from RANSAC-fitted radial CA model (a=",
            );
            t.append(n.a.as_str());
            t.append(", b=");
            t.append(n.b.as_str());
            t.append(", ");
            let fitting = percent(inliers as u64, blocks as u64);
            t.append(fitting.as_str());
            t.append("% inliers) - indicates spliced content from a different lens");
            let factor = Factor { num: TWO_FIFTHS, den: POWER_54 };
            let sure: u64 = graded(U55, outliers as u64, blocks as u64, factor, U85);
            r.push(
                Finding::new(
                    "chromatic_aberration",
                    "chromatic_aberration_inconsistency",
                    t,
                    Severity::High,
                    sure,
                ),
            );
        }
        if is_share_below(inliers as u64, blocks as u64, 40, 100) && blocks >= 10 {
            let mut t = "Radial CA model fits only ".to_string();
            let fitting = percent(inliers as u64, blocks as u64);
            t.append(fitting.as_str());
            t.append(
                "% of blocks - chromatic aberration pattern does not follow any consistent lens model",
            );
            r.push(
                Finding::new(
                    "chromatic_aberration",
                    "ca_model_poor_fit",
                    t,
                    Severity::Medium,
                    P50,
                ),
            );
        }
        proof {
            assert(values(r@) =~= fit_findings(
                outliers as int,
                inliers as int,
                blocks as int,
                *n,
            ));
        }
        r
    }
}

/// The states of the generator: the next is the multiple of one by the constant, plus the other,
/// without what goes beyond 64 bits; the first is made of 42.
pub proof fn law_states(k: nat)
    ensures
        (state_after(k + 1) - (state_after(k) * 6364136223846793005 + 1442695040888963407))
            % 18446744073709551616 == 0,
        state_after(0) == 42,
{
    let v = state_after(k) as int * 6364136223846793005 + 1442695040888963407;
    let m = 18446744073709551616int;
    vstd::arithmetic::div_mod::lemma_fundamental_div_mod(v, m);
    vstd::arithmetic::div_mod::lemma_mod_bound(v, m);
    assert(state_after(k + 1) == v % m);
    assert(v % m - v == m * (-(v / m))) by (nonlinear_arith)
        requires
            v == m * (v / m) + v % m,
    ;
    vstd::arithmetic::div_mod::lemma_mod_multiples_basic(-(v / m), m);
    assert(m * (-(v / m)) == (-(v / m)) * m) by (nonlinear_arith);
}

/// An index is made of the high 31 bits of a state, and lies below the number of choices.
pub proof fn law_index(s: u64, n: int)
    requires
        n > 0,
    ensures
        0 <= index_of(s, n) < n,
        n >= 2147483648 ==> index_of(s, n) * 8589934592 <= s < index_of(s, n) * 8589934592
            + 8589934592,
{
    vstd::arithmetic::div_mod::lemma_mod_bound(s as int / 0x2_0000_0000, n);
    if n >= 2147483648 {
        vstd::arithmetic::div_mod::lemma_small_mod((s as int / 0x2_0000_0000) as nat, n as nat);
    }
}

/// A draw takes three states in turn, and is kept where the three choices differ.
pub proof fn law_triples(n: int, k: nat)
    ensures
        triples(n, 0).len() == 0,
        ({
            let (a, b, c) = (
                index_of(state_after(3 * k + 1), n),
                index_of(state_after(3 * k + 2), n),
                index_of(state_after(3 * k + 3), n),
            );
            let t = Triple { a: a as usize, b: b as usize, c: c as usize };
            triples(n, k + 1) == if t.a != t.b && t.a != t.c && t.b != t.c {
                triples(n, k).push(t)
            } else {
                triples(n, k)
            }
        }),
{
}

/// A channel's gradient is the difference of the weighted columns, or rows, on either side; none
/// on a flat patch.
pub proof fn law_channel_gradient(rgb: Seq<u8>, w: int, x: int, y: int, c: int)
    ensures
        ({
            let g = channel_gradient(rgb, w, x, y, c);
            let l = channel(rgb, w, x - 1, y - 1, c) + 2 * channel(rgb, w, x - 1, y, c) + channel(
                rgb,
                w,
                x - 1,
                y + 1,
                c,
            );
            let r = channel(rgb, w, x + 1, y - 1, c) + 2 * channel(rgb, w, x + 1, y, c) + channel(
                rgb,
                w,
                x + 1,
                y + 1,
                c,
            );
            let u = channel(rgb, w, x - 1, y - 1, c) + 2 * channel(rgb, w, x, y - 1, c) + channel(
                rgb,
                w,
                x + 1,
                y - 1,
                c,
            );
            let d = channel(rgb, w, x - 1, y + 1, c) + 2 * channel(rgb, w, x, y + 1, c) + channel(
                rgb,
                w,
                x + 1,
                y + 1,
                c,
            );
            g.0 == r - l && g.1 == d - u
        }),
{
}

/// The pixels of a block with a green gradient above twenty are counted, its border left
/// out.
pub proof fn law_green_edges(rgb: Seq<u8>, w: int, x0: int, y0: int, n: nat)
    ensures
        green_edges(rgb, w, x0, y0, n) == how_many(n, |i: int| channel_gradient(rgb, w, x0 + i % 62 + 1, y0 + i / 62 + 1, 1).0 * channel_gradient(rgb, w, x0 + i % 62 + 1, y0 + i / 62 + 1, 1).0 + channel_gradient(rgb, w, x0 + i % 62 + 1, y0 + i / 62 + 1, 1).1 * channel_gradient(rgb, w, x0 + i % 62 + 1, y0 + i / 62 + 1, 1).1 >= 401),
    decreases n,
{
    let p = |i: int| channel_gradient(rgb, w, x0 + i % 62 + 1, y0 + i / 62 + 1, 1).0 * channel_gradient(rgb, w, x0 + i % 62 + 1, y0 + i / 62 + 1, 1).0 + channel_gradient(rgb, w, x0 + i % 62 + 1, y0 + i / 62 + 1, 1).1 * channel_gradient(rgb, w, x0 + i % 62 + 1, y0 + i / 62 + 1, 1).1 >= 401;
    lemma_which(0, p);
    if n > 0 {
        law_green_edges(rgb, w, x0, y0, (n - 1) as nat);
        lemma_which((n - 1) as nat, p);
    }
}

/// Deviating blocks are told above a tenth and below six tenths; a poor fit below four
/// tenths of ten blocks or more.
pub proof fn law_when_fits_are_reported(outliers: int, inliers: int, blocks: int, t: ChromaticNumbers, rg: i64, bg: i64)
    ensures
        ({
            let f = fit_findings(outliers, inliers, blocks, t);
            let d0 = share_above(outliers, blocks, 10, 100) && share_below(outliers, blocks, 60, 100);
            let n1 = if d0 {
                1int
            } else {
                0
            };
            let d1 = blocks > 9 && share_below(inliers, blocks, 40, 100);
            let n2 = n1 + if d1 {
                1int
            } else {
                0
            };
            &&& f.len() == n2
            &&& d0 ==> f[0].code == "chromatic_aberration_inconsistency"@ && f[0].severity == Severity::High
            &&& d1 ==> f[n1].code == "ca_model_poor_fit"@ && f[n1].severity == Severity::Medium && f[n1].confidence == 0x3FE0_0000_0000_0000
        }),
        lacks_aberration(rg, bg) <==> rg < 0x3F84_7AE1_47AE_147B && bg < 0x3F84_7AE1_47AE_147B,
        no_aberration(t).code == "no_chromatic_aberration"@,
        no_aberration(t).severity == Severity::Medium,
        no_aberration(t).confidence == 0x3FE1_9999_9999_999A,
        CHROMATIC_BLOCK == 64,
        RANSAC_ITERATIONS == 500,
{
}

} // verus!
