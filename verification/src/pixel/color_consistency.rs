//! Local color-histogram consistency.
//!
//! Composites mismatch in white balance, gamma or color space between original and
//! spliced content. Every block gets a color histogram and a score: how far, in
//! robust deviations, its mean chi-squared distance from the blocks around it lies
//! from the median. Blocks that stand out and touch each other form clusters.

use crate::clusters::Cluster;
use crate::clusters::Spot;
use crate::clusters::arranged;
use crate::clusters::by_size;
use crate::clusters::cluster_spots;
use crate::clusters::clusters_of;
use crate::clusters::inside;
use crate::clusters::size_keys;
use crate::components::lemma_cell_coords;
use crate::finding::Finding;
use crate::finding::FindingView;
use crate::finding::Region;
use crate::finding::RegionView;
use crate::finding::boxed_finding;
use crate::grid::channel;
use crate::grid::px3;
use crate::outliers::LEAST_SPREAD;
use crate::outliers::Outliers;
use crate::outliers::THREE_AND_A_HALF;
use crate::outliers::carries_signal;
use crate::outliers::collects;
use crate::outliers::find_outliers;
use crate::outliers::has_signal;
use crate::outliers::near;
use crate::outliers::near_blocks;
use crate::outliers::outlier_severity;
use crate::outliers::severity_at;
use crate::robust::Scored;
use crate::select::how_many;
use crate::select::lemma_which;
use crate::select::which;
use crate::text::append_decimal;
use crate::text::decimal_text;
use vstd::prelude::*;
use vstd::string::*;

verus! {

/// The color-consistency analyzer.
pub struct ColorConsistencyAnalyzer;

/// The size of a block in pixels.
pub const COLOR_BLOCK: usize = 64;

/// The number of bins of a block's histogram: eight per channel.
pub const TOTAL_BINS: usize = 512;

/// The bin of a pixel.
pub open spec fn bin_of(rgb: Seq<u8>, w: int, x: int, y: int) -> int {
    (channel(rgb, w, x, y, 0) / 32) * 64 + (channel(rgb, w, x, y, 1) / 32) * 8 + channel(
        rgb,
        w,
        x,
        y,
        2,
    ) / 32
}

/// How many of the first `n` pixels of a block fall into a bin.
pub open spec fn bin_count(rgb: Seq<u8>, w: int, x0: int, y0: int, bin: int, n: nat) -> nat
    decreases n,
{
    if n == 0 {
        0
    } else {
        bin_count(rgb, w, x0, y0, bin, (n - 1) as nat) + if bin_of(
            rgb,
            w,
            x0 + (n - 1) % 64,
            y0 + (n - 1) / 64,
        ) == bin {
            1nat
        } else {
            0nat
        }
    }
}

/// The histogram of a block.
pub open spec fn block_histogram(rgb: Seq<u8>, w: int, x0: int, y0: int) -> Seq<u32> {
    Seq::new(512, |bin: int| bin_count(rgb, w, x0, y0, bin, 4096) as u32)
}

/// `v` holds the histogram of every block, row by row.
pub open spec fn holds_histograms(v: Seq<Vec<u32>>, rgb: Seq<u8>, w: int, h: int) -> bool {
    &&& v.len() == (w / 64) * (h / 64)
    &&& forall|i: int|
        0 <= i < v.len() ==> (#[trigger] v[i])@ == block_histogram(
            rgb,
            w,
            (i % (w / 64)) * 64,
            (i / (w / 64)) * 64,
        )
}

proof fn lemma_bin_bound(rgb: Seq<u8>, w: int, x0: int, y0: int, bin: int, n: nat)
    ensures
        bin_count(rgb, w, x0, y0, bin, n) <= n,
    decreases n,
{
    if n > 0 {
        lemma_bin_bound(rgb, w, x0, y0, bin, (n - 1) as nat);
    }
}

/// The counts of the bins below `k`, added up.
pub open spec fn bins_total(rgb: Seq<u8>, w: int, x0: int, y0: int, k: nat, n: nat) -> nat
    decreases k,
{
    if k == 0 {
        0
    } else {
        bins_total(rgb, w, x0, y0, (k - 1) as nat, n) + bin_count(rgb, w, x0, y0, k - 1, n)
    }
}

proof fn lemma_bins_step(rgb: Seq<u8>, w: int, x0: int, y0: int, k: nat, n: nat)
    requires
        n > 0,
    ensures
        bins_total(rgb, w, x0, y0, k, n) == bins_total(rgb, w, x0, y0, k, (n - 1) as nat) + (if 0
            <= bin_of(rgb, w, x0 + (n - 1) % 64, y0 + (n - 1) / 64) < k {
            1nat
        } else {
            0nat
        }),
    decreases k,
{
    if k > 0 {
        lemma_bins_step(rgb, w, x0, y0, (k - 1) as nat, n);
    }
}

proof fn lemma_bins_empty(rgb: Seq<u8>, w: int, x0: int, y0: int, k: nat)
    ensures
        bins_total(rgb, w, x0, y0, k, 0) == 0,
    decreases k,
{
    if k > 0 {
        lemma_bins_empty(rgb, w, x0, y0, (k - 1) as nat);
    }
}

/// The bins of a block's histogram add up to the number of its pixels.
pub proof fn law_histogram_complete(rgb: Seq<u8>, w: int, x0: int, y0: int, n: nat)
    ensures
        bins_total(rgb, w, x0, y0, 512, n) == n,
    decreases n,
{
    if n == 0 {
        lemma_bins_empty(rgb, w, x0, y0, 512);
    } else {
        law_histogram_complete(rgb, w, x0, y0, (n - 1) as nat);
        lemma_bins_step(rgb, w, x0, y0, 512, n);
    }
}

fn histogram_of_block(rgb: &[u8], w: usize, h: usize, x0: usize, y0: usize) -> (r: Vec<u32>)
    requires
        rgb.len() == w * h * 3,
        x0 + 64 <= w,
        y0 + 64 <= h,
    ensures
        r@ == block_histogram(rgb@, w as int, x0 as int, y0 as int),
{
    let mut r: Vec<u32> = vec![0; TOTAL_BINS];
    let mut k: usize = 0;
    while k < 4096
        invariant
            k <= 4096,
            rgb.len() == w * h * 3,
            x0 + 64 <= w,
            y0 + 64 <= h,
            r.len() == 512,
            forall|bin: int|
                0 <= bin < 512 ==> #[trigger] r@[bin] == bin_count(
                    rgb@,
                    w as int,
                    x0 as int,
                    y0 as int,
                    bin,
                    k as nat,
                ),
        decreases 4096 - k,
    {
        let x: usize = x0 + k % 64;
        let y: usize = y0 + k / 64;
        let red: i64 = px3(rgb, w, h, x, y, 0);
        let green: i64 = px3(rgb, w, h, x, y, 1);
        let blue: i64 = px3(rgb, w, h, x, y, 2);
        let bin: usize = ((red / 32) * 64 + (green / 32) * 8 + blue / 32) as usize;
        proof {
            lemma_bin_bound(rgb@, w as int, x0 as int, y0 as int, bin as int, k as nat);
        }
        let c: u32 = r[bin];
        r.set(bin, c + 1);
        k += 1;
    }
    proof {
        assert(r@ =~= block_histogram(rgb@, w as int, x0 as int, y0 as int));
    }
    r
}

/// The positions of scored blocks on the grid of blocks.
pub open spec fn block_spots(s: Seq<Scored>, blocks_x: int) -> Seq<Spot> {
    Seq::new(
        s.len(),
        |i: int|
            Spot {
                x: (s[i].index as int % blocks_x) as usize,
                y: (s[i].index as int / blocks_x) as usize,
                score: s[i].score,
            },
    )
}

/// The clusters of outlier blocks, in units of blocks, largest first.
pub open spec fn block_clusters(s: Seq<Scored>, blocks_x: int, blocks_y: int) -> Seq<Cluster> {
    let c = clusters_of(block_spots(s, blocks_x), 1, blocks_x, blocks_y, false);
    arranged(c, size_keys(c))
}

/// The clusters among the first `n` that are reported: those of two blocks or more
/// among the first five.
pub open spec fn reported(c: Seq<Cluster>, n: nat) -> Seq<Cluster>
    decreases n,
{
    if n == 0 {
        Seq::empty()
    } else if c[n - 1].count >= 2 && n <= 5 {
        reported(c, (n - 1) as nat).push(c[n - 1])
    } else {
        reported(c, (n - 1) as nat)
    }
}

/// The clusters that are reported, given the outlier blocks: none if there are less
/// than three.
pub open spec fn color_clusters(s: Seq<Scored>, blocks_x: int, blocks_y: int) -> Seq<Cluster> {
    if s.len() < 3 {
        Seq::empty()
    } else {
        let c = block_clusters(s, blocks_x, blocks_y);
        reported(c, c.len())
    }
}

/// The finding on a cluster.
pub open spec fn color_finding(c: Cluster, z: Seq<char>, confidence: u64) -> FindingView {
    boxed_finding(
        "color_consistency"@,
        "color_histogram_inconsistency"@,
        "Cluster of "@ + decimal_text(c.count as nat)
            + " blocks shows color distribution mismatch (chi-squared z-score "@ + z
            + ") - possible white balance or gamma inconsistency from compositing"@,
        severity_at(c.peak),
        confidence,
        (c.x_min * 64) as u32,
        (c.y_min * 64) as u32,
        ((c.x_max + 1) * 64 - c.x_min * 64) as u32,
        ((c.y_max + 1) * 64 - c.y_min * 64) as u32,
    )
}

impl ColorConsistencyAnalyzer {
    /// Whether an image is large enough to be analyzed.
    pub fn large_enough(&self, w: usize, h: usize) -> (r: bool)
        ensures
            r == (w >= 256 && h >= 256),
    {
        w >= 256 && h >= 256
    }

    /// Whether so many blocks, whose values have a spread with this key, are scored.
    pub fn carries_signal(&self, blocks: usize, spread: i64) -> (r: bool)
        ensures
            r == has_signal(blocks as int, spread, 9, LEAST_SPREAD),
    {
        carries_signal(blocks, spread, 9, LEAST_SPREAD)
    }

    /// The blocks that score above three and a half, if there are at least three.
    pub fn stand_out(&self, s: &Vec<Scored>) -> (r: Option<Outliers>)
        ensures
            collects(r, s@, THREE_AND_A_HALF, 3),
    {
        find_outliers(s, THREE_AND_A_HALF, 3)
    }

    /// The blocks that a block is compared with: those within two blocks of it.
    pub fn neighbours(&self, blocks_x: usize, blocks_y: usize, b: usize) -> (r: Vec<usize>)
        requires
            b < blocks_x * blocks_y <= usize::MAX,
        ensures
            r@ == near(blocks_x as int, b as int, 2, (blocks_x * blocks_y) as nat),
            forall|i: int| 0 <= i < r.len() ==> #[trigger] r@[i] < blocks_x * blocks_y,
    {
        near_blocks(blocks_x, blocks_y, b, 2)
    }

    /// The color histogram of every block.
    pub fn compute_histograms_cpu(&self, rgb: &[u8], w: usize, h: usize) -> (r: Vec<Vec<u32>>)
        requires
            rgb.len() == w * h * 3,
        ensures
            holds_histograms(r@, rgb@, w as int, h as int),
    {
        let bx: usize = w / 64;
        let by: usize = h / 64;
        proof {
            assert(bx * by <= w * h) by (nonlinear_arith)
                requires
                    0 <= bx <= w,
                    0 <= by <= h,
            ;
        }
        let total: usize = bx * by;
        let mut r: Vec<Vec<u32>> = Vec::new();
        let mut i: usize = 0;
        while i < total
            invariant
                i <= total,
                bx == w / 64,
                by == h / 64,
                total == bx * by,
                rgb.len() == w * h * 3,
                r.len() == i,
                forall|j: int|
                    0 <= j < i ==> (#[trigger] r@[j])@ == block_histogram(
                        rgb@,
                        w as int,
                        (j % (bx as int)) * 64,
                        (j / (bx as int)) * 64,
                    ),
            decreases total - i,
        {
            proof {
                lemma_cell_coords(bx as int, by as int, i as int);
            }
            let hist = histogram_of_block(rgb, w, h, (i % bx) * 64, (i / bx) * 64);
            r.push(hist);
            i += 1;
        }
        r
    }

    /// Clusters outlier blocks, largest cluster first. Clusters are given in units of
    /// blocks.
    pub fn cluster_blocks(&self, s: &Vec<Scored>, blocks_x: usize, blocks_y: usize) -> (r: Vec<
        Cluster,
    >)
        requires
            blocks_x * blocks_y <= usize::MAX,
            forall|i: int| 0 <= i < s.len() ==> (#[trigger] s@[i]).index < blocks_x * blocks_y,
        ensures
            r@ == block_clusters(s@, blocks_x as int, blocks_y as int),
            forall|i: int|
                0 <= i < r.len() ==> (#[trigger] r@[i]).x_min <= r@[i].x_max < blocks_x
                    && r@[i].y_min <= r@[i].y_max < blocks_y,
    {
        let mut spots: Vec<Spot> = Vec::new();
        let mut i: usize = 0;
        while i < s.len()
            invariant
                i <= s.len(),
                forall|i: int|
                    0 <= i < s.len() ==> (#[trigger] s@[i]).index < blocks_x * blocks_y,
                spots@ =~= block_spots(s@, blocks_x as int).take(i as int),
                inside(spots@, blocks_x as int, blocks_y as int),
            decreases s.len() - i,
        {
            let e: Scored = s[i];
            proof {
                lemma_cell_coords(blocks_x as int, blocks_y as int, e.index as int);
            }
            spots.push(Spot { x: e.index % blocks_x, y: e.index / blocks_x, score: e.score });
            i += 1;
        }
        proof {
            assert(spots@ =~= block_spots(s@, blocks_x as int));
        }
        let c = cluster_spots(&spots, 1, blocks_x, blocks_y, false);
        let sorted = by_size(&c);
        proof {
            assert forall|i: int| 0 <= i < sorted.len() implies (#[trigger] sorted@[i]).x_min
                <= sorted@[i].x_max < blocks_x && sorted@[i].y_min <= sorted@[i].y_max
                < blocks_y by {
                assert(c@.contains(sorted@[i]));
            }
        }
        sorted
    }

    /// The clusters of outlier blocks that are reported.
    pub fn select_clusters(&self, s: &Vec<Scored>, blocks_x: usize, blocks_y: usize) -> (r: Vec<
        Cluster,
    >)
        requires
            blocks_x * blocks_y <= usize::MAX,
            forall|i: int| 0 <= i < s.len() ==> (#[trigger] s@[i]).index < blocks_x * blocks_y,
        ensures
            r@ == color_clusters(s@, blocks_x as int, blocks_y as int),
            r.len() <= 5,
            forall|i: int|
                0 <= i < r.len() ==> (#[trigger] r@[i]).x_min <= r@[i].x_max < blocks_x
                    && r@[i].y_min <= r@[i].y_max < blocks_y,
    {
        let mut r: Vec<Cluster> = Vec::new();
        if s.len() < 3 {
            return r;
        }
        let c = self.cluster_blocks(s, blocks_x, blocks_y);
        let mut i: usize = 0;
        while i < c.len()
            invariant
                i <= c.len(),
                r@ == reported(c@, i as nat),
                r.len() <= i,
                r.len() <= 5,
                forall|i: int|
                    0 <= i < c.len() ==> (#[trigger] c@[i]).x_min <= c@[i].x_max < blocks_x
                        && c@[i].y_min <= c@[i].y_max < blocks_y,
                forall|i: int|
                    0 <= i < r.len() ==> (#[trigger] r@[i]).x_min <= r@[i].x_max < blocks_x
                        && r@[i].y_min <= r@[i].y_max < blocks_y,
            decreases c.len() - i,
        {
            if c[i].count >= 2 && i < 5 {
                r.push(c[i]);
            }
            i += 1;
        }
        r
    }

    /// Reports a cluster. `z` is its highest score with one decimal.
    pub fn report(&self, c: Cluster, z: &str, confidence: u64) -> (r: Finding)
        requires
            c.x_min <= c.x_max < u32::MAX / 64,
            c.y_min <= c.y_max < u32::MAX / 64,
        ensures
            r@ == color_finding(c, z@, confidence),
    {
        let mut t = "Cluster of ".to_string();
        append_decimal(&mut t, c.count as u64);
        t.append(" blocks shows color distribution mismatch (chi-squared z-score ");
        t.append(z);
        t.append(") - possible white balance or gamma inconsistency from compositing");
        Finding::new(
            "color_consistency",
            "color_histogram_inconsistency",
            t,
            outlier_severity(c.peak),
            confidence,
        ).with_region(
            Region::BoundingBox {
                x: (c.x_min * 64) as u32,
                y: (c.y_min * 64) as u32,
                width: ((c.x_max + 1) * 64 - c.x_min * 64) as u32,
                height: ((c.y_max + 1) * 64 - c.y_min * 64) as u32,
            },
        )
    }
}

/// A bin is told by the three high bits of each channel, red first: it lies below 512, and two
/// colours share one just where they share those bits.
pub proof fn law_bins(rgb: Seq<u8>, w: int, x: int, y: int, u: int, v: int)
    ensures
        ({
            let a = bin_of(rgb, w, x, y);
            let b = bin_of(rgb, w, u, v);
            let (r, g, l) = (
                channel(rgb, w, x, y, 0) / 32,
                channel(rgb, w, x, y, 1) / 32,
                channel(rgb, w, x, y, 2) / 32,
            );
            &&& 0 <= a < 512
            &&& a / 64 == r && a / 8 % 8 == g && a % 8 == l
            &&& a == b <==> r == channel(rgb, w, u, v, 0) / 32 && g == channel(rgb, w, u, v, 1) / 32
                && l == channel(rgb, w, u, v, 2) / 32
        }),
{
    assert(0 <= channel(rgb, w, x, y, 0) / 32 < 8 && 0 <= channel(rgb, w, x, y, 1) / 32 < 8 && 0
        <= channel(rgb, w, x, y, 2) / 32 < 8);
    assert(0 <= channel(rgb, w, u, v, 0) / 32 < 8 && 0 <= channel(rgb, w, u, v, 1) / 32 < 8 && 0
        <= channel(rgb, w, u, v, 2) / 32 < 8);
}

/// The pixels of a block whose colour lies in a bin are counted.
pub proof fn law_bin_count(rgb: Seq<u8>, w: int, x0: int, y0: int, bin: int, n: nat)
    ensures
        bin_count(rgb, w, x0, y0, bin, n) == how_many(n, |i: int| bin == bin_of(rgb, w, x0 + i % 64, y0 + i / 64)),
    decreases n,
{
    let p = |i: int| bin == bin_of(rgb, w, x0 + i % 64, y0 + i / 64);
    lemma_which(0, p);
    if n > 0 {
        law_bin_count(rgb, w, x0, y0, bin, (n - 1) as nat);
        lemma_which((n - 1) as nat, p);
    }
}

/// A spot is the column and row of its block.
pub proof fn law_block_spots(s: Seq<Scored>, bx: int, i: int)
    requires
        bx > 0,
        0 <= i < s.len(),
    ensures
        block_spots(s, bx).len() == s.len(),
        block_spots(s, bx)[i].y * bx + block_spots(s, bx)[i].x == s[i].index,
        block_spots(s, bx)[i].x < bx,
        block_spots(s, bx)[i].score == s[i].score,
{
    let a = s[i].index as int;
    vstd::arithmetic::div_mod::lemma_fundamental_div_mod(a, bx);
    vstd::arithmetic::div_mod::lemma_mod_bound(a, bx);
    assert(0 <= a / bx <= a) by (nonlinear_arith)
        requires
            a >= 0,
            bx >= 1,
    ;
    assert(a % bx <= a) by (nonlinear_arith)
        requires
            a >= 0,
            bx >= 1,
    ;
    assert(bx * (a / bx) == (a / bx) * bx) by (nonlinear_arith);
}

/// Of the first five clusters those of two blocks or more are told.
pub proof fn law_reported_clusters(c: Seq<Cluster>, n: nat)
    requires
        n <= c.len(),
    ensures
        reported(c, n) == which(n, |i: int| i < 5 && c[i].count > 1).map_values(|i: int| c[i]),
    decreases n,
{
    let p = |i: int| i < 5 && c[i].count > 1;
    let f = |i: int| c[i];
    lemma_which(0, p);
    if n > 0 {
        let lower = (n - 1) as nat;
        law_reported_clusters(c, lower);
        lemma_which(lower, p);
        assert(which(n, p).map_values(f) =~= if p(lower as int) {
            which(lower, p).map_values(f).push(f(lower as int))
        } else {
            which(lower, p).map_values(f)
        });
    } else {
        assert(which(0, p).map_values(f) =~= Seq::<Cluster>::empty());
    }
}

/// Fewer than three blocks tell of nothing; otherwise the clusters of neighbouring blocks are told,
/// the largest first.
pub proof fn law_color_clusters(s: Seq<Scored>, bx: int, by: int)
    ensures
        s.len() <= 2 ==> color_clusters(s, bx, by).len() == 0,
        s.len() > 2 ==> color_clusters(s, bx, by) == reported(
            block_clusters(s, bx, by),
            block_clusters(s, bx, by).len(),
        ),
        block_clusters(s, bx, by) == arranged(
            clusters_of(block_spots(s, bx), 1, bx, by, false),
            size_keys(clusters_of(block_spots(s, bx), 1, bx, by, false)),
        ),
{
}

/// A cluster is told with its blocks, of 64 pixels a side.
pub proof fn law_color_finding(c: Cluster, z: Seq<char>, confidence: u64)
    ensures
        color_finding(c, z, confidence).code == "color_histogram_inconsistency"@,
        color_finding(c, z, confidence).severity == severity_at(c.peak),
        color_finding(c, z, confidence).region == Some(
            RegionView::BoundingBox {
                x: (64 * c.x_min) as u32,
                y: (64 * c.y_min) as u32,
                width: (64 * (c.x_max - c.x_min + 1)) as u32,
                height: (64 * (c.y_max - c.y_min + 1)) as u32,
            },
        ),
        COLOR_BLOCK == 64,
        TOTAL_BINS == 512,
{
}

} // verus!
