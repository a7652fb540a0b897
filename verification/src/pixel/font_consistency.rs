//! Font consistency (document-specific).
//!
//! Pasted text usually carries a different stroke width than the surrounding
//! document. The mean stroke width of a text block is estimated from the lengths of
//! its horizontal dark runs; blocks that deviate from the median of the document by
//! a robust score stand out.

use crate::components::lemma_cell_coords;
use crate::finding::plain_finding;
use crate::finding::Finding;
use crate::finding::FindingView;
use crate::grid::pixel;
use crate::grid::px;
use crate::outliers::block_box;
use crate::outliers::block_region;
use crate::outliers::carries_signal;
use crate::outliers::collects;
use crate::outliers::find_outliers;
use crate::outliers::has_signal;
use crate::outliers::outlier_severity;
use crate::outliers::severity_at;
use crate::outliers::Outliers;
use crate::outliers::THREE_AND_A_HALF;
use crate::robust::Scored;
use crate::select::how_many;
use crate::select::lemma_which;
use crate::select::total;
use crate::select::which;
use crate::text::decimal;
use crate::text::decimal_text;
use vstd::prelude::*;
use vstd::string::*;

verus! {

/// The font-consistency analyzer.
pub struct FontConsistencyAnalyzer;

/// The size of a block in pixels.
pub const FONT_BLOCK: usize = 32;

/// The spread of stroke widths below which they are consistent, as a key: 0.3.
pub const STROKE_SPREAD: i64 = 0x3FD3_3333_3333_3333;

/// How many of the first `n` pixels of a block are dark, below 80, or else bright, above
/// 180.
pub open spec fn shade_count(
    gray: Seq<u8>,
    w: int,
    x0: int,
    y0: int,
    dark: bool,
    n: nat,
) -> nat
    decreases n,
{
    if n == 0 {
        0
    } else {
        let v = pixel(gray, w, x0 + (n - 1) % 32, y0 + (n - 1) / 32);
        shade_count(gray, w, x0, y0, dark, (n - 1) as nat) + if (dark && v < 80) || (!dark && v
            > 180) {
            1nat
        } else {
            0nat
        }
    }
}

/// A block holds text: between 5 and 60 percent of it is dark, and at least 30 percent
/// is light.
pub open spec fn holds_text(gray: Seq<u8>, w: int, x0: int, y0: int) -> bool {
    let dark = shade_count(gray, w, x0, y0, true, 1024);
    let light = shade_count(gray, w, x0, y0, false, 1024);
    5 * 1024 <= 100 * dark <= 60 * 1024 && 100 * light >= 30 * 1024
}

/// What a scan over rows has met.
#[derive(Debug, Clone, Copy, PartialEq, Eq, Structural)]
pub struct Runs {
    /// The length of the dark run that reaches the current pixel.
    pub open: usize,
    /// The number of completed runs of two to twenty pixels.
    pub count: usize,
    /// The sum of their lengths.
    pub sum: usize,
}

/// The scan one pixel on.
pub open spec fn scanned(r: Runs, dark: bool) -> Runs {
    if dark {
        Runs { open: (r.open + 1) as usize, ..r }
    } else if 2 <= r.open <= 20 {
        Runs { open: 0, count: (r.count + 1) as usize, sum: (r.sum + r.open) as usize }
    } else {
        Runs { open: 0, ..r }
    }
}

/// The scan over the first `n` pixels of a block's rows. A run ends with its row, and
/// one that reaches the end of its row does not count.
pub open spec fn scan(gray: Seq<u8>, w: int, x0: int, y0: int, n: nat) -> Runs
    decreases n,
{
    if n == 0 {
        Runs { open: 0, count: 0, sum: 0 }
    } else {
        let before = scan(gray, w, x0, y0, (n - 1) as nat);
        let fresh = if (n - 1) % 32 == 0 {
            Runs { open: 0, ..before }
        } else {
            before
        };
        scanned(fresh, pixel(gray, w, x0 + (n - 1) % 32, y0 + (n - 1) / 32) < 100)
    }
}

/// The stroke width of a block: the mean of `sum` over `count` runs.
#[derive(Debug, Clone, Copy, PartialEq, Eq, Structural)]
pub struct Stroke {
    pub block: usize,
    pub sum: usize,
    pub count: usize,
}

/// The text blocks among the first `n` with at least five runs.
pub open spec fn strokes_of(gray: Seq<u8>, w: int, n: nat) -> Seq<Stroke>
    decreases n,
{
    if n == 0 {
        Seq::empty()
    } else {
        let rest = strokes_of(gray, w, (n - 1) as nat);
        let bx = w / 32;
        let x0 = ((n - 1) % bx) * 32;
        let y0 = ((n - 1) / bx) * 32;
        let r = scan(gray, w, x0, y0, 1024);
        if holds_text(gray, w, x0, y0) && r.count >= 5 {
            rest.push(Stroke { block: (n - 1) as usize, sum: r.sum, count: r.count })
        } else {
            rest
        }
    }
}

/// The finding on blocks with deviating stroke widths.
pub open spec fn stroke_finding(
    count: int,
    median: Seq<char>,
    z: Seq<char>,
    peak: i64,
    strongest: int,
    blocks_x: int,
    confidence: u64,
) -> FindingView {
    FindingView {
        region: Some(block_box(strongest, blocks_x, 32)),
        ..plain_finding(
            "font_consistency"@,
            "font_stroke_width_inconsistency"@,
            decimal_text(count as nat)
                + " text blocks show different stroke widths from document median ("@ + median
                + "px, z-score "@ + z
                + ") - possible mixed fonts or pasted text from different source"@,
            severity_at(peak),
            confidence,
        )
    }
}

fn is_text_block(gray: &[u8], w: usize, h: usize, x0: usize, y0: usize) -> (r: bool)
    requires
        gray.len() == w * h,
        x0 + 32 <= w,
        y0 + 32 <= h,
    ensures
        r == holds_text(gray@, w as int, x0 as int, y0 as int),
{
    let mut dark: usize = 0;
    let mut light: usize = 0;
    let mut k: usize = 0;
    while k < 1024
        invariant
            k <= 1024,
            gray.len() == w * h,
            x0 + 32 <= w,
            y0 + 32 <= h,
            dark <= k,
            light <= k,
            dark == shade_count(gray@, w as int, x0 as int, y0 as int, true, k as nat),
            light == shade_count(gray@, w as int, x0 as int, y0 as int, false, k as nat),
        decreases 1024 - k,
    {
        let v: i64 = px(gray, w, h, x0 + k % 32, y0 + k / 32);
        if v < 80 {
            dark += 1;
        } else if v > 180 {
            light += 1;
        }
        k += 1;
    }
    5 * 1024 <= 100 * dark && 100 * dark <= 60 * 1024 && 100 * light >= 30 * 1024
}

fn scan_block(gray: &[u8], w: usize, h: usize, x0: usize, y0: usize) -> (r: Runs)
    requires
        gray.len() == w * h,
        x0 + 32 <= w,
        y0 + 32 <= h,
    ensures
        r == scan(gray@, w as int, x0 as int, y0 as int, 1024),
        r.count <= 1024,
        r.sum <= 32768,
{
    let mut r = Runs { open: 0, count: 0, sum: 0 };
    let mut k: usize = 0;
    while k < 1024
        invariant
            k <= 1024,
            gray.len() == w * h,
            x0 + 32 <= w,
            y0 + 32 <= h,
            r == scan(gray@, w as int, x0 as int, y0 as int, k as nat),
            r.open <= k,
            r.count <= k,
            r.sum <= 20 * k,
        decreases 1024 - k,
    {
        if k % 32 == 0 {
            r = Runs { open: 0, count: r.count, sum: r.sum };
        }
        if px(gray, w, h, x0 + k % 32, y0 + k / 32) < 100 {
            r = Runs { open: r.open + 1, count: r.count, sum: r.sum };
        } else if 2 <= r.open && r.open <= 20 {
            r = Runs { open: 0, count: r.count + 1, sum: r.sum + r.open };
        } else {
            r = Runs { open: 0, count: r.count, sum: r.sum };
        }
        k += 1;
    }
    r
}

impl FontConsistencyAnalyzer {
    /// Whether an image is large enough to be analyzed.
    pub fn large_enough(&self, w: usize, h: usize) -> (r: bool)
        ensures
            r == (w >= 128 && h >= 128),
    {
        w >= 128 && h >= 128
    }

    /// Whether so many blocks, whose values have a spread with this key, are scored.
    pub fn carries_signal(&self, blocks: usize, spread: i64) -> (r: bool)
        ensures
            r == has_signal(blocks as int, spread, 6, STROKE_SPREAD),
    {
        carries_signal(blocks, spread, 6, STROKE_SPREAD)
    }

    /// The blocks that score above three and a half, if there are at least two.
    pub fn stand_out(&self, s: &Vec<Scored>) -> (r: Option<Outliers>)
        ensures
            collects(r, s@, THREE_AND_A_HALF, 2),
    {
        find_outliers(s, THREE_AND_A_HALF, 2)
    }

    /// The stroke widths of the text blocks of an image.
    pub fn analyze_stroke_width(&self, gray: &[u8], w: usize, h: usize) -> (r: Vec<Stroke>)
        requires
            gray.len() == w * h,
        ensures
            r@ == strokes_of(gray@, w as int, ((w / 32) * (h / 32)) as nat),
            forall|i: int|
                0 <= i < r.len() ==> (#[trigger] r@[i]).block < (w / 32) * (h / 32) && r@[i].count
                    >= 5,
    {
        let bx: usize = w / 32;
        let by: usize = h / 32;
        proof {
            assert(bx * by <= w * h) by (nonlinear_arith)
                requires
                    0 <= bx <= w,
                    0 <= by <= h,
            ;
        }
        let total: usize = bx * by;
        let mut r: Vec<Stroke> = Vec::new();
        let mut b: usize = 0;
        while b < total
            invariant
                b <= total,
                bx == w / 32,
                by == h / 32,
                total == bx * by,
                gray.len() == w * h,
                r@ == strokes_of(gray@, w as int, b as nat),
                forall|i: int|
                    0 <= i < r.len() ==> (#[trigger] r@[i]).block < total && r@[i].count >= 5,
            decreases total - b,
        {
            proof {
                lemma_cell_coords(bx as int, by as int, b as int);
            }
            let x0: usize = (b % bx) * 32;
            let y0: usize = (b / bx) * 32;
            if is_text_block(gray, w, h, x0, y0) {
                let runs = scan_block(gray, w, h, x0, y0);
                if runs.count >= 5 {
                    r.push(Stroke { block: b, sum: runs.sum, count: runs.count });
                }
            }
            b += 1;
        }
        r
    }

    /// Reports deviating stroke widths: `count` blocks with a highest score of `peak`,
    /// reached by block `strongest`. `median` is the median stroke width and `z` the
    /// highest score, with one decimal each.
    pub fn report(
        &self,
        count: usize,
        median: &str,
        z: &str,
        peak: i64,
        strongest: usize,
        blocks_x: usize,
        blocks_y: usize,
        confidence: u64,
    ) -> (r: Finding)
        requires
            strongest < blocks_x * blocks_y,
            blocks_x * 32 <= u32::MAX,
            blocks_y * 32 <= u32::MAX,
        ensures
            r@ == stroke_finding(
                count as int,
                median@,
                z@,
                peak,
                strongest as int,
                blocks_x as int,
                confidence,
            ),
    {
        let mut t = decimal(count as u64);
        t.append(" text blocks show different stroke widths from document median (");
        t.append(median);
        t.append("px, z-score ");
        t.append(z);
        t.append(") - possible mixed fonts or pasted text from different source");
        Finding::new(
            "font_consistency",
            "font_stroke_width_inconsistency",
            t,
            outlier_severity(peak),
            confidence,
        ).with_region(block_region(strongest, blocks_x, blocks_y, 32))
    }
}

/// Dark pixels are those below eighty, light ones those above 180; they are counted over a
/// block row by row.
pub proof fn law_shades(gray: Seq<u8>, w: int, x0: int, y0: int, dark: bool, n: nat)
    ensures
        shade_count(gray, w, x0, y0, dark, n) == how_many(n, |i: int| if dark { gray[(y0 + i / 32) * w + (x0 + i % 32)] < 80 } else { gray[(y0 + i / 32) * w + (x0 + i % 32)] > 180 }),
    decreases n,
{
    let p = |i: int| if dark { gray[(y0 + i / 32) * w + (x0 + i % 32)] < 80 } else { gray[(y0 + i / 32) * w + (x0 + i % 32)] > 180 };
    lemma_which(0, p);
    if n > 0 {
        law_shades(gray, w, x0, y0, dark, (n - 1) as nat);
        lemma_which((n - 1) as nat, p);
    }
}

/// A block holds text where its dark pixels are between a twentieth and six tenths of it, and
/// its light ones three tenths or more.
pub proof fn law_text_block(gray: Seq<u8>, w: int, x0: int, y0: int)
    ensures
        holds_text(gray, w, x0, y0) <==> 52 <= shade_count(gray, w, x0, y0, true, 1024) <= 614
            && shade_count(gray, w, x0, y0, false, 1024) >= 308,
{
}

/// The number of dark pixels directly in front of a pixel of a block, in its row.
pub open spec fn dark_before(gray: Seq<u8>, w: int, x0: int, y0: int, k: nat) -> nat
    decreases k,
{
    if k % 32 == 0 || gray[(y0 + (k - 1) / 32) * w + (x0 + (k - 1) % 32)] >= 100 {
        0
    } else {
        dark_before(gray, w, x0, y0, (k - 1) as nat) + 1
    }
}

/// A stroke is a run of two to twenty dark pixels that a light one ends in the same row. Strokes
/// are counted and their lengths added up.
pub proof fn law_strokes(gray: Seq<u8>, w: int, x0: int, y0: int, n: nat)
    requires
        n <= 1024,
    ensures
        scan(gray, w, x0, y0, n).count == how_many(
            n,
            |k: int|
                gray[(y0 + k / 32) * w + (x0 + k % 32)] >= 100 && 2 <= dark_before(
                    gray,
                    w,
                    x0,
                    y0,
                    k as nat,
                ) <= 20,
        ),
        scan(gray, w, x0, y0, n).sum == total(
            n,
            |k: int|
                if gray[(y0 + k / 32) * w + (x0 + k % 32)] >= 100 && 2 <= dark_before(
                    gray,
                    w,
                    x0,
                    y0,
                    k as nat,
                ) <= 20 {
                    dark_before(gray, w, x0, y0, k as nat) as int
                } else {
                    0
                },
        ),
        n % 32 != 0 ==> scan(gray, w, x0, y0, n).open == dark_before(gray, w, x0, y0, n),
        scan(gray, w, x0, y0, n).open <= n,
        scan(gray, w, x0, y0, n).count <= n,
        scan(gray, w, x0, y0, n).sum <= 20 * n,
    decreases n,
{
    let p = |k: int|
        gray[(y0 + k / 32) * w + (x0 + k % 32)] >= 100 && 2 <= dark_before(
            gray,
            w,
            x0,
            y0,
            k as nat,
        ) <= 20;
    lemma_which(0, p);
    if n > 0 {
        let m = (n - 1) as nat;
        law_strokes(gray, w, x0, y0, m);
        lemma_which(m, p);
        assert(m % 32 == 0 ==> dark_before(gray, w, x0, y0, m) == 0);
    }
}

/// The blocks that hold text and five strokes or more are told, with the sum and the number
/// of those.
pub proof fn law_stroke_blocks(gray: Seq<u8>, w: int, n: nat)
    requires
        w >= 32,
    ensures
        strokes_of(gray, w, n) == which(n, |i: int| holds_text(gray, w, 32 * (i % (w / 32)), 32 * (i / (w / 32))) && scan(gray, w, 32 * (i % (w / 32)), 32 * (i / (w / 32)), 1024).count > 4).map_values(|i: int| (Stroke { block: i as usize, sum: scan(gray, w, 32 * (i % (w / 32)), 32 * (i / (w / 32)), 1024).sum, count: scan(gray, w, 32 * (i % (w / 32)), 32 * (i / (w / 32)), 1024).count })),
    decreases n,
{
    let p = |i: int| holds_text(gray, w, 32 * (i % (w / 32)), 32 * (i / (w / 32))) && scan(gray, w, 32 * (i % (w / 32)), 32 * (i / (w / 32)), 1024).count > 4;
    let f = |i: int| (Stroke { block: i as usize, sum: scan(gray, w, 32 * (i % (w / 32)), 32 * (i / (w / 32)), 1024).sum, count: scan(gray, w, 32 * (i % (w / 32)), 32 * (i / (w / 32)), 1024).count });
    lemma_which(0, p);
    if n > 0 {
        let lower = (n - 1) as nat;
        law_stroke_blocks(gray, w, lower);
        lemma_which(lower, p);
        assert(which(n, p).map_values(f) =~= if p(lower as int) {
            which(lower, p).map_values(f).push(f(lower as int))
        } else {
            which(lower, p).map_values(f)
        });
    } else {
        assert(which(0, p).map_values(f) =~= Seq::<Stroke>::empty());
    }
}

/// Blocks are 32 pixels wide and high, and widths that spread by three tenths differ.
pub proof fn law_stroke_limits()
    ensures
        FONT_BLOCK == 32,
        STROKE_SPREAD == 0x3FD3_3333_3333_3333,
{
}

} // verus!
