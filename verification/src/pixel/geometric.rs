//! Geometric consistency: breaks of strong lines, and blocks whose edge orientations
//! do not fit the image.
//!
//! Lines are peaks of a Hough accumulator. The accumulator itself, the tracing of a
//! line and the orientation histograms need trigonometry and come from the caller.

use crate::double::nearest;
use crate::double::round;
use crate::finding::Finding;
use crate::finding::FindingView;
use crate::finding::Region;
use crate::finding::RegionView;
use crate::finding::Severity;
use crate::finding::group_values;
use crate::finding::plain_finding;
use crate::finding::values;
use crate::grid::imax;
use crate::grid::imin;
use crate::grid::less;
use crate::hough::LineGap;
use crate::hough::Peak;
use crate::hough::Support;
use crate::hough::breaks_of;
use crate::hough::extract_peaks;
use crate::hough::find_gaps;
use crate::hough::top_peaks;
use crate::number::is_share_above;
use crate::number::is_share_below;
use crate::number::share_above;
use crate::number::share_below;
use crate::outliers::block_box;
use crate::outliers::block_region;
use crate::raster::Frame;
use crate::raster::bound_gray;
use crate::raster::bounded_gray;
use crate::raster::resizable;
use crate::select::lemma_which;
use crate::select::which;
use crate::share::Factor;
use crate::share::MAX_COUNT;
use crate::share::U45;
use crate::share::U55;
use crate::share::U80;
use crate::share::U85;
use crate::share::confidence;
use crate::share::confidence_of;
use crate::share::graded;
use crate::share::graded_of;
use crate::share::percent;
use crate::share::percent_text;
use crate::sobel::Gradient;
use crate::sobel::gradient_at;
use crate::sobel::sobel;
use crate::sobel::squared;
use crate::sobel::squared_magnitude;
use crate::text::append_decimal;
use crate::text::decimal;
use crate::text::decimal_text;
use vstd::prelude::*;
use vstd::string::*;

verus! {

/// Cap on the pixel count of the image that is analyzed.
pub const LINE_PIXELS: u64 = 500_000;

/// The geometric-consistency analyzer.
pub struct GeometricConsistencyAnalyzer;

/// The number of angles of the accumulator.
pub const NUM_THETA: usize = 180;

/// The size of a block in pixels.
pub const ORIENT_BLOCK: usize = 64;

/// A strong edge: an inner pixel with a gradient magnitude of 76.5 or more.
pub open spec fn is_strong(gray: Seq<u8>, w: int, h: int, x: int, y: int) -> bool {
    1 <= x < w - 1 && 1 <= y < h - 1 && squared_magnitude(gray, w, x, y) >= 5853
}

/// The larger side of an image.
fn longer(w: usize, h: usize) -> (r: usize)
    ensures
        r == imax(w as int, h as int),
{
    if w >= h {
        w
    } else {
        h
    }
}

/// The smaller side of an image.
fn shorter(w: usize, h: usize) -> (r: usize)
    ensures
        r == imin(w as int, h as int),
{
    if w <= h {
        w
    } else {
        h
    }
}

/// A break of a line that is to be reported.
pub struct LineBreak {
    /// The angle of the line in degrees, without decimals.
    pub theta: String,
    /// The votes for the line.
    pub votes: u32,
    /// The break.
    pub gap: LineGap,
    /// The confidence, as bits.
    pub confidence: u64,
}

/// The box around a break, sixteen pixels wider on each side.
pub open spec fn gap_box(g: LineGap) -> RegionView {
    RegionView::BoundingBox {
        x: less(g.min_x as int, 16) as u32,
        y: less(g.min_y as int, 16) as u32,
        width: (g.max_x - g.min_x + 32) as u32,
        height: (g.max_y - g.min_y + 32) as u32,
    }
}

/// The finding on a break.
pub open spec fn break_finding(b: LineBreak) -> FindingView {
    FindingView {
        region: Some(gap_box(b.gap)),
        ..plain_finding(
            "geometric_consistency"@,
            "geometric_line_break"@,
            "Strong line (theta="@ + b.theta@ + "°, "@ + decimal_text(b.votes as nat)
                + " votes) breaks at pixel offset "@ + decimal_text(b.gap.start as nat)
                + " with gap of "@ + decimal_text(b.gap.length as nat)
                + " pixels - possible splice boundary"@,
            Severity::Medium,
            b.confidence,
        )
    }
}

/// The finding on many breaks.
pub open spec fn many_breaks_finding(count: int) -> FindingView {
    plain_finding(
        "geometric_consistency"@,
        "geometric_multiple_line_breaks"@,
        decimal_text(count as nat)
            + " line break events detected across dominant image lines - significant geometric discontinuity"@,
        Severity::High,
        confidence_of(U55 as nat, nearest(BREAK_WEIGHT as nat * count as nat, 1), U85 as nat),
    )
}

/// The report on breaks: the first three, and that there are more.
pub open spec fn break_findings(b: Seq<LineBreak>) -> Seq<FindingView> {
    Seq::new(imin(b.len() as int, 3) as nat, |i: int| break_finding(b[i])) + (if b.len() > 3 {
        seq![many_breaks_finding(b.len() as int)]
    } else {
        Seq::empty()
    })
}

/// Enough blocks deviate: two or more, and two percent or more of the active ones.
pub open spec fn is_inconsistent(outliers: int, active: int) -> bool {
    active >= 4 && outliers >= 2 && !share_below(outliers, active, 2, 100)
}

/// The finding on deviating edge orientations.
pub open spec fn orientation_finding(
    outliers: int,
    active: int,
    strongest: int,
    blocks_x: int,
) -> FindingView {
    FindingView {
        region: Some(block_box(strongest, blocks_x, 64)),
        ..plain_finding(
            "geometric_consistency"@,
            "geometric_orientation_inconsistency"@,
            decimal_text(outliers as nat) + " of "@ + decimal_text(active as nat) + " blocks ("@
                + percent_text(outliers as nat, active as nat)
                + "%) show edge orientation distributions inconsistent with the image - possible composite from different scenes"@,
            if share_above(outliers, active, 10, 100) {
                Severity::High
            } else {
                Severity::Medium
            },
            graded_of(U45, outliers as nat, active as nat, Factor { num: 2, den: 1 }, U80),
        )
    }
}

/// The gradients at the strong edges among the first `n` inner pixels of a block, row by row.
pub open spec fn edge_gradients(
    gray: Seq<u8>,
    w: int,
    h: int,
    x0: int,
    y0: int,
    n: nat,
) -> Seq<Gradient>
    decreases n,
{
    if n == 0 {
        Seq::empty()
    } else {
        let x = x0 + 1 + (n - 1) % 62;
        let y = y0 + 1 + (n - 1) / 62;
        let before = edge_gradients(gray, w, h, x0, y0, (n - 1) as nat);
        if is_strong(gray, w, h, x, y) {
            before.push(gradient_at(gray, w, x, y))
        } else {
            before
        }
    }
}

/// 0.05, what a break adds to the confidence in many, in multiples of 2^-64.
pub const BREAK_WEIGHT: u128 = 0x0CCC_CCCC_CCCC_CD00;

/// Below this number of edges the orientations of a block are not counted.
pub const LEAST_EDGES: usize = 10;

impl GeometricConsistencyAnalyzer {
    /// The luminance plane that is analyzed: resampled to `nw` by `nh` where the image is
    /// over the cap.
    pub fn working_image(&self, gray: &[u8], w: u32, h: u32, nw: u32, nh: u32) -> (r: Frame)
        requires
            gray@.len() == w * h,
            w * h > LINE_PIXELS ==> resizable(w, h, nw, nh),
        ensures
            r.monochrome,
            r.wf(),
            (r.width, r.height, r.samples@) == bounded_gray(
                gray@,
                w,
                h,
                LINE_PIXELS as int,
                nw,
                nh,
            ),
    {
        bound_gray(gray, w, h, LINE_PIXELS, nw, nh)
    }

    /// Whether an image is large enough to be analyzed.
    pub fn large_enough(&self, w: usize, h: usize) -> (r: bool)
        ensures
            r == (w >= 192 && h >= 192),
    {
        w >= 192 && h >= 192
    }

    /// Whether so many blocks with edges are enough for their orientations to be compared.
    pub fn enough_blocks(&self, n: usize) -> (r: bool)
        ensures
            r == (n >= 4),
    {
        n >= 4
    }

    /// Whether a pixel lies on a strong edge.
    pub fn check_edge_at(&self, gray: &[u8], x: usize, y: usize, w: usize, h: usize) -> (r: bool)
        requires
            gray.len() == w * h,
        ensures
            r == is_strong(gray@, w as int, h as int, x as int, y as int),
    {
        if x < 1 || y < 1 || x >= w || y >= h || w - x <= 1 || h - y <= 1 {
            return false;
        }
        let g = sobel(gray, w, h, x, y);
        squared(g) >= 5853
    }

    /// The peaks of the accumulator: those with votes for eight percent of the longer
    /// side, the fifty strongest.
    pub fn extract_peaks(&self, acc: &Vec<u32>, num_rho: usize, w: u32, h: u32) -> (r: Vec<Peak>)
        requires
            acc.len() == NUM_THETA * num_rho,
        ensures
            r@ == top_peaks(
                acc@,
                NUM_THETA as int,
                num_rho as int,
                8 * imax(w as int, h as int) / 100,
                50,
            ),
    {
        let side: u64 = longer(w as usize, h as usize) as u64;
        let least: u32 = (8 * side / 100) as u32;
        extract_peaks(acc, NUM_THETA, num_rho, least, 50)
    }

    /// The breaks of a line in an image of the given size.
    pub fn line_gaps(&self, support: &Vec<Support>, w: usize, h: usize) -> (r: Vec<LineGap>)
        ensures
            r@ == breaks_of(
                support@,
                imin(w as int, h as int) / 10,
                8,
                imax(w as int, h as int) / 4,
            ),
            forall|i: int|
                0 <= i < r.len() ==> (#[trigger] r@[i]).min_x <= r@[i].max_x && r@[i].min_y
                    <= r@[i].max_y,
    {
        find_gaps(support, shorter(w, h) / 10, 8, longer(w, h) / 4)
    }

    fn report_break(&self, b: &LineBreak) -> (r: Finding)
        requires
            b.gap.min_x <= b.gap.max_x <= u32::MAX - 32,
            b.gap.min_y <= b.gap.max_y <= u32::MAX - 32,
        ensures
            r@ == break_finding(*b),
    {
        let mut t = "Strong line (theta=".to_string();
        t.append(b.theta.as_str());
        t.append("°, ");
        append_decimal(&mut t, b.votes as u64);
        t.append(" votes) breaks at pixel offset ");
        append_decimal(&mut t, b.gap.start as u64);
        t.append(" with gap of ");
        append_decimal(&mut t, b.gap.length as u64);
        t.append(" pixels - possible splice boundary");
        let g = b.gap;
        Finding::new(
            "geometric_consistency",
            "geometric_line_break",
            t,
            Severity::Medium,
            b.confidence,
        ).with_region(
            Region::BoundingBox {
                x: g.min_x.saturating_sub(16) as u32,
                y: g.min_y.saturating_sub(16) as u32,
                width: (g.max_x - g.min_x + 32) as u32,
                height: (g.max_y - g.min_y + 32) as u32,
            },
        )
    }

    /// Reports the breaks of the twenty strongest lines.
    pub fn report_line_gaps(&self, b: &Vec<LineBreak>) -> (r: Vec<Finding>)
        requires
            b.len() <= MAX_COUNT,
            forall|i: int|
                0 <= i < b.len() ==> (#[trigger] b@[i]).gap.min_x <= b@[i].gap.max_x <= u32::MAX
                    - 32 && b@[i].gap.min_y <= b@[i].gap.max_y <= u32::MAX - 32,
        ensures
            values(r@) == break_findings(b@),
    {
        broadcast use group_values;

        let mut r: Vec<Finding> = Vec::new();
        let mut i: usize = 0;
        let ghost first = Seq::new(imin(b@.len() as int, 3) as nat, |i: int| break_finding(b@[i]));
        while i < b.len() && i < 3
            invariant
                i <= b.len(),
                i <= 3,
                forall|i: int|
                    0 <= i < b.len() ==> (#[trigger] b@[i]).gap.min_x <= b@[i].gap.max_x <= u32::MAX
                        - 32 && b@[i].gap.min_y <= b@[i].gap.max_y <= u32::MAX - 32,
                first == Seq::new(
                    imin(b@.len() as int, 3) as nat,
                    |i: int| break_finding(b@[i]),
                ),
                values(r@) =~= first.take(i as int),
            decreases b.len() - i,
        {
            broadcast use group_values;

            let f = self.report_break(&b[i]);
            r.push(f);
            i += 1;
        }
        proof {
            assert(values(r@) =~= first);
        }
        if b.len() > 3 {
            let mut t = decimal(b.len() as u64);
            t.append(
                " line break events detected across dominant image lines - significant geometric discontinuity",
            );
            let amount: u128 = round(BREAK_WEIGHT * b.len() as u128, 1);
            let sure: u64 = confidence(U55, amount, U85);
            r.push(
                Finding::new(
                    "geometric_consistency",
                    "geometric_multiple_line_breaks",
                    t,
                    Severity::High,
                    sure,
                ),
            );
        }
        proof {
            assert(values(r@) =~= break_findings(b@));
        }
        r
    }

    /// The gradients at the strong edges inside a block.
    pub fn block_gradients(&self, gray: &[u8], w: usize, h: usize, x0: usize, y0: usize) -> (r: Vec<
        Gradient,
    >)
        requires
            gray.len() == w * h,
            x0 + 64 <= w,
            y0 + 64 <= h,
        ensures
            r@ == edge_gradients(gray@, w as int, h as int, x0 as int, y0 as int, 3844),
    {
        let mut r: Vec<Gradient> = Vec::new();
        let mut i: usize = 0;
        while i < 3844
            invariant
                i <= 3844,
                gray.len() == w * h,
                x0 + 64 <= w,
                y0 + 64 <= h,
                r@ == edge_gradients(gray@, w as int, h as int, x0 as int, y0 as int, i as nat),
            decreases 3844 - i,
        {
            let x: usize = x0 + 1 + i % 62;
            let y: usize = y0 + 1 + i / 62;
            if self.check_edge_at(gray, x, y, w, h) {
                r.push(sobel(gray, w, h, x, y));
            }
            i += 1;
        }
        r
    }

    /// Whether a block has enough edges for its orientations to count.
    pub fn is_active(&self, edges: usize) -> (r: bool)
        ensures
            r == (edges >= LEAST_EDGES),
    {
        edges >= LEAST_EDGES
    }

    /// Whether enough of the active blocks deviate.
    pub fn inconsistent(&self, outliers: usize, active: usize) -> (r: bool)
        ensures
            r == is_inconsistent(outliers as int, active as int),
    {
        active >= 4 && outliers >= 2 && !is_share_below(outliers as u64, active as u64, 2, 100)
    }

    /// Reports deviating edge orientations of `outliers` of the active blocks.
    pub fn report_orientation(
        &self,
        outliers: usize,
        active: usize,
        strongest: usize,
        blocks_x: usize,
        blocks_y: usize,
    ) -> (r: Finding)
        requires
            outliers <= active,
            0 < active <= MAX_COUNT,
            strongest < blocks_x * blocks_y,
            blocks_x * 64 <= u32::MAX,
            blocks_y * 64 <= u32::MAX,
        ensures
            r@ == orientation_finding(
                outliers as int,
                active as int,
                strongest as int,
                blocks_x as int,
            ),
    {
        let mut t = decimal(outliers as u64);
        t.append(" of ");
        append_decimal(&mut t, active as u64);
        t.append(" blocks (");
        let share = percent(outliers as u64, active as u64);
        t.append(share.as_str());
        t.append(
            "%) show edge orientation distributions inconsistent with the image - possible composite from different scenes",
        );
        let severity = if is_share_above(outliers as u64, active as u64, 10, 100) {
            Severity::High
        } else {
            Severity::Medium
        };
        let twice = Factor { num: 2, den: 1 };
        let sure: u64 = graded(U45, outliers as u64, active as u64, twice, U80);
        Finding::new(
            "geometric_consistency",
            "geometric_orientation_inconsistency",
            t,
            severity,
            sure,
        ).with_region(block_region(strongest, blocks_x, blocks_y, 64))
    }
}

/// A pixel is strong inside the image with a squared gradient of 5853 or more.
pub proof fn law_strong(g: Seq<u8>, w: int, h: int, x: int, y: int)
    ensures
        is_strong(g, w, h, x, y) <==> 0 < x && x + 1 < w && 0 < y && y + 1 < h && squared_magnitude(
            g,
            w,
            x,
            y,
        ) > 5852,
{
}

/// The gradients of the strong pixels of a block are kept, its border left out.
pub proof fn law_edge_gradients(gray: Seq<u8>, w: int, h: int, x0: int, y0: int, n: nat)
    ensures
        edge_gradients(gray, w, h, x0, y0, n) == which(n, |i: int| is_strong(gray, w, h, x0 + i % 62 + 1, y0 + i / 62 + 1)).map_values(|i: int| gradient_at(gray, w, x0 + i % 62 + 1, y0 + i / 62 + 1)),
    decreases n,
{
    let p = |i: int| is_strong(gray, w, h, x0 + i % 62 + 1, y0 + i / 62 + 1);
    let f = |i: int| gradient_at(gray, w, x0 + i % 62 + 1, y0 + i / 62 + 1);
    lemma_which(0, p);
    if n > 0 {
        let lower = (n - 1) as nat;
        law_edge_gradients(gray, w, h, x0, y0, lower);
        lemma_which(lower, p);
        assert(which(n, p).map_values(f) =~= if p(lower as int) {
            which(lower, p).map_values(f).push(f(lower as int))
        } else {
            which(lower, p).map_values(f)
        });
    } else {
        assert(which(0, p).map_values(f) =~= Seq::<Gradient>::empty());
    }
}

/// The first three breaks are told, and that there are more where there are; each break with
/// sixteen pixels round it.
pub proof fn law_break_findings(b: Seq<LineBreak>, i: int)
    requires
        0 <= i < b.len(),
    ensures
        ({
            let f = break_findings(b);
            &&& f.len() == if b.len() <= 3 {
                b.len()
            } else {
                4
            }
            &&& i < 3 ==> f[i].code == "geometric_line_break"@ && f[i].severity == Severity::Medium
                && f[i].confidence == b[i].confidence && f[i].region == Some(gap_box(b[i].gap))
            &&& b.len() > 3 ==> f[3].code == "geometric_multiple_line_breaks"@ && f[3].severity
                == Severity::High
        }),
        16 <= b[i].gap.min_x <= b[i].gap.max_x && 16 <= b[i].gap.min_y <= b[i].gap.max_y ==> gap_box(
            b[i].gap,
        ) == (RegionView::BoundingBox {
            x: (b[i].gap.min_x - 16) as u32,
            y: (b[i].gap.min_y - 16) as u32,
            width: (b[i].gap.max_x - b[i].gap.min_x + 32) as u32,
            height: (b[i].gap.max_y - b[i].gap.min_y + 32) as u32,
        }),
{
}

/// Orientations are inconsistent where two blocks or more of four, and two in a hundred, are off;
/// gravely above ten.
pub proof fn law_orientation_findings(outliers: int, active: int, strongest: int, bx: int)
    ensures
        is_inconsistent(outliers, active) <==> active > 3 && outliers > 1 && !share_below(
            outliers,
            active,
            2,
            100,
        ),
        orientation_finding(outliers, active, strongest, bx).code
            == "geometric_orientation_inconsistency"@,
        orientation_finding(outliers, active, strongest, bx).severity == Severity::High
            <==> share_above(outliers, active, 10, 100),
        orientation_finding(outliers, active, strongest, bx).severity == Severity::Medium
            <==> !share_above(outliers, active, 10, 100),
        orientation_finding(outliers, active, strongest, bx).region == Some(
            block_box(strongest, bx, 64),
        ),
        LINE_PIXELS == 500_000,
        NUM_THETA == 180,
        ORIENT_BLOCK == 64,
        LEAST_EDGES == 10,
{
}

} // verus!
