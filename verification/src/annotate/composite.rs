//! The composite overlay of the findings: which findings it shows, where each of them adds
//! heat, and the outlines and the badge drawn on top; and the plain overlays.
//!
//! Heat is added up in floating point by the caller: a finding adds its weight times a share
//! to each pixel of its footprint.

use crate::annotate::canvas::darken;
use crate::annotate::canvas::darkened;
use crate::annotate::canvas::fill;
use crate::annotate::canvas::filled;
use crate::annotate::canvas::law_darkened;
use crate::annotate::canvas::law_filled;
use crate::components::lemma_cell;
use crate::components::lemma_cell_coords;
use crate::finding::Finding;
use crate::finding::FindingView;
use crate::finding::Region;
use crate::finding::RegionView;
use crate::finding::Severity;
use crate::finding::severity_max;
use crate::finding::values;
use crate::grid::imin;
use crate::number::is_share_below;
use crate::number::share_below;
use crate::order::before;
use crate::order::is_order;
use crate::order::law_order_exists;
use crate::order::order_of;
use crate::order::stable_order;
use crate::raster::area;
use crate::select::lemma_which;
use crate::select::which;
use crate::text::contains;
use crate::text::occurs_in;
use vstd::prelude::*;

verus! {

/// The most findings that the composite shows.
pub const MAX_SHOWN: usize = 15;

/// A finding is shown if it is serious enough and in one place: in a box of less than two
/// hundredths of the image, or in points or a mask.
pub open spec fn eligible(f: FindingView, w: int, h: int) -> bool {
    f.severity.level() >= Severity::Medium.level() && !occurs_in(f.code, "document_block_anomaly"@)
        && match f.region {
        Some(RegionView::BoundingBox { x, y, width, height }) => share_below(
            width * height,
            w * h,
            2,
            100,
        ),
        Some(_) => true,
        None => false,
    }
}

/// Which of the first `n` findings are shown if there is room.
pub open spec fn candidates(s: Seq<FindingView>, w: int, h: int, n: nat) -> Seq<usize>
    decreases n,
{
    if n == 0 {
        seq![]
    } else if eligible(s[n - 1], w, h) {
        candidates(s, w, h, (n - 1) as nat).push((n - 1) as usize)
    } else {
        candidates(s, w, h, (n - 1) as nat)
    }
}

/// Keys that order candidates by falling weight.
pub open spec fn weight_keys(c: Seq<usize>, weights: Seq<u64>) -> Seq<u128> {
    Seq::new(c.len(), |k: int| (u64::MAX - weights[c[k] as int]) as u128)
}

/// The findings that are shown: the weightiest first, in their order among equals. The
/// weights are bits.
pub open spec fn shown(s: Seq<FindingView>, weights: Seq<u64>, w: int, h: int) -> Seq<usize> {
    let c = candidates(s, w, h, s.len());
    let order = order_of(weight_keys(c, weights));
    Seq::new(imin(MAX_SHOWN as int, c.len() as int) as nat, |k: int| c[order[k] as int])
}

fn is_eligible(f: &Finding, w: u32, h: u32) -> (r: bool)
    ensures
        r == eligible(f@, w as int, h as int),
{
    if !f.severity.at_least(Severity::Medium) {
        return false;
    }
    if contains(f.code.as_str(), "document_block_anomaly") {
        return false;
    }
    match &f.region {
        Some(region) => match region {
            Region::BoundingBox { x, y, width, height } => is_share_below(
                area(*width, *height),
                area(w, h),
                2,
                100,
            ),
            Region::Points { points } => true,
            Region::Mask { width, height, data } => true,
        },
        None => false,
    }
}

/// The findings that are shown.
pub fn choose_shown(findings: &Vec<Finding>, weights: &Vec<u64>, w: u32, h: u32) -> (r: Vec<usize>)
    requires
        weights@.len() == findings@.len(),
    ensures
        r@ == shown(values(findings@), weights@, w as int, h as int),
        r@.len() <= MAX_SHOWN,
        forall|k: int| 0 <= k < r@.len() ==> #[trigger] r@[k] < findings@.len(),
{
    let ghost s = values(findings@);
    let mut c: Vec<usize> = Vec::new();
    let mut keys: Vec<u128> = Vec::new();
    let mut i: usize = 0;
    assert(keys@ =~= weight_keys(c@, weights@));
    while i < findings.len()
        invariant
            i <= findings@.len(),
            weights@.len() == findings@.len(),
            s == values(findings@),
            c@ == candidates(s, w as int, h as int, i as nat),
            keys@ == weight_keys(c@, weights@),
            forall|k: int| 0 <= k < c@.len() ==> #[trigger] c@[k] < findings@.len(),
        decreases findings@.len() - i,
    {
        assert(s[i as int] == findings@[i as int]@);
        if is_eligible(&findings[i], w, h) {
            c.push(i);
            keys.push((u64::MAX - weights[i]) as u128);
            assert(keys@ =~= weight_keys(c@, weights@));
        }
        i += 1;
    }
    let order = stable_order(&keys);
    let mut r: Vec<usize> = Vec::new();
    let mut k: usize = 0;
    while k < order.len() && k < MAX_SHOWN
        invariant
            k <= MAX_SHOWN,
            k <= order@.len(),
            order@.len() == c@.len(),
            is_order(keys@, order@),
            keys@.len() == c@.len(),
            r@.len() == k,
            forall|j: int| 0 <= j < c@.len() ==> #[trigger] c@[j] < findings@.len(),
            forall|j: int| 0 <= j < k ==> #[trigger] r@[j] == c@[order@[j] as int],
            forall|j: int| 0 <= j < k ==> #[trigger] r@[j] < findings@.len(),
        decreases order@.len() - k,
    {
        assert(order@[k as int] < keys@.len());
        r.push(c[order[k]]);
        k += 1;
    }
    assert(r@ =~= shown(s, weights@, w as int, h as int));
    r
}

/// At most fifteen findings are shown; each of them is eligible.
pub proof fn law_shown_eligible(s: Seq<FindingView>, weights: Seq<u64>, w: int, h: int, k: int)
    requires
        weights.len() == s.len(),
        s.len() <= usize::MAX,
        0 <= k < shown(s, weights, w, h).len(),
    ensures
        shown(s, weights, w, h).len() <= MAX_SHOWN,
        shown(s, weights, w, h)[k] < s.len(),
        eligible(s[shown(s, weights, w, h)[k] as int], w, h),
{
    let c = candidates(s, w, h, s.len());
    let keys = weight_keys(c, weights);
    lemma_candidates(s, w, h, s.len());
    law_order_exists(keys);
    assert(order_of(keys)[k] < keys.len());
}

/// A finding that is shown before another has no less weight.
pub proof fn law_shown_by_weight(
    s: Seq<FindingView>,
    weights: Seq<u64>,
    w: int,
    h: int,
    j: int,
    k: int,
)
    requires
        weights.len() == s.len(),
        s.len() <= usize::MAX,
        0 <= j < k < shown(s, weights, w, h).len(),
    ensures
        weights[shown(s, weights, w, h)[j] as int] >= weights[shown(s, weights, w, h)[k] as int],
{
    let c = candidates(s, w, h, s.len());
    let keys = weight_keys(c, weights);
    lemma_candidates(s, w, h, s.len());
    law_order_exists(keys);
    let o = order_of(keys);
    assert(o[j] < keys.len() && o[k] < keys.len());
    assert(before(keys, o[j] as int, o[k] as int));
}

proof fn lemma_candidates(s: Seq<FindingView>, w: int, h: int, n: nat)
    requires
        n <= s.len() <= usize::MAX,
    ensures
        candidates(s, w, h, n).len() <= n,
        forall|k: int|
            0 <= k < candidates(s, w, h, n).len() ==> (#[trigger] candidates(s, w, h, n)[k]) < n
                && eligible(s[candidates(s, w, h, n)[k] as int], w, h),
    decreases n,
{
    if n > 0 {
        lemma_candidates(s, w, h, (n - 1) as nat);
    }
}

/// The heat of a finding at a pixel: `num` over `den` of its weight.
#[derive(Clone, Copy, PartialEq, Eq, Structural, Debug)]
pub struct Heat {
    pub at: usize,
    pub num: u32,
    pub den: u32,
}

/// Heats are at pixels of the image, and none is more than the whole weight.
pub open spec fn sound(s: Seq<Heat>, pixels: int) -> bool {
    forall|k: int|
        0 <= k < s.len() ==> (#[trigger] s[k]).at < pixels && s[k].num <= s[k].den && s[k].den > 0
}

/// How wide the soft edge of a box is.
pub open spec fn feather_of(bw: int, bh: int) -> int {
    imin(8, imin(bw, bh) / 4)
}

/// The heat of pixel `k` of a box from (`x0`, `y0`) to (`x1`, `y1`), the far sides left out:
/// it grows from the edge over the feather.
pub open spec fn box_heat(w: int, x0: int, y0: int, x1: int, y1: int, k: int) -> Heat {
    let x = x0 + k % (x1 - x0);
    let y = y0 + k / (x1 - x0);
    let edge = imin(imin(x - x0, x1 - 1 - x), imin(y - y0, y1 - 1 - y));
    let feather = feather_of(x1 - x0, y1 - y0);
    Heat {
        at: (y * w + x) as usize,
        num: if feather > 0 {
            imin(edge, feather) as u32
        } else {
            1
        },
        den: if feather > 0 {
            feather as u32
        } else {
            1
        },
    }
}

/// The heat of a box, row by row.
pub open spec fn box_footprint(w: int, x0: int, y0: int, x1: int, y1: int) -> Seq<Heat> {
    if x0 >= x1 || y0 >= y1 {
        seq![]
    } else {
        Seq::new(((x1 - x0) * (y1 - y0)) as nat, |k: int| box_heat(w, x0, y0, x1, y1, k))
    }
}

/// The square of the distance of two pixels.
pub open spec fn squared_distance(x: int, y: int, cx: int, cy: int) -> int {
    (x - cx) * (x - cx) + (y - cy) * (y - cy)
}

/// The heat of a point among the first `n` pixels of the area from (`x0`, `y0`) with rows up
/// to `x1`: it falls off with the square of the distance, to nothing at 16.
pub open spec fn point_footprint(
    w: int,
    cx: int,
    cy: int,
    x0: int,
    y0: int,
    x1: int,
    n: nat,
) -> Seq<Heat>
    decreases n,
{
    if n == 0 {
        seq![]
    } else {
        let before = point_footprint(w, cx, cy, x0, y0, x1, (n - 1) as nat);
        let x = x0 + (n - 1) % (x1 - x0);
        let y = y0 + (n - 1) / (x1 - x0);
        let d = squared_distance(x, y, cx, cy);
        if d < 256 {
            before.push(Heat { at: (y * w + x) as usize, num: (256 - d) as u32, den: 256 })
        } else {
            before
        }
    }
}

/// The larger of a difference and zero.
pub open spec fn minus(a: int, b: int) -> int {
    if a > b {
        a - b
    } else {
        0
    }
}

/// The heat of a point.
pub open spec fn point_heat(w: int, h: int, cx: int, cy: int) -> Seq<Heat> {
    let x0 = minus(cx, 16);
    let y0 = minus(cy, 16);
    let x1 = imin(cx + 16, w);
    let y1 = imin(cy + 16, h);
    if x0 >= x1 || y0 >= y1 {
        seq![]
    } else {
        point_footprint(w, cx, cy, x0, y0, x1, ((x1 - x0) * (y1 - y0)) as nat)
    }
}

/// The heat of the first `n` points.
pub open spec fn points_heat(w: int, h: int, points: Seq<[u32; 2]>, n: nat) -> Seq<Heat>
    decreases n,
{
    if n == 0 {
        seq![]
    } else {
        points_heat(w, h, points, (n - 1) as nat) + point_heat(
            w,
            h,
            points[n - 1]@[0] as int,
            points[n - 1]@[1] as int,
        )
    }
}

/// The heat of the first `n` pixels of the part of a mask that lies on the image, whose rows
/// are `cols` long.
pub open spec fn mask_heat(w: int, mw: int, data: Seq<u8>, cols: int, n: nat) -> Seq<Heat>
    decreases n,
{
    if n == 0 {
        seq![]
    } else {
        let before = mask_heat(w, mw, data, cols, (n - 1) as nat);
        let x = (n - 1) % cols;
        let y = (n - 1) / cols;
        if y * mw + x < data.len() && data[y * mw + x] > 127 {
            before.push(Heat { at: (y * w + x) as usize, num: 1, den: 1 })
        } else {
            before
        }
    }
}

/// The heat of a region.
pub open spec fn footprint(r: RegionView, w: int, h: int) -> Seq<Heat> {
    match r {
        RegionView::BoundingBox { x, y, width, height } => {
            let x0 = imin(x as int, w);
            let y0 = imin(y as int, h);
            box_footprint(w, x0, y0, imin(x0 + width, w), imin(y0 + height, h))
        },
        RegionView::Points { points } => points_heat(w, h, points, points.len()),
        RegionView::Mask { width, height, data } => {
            let cols = imin(width as int, w);
            let rows = imin(height as int, h);
            mask_heat(w, width as int, data, cols, (cols * rows) as nat)
        },
    }
}

fn least(a: usize, b: usize) -> (r: usize)
    ensures
        r == imin(a as int, b as int),
{
    if a < b {
        a
    } else {
        b
    }
}

/// `a + n`, at most `end`.
fn reach(a: usize, n: usize, end: usize) -> (r: usize)
    ensures
        r == imin(a + n, end as int),
{
    if a >= end || n >= end - a {
        end
    } else {
        a + n
    }
}

fn heat_of_box(w: usize, h: usize, x0: usize, y0: usize, x1: usize, y1: usize) -> (r: Vec<Heat>)
    requires
        w * h <= usize::MAX,
        x1 <= w,
        y1 <= h,
    ensures
        r@ == box_footprint(w as int, x0 as int, y0 as int, x1 as int, y1 as int),
        sound(r@, w * h),
{
    let mut r: Vec<Heat> = Vec::new();
    if x0 >= x1 || y0 >= y1 {
        assert(r@ =~= seq![]);
        return r;
    }
    let bw: usize = x1 - x0;
    let bh: usize = y1 - y0;
    proof {
        assert(bw * bh <= w * h) by (nonlinear_arith)
            requires
                0 <= bw <= w,
                0 <= bh <= h,
        ;
    }
    let feather: usize = least(8, least(bw, bh) / 4);
    let n: usize = bw * bh;
    let ghost all = box_footprint(w as int, x0 as int, y0 as int, x1 as int, y1 as int);
    let mut k: usize = 0;
    while k < n
        invariant
            k <= n,
            n == bw * bh,
            bw == x1 - x0,
            bh == y1 - y0,
            x0 < x1 <= w,
            y0 < y1 <= h,
            w * h <= usize::MAX,
            feather == feather_of(bw as int, bh as int),
            all == box_footprint(w as int, x0 as int, y0 as int, x1 as int, y1 as int),
            all.len() == n,
            r@ == all.take(k as int),
            sound(r@, w * h),
        decreases n - k,
    {
        proof {
            lemma_cell_coords(bw as int, bh as int, k as int);
        }
        let x: usize = x0 + k % bw;
        let y: usize = y0 + k / bw;
        proof {
            lemma_cell(w as int, h as int, x as int, y as int);
            assert(y * w <= y * w + x);
        }
        let edge: usize = least(least(x - x0, x1 - 1 - x), least(y - y0, y1 - 1 - y));
        let heat = if feather > 0 {
            Heat { at: y * w + x, num: least(edge, feather) as u32, den: feather as u32 }
        } else {
            Heat { at: y * w + x, num: 1, den: 1 }
        };
        r.push(heat);
        k += 1;
        assert(r@ =~= all.take(k as int));
    }
    assert(all.take(n as int) =~= all);
    r
}

fn heat_of_point(w: usize, h: usize, cx: usize, cy: usize, out: &mut Vec<Heat>)
    requires
        sound(old(out)@, w * h),
        w * h <= usize::MAX,
        w <= u32::MAX,
        h <= u32::MAX,
        cx <= u32::MAX,
        cy <= u32::MAX,
    ensures
        final(out)@ == old(out)@ + point_heat(w as int, h as int, cx as int, cy as int),
        sound(final(out)@, w * h),
{
    let x0: usize = if cx > 16 {
        cx - 16
    } else {
        0
    };
    let y0: usize = if cy > 16 {
        cy - 16
    } else {
        0
    };
    let x1: usize = reach(cx, 16, w);
    let y1: usize = reach(cy, 16, h);
    if x0 >= x1 || y0 >= y1 {
        assert(out@ =~= old(out)@ + point_heat(w as int, h as int, cx as int, cy as int));
        return ;
    }
    let bw: usize = x1 - x0;
    let bh: usize = y1 - y0;
    proof {
        assert(bw * bh <= 32 * 32) by (nonlinear_arith)
            requires
                0 <= bw <= 32,
                0 <= bh <= 32,
        ;
    }
    let n: usize = bw * bh;
    let mut k: usize = 0;
    let ghost start = out@;
    assert(out@ =~= start + point_footprint(
        w as int,
        cx as int,
        cy as int,
        x0 as int,
        y0 as int,
        x1 as int,
        0,
    ));
    while k < n
        invariant
            k <= n,
            n == bw * bh,
            bw == x1 - x0,
            bh == y1 - y0,
            x0 < x1 <= w,
            y0 < y1 <= h,
            x0 == minus(cx as int, 16),
            y0 == minus(cy as int, 16),
            x1 <= cx + 16,
            y1 <= cy + 16,
            w * h <= usize::MAX,
            cx <= u32::MAX,
            cy <= u32::MAX,
            sound(out@, w * h),
            out@ == start + point_footprint(
                w as int,
                cx as int,
                cy as int,
                x0 as int,
                y0 as int,
                x1 as int,
                k as nat,
            ),
        decreases n - k,
    {
        proof {
            lemma_cell_coords(bw as int, bh as int, k as int);
        }
        let x: usize = x0 + k % bw;
        let y: usize = y0 + k / bw;
        proof {
            lemma_cell(w as int, h as int, x as int, y as int);
            assert(y * w <= y * w + x);
        }
        let dx: i64 = x as i64 - cx as i64;
        let dy: i64 = y as i64 - cy as i64;
        proof {
            assert(0 <= dx * dx <= 256) by (nonlinear_arith)
                requires
                    -16 <= dx <= 16,
            ;
            assert(0 <= dy * dy <= 256) by (nonlinear_arith)
                requires
                    -16 <= dy <= 16,
            ;
        }
        let d: i64 = dx * dx + dy * dy;
        if d < 256 {
            out.push(Heat { at: y * w + x, num: (256 - d) as u32, den: 256 });
        }
        k += 1;
        assert(out@ =~= start + point_footprint(
            w as int,
            cx as int,
            cy as int,
            x0 as int,
            y0 as int,
            x1 as int,
            k as nat,
        ));
    }
}

fn heat_of_mask(w: usize, h: usize, mw: usize, mh: usize, data: &Vec<u8>) -> (r: Vec<Heat>)
    requires
        w * h <= usize::MAX,
        mw <= u32::MAX,
        h <= u32::MAX,
    ensures
        r@ == mask_heat(
            w as int,
            mw as int,
            data@,
            imin(mw as int, w as int),
            (imin(mw as int, w as int) * imin(mh as int, h as int)) as nat,
        ),
        sound(r@, w * h),
{
    let cols: usize = least(mw, w);
    let rows: usize = least(mh, h);
    proof {
        assert(0 <= cols * rows <= w * h) by (nonlinear_arith)
            requires
                0 <= cols <= w,
                0 <= rows <= h,
        ;
    }
    let n: usize = cols * rows;
    let mut r: Vec<Heat> = Vec::new();
    let mut k: usize = 0;
    while k < n
        invariant
            k <= n,
            n == cols * rows,
            cols == imin(mw as int, w as int),
            rows <= h,
            w * h <= usize::MAX,
            mw <= u32::MAX,
            h <= u32::MAX,
            r@ == mask_heat(w as int, mw as int, data@, cols as int, k as nat),
            sound(r@, w * h),
        decreases n - k,
    {
        proof {
            lemma_cell_coords(cols as int, rows as int, k as int);
        }
        let x: usize = k % cols;
        let y: usize = k / cols;
        proof {
            lemma_cell(w as int, h as int, x as int, y as int);
            assert(y * w <= y * w + x);
            assert(0 <= y * mw <= u32::MAX * (u32::MAX - 1)) by (nonlinear_arith)
                requires
                    0 <= y < h,
                    h <= u32::MAX,
                    0 <= mw <= u32::MAX,
            ;
        }
        let i: u64 = y as u64 * mw as u64 + x as u64;
        if i < data.len() as u64 && data[i as usize] > 127 {
            r.push(Heat { at: y * w + x, num: 1, den: 1 });
        }
        k += 1;
    }
    r
}

/// Where a region adds heat.
pub fn heat_of(region: &Region, w: u32, h: u32) -> (r: Vec<Heat>)
    requires
        w * h <= usize::MAX,
    ensures
        r@ == footprint(region@, w as int, h as int),
        sound(r@, w * h),
{
    let wu: usize = w as usize;
    let hu: usize = h as usize;
    match region {
        Region::BoundingBox { x, y, width, height } => {
            let x0: usize = least(*x as usize, wu);
            let y0: usize = least(*y as usize, hu);
            heat_of_box(
                wu,
                hu,
                x0,
                y0,
                reach(x0, *width as usize, wu),
                reach(y0, *height as usize, hu),
            )
        },
        Region::Points { points } => {
            let mut r: Vec<Heat> = Vec::new();
            let mut i: usize = 0;
            while i < points.len()
                invariant
                    i <= points@.len(),
                    wu == w,
                    hu == h,
                    w * h <= usize::MAX,
                                r@ == points_heat(w as int, h as int, points@, i as nat),
                    sound(r@, w * h),
                decreases points@.len() - i,
            {
                let p = points[i];
                heat_of_point(wu, hu, p[0] as usize, p[1] as usize, &mut r);
                i += 1;
            }
            r
        },
        Region::Mask { width, height, data } => heat_of_mask(
            wu,
            hu,
            *width as usize,
            *height as usize,
            data,
        ),
    }
}

/// A corner of an outline: two opposite corners, both on the image.
pub struct Corners {
    pub x0: usize,
    pub y0: usize,
    pub x1: usize,
    pub y1: usize,
}

/// The corners of the outline of a box.
pub open spec fn corners_of(x: int, y: int, bw: int, bh: int, w: int, h: int) -> Corners {
    let x0 = imin(x, w - 1);
    let y0 = imin(y, h - 1);
    Corners {
        x0: x0 as usize,
        y0: y0 as usize,
        x1: imin(x0 + bw, w - 1) as usize,
        y1: imin(y0 + bh, h - 1) as usize,
    }
}

/// A raster with a frame `t` pixels outside a rectangle, as far as its sides lie on the
/// image: the upper, the lower, the left and the right side.
pub open spec fn framed(s: Seq<u8>, w: int, h: int, c: Corners, t: int, color: Seq<u8>) -> Seq<
    u8,
> {
    let left = minus(c.x0 as int, t);
    let right = imin(c.x1 + t, w - 1) + 1;
    let top = minus(c.y0 as int, t);
    let bottom = imin(c.y1 + t, h - 1) + 1;
    let a = if c.y0 >= t {
        filled(s, w, left, c.y0 - t, right, c.y0 - t + 1, color)
    } else {
        s
    };
    let b = if c.y1 + t < h {
        filled(a, w, left, c.y1 + t, right, c.y1 + t + 1, color)
    } else {
        a
    };
    let d = if c.x0 >= t {
        filled(b, w, c.x0 - t, top, c.x0 - t + 1, bottom, color)
    } else {
        b
    };
    if c.x1 + t < w {
        filled(d, w, c.x1 + t, top, c.x1 + t + 1, bottom, color)
    } else {
        d
    }
}

/// A raster with an outline three pixels thick.
pub open spec fn outlined(s: Seq<u8>, w: int, h: int, c: Corners, color: Seq<u8>) -> Seq<u8> {
    framed(
        framed(framed(s, w, h, c, 0, color), w, h, c, 1, color),
        w,
        h,
        c,
        2,
        color,
    )
}

/// The colour of the outline of a finding: red if it is critical, else orange.
pub open spec fn outline_color(severity: Severity) -> Seq<u8> {
    if severity == Severity::Critical {
        seq![255u8, 0, 0]
    } else {
        seq![255u8, 140, 0]
    }
}

/// A raster with the outline of a finding, if the finding is serious and in a box.
pub open spec fn with_outline(s: Seq<u8>, w: int, h: int, f: FindingView) -> Seq<u8> {
    if f.severity.level() < Severity::High.level() {
        s
    } else {
        match f.region {
            Some(RegionView::BoundingBox { x, y, width, height }) => outlined(
                s,
                w,
                h,
                corners_of(x as int, y as int, width as int, height as int, w, h),
                outline_color(f.severity),
            ),
            _ => s,
        }
    }
}

/// A raster with the outlines of the first `n` findings that are shown.
pub open spec fn with_outlines(
    s: Seq<u8>,
    w: int,
    h: int,
    f: Seq<FindingView>,
    shown: Seq<usize>,
    n: nat,
) -> Seq<u8>
    decreases n,
{
    if n == 0 {
        s
    } else {
        with_outline(
            with_outlines(s, w, h, f, shown, (n - 1) as nat),
            w,
            h,
            f[shown[n - 1] as int],
        )
    }
}

/// A raster with the badge that holds the number of findings: as wide as its one or two
/// digits take.
pub open spec fn with_badge(s: Seq<u8>, w: int, h: int, count: int) -> Seq<u8> {
    let bw = if count < 10 {
        15int
    } else {
        22
    };
    filled(
        s,
        w,
        2,
        2,
        imin(imin(bw, w) + 2, w),
        imin(imin(16, h) + 2, h),
        seq![40u8, 40, 40],
    )
}

fn frame_at(canvas: &mut Vec<u8>, w: usize, h: usize, c: &Corners, t: usize, color: [u8; 3])
    requires
        old(canvas)@.len() == w * h * 3,
        c.x0 < w,
        c.x1 < w,
        c.y0 < h,
        c.y1 < h,
        w <= u32::MAX,
        h <= u32::MAX,
        t <= 2,
    ensures
        final(canvas)@ == framed(old(canvas)@, w as int, h as int, *c, t as int, color@),
        final(canvas)@.len() == w * h * 3,
{
    let left: usize = if c.x0 > t {
        c.x0 - t
    } else {
        0
    };
    let right: usize = reach(c.x1, t, w - 1) + 1;
    let top: usize = if c.y0 > t {
        c.y0 - t
    } else {
        0
    };
    let bottom: usize = reach(c.y1, t, h - 1) + 1;
    if c.y0 >= t {
        fill(canvas, w, h, left, c.y0 - t, right, c.y0 - t + 1, color);
    }
    if t < h - c.y1 {
        fill(canvas, w, h, left, c.y1 + t, right, c.y1 + t + 1, color);
    }
    if c.x0 >= t {
        fill(canvas, w, h, c.x0 - t, top, c.x0 - t + 1, bottom, color);
    }
    if t < w - c.x1 {
        fill(canvas, w, h, c.x1 + t, top, c.x1 + t + 1, bottom, color);
    }
}

fn draw_outline(canvas: &mut Vec<u8>, w: usize, h: usize, f: &Finding)
    requires
        old(canvas)@.len() == w * h * 3,
        0 < w <= u32::MAX,
        0 < h <= u32::MAX,
    ensures
        final(canvas)@ == with_outline(old(canvas)@, w as int, h as int, f@),
        final(canvas)@.len() == w * h * 3,
{
    if !f.severity.at_least(Severity::High) {
        return ;
    }
    if let Some(region) = &f.region {
        if let Region::BoundingBox { x, y, width, height } = region {
            let x0: usize = least(*x as usize, w - 1);
            let y0: usize = least(*y as usize, h - 1);
            let c = Corners {
                x0,
                y0,
                x1: reach(x0, *width as usize, w - 1),
                y1: reach(y0, *height as usize, h - 1),
            };
            let color: [u8; 3] = if f.severity.rank() == 4 {
                [255, 0, 0]
            } else {
                [255, 140, 0]
            };
            assert(color@ =~= outline_color(f.severity));
            frame_at(canvas, w, h, &c, 0, color);
            frame_at(canvas, w, h, &c, 1, color);
            frame_at(canvas, w, h, &c, 2, color);
        }
    }
}

/// Draws the outlines of the findings that are shown, and the badge.
pub fn draw_marks(
    canvas: &mut Vec<u8>,
    w: usize,
    h: usize,
    findings: &Vec<Finding>,
    shown: &Vec<usize>,
)
    requires
        old(canvas)@.len() == w * h * 3,
        0 < w <= u32::MAX,
        0 < h <= u32::MAX,
        forall|k: int| 0 <= k < shown@.len() ==> #[trigger] shown@[k] < findings@.len(),
    ensures
        final(canvas)@ == with_badge(
            with_outlines(
                old(canvas)@,
                w as int,
                h as int,
                values(findings@),
                shown@,
                shown@.len(),
            ),
            w as int,
            h as int,
            shown@.len() as int,
        ),
        final(canvas)@.len() == w * h * 3,
{
    let ghost s = canvas@;
    let ghost f = values(findings@);
    let mut k: usize = 0;
    while k < shown.len()
        invariant
            k <= shown@.len(),
            canvas@.len() == w * h * 3,
            0 < w <= u32::MAX,
            0 < h <= u32::MAX,
            f == values(findings@),
            forall|j: int| 0 <= j < shown@.len() ==> #[trigger] shown@[j] < findings@.len(),
            canvas@ == with_outlines(s, w as int, h as int, f, shown@, k as nat),
        decreases shown@.len() - k,
    {
        let i: usize = shown[k];
        assert(f[i as int] == findings@[i as int]@);
        draw_outline(canvas, w, h, &findings[i]);
        k += 1;
    }
    let bw: usize = if shown.len() < 10 {
        15
    } else {
        22
    };
    let gray: [u8; 3] = [40, 40, 40];
    assert(gray@ =~= seq![40u8, 40, 40]);
    fill(canvas, w, h, 2, 2, reach(least(bw, w), 2, w), reach(least(16, h), 2, h), gray);
}

/// A raster with a border of `n` pixels, as far as there are as many.
pub open spec fn bordered(s: Seq<u8>, w: int, h: int, n: int, color: Seq<u8>) -> Seq<u8> {
    let v = imin(n, h);
    let u = imin(n, w);
    let a = filled(s, w, 0, 0, w, v, color);
    let b = filled(a, w, 0, h - v, w, h, color);
    let c = filled(b, w, 0, 0, u, h, color);
    filled(c, w, w - u, 0, w, h, color)
}

/// Draws a border.
pub fn draw_border(canvas: &mut Vec<u8>, w: usize, h: usize, n: usize, color: [u8; 3])
    requires
        old(canvas)@.len() == w * h * 3,
    ensures
        final(canvas)@ == bordered(old(canvas)@, w as int, h as int, n as int, color@),
        final(canvas)@.len() == w * h * 3,
{
    let v: usize = least(n, h);
    let u: usize = least(n, w);
    fill(canvas, w, h, 0, 0, w, v, color);
    fill(canvas, w, h, 0, h - v, w, h, color);
    fill(canvas, w, h, 0, 0, u, h, color);
    fill(canvas, w, h, w - u, 0, w, h, color);
}

/// The most serious severity among the first `n` findings.
pub open spec fn top_severity(s: Seq<FindingView>, n: nat) -> Severity
    decreases n,
{
    if n == 0 {
        Severity::Info
    } else {
        severity_max(top_severity(s, (n - 1) as nat), s[n - 1].severity)
    }
}

/// The colour of a severity.
pub open spec fn border_color(severity: Severity) -> Seq<u8> {
    match severity {
        Severity::Info => seq![100u8, 200, 100],
        Severity::Low => seq![200u8, 200, 50],
        Severity::Medium => seq![255u8, 165, 0],
        Severity::High => seq![255u8, 80, 0],
        Severity::Critical => seq![255u8, 0, 0],
    }
}

/// A raster with a border in the colour of the most serious finding and a darkened strip.
pub open spec fn overview(s: Seq<u8>, w: int, h: int, f: Seq<FindingView>) -> Seq<u8> {
    darkened(
        bordered(s, w, h, 4, border_color(top_severity(f, f.len()))),
        w,
        imin(24, h),
    )
}

/// Draws the border of the most serious finding and the darkened strip.
pub fn draw_overview(canvas: &mut Vec<u8>, w: usize, h: usize, findings: &Vec<Finding>)
    requires
        old(canvas)@.len() == w * h * 3,
    ensures
        final(canvas)@ == overview(old(canvas)@, w as int, h as int, values(findings@)),
        final(canvas)@.len() == w * h * 3,
{
    let ghost f = values(findings@);
    let mut top = Severity::Info;
    let mut i: usize = 0;
    while i < findings.len()
        invariant
            i <= findings@.len(),
            f == values(findings@),
            top == top_severity(f, i as nat),
        decreases findings@.len() - i,
    {
        assert(f[i as int] == findings@[i as int]@);
        if !top.at_least(findings[i].severity) {
            top = findings[i].severity;
        }
        i += 1;
    }
    let color: [u8; 3] = match top {
        Severity::Info => [100, 200, 100],
        Severity::Low => [200, 200, 50],
        Severity::Medium => [255, 165, 0],
        Severity::High => [255, 80, 0],
        Severity::Critical => [255, 0, 0],
    };
    assert(color@ =~= border_color(top));
    draw_border(canvas, w, h, 4, color);
    darken(canvas, w, h, least(24, h));
}

/// A finding is shown for its region where it is medium or worse, is no anomaly of a
/// document block, and its box, if it is one, is smaller than two percent of the image.
pub proof fn law_candidates(s: Seq<FindingView>, w: int, h: int, n: nat)
    requires
        n <= s.len(),
    ensures
        candidates(s, w, h, n) == which(n, |i: int| s[i].severity != Severity::Info && s[i].severity != Severity::Low && !occurs_in(s[i].code, "document_block_anomaly"@) && (match s[i].region { Some(RegionView::BoundingBox { x, y, width, height }) => 50 * (width * height) < w * h, Some(_) => true, None => false })).map_values(|i: int| i as usize),
    decreases n,
{
    let p = |i: int| s[i].severity != Severity::Info && s[i].severity != Severity::Low && !occurs_in(s[i].code, "document_block_anomaly"@) && (match s[i].region { Some(RegionView::BoundingBox { x, y, width, height }) => 50 * (width * height) < w * h, Some(_) => true, None => false });
    let f = |i: int| i as usize;
    lemma_which(0, p);
    if n > 0 {
        let lower = (n - 1) as nat;
        law_candidates(s, w, h, lower);
        lemma_which(lower, p);
        if let Some(RegionView::BoundingBox { x, y, width, height }) = s[lower as int].region {
            assert((width * height) * 100 < 2 * (w * h) <==> 50 * (width * height) < w * h);
        }
        assert(which(n, p).map_values(f) =~= if p(lower as int) {
            which(lower, p).map_values(f).push(f(lower as int))
        } else {
            which(lower, p).map_values(f)
        });
    } else {
        assert(which(0, p).map_values(f) =~= Seq::<usize>::empty());
    }
}

/// Fifteen findings are shown at most, and all candidates where there are no more.
pub proof fn law_shown_number(s: Seq<FindingView>, weights: Seq<u64>, w: int, h: int)
    ensures
        shown(s, weights, w, h).len() == if candidates(s, w, h, s.len()).len() < 15 {
            candidates(s, w, h, s.len()).len()
        } else {
            15
        },
{
}

/// The heat of a box lies on its pixels, row by row. It is full where the nearest side is at
/// least as far off as the feather, which is a quarter of the shorter side and at most eight,
/// falls off evenly towards the sides, and is none on them.
pub proof fn law_box_heat(w: int, x0: int, y0: int, x1: int, y1: int, x: int, y: int)
    requires
        0 <= x0 <= x < x1 <= w <= u32::MAX,
        0 <= y0 <= y < y1 <= u32::MAX,
    ensures
        ({
            let k = (y - y0) * (x1 - x0) + (x - x0);
            let t = box_heat(w, x0, y0, x1, y1, k);
            let short = if x1 - x0 < y1 - y0 {
                x1 - x0
            } else {
                y1 - y0
            };
            let feather = if short / 4 < 8 {
                short / 4
            } else {
                8
            };
            &&& feather == 0 ==> t.num == 1 && t.den == 1
            &&& feather > 0 ==> t.den == feather && t.num <= feather
            &&& feather > 0 && x - x0 >= feather && x1 - 1 - x >= feather && y - y0 >= feather && y1
                - 1 - y >= feather ==> t.num == feather
            &&& feather > 0 && (x == x0 || x == x1 - 1 || y == y0 || y == y1 - 1) ==> t.num == 0
            &&& t.num < t.den ==> t.num == x - x0 || t.num == x1 - 1 - x || t.num == y - y0 || t.num
                == y1 - 1 - y
        }),
{
    let k = (y - y0) * (x1 - x0) + (x - x0);
    vstd::arithmetic::div_mod::lemma_fundamental_div_mod_converse(k, x1 - x0, y - y0, x - x0);
}

/// Every pixel of a box is in its footprint, and no other.
pub proof fn law_box_footprint(w: int, x0: int, y0: int, x1: int, y1: int, x: int, y: int)
    requires
        0 <= x0 <= x < x1 <= w,
        0 <= y0 <= y < y1,
        w * y1 <= usize::MAX,
    ensures
        ({
            let s = box_footprint(w, x0, y0, x1, y1);
            let k = (y - y0) * (x1 - x0) + (x - x0);
            s.len() == (x1 - x0) * (y1 - y0) && 0 <= k < s.len() && s[k].at == y * w + x
        }),
{
    let k = (y - y0) * (x1 - x0) + (x - x0);
    vstd::arithmetic::div_mod::lemma_fundamental_div_mod_converse(k, x1 - x0, y - y0, x - x0);
    assert(0 <= k < (x1 - x0) * (y1 - y0)) by (nonlinear_arith)
        requires
            k == (y - y0) * (x1 - x0) + (x - x0),
            x0 <= x < x1,
            y0 <= y < y1,
    ;
    assert(0 <= y * w + x < w * y1) by (nonlinear_arith)
        requires
            0 <= x < w,
            0 <= y < y1,
    ;
}

/// A point warms the pixels nearer than sixteen: by how much their squared distance falls
/// short of 256, in 256ths.
pub proof fn law_point_heat(w: int, cx: int, cy: int, x0: int, y0: int, x1: int, n: nat)
    requires
        x0 < x1,
    ensures
        point_footprint(w, cx, cy, x0, y0, x1, n) == which(n, |i: int| (cx - (x0 + i % (x1 - x0))) * (cx - (x0 + i % (x1 - x0))) + (cy - (y0 + i / (x1 - x0))) * (cy - (y0 + i / (x1 - x0))) < 16 * 16).map_values(|i: int| (Heat { at: ((y0 + i / (x1 - x0)) * w + (x0 + i % (x1 - x0))) as usize, num: (256 - squared_distance(x0 + i % (x1 - x0), y0 + i / (x1 - x0), cx, cy)) as u32, den: 256 })),
    decreases n,
{
    let p = |i: int| (cx - (x0 + i % (x1 - x0))) * (cx - (x0 + i % (x1 - x0))) + (cy - (y0 + i / (x1 - x0))) * (cy - (y0 + i / (x1 - x0))) < 16 * 16;
    let f = |i: int| (Heat { at: ((y0 + i / (x1 - x0)) * w + (x0 + i % (x1 - x0))) as usize, num: (256 - squared_distance(x0 + i % (x1 - x0), y0 + i / (x1 - x0), cx, cy)) as u32, den: 256 });
    lemma_which(0, p);
    if n > 0 {
        let lower = (n - 1) as nat;
        law_point_heat(w, cx, cy, x0, y0, x1, lower);
        lemma_which(lower, p);
        let (u, v) = (x0 + lower as int % (x1 - x0) - cx, y0 + lower as int / (x1 - x0) - cy);
        assert((-u) * (-u) == u * u && (-v) * (-v) == v * v) by (nonlinear_arith);
        assert(cx - (x0 + lower as int % (x1 - x0)) == -u && cy - (y0 + lower as int / (x1 - x0)) == -v);
        assert(which(n, p).map_values(f) =~= if p(lower as int) {
            which(lower, p).map_values(f).push(f(lower as int))
        } else {
            which(lower, p).map_values(f)
        });
    } else {
        assert(which(0, p).map_values(f) =~= Seq::<Heat>::empty());
    }
}

/// A mask warms the pixels that it marks, those above 127, by their place in it.
pub proof fn law_mask_heat(w: int, mw: int, data: Seq<u8>, cols: int, n: nat)
    ensures
        mask_heat(w, mw, data, cols, n) == which(n, |i: int| (i / cols) * mw + i % cols < data.len() && data[(i / cols) * mw + i % cols] >= 128).map_values(|i: int| (Heat { at: ((i / cols) * w + i % cols) as usize, num: 1, den: 1 })),
    decreases n,
{
    let p = |i: int| (i / cols) * mw + i % cols < data.len() && data[(i / cols) * mw + i % cols] >= 128;
    let f = |i: int| (Heat { at: ((i / cols) * w + i % cols) as usize, num: 1, den: 1 });
    lemma_which(0, p);
    if n > 0 {
        let lower = (n - 1) as nat;
        law_mask_heat(w, mw, data, cols, lower);
        lemma_which(lower, p);
        assert(which(n, p).map_values(f) =~= if p(lower as int) {
            which(lower, p).map_values(f).push(f(lower as int))
        } else {
            which(lower, p).map_values(f)
        });
    } else {
        assert(which(0, p).map_values(f) =~= Seq::<Heat>::empty());
    }
}

/// The worst severity of findings is that of one of them, and none is worse.
pub proof fn law_top_severity(s: Seq<FindingView>, n: nat, i: int)
    requires
        0 <= i < n <= s.len(),
    ensures
        s[i].severity.level() <= top_severity(s, n).level(),
        exists|j: int| 0 <= j < n && (#[trigger] s[j]).severity == top_severity(s, n),
    decreases n,
{
    let m = (n - 1) as nat;
    assert(top_severity(s, 0) == Severity::Info);
    if m > 0 {
        law_top_severity(s, m, if i < m {
            i
        } else {
            0
        });
        let j = choose|j: int| 0 <= j < m && (#[trigger] s[j]).severity == top_severity(s, m);
        assert(s[j].severity == top_severity(s, n) || s[n - 1].severity == top_severity(s, n));
    } else {
        assert(s[n - 1].severity == top_severity(s, n));
    }
}

/// The border of an overview is green without risk and turns over yellow and orange to red;
/// outlines are red for critical findings and orange for others.
pub proof fn law_colors(s: Severity)
    ensures
        border_color(s) == (if s == Severity::Critical {
            seq![255u8, 0, 0]
        } else if s == Severity::High {
            seq![255u8, 80, 0]
        } else if s == Severity::Medium {
            seq![255u8, 165, 0]
        } else if s == Severity::Low {
            seq![200u8, 200, 50]
        } else {
            seq![100u8, 200, 100]
        }),
        outline_color(Severity::Critical) == seq![255u8, 0, 0],
        outline_color(Severity::High) == seq![255u8, 140, 0],
{
}

/// Only boxes of high or critical findings are outlined.
pub proof fn law_outlined_findings(s: Seq<u8>, w: int, h: int, f: FindingView)
    ensures
        f.severity == Severity::Info || f.severity == Severity::Low || f.severity
            == Severity::Medium ==> with_outline(s, w, h, f) == s,
        f.region is None ==> with_outline(s, w, h, f) == s,
        (f.severity == Severity::High || f.severity == Severity::Critical) && (
        f.region matches Some(RegionView::BoundingBox { x, y, width, height })) ==> with_outline(
            s,
            w,
            h,
            f,
        ) == outlined(
            s,
            w,
            h,
            corners_of(
                f.region->Some_0->BoundingBox_x as int,
                f.region->Some_0->BoundingBox_y as int,
                f.region->Some_0->BoundingBox_width as int,
                f.region->Some_0->BoundingBox_height as int,
                w,
                h,
            ),
            outline_color(f.severity),
        ),
{
}

/// A border colours the pixels nearer than its width to a side, and leaves all others.
pub proof fn law_bordered(
    s: Seq<u8>,
    w: int,
    h: int,
    n: int,
    color: Seq<u8>,
    x: int,
    y: int,
    c: int,
)
    requires
        s.len() == w * h * 3,
        0 <= x < w,
        0 <= y < h,
        0 <= c < 3,
        0 <= n,
    ensures
        ({
            let i = (y * w + x) * 3 + c;
            bordered(s, w, h, n, color)[i] == if x < n || y < n || w - x <= n || h - y <= n {
                color[c]
            } else {
                s[i]
            }
        }),
{
    let v = imin(n, h);
    let u = imin(n, w);
    let a = filled(s, w, 0, 0, w, v, color);
    let b = filled(a, w, 0, h - v, w, h, color);
    let d = filled(b, w, 0, 0, u, h, color);
    law_filled(s, w, h, 0, 0, w, v, color, x, y, c);
    law_filled(a, w, h, 0, h - v, w, h, color, x, y, c);
    law_filled(b, w, h, 0, 0, u, h, color, x, y, c);
    law_filled(d, w, h, w - u, 0, w, h, color, x, y, c);
}

/// The overview has a border of four pixels in the colour of the worst finding, and its first
/// 24 rows are darkened.
pub proof fn law_overview(s: Seq<u8>, w: int, h: int, f: Seq<FindingView>, x: int, y: int, c: int)
    requires
        s.len() == w * h * 3,
        0 <= x < w,
        0 <= y < h,
        0 <= c < 3,
    ensures
        ({
            let i = (y * w + x) * 3 + c;
            let color = border_color(top_severity(f, f.len()));
            let v = if x < 4 || y < 4 || w - x <= 4 || h - y <= 4 {
                color[c]
            } else {
                s[i]
            };
            let r = overview(s, w, h, f)[i];
            &&& y < 24 ==> 10 * r <= 3 * v < 10 * r + 10
            &&& y >= 24 ==> r == v
        }),
{
    let color = border_color(top_severity(f, f.len()));
    let b = bordered(s, w, h, 4, color);
    law_bordered(s, w, h, 4, color, x, y, c);
    law_darkened(b, w, h, imin(24, h), x, y, c);
}

/// The badge covers sixteen rows from the third pixel on, and fifteen columns, or 22 from ten
/// findings on; all other pixels stay.
pub proof fn law_badge(s: Seq<u8>, w: int, h: int, count: int, x: int, y: int, c: int)
    requires
        s.len() == w * h * 3,
        22 <= w,
        16 <= h,
        0 <= x < w,
        0 <= y < h,
        0 <= c < 3,
    ensures
        ({
            let i = (y * w + x) * 3 + c;
            let wide = if count >= 10 {
                22int
            } else {
                15
            };
            with_badge(s, w, h, count)[i] == if 2 <= x < wide + 2 && 2 <= y < 18 {
                40
            } else {
                s[i]
            }
        }),
{
    let bw = if count < 10 {
        15int
    } else {
        22
    };
    law_filled(
        s,
        w,
        h,
        2,
        2,
        imin(imin(bw, w) + 2, w),
        imin(imin(16, h) + 2, h),
        seq![40u8, 40, 40],
        x,
        y,
        c,
    );
}

/// The corners of a box lie in the image, the first at its place and the second at its end.
pub proof fn law_corners(x: int, y: int, bw: int, bh: int, w: int, h: int)
    requires
        0 <= x,
        0 <= y,
        0 <= bw,
        0 <= bh,
        0 < w <= usize::MAX,
        0 < h <= usize::MAX,
    ensures
        ({
            let c = corners_of(x, y, bw, bh, w, h);
            &&& c.x0 <= c.x1 < w && c.y0 <= c.y1 < h
            &&& x + bw < w ==> c.x0 == x && c.x1 == x + bw
            &&& y + bh < h ==> c.y0 == y && c.y1 == y + bh
        }),
{
}

/// A box fades over a quarter of its shorter side, eight pixels at most.
pub proof fn law_feather(bw: int, bh: int)
    requires
        0 <= bw,
        0 <= bh,
    ensures
        0 <= feather_of(bw, bh) <= 8,
        bw >= 32 && bh >= 32 ==> feather_of(bw, bh) == 8,
        bw <= bh && bw < 32 ==> feather_of(bw, bh) == bw / 4,
        feather_of(bw, bh) == feather_of(bh, bw),
{
}

/// A point heats the pixels less than sixteen away in each direction, as far as the image goes.
pub proof fn law_point_extent(w: int, h: int, cx: int, cy: int)
    requires
        16 <= cx,
        16 <= cy,
        cx + 16 <= w,
        cy + 16 <= h,
    ensures
        point_heat(w, h, cx, cy) == point_footprint(w, cx, cy, cx - 16, cy - 16, cx + 16, 1024),
        point_heat(w, h, 0, 0) == point_footprint(w, 0, 0, 0, 0, 16, 256),
        point_heat(w, h, w + 16, cy).len() == 0,
{
    let (a, b) = (cx + 16 - (cx - 16), cy + 16 - (cy - 16));
    assert(a * b == 1024) by (nonlinear_arith)
        requires
            a == 32,
            b == 32,
    ;
    let (c, d) = (imin(0int + 16, w) - minus(0, 16), imin(0int + 16, h) - minus(0, 16));
    assert(c * d == 256) by (nonlinear_arith)
        requires
            c == 16,
            d == 16,
    ;
}

/// Points are heated in turn, and a region by what it is; a box and a mask only where they lie in
/// the image.
pub proof fn law_footprints(w: int, h: int, points: Seq<[u32; 2]>, n: nat)
    requires
        n < points.len(),
    ensures
        points_heat(w, h, points, n + 1) == points_heat(w, h, points, n) + point_heat(
            w,
            h,
            points[n as int]@[0] as int,
            points[n as int]@[1] as int,
        ),
        points_heat(w, h, points, 0).len() == 0,
        footprint(RegionView::Points { points }, w, h) == points_heat(w, h, points, points.len()),
{
}

/// A box inside the image heats just its own pixels.
pub proof fn law_box_region(w: int, h: int, x: u32, y: u32, width: u32, height: u32)
    requires
        x + width <= w,
        y + height <= h,
    ensures
        footprint(RegionView::BoundingBox { x, y, width, height }, w, h) == box_footprint(
            w,
            x as int,
            y as int,
            x + width,
            y + height,
        ),
{
}

/// A frame inside the image is drawn on its four sides, the corners included.
pub proof fn law_frame(s: Seq<u8>, w: int, h: int, c: Corners, t: int, color: Seq<u8>)
    requires
        0 <= t <= c.x0 <= c.x1,
        t <= c.y0 <= c.y1,
        c.x1 + t < w,
        c.y1 + t < h,
    ensures
        ({
            let (l, r) = (c.x0 - t, c.x1 + t);
            let (u, d) = (c.y0 - t, c.y1 + t);
            let a = filled(s, w, l, u, r + 1, u + 1, color);
            let b = filled(a, w, l, d, r + 1, d + 1, color);
            let e = filled(b, w, l, u, l + 1, d + 1, color);
            framed(s, w, h, c, t, color) == filled(e, w, r, u, r + 1, d + 1, color)
        }),
{
}

/// The outlines are drawn in turn.
pub proof fn law_outlines(
    s: Seq<u8>,
    w: int,
    h: int,
    f: Seq<FindingView>,
    order: Seq<usize>,
    n: nat,
)
    requires
        n < order.len(),
    ensures
        with_outlines(s, w, h, f, order, 0) == s,
        with_outlines(s, w, h, f, order, n + 1) == with_outline(
            with_outlines(s, w, h, f, order, n),
            w,
            h,
            f[order[n as int] as int],
        ),
{
}

} // verus!
