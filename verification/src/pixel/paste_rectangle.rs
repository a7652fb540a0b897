//! Rectangular paste detection.
//!
//! A text stroke mask isolates paper; at a paste boundary neighbouring paper pixels
//! carry uncorrelated noise. Columns and rows with such boundaries are paired into
//! rectangles, which are validated and thinned out. Correlations and variance ratios
//! are computed in floating point by the caller.

use crate::components::lemma_cell;
use crate::components::lemma_cell_coords;
use crate::finding::boxed_finding;
use crate::finding::Finding;
use crate::finding::FindingView;
use crate::finding::Region;
use crate::finding::RegionView;
use crate::finding::Severity;
use crate::grid::abs;
use crate::grid::cell;
use crate::grid::clamped;
use crate::grid::imax;
use crate::grid::imin;
use crate::grid::less;
use crate::grid::pixel;
use crate::grid::px;
use crate::order::before;
use crate::order::law_order_exists;
use crate::order::order_of;
use crate::order::stable_order;
use crate::select::lemma_which;
use crate::select::which;
use crate::text::append_decimal;
use crate::text::decimal_text;
use vstd::prelude::*;
use vstd::slice::slice_subrange;
use vstd::string::*;

verus! {

/// The paste-rectangle detector.
pub struct PasteRectangleDetector;

/// Five samples along a row around column `x`, weighted by 1, 4, 6, 4 and 1; columns past the border count
/// as those on it.
pub open spec fn row_blur(g: Seq<u8>, w: int, x: int, y: int) -> int {
    (pixel(g, w, clamped(x - 2, 0, w - 1), y) + 4 * pixel(g, w, clamped(x - 1, 0, w - 1), y) + 6
        * pixel(g, w, x, y) + 4 * pixel(g, w, clamped(x + 1, 0, w - 1), y) + pixel(
        g,
        w,
        clamped(x + 2, 0, w - 1),
        y,
    )) / 16
}

/// The same along a column, of values that were blurred along rows.
pub open spec fn blur_at(g: Seq<u8>, w: int, h: int, x: int, y: int) -> int {
    (row_blur(g, w, x, clamped(y - 2, 0, h - 1)) + 4 * row_blur(
        g,
        w,
        x,
        clamped(y - 1, 0, h - 1),
    ) + 6 * row_blur(g, w, x, y) + 4 * row_blur(g, w, x, clamped(y + 1, 0, h - 1)) + row_blur(
        g,
        w,
        x,
        clamped(y + 2, 0, h - 1),
    )) / 16
}

/// A raster blurred with a five by five binomial kernel.
pub open spec fn blurred(g: Seq<u8>, w: int, h: int) -> Seq<u8> {
    Seq::new((w * h) as nat, |i: int| blur_at(g, w, h, i % w, i / w) as u8)
}

fn near_below(v: usize, d: usize) -> (r: usize)
    ensures
        r == less(v as int, d as int),
{
    v.saturating_sub(d)
}

fn near_above(v: usize, d: usize, n: usize) -> (r: usize)
    requires
        v < n,
    ensures
        r == imin(v + d, n - 1),
{
    if n - 1 - v < d {
        n - 1
    } else {
        v + d
    }
}

/// Separable 5×5 Gaussian blur with the binomial kernel. What the buffers hold behind the
/// raster is neither read nor changed.
pub fn gaussian_blur_5x5(input: &[u8], output: &mut Vec<u8>, w: usize, h: usize)
    requires
        input.len() >= w * h,
        old(output).len() >= w * h,
    ensures
        final(output)@ == blurred(input@.take(w * h), w as int, h as int) + old(output)@.skip(
            w * h,
        ),
{
    let total: usize = w * h;
    let input: &[u8] = slice_subrange(input, 0, total);
    let ghost start = output@;
    let mut temp: Vec<u8> = Vec::new();
    let mut i: usize = 0;
    while i < total
        invariant
            i <= total,
            total == w * h,
            input.len() == w * h,
            temp.len() == i,
            forall|j: int|
                0 <= j < i ==> #[trigger] temp@[j] == row_blur(
                    input@,
                    w as int,
                    j % (w as int),
                    j / (w as int),
                ),
        decreases total - i,
    {
        proof {
            lemma_cell_coords(w as int, h as int, i as int);
        }
        let x: usize = i % w;
        let y: usize = i / w;
        let a: i64 = px(input, w, h, near_below(x, 2), y);
        let b: i64 = px(input, w, h, near_below(x, 1), y);
        let c: i64 = px(input, w, h, x, y);
        let d: i64 = px(input, w, h, near_above(x, 1, w), y);
        let e: i64 = px(input, w, h, near_above(x, 2, w), y);
        temp.push(((a + 4 * b + 6 * c + 4 * d + e) / 16) as u8);
        i += 1;
    }
    let mut k: usize = 0;
    while k < total
        invariant
            k <= total,
            total == w * h,
            temp.len() == w * h,
            output.len() == start.len(),
            start.len() >= w * h,
            forall|j: int| w * h <= j < start.len() ==> #[trigger] output@[j] == start[j],
            forall|j: int|
                0 <= j < w * h ==> #[trigger] temp@[j] == row_blur(
                    input@,
                    w as int,
                    j % (w as int),
                    j / (w as int),
                ),
            forall|j: int|
                0 <= j < k ==> #[trigger] output@[j] == blur_at(
                    input@,
                    w as int,
                    h as int,
                    j % (w as int),
                    j / (w as int),
                ),
        decreases total - k,
    {
        proof {
            lemma_cell_coords(w as int, h as int, k as int);
        }
        let x: usize = k % w;
        let y: usize = k / w;
        let a: i64 = row_value(&temp, w, h, x, near_below(y, 2));
        let b: i64 = row_value(&temp, w, h, x, near_below(y, 1));
        let c: i64 = row_value(&temp, w, h, x, y);
        let d: i64 = row_value(&temp, w, h, x, near_above(y, 1, h));
        let e: i64 = row_value(&temp, w, h, x, near_above(y, 2, h));
        output.set(k, ((a + 4 * b + 6 * c + 4 * d + e) / 16) as u8);
        k += 1;
    }
    proof {
        assert(output@ =~= blurred(input@, w as int, h as int) + start.skip(total as int));
    }
}

proof fn lemma_mix(a: (int, int, int, int, int), b: (int, int, int, int, int), lo: int, hi: int)
    requires
        lo <= a.0 <= b.0 <= hi,
        lo <= a.1 <= b.1 <= hi,
        lo <= a.2 <= b.2 <= hi,
        lo <= a.3 <= b.3 <= hi,
        lo <= a.4 <= b.4 <= hi,
    ensures
        lo <= (a.0 + 4 * a.1 + 6 * a.2 + 4 * a.3 + a.4) / 16,
        (a.0 + 4 * a.1 + 6 * a.2 + 4 * a.3 + a.4) / 16 <= (b.0 + 4 * b.1 + 6 * b.2 + 4 * b.3 + b.4)
            / 16,
        (b.0 + 4 * b.1 + 6 * b.2 + 4 * b.3 + b.4) / 16 <= hi,
{
}

proof fn lemma_row_blur(a: Seq<u8>, b: Seq<u8>, w: int, h: int, x: int, y: int, lo: int, hi: int)
    requires
        a.len() == w * h,
        b.len() == w * h,
        0 <= x < w,
        0 <= y < h,
        forall|j: int| 0 <= j < a.len() ==> #[trigger] a[j] <= b[j],
        forall|j: int| 0 <= j < a.len() ==> lo <= #[trigger] a[j],
        forall|j: int| 0 <= j < a.len() ==> #[trigger] b[j] <= hi,
    ensures
        lo <= row_blur(a, w, x, y) <= row_blur(b, w, x, y) <= hi,
{
    lemma_cell(w, h, clamped(x - 2, 0, w - 1), y);
    lemma_cell(w, h, clamped(x - 1, 0, w - 1), y);
    lemma_cell(w, h, x, y);
    lemma_cell(w, h, clamped(x + 1, 0, w - 1), y);
    lemma_cell(w, h, clamped(x + 2, 0, w - 1), y);
    assert(a[y * w + clamped(x - 2, 0, w - 1)] <= b[y * w + clamped(x - 2, 0, w - 1)]);
    assert(a[y * w + clamped(x - 1, 0, w - 1)] <= b[y * w + clamped(x - 1, 0, w - 1)]);
    assert(a[y * w + x] <= b[y * w + x]);
    assert(a[y * w + clamped(x + 1, 0, w - 1)] <= b[y * w + clamped(x + 1, 0, w - 1)]);
    assert(a[y * w + clamped(x + 2, 0, w - 1)] <= b[y * w + clamped(x + 2, 0, w - 1)]);
}

proof fn lemma_blur_at(
    a: Seq<u8>,
    b: Seq<u8>,
    w: int,
    h: int,
    x: int,
    y: int,
    lo: int,
    hi: int,
)
    requires
        a.len() == w * h,
        b.len() == w * h,
        0 <= x < w,
        0 <= y < h,
        forall|j: int| 0 <= j < a.len() ==> #[trigger] a[j] <= b[j],
        forall|j: int| 0 <= j < a.len() ==> lo <= #[trigger] a[j],
        forall|j: int| 0 <= j < a.len() ==> #[trigger] b[j] <= hi,
    ensures
        lo <= blur_at(a, w, h, x, y) <= blur_at(b, w, h, x, y) <= hi,
{
    let (y0, y1) = (clamped(y - 2, 0, h - 1), clamped(y - 1, 0, h - 1));
    let (y3, y4) = (clamped(y + 1, 0, h - 1), clamped(y + 2, 0, h - 1));
    lemma_row_blur(a, b, w, h, x, y0, lo, hi);
    lemma_row_blur(a, b, w, h, x, y1, lo, hi);
    lemma_row_blur(a, b, w, h, x, y, lo, hi);
    lemma_row_blur(a, b, w, h, x, y3, lo, hi);
    lemma_row_blur(a, b, w, h, x, y4, lo, hi);
    let rows = |g: Seq<u8>|
        (
            row_blur(g, w, x, y0),
            row_blur(g, w, x, y1),
            row_blur(g, w, x, y),
            row_blur(g, w, x, y3),
            row_blur(g, w, x, y4),
        );
    lemma_mix(rows(a), rows(b), lo, hi);
}

proof fn lemma_blur(a: Seq<u8>, b: Seq<u8>, w: int, h: int, i: int, lo: int, hi: int)
    requires
        a.len() == w * h,
        b.len() == w * h,
        0 <= i < w * h,
        w >= 0,
        h >= 0,
        0 <= lo,
        hi <= 255,
        forall|j: int| 0 <= j < a.len() ==> #[trigger] a[j] <= b[j],
        forall|j: int| 0 <= j < a.len() ==> lo <= #[trigger] a[j],
        forall|j: int| 0 <= j < a.len() ==> #[trigger] b[j] <= hi,
    ensures
        lo <= blurred(a, w, h)[i] <= blurred(b, w, h)[i] <= hi,
{
    lemma_cell_coords(w, h, i);
    lemma_blur_at(a, b, w, h, i % w, i / w, lo, hi);
}

/// The blur is monotonic: of rasters that are nowhere darker it makes one that is nowhere
/// darker.
pub proof fn law_blur_monotonic(a: Seq<u8>, b: Seq<u8>, w: nat, h: nat, i: int)
    requires
        a.len() == w * h,
        b.len() == w * h,
        0 <= i < w * h,
        forall|j: int| 0 <= j < a.len() ==> #[trigger] a[j] <= b[j],
    ensures
        blurred(a, w as int, h as int)[i] <= blurred(b, w as int, h as int)[i],
{
    lemma_blur(a, b, w as int, h as int, i, 0, 255);
}

/// The blur stays between the least and the greatest sample, so that a raster of one value
/// is left as it is.
pub proof fn law_blur_bounded(g: Seq<u8>, w: nat, h: nat, lo: u8, hi: u8, i: int)
    requires
        g.len() == w * h,
        0 <= i < w * h,
        forall|j: int| 0 <= j < g.len() ==> lo <= #[trigger] g[j] <= hi,
    ensures
        lo <= blurred(g, w as int, h as int)[i] <= hi,
{
    lemma_blur(g, g, w as int, h as int, i, lo as int, hi as int);
}

fn row_value(v: &Vec<u8>, w: usize, h: usize, x: usize, y: usize) -> (r: i64)
    requires
        v.len() == w * h,
        x < w,
        y < h,
    ensures
        r == v@[y * w + x],
        (y * w + x) % (w as int) == x,
        (y * w + x) / (w as int) == y,
        0 <= y * w + x < w * h,
        0 <= r <= 255,
{
    let i: usize = cell(w, h, x, y);
    v[i] as i64
}

/// The sum of the first `n` samples of row `y`.
pub open spec fn row_sum(g: Seq<u8>, w: int, y: int, n: nat) -> int
    decreases n,
{
    if n == 0 {
        0
    } else {
        row_sum(g, w, y, (n - 1) as nat) + pixel(g, w, n - 1, y)
    }
}

/// The sum of the samples in the first `x` columns of the first `y` rows.
pub open spec fn corner_sum(g: Seq<u8>, w: int, x: nat, y: nat) -> int
    decreases y,
{
    if y == 0 {
        0
    } else {
        corner_sum(g, w, x, (y - 1) as nat) + row_sum(g, w, y - 1, x)
    }
}

/// The sum of the samples in columns `x0..x1` of rows `y0..y1`.
pub open spec fn box_sum(g: Seq<u8>, w: int, x0: int, y0: int, x1: int, y1: int) -> int {
    corner_sum(g, w, x1 as nat, y1 as nat) - corner_sum(g, w, x1 as nat, y0 as nat) - corner_sum(
        g,
        w,
        x0 as nat,
        y1 as nat,
    ) + corner_sum(g, w, x0 as nat, y0 as nat)
}

proof fn lemma_row_sum(g: Seq<u8>, w: int, y: int, n: nat)
    ensures
        0 <= row_sum(g, w, y, n) <= 255 * n,
    decreases n,
{
    if n > 0 {
        lemma_row_sum(g, w, y, (n - 1) as nat);
    }
}

proof fn lemma_row_step(g: Seq<u8>, w: int, y: int, a: nat, b: nat)
    requires
        a <= b,
    ensures
        0 <= row_sum(g, w, y, b) - row_sum(g, w, y, a) <= 255 * (b - a),
    decreases b - a,
{
    if a < b {
        lemma_row_step(g, w, y, a, (b - 1) as nat);
    }
}

proof fn lemma_corner_sum(g: Seq<u8>, w: int, x: nat, y: nat)
    ensures
        0 <= corner_sum(g, w, x, y) <= 255 * (x * y),
    decreases y,
{
    if y > 0 {
        lemma_corner_sum(g, w, x, (y - 1) as nat);
        lemma_row_sum(g, w, y - 1, x);
        assert(x * y == x * (y - 1) + x) by (nonlinear_arith);
    } else {
        assert(x * 0 == 0) by (nonlinear_arith);
    }
}

/// The table of the sums over all corners of a raster.
pub struct Sums {
    pub w: usize,
    pub h: usize,
    pub table: Vec<u64>,
}

impl Sums {
    /// The table belongs to a raster.
    pub open spec fn of(&self, g: Seq<u8>) -> bool {
        &&& self.table.len() == (self.w + 1) * (self.h + 1)
        &&& forall|x: int, y: int|
            0 <= x <= self.w && 0 <= y <= self.h ==> #[trigger] self.table@[y * (self.w + 1) + x]
                == corner_sum(g, self.w as int, x as nat, y as nat)
    }
}

fn sum_at(s: &Sums, x: usize, y: usize, Ghost(g): Ghost<Seq<u8>>) -> (r: u64)
    requires
        s.of(g),
        x <= s.w,
        y <= s.h,
        s.w < usize::MAX,
        s.h < usize::MAX,
    ensures
        r == corner_sum(g, s.w as int, x as nat, y as nat),
{
    let i: usize = cell(s.w + 1, s.h + 1, x, y);
    s.table[i]
}

/// Adds up the corners of a raster.
pub fn integral(g: &[u8], w: usize, h: usize) -> (r: Sums)
    requires
        g.len() == w * h,
        (w + 1) * (h + 1) <= usize::MAX,
        255 * (w * h) <= u64::MAX,
        w < usize::MAX,
        h < usize::MAX,
    ensures
        r.of(g@),
        r.w == w,
        r.h == h,
{
    let iw: usize = w + 1;
    let ih: usize = h + 1;
    let total: usize = iw * ih;
    let mut table: Vec<u64> = Vec::new();
    let mut i: usize = 0;
    let mut row: u64 = 0;
    while i < total
        invariant
            i <= total,
            g.len() == w * h,
            iw == w + 1,
            ih == h + 1,
            total == iw * ih,
            total <= usize::MAX,
            255 * (w * h) <= u64::MAX,
            table.len() == i,
            forall|j: int|
                0 <= j < i ==> #[trigger] table@[j] == corner_sum(
                    g@,
                    w as int,
                    (j % (iw as int)) as nat,
                    (j / (iw as int)) as nat,
                ),
            i % iw != 0 && i / iw > 0 ==> row == row_sum(
                g@,
                w as int,
                i / iw - 1,
                (i % iw - 1) as nat,
            ),
            iw > 0,
        decreases total - i,
    {
        proof {
            lemma_cell_coords(iw as int, ih as int, i as int);
        }
        let x: usize = i % iw;
        let y: usize = i / iw;
        if y == 0 {
            table.push(0);
        } else {
            if x == 0 {
                row = 0;
            } else {
                let v: i64 = px(g, w, h, x - 1, y - 1);
                proof {
                    lemma_row_sum(g@, w as int, y - 1, (x - 1) as nat);
                    assert(255 * w <= 255 * (w * h)) by (nonlinear_arith)
                        requires
                            h >= 1,
                            w >= 0,
                    ;
                }
                row = row + v as u64;
            }
            proof {
                assert(i - iw == (y - 1) * iw + x) by (nonlinear_arith)
                    requires
                        i == y * iw + x,
                ;
                lemma_cell(iw as int, ih as int, x as int, y - 1);
                lemma_corner_sum(g@, w as int, x as nat, y as nat);
                assert(x * y <= w * h) by (nonlinear_arith)
                    requires
                        0 <= x <= w,
                        0 <= y <= h,
                ;
                assert(row == row_sum(g@, w as int, y - 1, x as nat));
            }
            let above: u64 = table[i - iw];
            table.push(above + row);
        }
        proof {
            if i + 1 < total {
                lemma_cell_coords(iw as int, ih as int, i + 1);
                if x + 1 < iw {
                    lemma_cell(iw as int, ih as int, x + 1, y as int);
                } else {
                    assert(i + 1 == (y + 1) * iw) by (nonlinear_arith)
                        requires
                            i == y * iw + x,
                            x + 1 == iw,
                    ;
                    lemma_cell(iw as int, ih as int + 1, 0, y + 1);
                }
            } else {
                assert((i + 1) % (iw as int) == 0) by (nonlinear_arith)
                    requires
                        i + 1 == iw * ih,
                        iw > 0,
                ;
            }
        }
        i += 1;
    }
    let r = Sums { w, h, table };
    proof {
        assert forall|x: int, y: int| 0 <= x <= w && 0 <= y <= h implies #[trigger] r.table@[y * (w
            + 1) + x] == corner_sum(g@, w as int, x as nat, y as nat) by {
            lemma_cell(iw as int, ih as int, x, y);
        }
    }
    r
}

/// The sum of the samples in columns `x0..x1` of row `y`.
pub open spec fn row_part(g: Seq<u8>, w: int, y: int, x0: int, x1: int) -> int
    decreases x1 - x0,
{
    if x1 <= x0 {
        0
    } else {
        row_part(g, w, y, x0, x1 - 1) + pixel(g, w, x1 - 1, y)
    }
}

/// The sum of the samples in columns `x0..x1` of rows `y0..y1`.
pub open spec fn area_total(g: Seq<u8>, w: int, x0: int, y0: int, x1: int, y1: int) -> int
    decreases y1 - y0,
{
    if y1 <= y0 {
        0
    } else {
        area_total(g, w, x0, y0, x1, y1 - 1) + row_part(g, w, y1 - 1, x0, x1)
    }
}

proof fn lemma_row_part(g: Seq<u8>, w: int, y: int, x0: int, x1: int)
    requires
        0 <= x0 <= x1,
    ensures
        row_part(g, w, y, x0, x1) == row_sum(g, w, y, x1 as nat) - row_sum(g, w, y, x0 as nat),
        0 <= row_part(g, w, y, x0, x1) <= 255 * (x1 - x0),
    decreases x1 - x0,
{
    if x0 < x1 {
        lemma_row_part(g, w, y, x0, x1 - 1);
    }
}

/// The sum over a box can be read off the sums over four corners.
pub proof fn law_box_from_corners(g: Seq<u8>, w: int, x0: int, y0: int, x1: int, y1: int)
    requires
        0 <= x0 <= x1,
        0 <= y0 <= y1,
    ensures
        area_total(g, w, x0, y0, x1, y1) == box_sum(g, w, x0, y0, x1, y1),
        0 <= area_total(g, w, x0, y0, x1, y1) <= 255 * ((x1 - x0) * (y1 - y0)),
    decreases y1 - y0,
{
    if y0 < y1 {
        law_box_from_corners(g, w, x0, y0, x1, y1 - 1);
        lemma_row_part(g, w, y1 - 1, x0, x1);
        assert((x1 - x0) * (y1 - y0) == (x1 - x0) * (y1 - 1 - y0) + (x1 - x0)) by (nonlinear_arith);
    } else {
        assert((x1 - x0) * (y1 - y0) == 0) by (nonlinear_arith)
            requires
                y1 == y0,
        ;
    }
}

fn box_total(
    s: &Sums,
    Ghost(g): Ghost<Seq<u8>>,
    x0: usize,
    y0: usize,
    x1: usize,
    y1: usize,
) -> (r: u64)
    requires
        s.of(g),
        x0 <= x1 <= s.w,
        y0 <= y1 <= s.h,
        s.w < usize::MAX,
        s.h < usize::MAX,
        255 * (s.w * s.h) <= i64::MAX,
    ensures
        r == area_total(g, s.w as int, x0 as int, y0 as int, x1 as int, y1 as int),
{
    let a: u64 = sum_at(s, x1, y1, Ghost(g));
    let b: u64 = sum_at(s, x1, y0, Ghost(g));
    let c: u64 = sum_at(s, x0, y1, Ghost(g));
    let d: u64 = sum_at(s, x0, y0, Ghost(g));
    proof {
        law_box_from_corners(g, s.w as int, x0 as int, y0 as int, x1 as int, y1 as int);
        lemma_corner_sum(g, s.w as int, x1 as nat, y1 as nat);
        lemma_corner_sum(g, s.w as int, x1 as nat, y0 as nat);
        lemma_corner_sum(g, s.w as int, x0 as nat, y1 as nat);
        lemma_corner_sum(g, s.w as int, x0 as nat, y0 as nat);
        let w = s.w as int;
        let h = s.h as int;
        assert(x1 * y1 <= w * h && x1 * y0 <= w * h && x0 * y1 <= w * h && x0 * y0 <= w * h)
            by (nonlinear_arith)
            requires
                0 <= x0 <= x1 <= w,
                0 <= y0 <= y1 <= h,
        ;
    }
    (a as i128 - b as i128 - c as i128 + d as i128) as u64
}

/// The window of a pixel: `before` columns and rows ahead of it, `after` behind it, cut
/// off at the border.
pub open spec fn window_total(g: Seq<u8>, w: int, h: int, x: int, y: int, before: int, after: int) -> int {
    area_total(
        g,
        w,
        less(x, before),
        less(y, before),
        imin(x + after + 1, w),
        imin(y + after + 1, h),
    )
}

/// The number of pixels in that window.
pub open spec fn window_area(w: int, h: int, x: int, y: int, before: int, after: int) -> int {
    (imin(x + after + 1, w) - less(x, before)) * (imin(y + after + 1, h) - less(y, before))
}

/// The window sum and the window size of a pixel.
#[derive(Debug, Clone, Copy, PartialEq, Eq, Structural)]
pub struct WindowSum {
    pub sum: u64,
    pub area: u64,
}

fn cut(v: usize, d: usize, n: usize) -> (r: usize)
    requires
        v < n,
    ensures
        r == imin(v + d + 1, n as int),
{
    if n - v > d {
        if d == n - v - 1 {
            n
        } else {
            v + d + 1
        }
    } else {
        n
    }
}

fn window_sum(s: &Sums, Ghost(g): Ghost<Seq<u8>>, x: usize, y: usize, radius: usize) -> (r: WindowSum)
    requires
        s.of(g),
        x < s.w,
        y < s.h,
        s.w < usize::MAX,
        s.h < usize::MAX,
        255 * (s.w * s.h) <= i64::MAX,
    ensures
        r.sum == window_total(
            g,
            s.w as int,
            s.h as int,
            x as int,
            y as int,
            radius as int,
            radius as int,
        ),
        r.area == window_area(
            s.w as int,
            s.h as int,
            x as int,
            y as int,
            radius as int,
            radius as int,
        ),
        r.sum <= 255 * r.area,
        1 <= r.area <= s.w * s.h,
{
    let x0: usize = x.saturating_sub(radius);
    let y0: usize = y.saturating_sub(radius);
    let x1: usize = cut(x, radius, s.w);
    let y1: usize = cut(y, radius, s.h);
    proof {
        assert(1 <= (x1 - x0) * (y1 - y0) <= s.w * s.h) by (nonlinear_arith)
            requires
                0 <= x0 < x1 <= s.w,
                0 <= y0 < y1 <= s.h,
        ;
        law_box_from_corners(g, s.w as int, x0 as int, y0 as int, x1 as int, y1 as int);
    }
    let sum: u64 = box_total(s, Ghost(g), x0, y0, x1, y1);
    let area: u64 = (x1 - x0) as u64 * (y1 - y0) as u64;
    WindowSum { sum, area }
}

/// The window sums of every pixel.
pub open spec fn window_sums(g: Seq<u8>, w: int, h: int, radius: int) -> Seq<WindowSum> {
    Seq::new(
        (w * h) as nat,
        |i: int|
            WindowSum {
                sum: window_total(g, w, h, i % w, i / w, radius, radius) as u64,
                area: window_area(w, h, i % w, i / w, radius, radius) as u64,
            },
    )
}

/// The parts of the noise residual: a pixel's residual is its sample minus the window sum
/// over the window size.
pub fn fast_noise_residual(gray: &[u8], w: usize, h: usize, radius: usize) -> (r: Vec<WindowSum>)
    requires
        gray.len() == w * h,
        (w + 1) * (h + 1) <= usize::MAX,
        255 * (w * h) <= i64::MAX,
        w < usize::MAX,
        h < usize::MAX,
    ensures
        r@ == window_sums(gray@, w as int, h as int, radius as int),
        forall|i: int| 0 <= i < r.len() ==> (#[trigger] r@[i]).area >= 1,
{
    let s = integral(gray, w, h);
    let mut r: Vec<WindowSum> = Vec::new();
    let mut i: usize = 0;
    while i < gray.len()
        invariant
            i <= gray.len(),
            gray.len() == w * h,
            s.of(gray@),
            s.w == w,
            s.h == h,
            255 * (w * h) <= i64::MAX,
            w < usize::MAX,
            h < usize::MAX,
            r@ =~= window_sums(gray@, w as int, h as int, radius as int).take(i as int),
            forall|i: int| 0 <= i < r.len() ==> (#[trigger] r@[i]).area >= 1,
        decreases gray.len() - i,
    {
        proof {
            lemma_cell_coords(w as int, h as int, i as int);
        }
        let v = window_sum(&s, Ghost(gray@), i % w, i / w, radius);
        r.push(v);
        i += 1;
    }
    proof {
        assert(r@ =~= window_sums(gray@, w as int, h as int, radius as int));
    }
    r
}

/// A pixel is dark: it lies at least `c` below the mean of its window.
pub open spec fn is_dark(g: Seq<u8>, w: int, h: int, x: int, y: int, half: int, c: int) -> bool {
    (pixel(g, w, x, y) + c) * window_area(w, h, x, y, half, half) <= window_total(
        g,
        w,
        h,
        x,
        y,
        half,
        half,
    )
}

/// The mask of the dark pixels.
pub open spec fn dark_mask(g: Seq<u8>, w: int, h: int, half: int, c: int) -> Seq<bool> {
    Seq::new((w * h) as nat, |i: int| is_dark(g, w, h, i % w, i / w, half, c))
}

/// Adaptive mean thresholding via integral images. `true` = dark text pixel.
pub fn adaptive_threshold_mean(gray: &[u8], w: usize, h: usize, block_size: usize, c: u8) -> (r: Vec<
    bool,
>)
    requires
        gray.len() == w * h,
        (w + 1) * (h + 1) <= usize::MAX,
        1024 * (w * h) <= i64::MAX,
        w < usize::MAX,
        h < usize::MAX,
    ensures
        r@ == dark_mask(gray@, w as int, h as int, block_size as int / 2, c as int),
{
    let s = integral(gray, w, h);
    let half: usize = block_size / 2;
    let mut r: Vec<bool> = Vec::new();
    let mut i: usize = 0;
    while i < gray.len()
        invariant
            i <= gray.len(),
            gray.len() == w * h,
            s.of(gray@),
            s.w == w,
            s.h == h,
            half == block_size as int / 2,
            1024 * (w * h) <= i64::MAX,
            w < usize::MAX,
            h < usize::MAX,
            r@ =~= dark_mask(gray@, w as int, h as int, half as int, c as int).take(i as int),
        decreases gray.len() - i,
    {
        proof {
            lemma_cell_coords(w as int, h as int, i as int);
        }
        let x: usize = i % w;
        let y: usize = i / w;
        let v = window_sum(&s, Ghost(gray@), x, y, half);
        let g: u64 = px(gray, w, h, x, y) as u64;
        proof {
            let a = v.area as int;
            assert(0 <= (g + c) * a <= 1024 * (w * h)) by (nonlinear_arith)
                requires
                    0 <= g <= 255,
                    0 <= c <= 255,
                    0 <= a <= w * h,
            ;
        }
        r.push((g + c as u64) * v.area <= v.sum);
        i += 1;
    }
    proof {
        assert(r@ =~= dark_mask(gray@, w as int, h as int, half as int, c as int));
    }
    r
}

/// A marked pixel spreads to pixel `i`: it is at most `half` behind it, and less than
/// `kernel - half` ahead of it, in either direction.
pub open spec fn spreads(mask: Seq<bool>, w: int, kernel: int, i: int, j: int) -> bool {
    let half = kernel / 2;
    &&& mask[j]
    &&& -half <= i % w - j % w <= kernel - 1 - half
    &&& -half <= i / w - j / w <= kernel - 1 - half
}

/// Pixel `i` of a dilated mask.
pub open spec fn dilated_at(mask: Seq<bool>, w: int, kernel: int, i: int) -> bool {
    exists|j: int| 0 <= j < mask.len() && #[trigger] spreads(mask, w, kernel, i, j)
}

/// A mask dilated with a square kernel.
pub open spec fn dilated(mask: Seq<bool>, w: int, kernel: int) -> Seq<bool> {
    Seq::new(mask.len(), |i: int| dilated_at(mask, w, kernel, i))
}

fn any_marked(mask: &[bool], w: usize, h: usize, kernel: usize, x: usize, y: usize) -> (r: bool)
    requires
        mask.len() == w * h,
        x < w,
        y < h,
        0 < kernel,
    ensures
        r == dilated_at(mask@, w as int, kernel as int, y * w + x),
{
    let half: usize = kernel / 2;
    let ahead: usize = kernel - 1 - half;
    let x0: usize = x.saturating_sub(ahead);
    let y0: usize = y.saturating_sub(ahead);
    let x1: usize = cut(x, half, w);
    let y1: usize = cut(y, half, h);
    let ghost i = y * w + x;
    proof {
        lemma_cell(w as int, h as int, x as int, y as int);
    }
    let mut cy: usize = y0;
    while cy < y1
        invariant
            mask.len() == w * h,
            x < w,
            y < h,
            half == kernel / 2,
            ahead == kernel - 1 - half,
            i == y * w + x,
            i % (w as int) == x,
            i / (w as int) == y,
            x0 == less(x as int, ahead as int),
            y0 == less(y as int, ahead as int),
            x1 == imin(x + half + 1, w as int),
            y1 == imin(y + half + 1, h as int),
            y0 <= cy <= y1,
            forall|j: int|
                0 <= j < mask.len() && j / (w as int) < cy ==> !#[trigger] spreads(
                    mask@,
                    w as int,
                    kernel as int,
                    i,
                    j,
                ),
        decreases y1 - cy,
    {
        let mut cx: usize = x0;
        while cx < x1
            invariant
                mask.len() == w * h,
                x < w,
                y < h,
                half == kernel / 2,
                ahead == kernel - 1 - half,
                i == y * w + x,
                i % (w as int) == x,
                i / (w as int) == y,
                x0 == less(x as int, ahead as int),
                y0 == less(y as int, ahead as int),
                x1 == imin(x + half + 1, w as int),
                y1 == imin(y + half + 1, h as int),
                y0 <= cy < y1,
                x0 <= cx <= x1,
                forall|j: int|
                    0 <= j < mask.len() && (j / (w as int) < cy || (j / (w as int) == cy && j % (
                    w as int) < cx)) ==> !#[trigger] spreads(
                        mask@,
                        w as int,
                        kernel as int,
                        i,
                        j,
                    ),
            decreases x1 - cx,
        {
            let c: usize = cell(w, h, cx, cy);
            if mask[c] {
                proof {
                    assert(spreads(mask@, w as int, kernel as int, i, c as int));
                }
                return true;
            }
            proof {
                assert forall|j: int|
                    0 <= j < mask.len() && (j / (w as int) < cy || (j / (w as int) == cy && j % (
                    w as int) < cx + 1)) implies !#[trigger] spreads(
                    mask@,
                    w as int,
                    kernel as int,
                    i,
                    j,
                ) by {
                    lemma_cell_coords(w as int, h as int, j);
                    if j / (w as int) == cy && j % (w as int) == cx {
                        assert(j == c);
                    }
                }
            }
            cx += 1;
        }
        proof {
            assert forall|j: int| 0 <= j < mask.len() && j / (w as int) < cy + 1 implies !#[trigger] spreads(
                mask@,
                w as int,
                kernel as int,
                i,
                j,
            ) by {
                lemma_cell_coords(w as int, h as int, j);
            }
        }
        cy += 1;
    }
    proof {
        assert forall|j: int| 0 <= j < mask.len() implies !#[trigger] spreads(
            mask@,
            w as int,
            kernel as int,
            i,
            j,
        ) by {
            lemma_cell_coords(w as int, h as int, j);
        }
    }
    false
}

/// Box dilation of a boolean mask with a square kernel. What the mask holds behind the
/// raster is not read.
pub fn dilate_binary(mask: &[bool], w: usize, h: usize, kernel: usize) -> (r: Vec<bool>)
    requires
        mask.len() >= w * h,
    ensures
        r.len() == w * h,
        r@ == dilated(mask@.take(w * h), w as int, kernel as int),
{
    let mask: &[bool] = slice_subrange(mask, 0, w * h);
    let mut r: Vec<bool> = Vec::new();
    let mut i: usize = 0;
    while i < mask.len()
        invariant
            i <= mask.len(),
            mask.len() == w * h,
            r@ =~= dilated(mask@, w as int, kernel as int).take(i as int),
        decreases mask.len() - i,
    {
        proof {
            lemma_cell_coords(w as int, h as int, i as int);
        }
        let hit: bool = kernel > 0 && any_marked(mask, w, h, kernel, i % w, i / w);
        r.push(hit);
        i += 1;
    }
    proof {
        assert(r@ =~= dilated(mask@, w as int, kernel as int));
    }
    r
}

/// With a kernel of `2 * r + 1` a pixel is marked just where one of the mask is marked at
/// most `r` columns and `r` rows away.
pub proof fn law_dilation_neighbourhood(mask: Seq<bool>, w: int, r: int, i: int)
    requires
        r >= 0,
        0 <= i < mask.len(),
    ensures
        dilated(mask, w, 2 * r + 1)[i] <==> exists|j: int|
            0 <= j < mask.len() && #[trigger] mask[j] && -r <= i % w - j % w <= r && -r <= i / w - j
                / w <= r,
{
    if dilated(mask, w, 2 * r + 1)[i] {
        let j = choose|j: int| 0 <= j < mask.len() && #[trigger] spreads(mask, w, 2 * r + 1, i, j);
        assert(mask[j]);
    }
    if exists|j: int|
        0 <= j < mask.len() && #[trigger] mask[j] && -r <= i % w - j % w <= r && -r <= i / w - j / w
            <= r {
        let j = choose|j: int|
            0 <= j < mask.len() && #[trigger] mask[j] && -r <= i % w - j % w <= r && -r <= i / w - j
                / w <= r;
        assert(spreads(mask, w, 2 * r + 1, i, j));
    }
}

/// Dilation with a kernel of odd size keeps every marked pixel.
pub proof fn law_dilation_extensive(mask: Seq<bool>, w: int, kernel: int, i: int)
    requires
        kernel >= 1,
        kernel % 2 == 1,
        0 <= i < mask.len(),
        mask[i],
    ensures
        dilated(mask, w, kernel)[i],
{
    assert(spreads(mask, w, kernel, i, i));
}

/// Dilation is monotonic: more marks spread to more pixels.
pub proof fn law_dilation_monotonic(a: Seq<bool>, b: Seq<bool>, w: int, kernel: int, i: int)
    requires
        a.len() == b.len(),
        forall|j: int| 0 <= j < a.len() && #[trigger] a[j] ==> b[j],
        0 <= i < a.len(),
        dilated(a, w, kernel)[i],
    ensures
        dilated(b, w, kernel)[i],
{
    let j = choose|j: int| 0 <= j < a.len() && #[trigger] spreads(a, w, kernel, i, j);
    assert(a[j]);
    assert(spreads(b, w, kernel, i, j));
}

/// A candidate for the edge of a pasted rectangle: a column or a row, and its strength.
#[derive(Debug, Clone, Copy, PartialEq, Eq, Structural)]
pub struct EdgeLine {
    pub at: usize,
    pub strength: i64,
}

/// Position `i` of a signal is a peak: it lies above a threshold and not below its
/// neighbours, at least two positions from either end.
pub open spec fn is_line(signal: Seq<i64>, threshold: i64, i: int) -> bool {
    2 <= i < signal.len() - 2 && signal[i] > threshold && signal[i] >= signal[i - 1] && signal[i]
        >= signal[i + 1]
}

/// The peaks before position `n`, none less than fifteen positions after another.
pub open spec fn line_list(signal: Seq<i64>, threshold: i64, n: nat) -> Seq<EdgeLine>
    decreases n,
{
    if n == 0 {
        Seq::empty()
    } else {
        let rest = line_list(signal, threshold, (n - 1) as nat);
        if is_line(signal, threshold, n - 1) && !(exists|k: int|
            0 <= k < rest.len() && n - 1 - (#[trigger] rest[k]).at < 15) {
            rest.push(EdgeLine { at: (n - 1) as usize, strength: signal[n - 1] })
        } else {
            rest
        }
    }
}

/// Ordering keys that put stronger lines first.
pub open spec fn line_keys(l: Seq<EdgeLine>) -> Seq<u128> {
    Seq::new(l.len(), |i: int| (i64::MAX - l[i].strength) as u128)
}

/// The lines of a signal: strongest first, at most thirty.
pub open spec fn lines_of(signal: Seq<i64>, threshold: i64) -> Seq<EdgeLine> {
    if signal.len() < 5 {
        Seq::empty()
    } else {
        let l = line_list(signal, threshold, signal.len());
        let sorted = Seq::new(l.len(), |i: int| l[order_of(line_keys(l))[i] as int]);
        sorted.take(imin(sorted.len() as int, 30))
    }
}

/// Two lines of a signal are at least fifteen positions apart.
pub proof fn law_lines_apart(signal: Seq<i64>, threshold: i64, n: nat, i: int, j: int)
    requires
        n <= signal.len(),
        signal.len() <= usize::MAX,
        0 <= i < j < line_list(signal, threshold, n).len(),
    ensures
        line_list(signal, threshold, n)[j].at - line_list(signal, threshold, n)[i].at >= 15,
    decreases n,
{
    let rest = line_list(signal, threshold, (n - 1) as nat);
    if j < rest.len() {
        law_lines_apart(signal, threshold, (n - 1) as nat, i, j);
    } else {
        assert(!(n - 1 - rest[i].at < 15));
    }
}

proof fn lemma_lines_before(signal: Seq<i64>, threshold: i64, n: nat)
    requires
        n <= signal.len(),
        signal.len() <= usize::MAX,
    ensures
        forall|k: int|
            0 <= k < line_list(signal, threshold, n).len() ==> (#[trigger] line_list(
                signal,
                threshold,
                n,
            )[k]).at < n,
    decreases n,
{
    if n > 0 {
        lemma_lines_before(signal, threshold, (n - 1) as nat);
        let rest = line_list(signal, threshold, (n - 1) as nat);
        let all = line_list(signal, threshold, n);
        assert forall|k: int| 0 <= k < all.len() implies (#[trigger] all[k]).at < n by {
            if k < rest.len() {
                assert(all[k] == rest[k]);
            }
        }
    }
}

/// Finds the lines of a signal, given as keys, that lie above a threshold.
pub fn find_anomaly_peaks(signal: &Vec<i64>, threshold: i64) -> (r: Vec<EdgeLine>)
    ensures
        r@ == lines_of(signal@, threshold),
        r.len() <= 30,
{
    let mut r: Vec<EdgeLine> = Vec::new();
    if signal.len() < 5 {
        return r;
    }
    let mut all: Vec<EdgeLine> = Vec::new();
    let mut keys: Vec<u128> = Vec::new();
    let mut i: usize = 0;
    while i < signal.len()
        invariant
            i <= signal.len(),
            signal.len() >= 5,
            all@ == line_list(signal@, threshold, i as nat),
            keys@ =~= line_keys(all@),
        decreases signal.len() - i,
    {
        proof {
            assert(signal@.len() == signal.len());
            lemma_lines_before(signal@, threshold, i as nat);
        }
        if i >= 2 && signal.len() - i > 2 && signal[i] > threshold && signal[i] >= signal[i - 1]
            && signal[i] >= signal[i + 1] {
            let mut close: bool = false;
            let mut k: usize = 0;
            while k < all.len()
                invariant
                    k <= all.len(),
                    forall|k: int| 0 <= k < all.len() ==> (#[trigger] all@[k]).at < i,
                    close == exists|j: int| 0 <= j < k && i - (#[trigger] all@[j]).at < 15,
                decreases all.len() - k,
            {
                proof {
                    assert(all@[k as int].at < i);
                }
                if i - all[k].at < 15 {
                    close = true;
                }
                k += 1;
            }
            if !close {
                keys.push((i64::MAX as i128 - signal[i] as i128) as u128);
                all.push(EdgeLine { at: i, strength: signal[i] });
            }
        }
        i += 1;
    }
    let order = stable_order(&keys);
    let ghost sorted = Seq::new(all@.len(), |i: int| all@[order_of(line_keys(all@))[i] as int]);
    let mut k: usize = 0;
    while k < order.len() && k < 30
        invariant
            k <= order.len(),
            k <= 30,
            order.len() == all.len(),
            order@ == order_of(line_keys(all@)),
            forall|j: int| 0 <= j < order.len() ==> #[trigger] order@[j] < all.len(),
            sorted == Seq::new(all@.len(), |i: int| all@[order_of(line_keys(all@))[i] as int]),
            r@ =~= sorted.take(k as int),
        decreases order.len() - k,
    {
        r.push(all[order[k]]);
        k += 1;
    }
    r
}

/// Two lines that can be opposite edges of a rectangle: where the rectangle begins, how
/// far it extends, and which lines they are.
#[derive(Debug, Clone, Copy, PartialEq, Eq, Structural)]
pub struct Span {
    pub at: usize,
    pub size: usize,
    pub first: usize,
    pub second: usize,
}

/// The span between two lines.
pub open spec fn span_of(e: Seq<EdgeLine>, i: int, j: int) -> Span {
    Span {
        at: imin(e[i].at as int, e[j].at as int) as usize,
        size: abs(e[i].at - e[j].at) as usize,
        first: i as usize,
        second: j as usize,
    }
}

/// The spans of acceptable size between line `i` and the lines from `i + 1` up to `j`.
pub open spec fn spans_from(e: Seq<EdgeLine>, lo: int, hi: int, i: int, j: nat) -> Seq<Span>
    decreases j,
{
    if j == 0 || j <= i + 1 {
        Seq::empty()
    } else {
        let rest = spans_from(e, lo, hi, i, (j - 1) as nat);
        if lo <= span_of(e, i, j - 1).size <= hi {
            rest.push(span_of(e, i, j - 1))
        } else {
            rest
        }
    }
}

/// The spans of acceptable size whose first line is among the first `i` of `n`.
pub open spec fn spans_of(e: Seq<EdgeLine>, lo: int, hi: int, n: nat, i: nat) -> Seq<Span>
    decreases i,
{
    if i == 0 {
        Seq::empty()
    } else {
        spans_of(e, lo, hi, n, (i - 1) as nat) + spans_from(e, lo, hi, i - 1, n)
    }
}

/// The spans of acceptable size between the first twenty lines.
pub open spec fn spans(e: Seq<EdgeLine>, lo: int, hi: int) -> Seq<Span> {
    let n = imin(e.len() as int, 20) as nat;
    spans_of(e, lo, hi, n, n)
}

fn collect_spans(e: &Vec<EdgeLine>, lo: usize, hi: usize) -> (r: Vec<Span>)
    ensures
        r@ == spans(e@, lo as int, hi as int),
        forall|k: int|
            0 <= k < r.len() ==> (#[trigger] r@[k]).first < e.len() && r@[k].second < e.len(),
{
    let n: usize = if e.len() < 20 {
        e.len()
    } else {
        20
    };
    let mut r: Vec<Span> = Vec::new();
    let mut i: usize = 0;
    while i < n
        invariant
            i <= n <= e.len(),
            r@ == spans_of(e@, lo as int, hi as int, n as nat, i as nat),
            forall|k: int|
                0 <= k < r.len() ==> (#[trigger] r@[k]).first < e.len() && r@[k].second < e.len(),
        decreases n - i,
    {
        let ghost before = r@;
        let mut j: usize = i + 1;
        proof {
            assert(before + spans_from(e@, lo as int, hi as int, i as int, (i + 1) as nat)
                =~= before);
        }
        while j < n
            invariant
                i < n <= e.len(),
                i + 1 <= j <= n,
                r@ == before + spans_from(e@, lo as int, hi as int, i as int, j as nat),
                forall|k: int|
                    0 <= k < r.len() ==> (#[trigger] r@[k]).first < e.len() && r@[k].second
                        < e.len(),
            decreases n - j,
        {
            let a: usize = e[i].at;
            let b: usize = e[j].at;
            let at: usize = if a < b {
                a
            } else {
                b
            };
            let size: usize = if a < b {
                b - a
            } else {
                a - b
            };
            let ghost prev = r@;
            if lo <= size && size <= hi {
                r.push(Span { at, size, first: i, second: j });
            }
            proof {
                assert(r@ =~= before + spans_from(
                    e@,
                    lo as int,
                    hi as int,
                    i as int,
                    (j + 1) as nat,
                ));
            }
            j += 1;
        }
        i += 1;
    }
    r
}

/// A candidate rectangle: the spans of its columns and of its rows.
#[derive(Debug, Clone, Copy, PartialEq, Eq, Structural)]
pub struct Rect {
    pub across: Span,
    pub down: Span,
}

/// One span across with each of the first `n` spans down.
pub open spec fn rects_with(a: Span, down: Seq<Span>, n: nat) -> Seq<Rect>
    decreases n,
{
    if n == 0 {
        Seq::empty()
    } else {
        rects_with(a, down, (n - 1) as nat).push(Rect { across: a, down: down[n - 1] })
    }
}

/// Each of the first `n` spans across with each span down.
pub open spec fn rects_of(across: Seq<Span>, down: Seq<Span>, n: nat) -> Seq<Rect>
    decreases n,
{
    if n == 0 {
        Seq::empty()
    } else {
        rects_of(across, down, (n - 1) as nat) + rects_with(across[n - 1], down, down.len())
    }
}

/// The candidate rectangles between columns and rows.
pub open spec fn rectangles(v: Seq<EdgeLine>, h: Seq<EdgeLine>, lo: int, hi: int) -> Seq<Rect> {
    rects_of(spans(v, lo, hi), spans(h, lo, hi), spans(v, lo, hi).len())
}

/// Pairs lines into rectangles whose sides are between `lo` and `hi` pixels long.
pub fn form_rectangles(v: &Vec<EdgeLine>, h: &Vec<EdgeLine>, lo: usize, hi: usize) -> (r: Vec<Rect>)
    ensures
        r@ == rectangles(v@, h@, lo as int, hi as int),
        forall|k: int|
            0 <= k < r.len() ==> (#[trigger] r@[k]).across.first < v.len() && r@[k].across.second
                < v.len() && r@[k].down.first < h.len() && r@[k].down.second < h.len(),
{
    let across = collect_spans(v, lo, hi);
    let down = collect_spans(h, lo, hi);
    let mut r: Vec<Rect> = Vec::new();
    let mut i: usize = 0;
    while i < across.len()
        invariant
            i <= across.len(),
            forall|k: int|
                0 <= k < across.len() ==> (#[trigger] across@[k]).first < v.len()
                    && across@[k].second < v.len(),
            forall|k: int|
                0 <= k < down.len() ==> (#[trigger] down@[k]).first < h.len() && down@[k].second
                    < h.len(),
            r@ == rects_of(across@, down@, i as nat),
            forall|k: int|
                0 <= k < r.len() ==> (#[trigger] r@[k]).across.first < v.len()
                    && r@[k].across.second < v.len() && r@[k].down.first < h.len()
                    && r@[k].down.second < h.len(),
        decreases across.len() - i,
    {
        let ghost before = r@;
        let mut j: usize = 0;
        proof {
            assert(before + rects_with(across@[i as int], down@, 0) =~= before);
        }
        while j < down.len()
            invariant
                i < across.len(),
                j <= down.len(),
                forall|k: int|
                    0 <= k < across.len() ==> (#[trigger] across@[k]).first < v.len()
                        && across@[k].second < v.len(),
                forall|k: int|
                    0 <= k < down.len() ==> (#[trigger] down@[k]).first < h.len()
                        && down@[k].second < h.len(),
                r@ == before + rects_with(across@[i as int], down@, j as nat),
                forall|k: int|
                    0 <= k < r.len() ==> (#[trigger] r@[k]).across.first < v.len()
                        && r@[k].across.second < v.len() && r@[k].down.first < h.len()
                        && r@[k].down.second < h.len(),
            decreases down.len() - j,
        {
            r.push(Rect { across: across[i], down: down[j] });
            proof {
                assert(r@ =~= before + rects_with(across@[i as int], down@, (j + 1) as nat));
            }
            j += 1;
        }
        i += 1;
    }
    r
}

/// A scored rectangle.
#[derive(Debug, Clone, Copy, PartialEq, Eq, Structural)]
pub struct Candidate {
    pub x: usize,
    pub y: usize,
    pub width: usize,
    pub height: usize,
    pub score: i64,
}

/// The score below which a rectangle is dropped, as a key: 0.4.
pub const LEAST_SCORE: i64 = 0x3FD9_9999_9999_999A;

/// Above this score a rectangle is critical, as a key: 2.0.
pub const CRITICAL_SCORE: i64 = 0x4000_0000_0000_0000;

/// Above this score a rectangle is grave, as a key: 1.0.
pub const HIGH_SCORE: i64 = 0x3FF0_0000_0000_0000;

/// A rectangle of an image that pixel arithmetic can handle.
pub open spec fn is_small(c: Candidate) -> bool {
    c.x <= u32::MAX && c.y <= u32::MAX && c.width <= u32::MAX && c.height <= u32::MAX
}

/// The extent that two intervals share.
pub open spec fn shared(a: int, n: int, b: int, m: int) -> int {
    imin(a + n, b + m) - imax(a, b)
}

/// A rectangle is covered by a better one: they share more than three tenths of it.
pub open spec fn is_covered(c: Candidate, k: Candidate) -> bool {
    let u = shared(c.x as int, c.width as int, k.x as int, k.width as int);
    let v = shared(c.y as int, c.height as int, k.y as int, k.height as int);
    u > 0 && v > 0 && 10 * (u * v) > 3 * (c.width * c.height)
}

/// The candidates among the first `n` that score enough.
pub open spec fn strong(c: Seq<Candidate>, n: nat) -> Seq<Candidate>
    decreases n,
{
    if n == 0 {
        Seq::empty()
    } else if c[n - 1].score > LEAST_SCORE {
        strong(c, (n - 1) as nat).push(c[n - 1])
    } else {
        strong(c, (n - 1) as nat)
    }
}

/// Ordering keys that put higher scores first.
pub open spec fn candidate_keys(c: Seq<Candidate>) -> Seq<u128> {
    Seq::new(c.len(), |i: int| (i64::MAX - c[i].score) as u128)
}

/// The candidates by falling score.
pub open spec fn ranked(c: Seq<Candidate>) -> Seq<Candidate> {
    Seq::new(c.len(), |i: int| c[order_of(candidate_keys(c))[i] as int])
}

/// What is kept of the first `n` candidates: those not covered by one kept before.
pub open spec fn uncovered(c: Seq<Candidate>, n: nat) -> Seq<Candidate>
    decreases n,
{
    if n == 0 {
        Seq::empty()
    } else {
        let kept = uncovered(c, (n - 1) as nat);
        if exists|k: int| 0 <= k < kept.len() && is_covered(c[n - 1], #[trigger] kept[k]) {
            kept
        } else {
            kept.push(c[n - 1])
        }
    }
}

/// The reported rectangles: those that score enough, best first, not covered by a better
/// one, at most five.
pub open spec fn reported_rectangles(c: Seq<Candidate>) -> Seq<Candidate> {
    let s = ranked(strong(c, c.len()));
    let kept = uncovered(s, s.len());
    kept.take(imin(kept.len() as int, 5))
}

/// No kept rectangle is covered by one kept before it.
pub proof fn law_kept_uncovered(c: Seq<Candidate>, n: nat, i: int, j: int)
    requires
        n <= c.len(),
        0 <= i < j < uncovered(c, n).len(),
    ensures
        !is_covered(uncovered(c, n)[j], uncovered(c, n)[i]),
    decreases n,
{
    let kept = uncovered(c, (n - 1) as nat);
    if j < kept.len() {
        law_kept_uncovered(c, (n - 1) as nat, i, j);
    } else {
        assert(!is_covered(c[n - 1], kept[i]));
    }
}

fn overlap(a: usize, n: usize, b: usize, m: usize) -> (r: u64)
    requires
        a <= u32::MAX,
        n <= u32::MAX,
        b <= u32::MAX,
        m <= u32::MAX,
    ensures
        r == imax(shared(a as int, n as int, b as int, m as int), 0),
        r <= u32::MAX,
{
    let end: u64 = if a as u64 + n as u64 <= b as u64 + m as u64 {
        a as u64 + n as u64
    } else {
        b as u64 + m as u64
    };
    let start: u64 = if a >= b {
        a as u64
    } else {
        b as u64
    };
    if end > start {
        end - start
    } else {
        0
    }
}

fn covers(c: Candidate, k: Candidate) -> (r: bool)
    requires
        is_small(c),
        is_small(k),
    ensures
        r == is_covered(c, k),
{
    let u: u64 = overlap(c.x, c.width, k.x, k.width);
    let v: u64 = overlap(c.y, c.height, k.y, k.height);
    proof {
        assert(0 <= u * v <= 0xFFFF_FFFF * 0xFFFF_FFFF) by (nonlinear_arith)
            requires
                0 <= u <= 0xFFFF_FFFF,
                0 <= v <= 0xFFFF_FFFF,
        ;
        assert(0 <= c.width * c.height <= 0xFFFF_FFFF * 0xFFFF_FFFF) by (nonlinear_arith)
            requires
                0 <= c.width <= 0xFFFF_FFFF,
                0 <= c.height <= 0xFFFF_FFFF,
        ;
    }
    u > 0 && v > 0 && 10 * (u as u128 * v as u128) > 3 * (c.width as u128 * c.height as u128)
}

/// The finding on rectangle `i` (counted from zero), given in pixels of the original
/// image.
pub open spec fn rectangle_finding(
    i: int,
    x: int,
    y: int,
    width: int,
    height: int,
    score: i64,
    score_text: Seq<char>,
    confidence: u64,
) -> FindingView {
    boxed_finding(
        "paste_rectangle"@,
        "paste_rectangle_detected"@,
        "Noise correlation boundary discontinuity "@ + decimal_text((i + 1) as nat) + " at ("@
            + decimal_text(x as nat) + ","@ + decimal_text(y as nat) + ")->("@ + decimal_text(
            (x + width) as nat,
        ) + ","@ + decimal_text((y + height) as nat)
            + ") - rectangular region where noise patterns change abruptly at edges, indicating copy-pasted content (score "@
            + score_text + ")"@,
        if score > CRITICAL_SCORE {
            Severity::Critical
        } else if score > HIGH_SCORE {
            Severity::High
        } else {
            Severity::Medium
        },
        confidence,
        x as u32,
        y as u32,
        width as u32,
        height as u32,
    )
}

/// The side of the tiles in which neighbouring columns and rows are correlated.
pub open spec fn tile_size(w: int, h: int) -> int {
    imin(imin(128, h), w)
}

/// The starts of tiles that overlap by half along `n` pixels.
pub open spec fn starts(n: int, tile: int) -> Seq<usize> {
    if tile <= n {
        Seq::new(((n - tile) / (tile / 2) + 1) as nat, |i: int| (i * (tile / 2)) as usize)
    } else {
        Seq::empty()
    }
}

/// The starts of tiles that overlap by half along `n` pixels.
pub fn tile_starts(n: usize, tile: usize) -> (r: Vec<usize>)
    requires
        tile >= 2,
    ensures
        r@ == starts(n as int, tile as int),
{
    let mut r: Vec<usize> = Vec::new();
    if n < tile {
        return r;
    }
    let stride: usize = tile / 2;
    let last: usize = (n - tile) / stride;
    let mut i: usize = 0;
    while i <= last
        invariant
            stride == tile / 2,
            stride >= 1,
            tile <= n,
            last == (n - tile) / stride as int,
            i <= last + 1,
            r@ == Seq::new(i as nat, |k: int| (k * (tile / 2)) as usize),
        decreases last + 1 - i,
    {
        proof {
            assert(i * stride <= n - tile) by (nonlinear_arith)
                requires
                    i <= last,
                    last == (n - tile) / stride as int,
                    stride >= 1,
                    tile <= n,
            ;
        }
        r.push(i * stride);
        proof {
            assert(r@ =~= Seq::new((i + 1) as nat, |k: int| (k * (tile / 2)) as usize));
        }
        i += 1;
    }
    r
}

/// The first pixels of the pairs that lie on paper: pixels `first`, `first + step` and
/// so on, `n` of them, each paired with the one `next` further.
pub open spec fn paper_pairs(mask: Seq<bool>, first: int, step: int, next: int, n: nat) -> Seq<usize>
    decreases n,
{
    if n == 0 {
        Seq::empty()
    } else {
        let i = first + (n - 1) * step;
        let before = paper_pairs(mask, first, step, next, (n - 1) as nat);
        if !mask[i] && !mask[i + next] {
            before.push(i as usize)
        } else {
            before
        }
    }
}

fn collect_pairs(mask: &[bool], first: usize, step: usize, next: usize, n: usize) -> (r: Vec<usize>)
    requires
        n >= 1,
        first + (n - 1) * step + next < mask.len(),
    ensures
        r@ == paper_pairs(mask@, first as int, step as int, next as int, n as nat),
{
    let mut r: Vec<usize> = Vec::new();
    let mut k: usize = 0;
    let mut i: usize = first;
    while k < n
        invariant
            k <= n,
            first + (n - 1) * step + next < mask.len(),
            k < n ==> i == first + k * step,
            r@ == paper_pairs(mask@, first as int, step as int, next as int, k as nat),
        decreases n - k,
    {
        proof {
            assert(k * step <= (n - 1) * step) by (nonlinear_arith)
                requires
                    k <= n - 1,
                    step >= 0,
            ;
        }
        if !mask[i] && !mask[i + next] {
            r.push(i);
        }
        k += 1;
        if k < n {
            proof {
                assert(k * step == (k - 1) * step + step) by (nonlinear_arith);
                assert(k * step <= (n - 1) * step) by (nonlinear_arith)
                    requires
                        k <= n - 1,
                        step >= 0,
                ;
            }
            i += step;
        }
    }
    r
}

/// Every listed pixel and its partner lie on paper.
pub proof fn law_pairs_on_paper(mask: Seq<bool>, first: int, step: int, next: int, n: nat, k: int)
    requires
        first >= 0,
        step >= 0,
        first + n * step <= usize::MAX,
        0 <= k < paper_pairs(mask, first, step, next, n).len(),
    ensures
        !mask[paper_pairs(mask, first, step, next, n)[k] as int],
        !mask[paper_pairs(mask, first, step, next, n)[k] + next],
    decreases n,
{
    let before = paper_pairs(mask, first, step, next, (n - 1) as nat);
    assert(0 <= (n - 1) * step <= n * step) by (nonlinear_arith)
        requires
            n >= 1,
            step >= 0,
    ;
    if k < before.len() {
        law_pairs_on_paper(mask, first, step, next, (n - 1) as nat, k);
    }
}

/// The cells of a box, row by row: columns `x0` to `x1` and rows `y0` to `y1`, the ends
/// left out.
pub open spec fn box_cells(w: int, x0: int, x1: int, y0: int, y1: int) -> Seq<usize>
    decreases y1 - y0,
{
    if y1 <= y0 {
        Seq::empty()
    } else {
        box_cells(w, x0, x1, y0, y1 - 1) + row_cells(w, x0, x1, y1 - 1)
    }
}

/// The cells of a row between two columns, the second left out.
pub open spec fn row_cells(w: int, x0: int, x1: int, y: int) -> Seq<usize> {
    Seq::new(
        if x0 < x1 {
            (x1 - x0) as nat
        } else {
            0
        },
        |i: int| (y * w + x0 + i) as usize,
    )
}

/// The cells left and right of a rectangle, up to `pad` away, row by row.
pub open spec fn side_cells(w: int, x: int, width: int, pad: int, y0: int, y1: int) -> Seq<usize>
    decreases y1 - y0,
{
    if y1 <= y0 {
        Seq::empty()
    } else {
        side_cells(w, x, width, pad, y0, y1 - 1) + row_cells(w, less(x, pad), x, y1 - 1) + row_cells(
            w,
            x + width,
            imin(x + width + pad, w),
            y1 - 1,
        )
    }
}

fn push_row(r: &mut Vec<usize>, w: usize, h: usize, x0: usize, x1: usize, y: usize)
    requires
        x1 <= w,
        y < h,
        w * h <= usize::MAX,
    ensures
        final(r)@ == old(r)@ + row_cells(w as int, x0 as int, x1 as int, y as int),
{
    let start: Ghost<Seq<usize>> = Ghost(r@);
    let mut x: usize = x0;
    proof {
        assert(r@ =~= start@ + row_cells(w as int, x0 as int, x0 as int, y as int));
    }
    while x < x1
        invariant
            x0 <= x,
            x <= x1 || x == x0,
            x1 <= w,
            y < h,
            w * h <= usize::MAX,
            r@ == start@ + row_cells(w as int, x0 as int, x as int, y as int),
        decreases x1 - x,
    {
        r.push(cell(w, h, x, y));
        x += 1;
        proof {
            assert(r@ =~= start@ + row_cells(w as int, x0 as int, x as int, y as int));
        }
    }
    proof {
        assert(row_cells(w as int, x0 as int, x as int, y as int) =~= row_cells(
            w as int,
            x0 as int,
            x1 as int,
            y as int,
        ));
    }
}

fn push_box(r: &mut Vec<usize>, w: usize, h: usize, x0: usize, x1: usize, y0: usize, y1: usize)
    requires
        x1 <= w,
        y1 <= h,
        w * h <= usize::MAX,
    ensures
        final(r)@ == old(r)@ + box_cells(w as int, x0 as int, x1 as int, y0 as int, y1 as int),
{
    let start: Ghost<Seq<usize>> = Ghost(r@);
    let mut y: usize = y0;
    proof {
        assert(r@ =~= start@ + box_cells(w as int, x0 as int, x1 as int, y0 as int, y0 as int));
    }
    while y < y1
        invariant
            y0 <= y,
            y <= y1 || y == y0,
            x1 <= w,
            y1 <= h,
            w * h <= usize::MAX,
            r@ == start@ + box_cells(w as int, x0 as int, x1 as int, y0 as int, y as int),
        decreases y1 - y,
    {
        push_row(r, w, h, x0, x1, y);
        y += 1;
        proof {
            assert(r@ =~= start@ + box_cells(w as int, x0 as int, x1 as int, y0 as int, y as int));
        }
    }
}

/// How far around a rectangle the noise outside it is measured.
pub const PAD: usize = 15;

/// The cells inside a rectangle, three pixels off its sides.
pub open spec fn inner_cells(w: int, x: int, y: int, width: int, height: int) -> Seq<usize> {
    box_cells(w, x + 3, x + width - 3, y + 3, y + height - 3)
}

/// The cells around a rectangle: above, below, then left and right of it.
pub open spec fn outer_cells(w: int, h: int, x: int, y: int, width: int, height: int) -> Seq<usize> {
    box_cells(w, x, x + width, less(y, PAD as int), y) + box_cells(
        w,
        x,
        x + width,
        y + height,
        imin(y + height + PAD, h),
    ) + side_cells(w, x, width, PAD as int, y, y + height)
}

/// The cells whose noise is compared for a rectangle: those inside it, and those around it.
pub fn compared_cells(w: usize, h: usize, x: usize, y: usize, width: usize, height: usize) -> (r: (
    Vec<usize>,
    Vec<usize>,
))
    requires
        x + width <= w,
        y + height <= h,
        w + PAD <= usize::MAX,
        h + PAD <= usize::MAX,
        w * h <= usize::MAX,
    ensures
        r.0@ == inner_cells(w as int, x as int, y as int, width as int, height as int),
        r.1@ == outer_cells(w as int, h as int, x as int, y as int, width as int, height as int),
{
    let mut inner: Vec<usize> = Vec::new();
    if width >= 3 && height >= 3 {
        push_box(&mut inner, w, h, x + 3, x + width - 3, y + 3, y + height - 3);
    }
    proof {
        if width < 3 || height < 3 {
            lemma_no_cells(
                w as int,
                x + 3,
                x + width - 3,
                y + 3,
                y + height - 3,
            );
        }
        assert(inner@ =~= inner_cells(w as int, x as int, y as int, width as int, height as int));
    }
    let mut outer: Vec<usize> = Vec::new();
    let top: usize = if y < PAD {
        0
    } else {
        y - PAD
    };
    let bottom: usize = if y + height + PAD < h {
        y + height + PAD
    } else {
        h
    };
    let left: usize = if x < PAD {
        0
    } else {
        x - PAD
    };
    let right: usize = if x + width + PAD < w {
        x + width + PAD
    } else {
        w
    };
    push_box(&mut outer, w, h, x, x + width, top, y);
    push_box(&mut outer, w, h, x, x + width, y + height, bottom);
    let start: Ghost<Seq<usize>> = Ghost(outer@);
    let mut at: usize = y;
    proof {
        assert(outer@ =~= start@ + side_cells(
            w as int,
            x as int,
            width as int,
            PAD as int,
            y as int,
            y as int,
        ));
    }
    while at < y + height
        invariant
            x + width <= w,
            y + height <= h,
            w * h <= usize::MAX,
            y <= at <= y + height,
            left == less(x as int, PAD as int),
            right == imin(x + width + PAD, w as int),
            outer@ == start@ + side_cells(
                w as int,
                x as int,
                width as int,
                PAD as int,
                y as int,
                at as int,
            ),
        decreases y + height - at,
    {
        push_row(&mut outer, w, h, left, x, at);
        push_row(&mut outer, w, h, x + width, right, at);
        at += 1;
        proof {
            assert(outer@ =~= start@ + side_cells(
                w as int,
                x as int,
                width as int,
                PAD as int,
                y as int,
                at as int,
            ));
        }
    }
    proof {
        assert(outer@ =~= outer_cells(
            w as int,
            h as int,
            x as int,
            y as int,
            width as int,
            height as int,
        ));
    }
    (inner, outer)
}

proof fn lemma_no_cells(w: int, x0: int, x1: int, y0: int, y1: int)
    requires
        x1 <= x0 || y1 <= y0,
    ensures
        box_cells(w, x0, x1, y0, y1) == Seq::<usize>::empty(),
    decreases y1 - y0,
{
    if y1 > y0 {
        lemma_no_cells(w, x0, x1, y0, y1 - 1);
        assert(box_cells(w, x0, x1, y0, y1) =~= Seq::<usize>::empty());
    }
}

/// A raster reduced to given columns and rows; those past the border count as the last.
pub open spec fn picked(g: Seq<u8>, w: int, h: int, columns: Seq<usize>, rows: Seq<usize>) -> Seq<u8> {
    Seq::new(
        columns.len() * rows.len(),
        |i: int|
            pixel(
                g,
                w,
                imin(columns[i % (columns.len() as int)] as int, w - 1),
                imin(rows[i / (columns.len() as int)] as int, h - 1),
            ) as u8,
    )
}

/// Reduces a raster to given columns and rows.
pub fn pick(g: &[u8], w: usize, h: usize, columns: &Vec<usize>, rows: &Vec<usize>) -> (r: Vec<u8>)
    requires
        g.len() == w * h,
        w >= 1,
        h >= 1,
        columns.len() * rows.len() <= usize::MAX,
    ensures
        r@ == picked(g@, w as int, h as int, columns@, rows@),
{
    let total: usize = columns.len() * rows.len();
    let mut r: Vec<u8> = Vec::new();
    let mut i: usize = 0;
    while i < total
        invariant
            g.len() == w * h,
            w >= 1,
            h >= 1,
            i <= total,
            total == columns.len() * rows.len(),
            r@ == picked(g@, w as int, h as int, columns@, rows@).take(i as int),
        decreases total - i,
    {
        proof {
            assert(columns.len() > 0) by (nonlinear_arith)
                requires
                    columns.len() * rows.len() > 0,
            ;
            lemma_cell_coords(columns.len() as int, rows.len() as int, i as int);
        }
        let x: usize = columns[i % columns.len()];
        let y: usize = rows[i / columns.len()];
        let x: usize = if x < w {
            x
        } else {
            w - 1
        };
        let y: usize = if y < h {
            y
        } else {
            h - 1
        };
        r.push(px(g, w, h, x, y) as u8);
        i += 1;
        proof {
            assert(r@ =~= picked(g@, w as int, h as int, columns@, rows@).take(i as int));
        }
    }
    proof {
        assert(r@ =~= picked(g@, w as int, h as int, columns@, rows@));
    }
    r
}

/// Cap on the pixel count of the image that is searched.
pub const PASTE_PIXELS: usize = 6_000_000;

/// The deviation of correlations above which a tile counts, as a key: 0.02.
pub const LEAST_SPREAD: i64 = 0x3F94_7AE1_47AE_147B;

/// The score above which the correlation of a line has dropped, as a key: 1.5.
pub const DROP_SCORE: i64 = 0x3FF8_0000_0000_0000;

impl PasteRectangleDetector {
    /// Whether an image is large enough to be analyzed.
    pub fn large_enough(&self, w: usize, h: usize) -> (r: bool)
        ensures
            r == (w >= 150 && h >= 150),
    {
        w >= 150 && h >= 150
    }

    /// Whether so many pairs of paper pixels are enough to be correlated.
    pub fn enough_pairs(&self, n: usize) -> (r: bool)
        ensures
            r == (n >= 12),
    {
        n >= 12
    }

    /// Whether so many correlated lines are enough for a tile to count.
    pub fn enough_lines(&self, n: usize) -> (r: bool)
        ensures
            r == (n >= 5),
    {
        n >= 5
    }

    /// Whether there are enough paper pixels inside a rectangle and around it to compare
    /// their noise.
    pub fn enough_noise(&self, inner: usize, outer: usize) -> (r: bool)
        ensures
            r == (inner >= 10 && outer >= 10),
    {
        inner >= 10 && outer >= 10
    }

    /// Whether an image is scaled down first.
    pub fn too_large(&self, w: usize, h: usize) -> (r: bool)
        requires
            w * h <= usize::MAX,
        ensures
            r == (w * h > PASTE_PIXELS),
    {
        w * h > PASTE_PIXELS
    }

    /// Whether the correlations of a tile spread enough to tell lines apart, given the key
    /// of their deviation.
    pub fn tells_lines(&self, deviation: i64) -> (r: bool)
        ensures
            r == (deviation > LEAST_SPREAD),
    {
        deviation > LEAST_SPREAD
    }

    /// Whether a line is correlated too little, given the key of its score.
    pub fn is_uncorrelated(&self, score: i64) -> (r: bool)
        ensures
            r == (score > DROP_SCORE),
    {
        score > DROP_SCORE
    }

    /// The side of the tiles that an image is searched in; none where it is smaller than
    /// twenty pixels.
    pub fn tile(&self, w: usize, h: usize) -> (r: Option<usize>)
        ensures
            r is Some <==> w >= 20 && h >= 20,
            r is Some ==> r->0 == tile_size(w as int, h as int),
    {
        if w < 20 || h < 20 {
            None
        } else if w <= h {
            Some(
                if w < 128 {
                    w
                } else {
                    128
                },
            )
        } else {
            Some(
                if h < 128 {
                    h
                } else {
                    128
                },
            )
        }
    }

    /// The pixels of column `x`, in the `tile` rows from `y` on, that lie on paper
    /// together with their right neighbours.
    pub fn column_pairs(&self, mask: &[bool], w: usize, h: usize, x: usize, y: usize, tile: usize) -> (r:
        Vec<usize>)
        requires
            mask.len() == w * h,
            x + 1 < w,
            tile >= 1,
            y + tile <= h,
        ensures
            r@ == paper_pairs(mask@, y * w + x, w as int, 1, tile as nat),
    {
        let first: usize = cell(w, h, x, y);
        proof {
            lemma_cell(w as int, h as int, x + 1, y + tile - 1);
            assert((y + tile - 1) * w == y * w + (tile - 1) * w) by (nonlinear_arith);
        }
        collect_pairs(mask, first, w, 1, tile)
    }

    /// The pixels of row `y`, in the `tile` columns from `x` on, that lie on paper
    /// together with the pixels below them.
    pub fn row_pairs(&self, mask: &[bool], w: usize, h: usize, x: usize, y: usize, tile: usize) -> (r:
        Vec<usize>)
        requires
            mask.len() == w * h,
            y + 1 < h,
            tile >= 1,
            x + tile <= w,
        ensures
            r@ == paper_pairs(mask@, y * w + x, 1, w as int, tile as nat),
    {
        let first: usize = cell(w, h, x, y);
        proof {
            lemma_cell(w as int, h as int, x + tile - 1, y + 1);
            assert((y + 1) * w == y * w + w) by (nonlinear_arith);
        }
        collect_pairs(mask, first, 1, w, tile)
    }

    /// The mask of the text strokes of an image: dark against their surroundings after a
    /// blur, and widened by one pixel.
    pub fn text_mask(&self, gray: &[u8], w: usize, h: usize) -> (r: Vec<bool>)
        requires
            gray.len() == w * h,
            (w + 1) * (h + 1) <= usize::MAX,
            1024 * (w * h) <= i64::MAX,
            w < usize::MAX,
            h < usize::MAX,
        ensures
            r@ == dilated(
                dark_mask(blurred(gray@, w as int, h as int), w as int, h as int, 7, 4),
                w as int,
                3,
            ),
    {
        let mut soft: Vec<u8> = vec![0; w * h];
        gaussian_blur_5x5(gray, &mut soft, w, h);
        proof {
            assert(gray@.take(w * h) =~= gray@);
            assert(soft@ =~= blurred(gray@, w as int, h as int));
        }
        let mask = adaptive_threshold_mean(soft.as_slice(), w, h, 15, 4);
        assert(mask@.take(w * h) =~= mask@);
        dilate_binary(mask.as_slice(), w, h, 3)
    }

    /// Keeps the rectangles that are reported.
    pub fn nms(&self, c: &Vec<Candidate>) -> (r: Vec<Candidate>)
        requires
            forall|i: int| 0 <= i < c.len() ==> is_small(#[trigger] c@[i]),
        ensures
            r@ == reported_rectangles(c@),
            r.len() <= 5,
    {
        let mut s: Vec<Candidate> = Vec::new();
        let mut keys: Vec<u128> = Vec::new();
        let mut i: usize = 0;
        while i < c.len()
            invariant
                i <= c.len(),
                forall|i: int| 0 <= i < c.len() ==> is_small(#[trigger] c@[i]),
                s@ == strong(c@, i as nat),
                keys@ =~= candidate_keys(s@),
                forall|i: int| 0 <= i < s.len() ==> is_small(#[trigger] s@[i]),
            decreases c.len() - i,
        {
            if c[i].score > LEAST_SCORE {
                proof {
                    assert(is_small(c@[i as int]));
                }
                keys.push((i64::MAX as i128 - c[i].score as i128) as u128);
                s.push(c[i]);
            }
            i += 1;
        }
        let order = stable_order(&keys);
        let mut kept: Vec<Candidate> = Vec::new();
        let mut p: usize = 0;
        while p < order.len()
            invariant
                p <= order.len(),
                order.len() == s.len(),
                order@ == order_of(candidate_keys(s@)),
                forall|j: int| 0 <= j < order.len() ==> #[trigger] order@[j] < s.len(),
                forall|i: int| 0 <= i < s.len() ==> is_small(#[trigger] s@[i]),
                forall|i: int| 0 <= i < kept.len() ==> is_small(#[trigger] kept@[i]),
                kept@ == uncovered(ranked(s@), p as nat),
            decreases order.len() - p,
        {
            let e: Candidate = s[order[p]];
            proof {
                assert(is_small(s@[order@[p as int] as int]));
                assert(e == ranked(s@)[p as int]);
            }
            let mut hit: bool = false;
            let mut k: usize = 0;
            while k < kept.len()
                invariant
                    k <= kept.len(),
                    is_small(e),
                    forall|i: int| 0 <= i < kept.len() ==> is_small(#[trigger] kept@[i]),
                    hit == exists|j: int| 0 <= j < k && is_covered(e, #[trigger] kept@[j]),
                decreases kept.len() - k,
            {
                proof {
                    assert(is_small(kept@[k as int]));
                }
                if covers(e, kept[k]) {
                    hit = true;
                }
                k += 1;
            }
            if !hit {
                kept.push(e);
            }
            p += 1;
        }
        let ghost whole = kept@;
        if kept.len() > 5 {
            kept.truncate(5);
        }
        proof {
            assert(kept@ =~= whole.take(imin(whole.len() as int, 5)));
        }
        kept
    }

    /// Reports rectangle `i` (counted from zero), given in pixels of the original image.
    /// `score_text` is its score with two decimals.
    pub fn report(
        &self,
        i: usize,
        x: u32,
        y: u32,
        width: u32,
        height: u32,
        score: i64,
        score_text: &str,
        confidence: u64,
    ) -> (r: Finding)
        requires
            i < 5,
        ensures
            r@ == rectangle_finding(
                i as int,
                x as int,
                y as int,
                width as int,
                height as int,
                score,
                score_text@,
                confidence,
            ),
    {
        let mut t = "Noise correlation boundary discontinuity ".to_string();
        append_decimal(&mut t, i as u64 + 1);
        t.append(" at (");
        append_decimal(&mut t, x as u64);
        t.append(",");
        append_decimal(&mut t, y as u64);
        t.append(")->(");
        append_decimal(&mut t, x as u64 + width as u64);
        t.append(",");
        append_decimal(&mut t, y as u64 + height as u64);
        t.append(
            ") - rectangular region where noise patterns change abruptly at edges, indicating copy-pasted content (score ",
        );
        t.append(score_text);
        t.append(")");
        let severity = if score > CRITICAL_SCORE {
            Severity::Critical
        } else if score > HIGH_SCORE {
            Severity::High
        } else {
            Severity::Medium
        };
        Finding::new("paste_rectangle", "paste_rectangle_detected", t, severity, confidence).with_region(
            Region::BoundingBox { x, y, width, height },
        )
    }
}

/// A pixel is blurred with its two neighbours on either side, at weights of six, four and one of
/// sixteen, rounded down; first along the row and then along the column.
pub proof fn law_blur_weights(g: Seq<u8>, w: int, h: int, x: int, y: int)
    requires
        2 <= x < w - 2,
        2 <= y < h - 2,
    ensures
        ({
            let s = g[y * w + (x - 2)] + 4 * g[y * w + (x - 1)] + 6 * g[y * w + x] + 4 * g[y * w + (x
                + 1)] + g[y * w + (x + 2)];
            16 * row_blur(g, w, x, y) <= s < 16 * row_blur(g, w, x, y) + 16
        }),
        ({
            let s = row_blur(g, w, x, y - 2) + 4 * row_blur(g, w, x, y - 1) + 6 * row_blur(
                g,
                w,
                x,
                y,
            ) + 4 * row_blur(g, w, x, y + 1) + row_blur(g, w, x, y + 2);
            16 * blur_at(g, w, h, x, y) <= s < 16 * blur_at(g, w, h, x, y) + 16
        }),
{
}

/// Beyond the border the pixels of the border are taken.
pub proof fn law_blur_border(g: Seq<u8>, w: int, h: int, x: int, y: int)
    requires
        5 <= w,
        5 <= h,
        0 <= x < w,
        0 <= y < h,
    ensures
        ({
            let s = 11 * g[y * w] + 4 * g[y * w + 1] + g[y * w + 2];
            16 * row_blur(g, w, 0, y) <= s < 16 * row_blur(g, w, 0, y) + 16
        }),
        ({
            let s = 11 * g[y * w + (w - 1)] + 4 * g[y * w + (w - 2)] + g[y * w + (w - 3)];
            16 * row_blur(g, w, w - 1, y) <= s < 16 * row_blur(g, w, w - 1, y) + 16
        }),
        ({
            let s = 11 * row_blur(g, w, x, 0) + 4 * row_blur(g, w, x, 1) + row_blur(g, w, x, 2);
            16 * blur_at(g, w, h, x, 0) <= s < 16 * blur_at(g, w, h, x, 0) + 16
        }),
        ({
            let s = 11 * row_blur(g, w, x, h - 1) + 4 * row_blur(g, w, x, h - 2) + row_blur(
                g,
                w,
                x,
                h - 3,
            );
            16 * blur_at(g, w, h, x, h - 1) <= s < 16 * blur_at(g, w, h, x, h - 1) + 16
        }),
{
}

/// A window well inside the image has its full width and height, and one at a corner what lies
/// in the image.
pub proof fn law_window_area(w: int, h: int, x: int, y: int, r: int)
    requires
        0 <= r,
        r < w,
        r < h,
        0 <= x < w,
        0 <= y < h,
    ensures
        r <= x < w - r && r <= y < h - r ==> window_area(w, h, x, y, r, r) == (2 * r + 1) * (2 * r
            + 1),
        window_area(w, h, 0, 0, r, r) == (r + 1) * (r + 1),
        window_area(w, h, w - 1, h - 1, r, r) == (r + 1) * (r + 1),
{
}

/// A pixel is dark where the mean of its window is above it by the constant or more.
pub proof fn law_dark(g: Seq<u8>, w: int, h: int, x: int, y: int, half: int, c: int)
    requires
        0 <= x < w,
        0 <= y < h,
    ensures
        is_dark(g, w, h, x, y, half, c) <==> window_total(g, w, h, x, y, half, half) - g[y * w + x]
            * window_area(w, h, x, y, half, half) >= c * window_area(w, h, x, y, half, half),
{
    let a = window_area(w, h, x, y, half, half);
    let p = g[y * w + x] as int;
    assert((p + c) * a == p * a + c * a) by (nonlinear_arith);
}

/// A line stands where the signal is above the threshold and no neighbour is above it, two
/// samples from either end or more.
pub proof fn law_line(signal: Seq<i64>, threshold: i64, n: nat, k: int)
    requires
        n <= signal.len() <= usize::MAX,
        0 <= k < line_list(signal, threshold, n).len(),
    ensures
        ({
            let e = line_list(signal, threshold, n)[k];
            let at = e.at as int;
            &&& 2 <= at && at + 2 < signal.len() && at < n
            &&& e.strength == signal[at]
            &&& signal[at] > threshold && signal[at - 1] <= signal[at] && signal[at + 1]
                <= signal[at]
        }),
    decreases n,
{
    let before = line_list(signal, threshold, (n - 1) as nat);
    if k < before.len() {
        law_line(signal, threshold, (n - 1) as nat, k);
    }
}

/// A line that is left out lies less than fifteen samples behind one that is kept.
pub proof fn law_line_left_out(signal: Seq<i64>, threshold: i64, n: nat, i: int)
    requires
        n <= signal.len() <= usize::MAX,
        2 <= i < n,
        i + 2 < signal.len(),
        signal[i] > threshold,
        signal[i - 1] <= signal[i],
        signal[i + 1] <= signal[i],
    ensures
        exists|k: int|
            0 <= k < line_list(signal, threshold, n).len() && 0 <= i - (#[trigger] line_list(
                signal,
                threshold,
                n,
            )[k]).at < 15,
    decreases n,
{
    let m = (n - 1) as nat;
    let rest = line_list(signal, threshold, m);
    let all = line_list(signal, threshold, n);
    if i < n - 1 {
        law_line_left_out(signal, threshold, m, i);
        let k = choose|k: int| 0 <= k < rest.len() && 0 <= i - (#[trigger] rest[k]).at < 15;
        assert(all[k] == rest[k]);
    } else if exists|k: int| 0 <= k < rest.len() && n - 1 - (#[trigger] rest[k]).at < 15 {
        let k = choose|k: int| 0 <= k < rest.len() && n - 1 - (#[trigger] rest[k]).at < 15;
        law_line(signal, threshold, m, k);
        assert(all[k] == rest[k]);
    } else {
        assert(all[rest.len() as int].at == i);
    }
}

/// The lines told are the strongest, strongest first and thirty at most, and none of a signal of
/// fewer than five samples.
pub proof fn law_strongest_lines(signal: Seq<i64>, threshold: i64, i: int, j: int)
    requires
        signal.len() <= usize::MAX,
        0 <= i < j < lines_of(signal, threshold).len(),
    ensures
        lines_of(signal, threshold)[i].strength >= lines_of(signal, threshold)[j].strength,
        lines_of(signal, threshold).len() <= 30,
        signal.len() >= 5,
        line_list(signal, threshold, signal.len()).len() <= 30 ==> lines_of(signal, threshold).len()
            == line_list(signal, threshold, signal.len()).len(),
        line_list(signal, threshold, signal.len()).len() > 30 ==> lines_of(signal, threshold).len()
            == 30,
        line_list(signal, threshold, signal.len()).contains(lines_of(signal, threshold)[i]),
{
    let l = line_list(signal, threshold, signal.len());
    lemma_lines_bound(signal, threshold, signal.len());
    let keys = line_keys(l);
    law_order_exists(keys);
    let o = order_of(keys);
    assert(before(keys, o[i] as int, o[j] as int));
    assert(l.contains(l[o[i] as int]));
}

proof fn lemma_lines_bound(signal: Seq<i64>, threshold: i64, n: nat)
    ensures
        line_list(signal, threshold, n).len() <= n,
    decreases n,
{
    if n > 0 {
        lemma_lines_bound(signal, threshold, (n - 1) as nat);
    }
}

/// A span goes from the nearer of two lines to the further one.
pub proof fn law_span(e: Seq<EdgeLine>, i: int, j: int)
    ensures
        span_of(e, i, j).at + span_of(e, i, j).size == if e[i].at < e[j].at {
            e[j].at
        } else {
            e[i].at
        },
        span_of(e, i, j).at == if e[i].at < e[j].at {
            e[i].at
        } else {
            e[j].at
        },
        span_of(e, i, j).at == span_of(e, j, i).at,
        span_of(e, i, j).size == span_of(e, j, i).size,
{
}

/// Of the spans from a line to each later one those of a fitting size are kept.
pub proof fn law_spans_from(e: Seq<EdgeLine>, lo: int, hi: int, first: int, n: nat)
    requires
        0 <= first,
    ensures
        spans_from(e, lo, hi, first, n) == which(n, |i: int| i > first && span_of(e, first, i).size >= lo && hi >= span_of(e, first, i).size).map_values(|i: int| span_of(e, first, i)),
    decreases n,
{
    let p = |i: int| i > first && span_of(e, first, i).size >= lo && hi >= span_of(e, first, i).size;
    let f = |i: int| span_of(e, first, i);
    lemma_which(0, p);
    if n > 0 {
        let lower = (n - 1) as nat;
        law_spans_from(e, lo, hi, first, lower);
        lemma_which(lower, p);
        assert(which(n, p).map_values(f) =~= if p(lower as int) {
            which(lower, p).map_values(f).push(f(lower as int))
        } else {
            which(lower, p).map_values(f)
        });
    } else {
        assert(which(0, p).map_values(f) =~= Seq::<Span>::empty());
    }
}

/// The spans of the first twenty lines are those from each of them, in turn.
pub proof fn law_spans(e: Seq<EdgeLine>, lo: int, hi: int, n: nat, i: nat)
    ensures
        spans_of(e, lo, hi, n, i + 1) == spans_of(e, lo, hi, n, i) + spans_from(
            e,
            lo,
            hi,
            i as int,
            n,
        ),
        spans_of(e, lo, hi, n, 0).len() == 0,
        e.len() <= 20 ==> spans(e, lo, hi) == spans_of(e, lo, hi, e.len(), e.len()),
        e.len() > 20 ==> spans(e, lo, hi) == spans_of(e, lo, hi, 20, 20),
{
}

/// Each span across makes a rectangle with each span down.
pub proof fn law_rectangles(across: Seq<Span>, down: Seq<Span>, n: nat, i: int, j: int)
    requires
        n <= across.len(),
        0 <= i < n,
        0 <= j < down.len(),
    ensures
        rects_of(across, down, n).len() == n * down.len(),
        rects_of(across, down, n)[i * down.len() + j] == (Rect { across: across[i], down: down[j] }),
    decreases n,
{
    let d = down.len() as int;
    lemma_rects_with(across[n - 1], down, down.len());
    assert(n * d == (n - 1) * d + d) by (nonlinear_arith);
    if n > 1 {
        law_rectangles(across, down, (n - 1) as nat, if i < n - 1 {
            i
        } else {
            0
        }, j);
    } else {
        assert(rects_of(across, down, 0).len() == 0);
        assert((n - 1) * d == 0);
    }
    if i < n - 1 {
        assert(0 <= i * d + j < (n - 1) * d) by (nonlinear_arith)
            requires
                0 <= i < n - 1,
                0 <= j < d,
        ;
    }
}

proof fn lemma_rects_with(a: Span, down: Seq<Span>, n: nat)
    requires
        n <= down.len(),
    ensures
        rects_with(a, down, n).len() == n,
        forall|k: int|
            0 <= k < n ==> #[trigger] rects_with(a, down, n)[k] == (Rect { across: a, down: down[k] }),
    decreases n,
{
    if n > 0 {
        lemma_rects_with(a, down, (n - 1) as nat);
        let before = rects_with(a, down, (n - 1) as nat);
        assert(forall|k: int| 0 <= k < n - 1 ==> #[trigger] rects_with(a, down, n)[k] == before[k]);
    }
}

/// A candidate is covered where more than three tenths of it lie in another; one inside another
/// is, and one beside another is not.
pub proof fn law_covered(c: Candidate, k: Candidate)
    ensures
        c.x + c.width <= k.x || k.x + k.width <= c.x || c.y + c.height <= k.y || k.y + k.height
            <= c.y ==> !is_covered(c, k),
        k.x <= c.x && c.x + c.width <= k.x + k.width && k.y <= c.y && c.y + c.height <= k.y + k.height
            && c.width > 0 && c.height > 0 ==> is_covered(c, k),
{
    if k.x <= c.x && c.x + c.width <= k.x + k.width && k.y <= c.y && c.y + c.height <= k.y + k.height
        && c.width > 0 && c.height > 0 {
        let (u, v) = (c.width as int, c.height as int);
        assert(10 * (u * v) > 3 * (u * v)) by (nonlinear_arith)
            requires
                u > 0,
                v > 0,
        ;
    }
}

/// A share of three tenths in one direction is not enough, and more is.
pub proof fn law_covered_share(c: Candidate, k: Candidate)
    requires
        k.y <= c.y,
        c.y + c.height <= k.y + k.height,
        c.height > 0,
        k.x <= c.x,
        c.x < k.x + k.width <= c.x + c.width,
    ensures
        is_covered(c, k) <==> 10 * (k.x + k.width - c.x) > 3 * c.width,
{
    let (u, v, n) = (k.x + k.width - c.x, c.height as int, c.width as int);
    assert(10 * (u * v) > 3 * (n * v) <==> 10 * u > 3 * n) by (nonlinear_arith)
        requires
            v > 0,
    ;
    assert(c.width * c.height == n * v);
}

/// Candidates count above a score of four tenths.
pub proof fn law_strong_candidates(c: Seq<Candidate>, n: nat)
    requires
        n <= c.len(),
    ensures
        strong(c, n) == which(n, |i: int| c[i].score > 0x3FD9_9999_9999_999A).map_values(|i: int| c[i]),
    decreases n,
{
    let p = |i: int| c[i].score > 0x3FD9_9999_9999_999A;
    let f = |i: int| c[i];
    lemma_which(0, p);
    if n > 0 {
        let lower = (n - 1) as nat;
        law_strong_candidates(c, lower);
        lemma_which(lower, p);
        assert(which(n, p).map_values(f) =~= if p(lower as int) {
            which(lower, p).map_values(f).push(f(lower as int))
        } else {
            which(lower, p).map_values(f)
        });
    } else {
        assert(which(0, p).map_values(f) =~= Seq::<Candidate>::empty());
    }
}

/// Candidates are ranked by their scores, highest first, and none is lost.
pub proof fn law_ranked(c: Seq<Candidate>, i: int, j: int)
    requires
        c.len() <= usize::MAX,
        0 <= i < j < c.len(),
    ensures
        ranked(c).len() == c.len(),
        ranked(c)[i].score >= ranked(c)[j].score,
        c.contains(ranked(c)[i]),
{
    let keys = candidate_keys(c);
    law_order_exists(keys);
    let o = order_of(keys);
    assert(before(keys, o[i] as int, o[j] as int));
    assert(c.contains(c[o[i] as int]));
}

/// A candidate that is left out is covered by one that is kept, and five at most are told.
pub proof fn law_left_out_is_covered(c: Seq<Candidate>, n: nat, i: int)
    requires
        n <= c.len(),
        0 <= i < n,
    ensures
        uncovered(c, n).contains(c[i]) || exists|k: int|
            0 <= k < uncovered(c, n).len() && is_covered(c[i], #[trigger] uncovered(c, n)[k]),
        reported_rectangles(c).len() <= 5,
    decreases n,
{
    let m = (n - 1) as nat;
    let rest = uncovered(c, m);
    let all = uncovered(c, n);
    if i < m {
        law_left_out_is_covered(c, m, i);
        if rest.contains(c[i]) {
            assert(all[rest.index_of(c[i])] == c[i]);
        } else {
            let k = choose|k: int| 0 <= k < rest.len() && is_covered(c[i], #[trigger] rest[k]);
            assert(all[k] == rest[k]);
        }
    } else if !(exists|k: int| 0 <= k < rest.len() && is_covered(c[n - 1], #[trigger] rest[k])) {
        assert(all[rest.len() as int] == c[i]);
    }
}

/// A rectangle is critical above a score of two, of high severity above one.
pub proof fn law_rectangle_finding(
    i: int,
    x: int,
    y: int,
    width: int,
    height: int,
    score: i64,
    t: Seq<char>,
    confidence: u64,
)
    ensures
        ({
            let f = rectangle_finding(i, x, y, width, height, score, t, confidence);
            &&& f.code == "paste_rectangle_detected"@
            &&& f.severity == Severity::Critical <==> score > 0x4000_0000_0000_0000
            &&& f.severity == Severity::High <==> 0x3FF0_0000_0000_0000 < score <= 0x4000_0000_0000_0000
            &&& f.severity == Severity::Medium <==> score <= 0x3FF0_0000_0000_0000
            &&& f.region == Some(
                RegionView::BoundingBox {
                    x: x as u32,
                    y: y as u32,
                    width: width as u32,
                    height: height as u32,
                },
            )
        }),
        PASTE_PIXELS == 6_000_000,
        LEAST_SPREAD == 0x3F94_7AE1_47AE_147B,
        DROP_SCORE == 0x3FF8_0000_0000_0000,
{
}

/// Tiles have 128 pixels a side, or those of the shorter side of the image; they start half a
/// tile apart and none goes beyond the image.
pub proof fn law_tiles(w: int, h: int, n: int, tile: int, i: int)
    requires
        2 <= tile <= n <= usize::MAX,
        0 <= i < starts(n, tile).len(),
    ensures
        tile_size(w, h) <= 128 && tile_size(w, h) <= w && tile_size(w, h) <= h,
        tile_size(w, h) == 128 || tile_size(w, h) == w || tile_size(w, h) == h,
        starts(n, tile)[0] == 0,
        starts(n, tile)[i] + tile <= n,
        i > 0 ==> starts(n, tile)[i] - starts(n, tile)[i - 1] == tile / 2,
        starts(n, tile).last() + tile + tile / 2 > n,
{
    let s = tile / 2;
    let k = (n - tile) / s;
    vstd::arithmetic::div_mod::lemma_fundamental_div_mod(n - tile, s);
    vstd::arithmetic::div_mod::lemma_mod_bound(n - tile, s);
    assert(0 <= i * s <= n - tile && k * s <= n - tile < k * s + s && 0 <= k * s && 0 * s == 0 && (i > 0 ==> (i - 1)
        * s == i * s - s && 0 <= (i - 1) * s)) by (nonlinear_arith)
        requires
            0 <= i <= k,
            s >= 1,
            n - tile == s * k + (n - tile) % s,
            0 <= (n - tile) % s < s,
    ;
}

/// Of the pairs of neighbours those are kept of which neither is dark.
pub proof fn law_paper_pairs(mask: Seq<bool>, first: int, step: int, next: int, n: nat)
    ensures
        paper_pairs(mask, first, step, next, n) == which(n, |i: int| !mask[first + step * i] && !mask[first + step * i + next]).map_values(|i: int| (first + step * i) as usize),
    decreases n,
{
    let p = |i: int| !mask[first + step * i] && !mask[first + step * i + next];
    let f = |i: int| (first + step * i) as usize;
    lemma_which(0, p);
    if n > 0 {
        let lower = (n - 1) as nat;
        law_paper_pairs(mask, first, step, next, lower);
        lemma_which(lower, p);
        assert(step * (n - 1) == (n - 1) * step) by (nonlinear_arith);
        assert(which(n, p).map_values(f) =~= if p(lower as int) {
            which(lower, p).map_values(f).push(f(lower as int))
        } else {
            which(lower, p).map_values(f)
        });
    } else {
        assert(which(0, p).map_values(f) =~= Seq::<usize>::empty());
    }
}

/// A box holds the cells of its columns row by row.
pub proof fn law_box_cells(w: int, x0: int, x1: int, y0: int, y1: int, x: int, y: int)
    requires
        0 <= x0 <= x < x1 <= w,
        0 <= y0 <= y < y1,
        w * y1 <= usize::MAX,
    ensures
        box_cells(w, x0, x1, y0, y1).len() == (x1 - x0) * (y1 - y0),
        box_cells(w, x0, x1, y0, y1)[(y - y0) * (x1 - x0) + (x - x0)] == y * w + x,
    decreases y1 - y0,
{
    let n = x1 - x0;
    assert(n * (y1 - y0) == n * (y1 - 1 - y0) + n) by (nonlinear_arith);
    assert(0 <= y * w + x < w * y1 && w * (y1 - 1) <= w * y1 && (y - y0) * n + (x - x0) >= 0)
        by (nonlinear_arith)
        requires
            0 <= x < w,
            0 <= y0 <= y < y1,
            n > 0,
            x0 <= x,
    ;
    if y < y1 - 1 {
        law_box_cells(w, x0, x1, y0, y1 - 1, x, y);
        assert((y - y0) * n + (x - x0) < n * (y1 - 1 - y0)) by (nonlinear_arith)
            requires
                y < y1 - 1,
                x - x0 < n,
                n > 0,
        ;
    } else {
        if y0 < y1 - 1 {
            law_box_cells(w, x0, x1, y0, y1 - 1, x, y0);
        } else {
            assert(box_cells(w, x0, x1, y0, y1 - 1).len() == 0);
            assert(n * (y1 - 1 - y0) == 0) by (nonlinear_arith)
                requires
                    y0 == y1 - 1,
            ;
        }
        assert((y - y0) * n == n * (y1 - 1 - y0)) by (nonlinear_arith)
            requires
                y == y1 - 1,
        ;
    }
}

/// The inside of a rectangle leaves three pixels off each side; round it fifteen are taken, as far
/// as the image goes.
pub proof fn law_rims(w: int, h: int, x: int, y: int, width: int, height: int)
    requires
        15 <= x,
        15 <= y,
        0 < width,
        0 < height,
        x + width + 15 <= w,
        y + height + 15 <= h,
    ensures
        inner_cells(w, x, y, width, height) == box_cells(
            w,
            x + 3,
            (x + width) - 3,
            y + 3,
            (y + height) - 3,
        ),
        outer_cells(w, h, x, y, width, height) == box_cells(w, x, x + width, y - 15, y) + box_cells(
            w,
            x,
            x + width,
            y + height,
            y + height + 15,
        ) + side_cells(w, x, width, 15, y, y + height),
        side_cells(w, x, width, 15, y, y + height).len() == 30 * height,
{
    lemma_sides(w, x, width, y, y + height);
}

proof fn lemma_sides(w: int, x: int, width: int, y0: int, y1: int)
    requires
        15 <= x,
        0 < width,
        x + width + 15 <= w,
        y0 <= y1,
    ensures
        side_cells(w, x, width, 15, y0, y1).len() == 30 * (y1 - y0),
    decreases y1 - y0,
{
    if y0 < y1 {
        lemma_sides(w, x, width, y0, y1 - 1);
    }
}

/// A picked sample is that of its column and row, the last ones beyond the image.
pub proof fn law_picked(g: Seq<u8>, w: int, h: int, c: Seq<usize>, r: Seq<usize>, i: int, j: int)
    requires
        0 <= i < c.len(),
        0 <= j < r.len(),
        c[i] < w,
        r[j] < h,
    ensures
        picked(g, w, h, c, r).len() == c.len() * r.len(),
        picked(g, w, h, c, r)[j * c.len() + i] == g[r[j] * w + c[i]],
{
    let n = c.len() as int;
    vstd::arithmetic::div_mod::lemma_fundamental_div_mod_converse(j * n + i, n, j, i);
    assert(0 <= j * n + i < n * r.len()) by (nonlinear_arith)
        requires
            0 <= i < n,
            0 <= j < r.len(),
    ;
}

} // verus!
