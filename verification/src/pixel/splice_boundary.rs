//! Splice boundaries: strong edges whose two sides differ in noise, blocking and
//! colour-filter residue.
//!
//! The detector picks the strong edges of the image and, for each, the areas on
//! its two sides. What it measures on them (ratios of variances and of averages)
//! is computed in floating point by the caller from the integer samples collected
//! here. The decisions on those numbers, the clustering and the report are made
//! here again.

use crate::clusters::Cluster;
use crate::clusters::Spot;
use crate::clusters::arranged;
use crate::clusters::by_size;
use crate::clusters::cluster_spots;
use crate::clusters::clusters_of;
use crate::clusters::holds;
use crate::clusters::inside;
use crate::clusters::keep_sizable;
use crate::clusters::law_arranging_keeps_all;
use crate::clusters::law_largest_first;
use crate::clusters::law_sizable;
use crate::clusters::sizable;
use crate::clusters::size_keys;
use crate::components::lemma_cell_coords;
use crate::finding::Finding;
use crate::finding::FindingView;
use crate::finding::Region;
use crate::finding::Severity;
use crate::finding::boxed_finding;
use crate::finding::group_values;
use crate::finding::plain_finding;
use crate::finding::values;
use crate::grid::abs;
use crate::grid::channel;
use crate::grid::imin;
use crate::grid::pixel;
use crate::grid::px3;
use crate::grid::px;
use crate::number::is_share_above;
use crate::number::share_above;
use crate::robust::law_nth_smallest;
use crate::robust::nth_smallest;
use crate::robust::sort_keys;
use crate::select::how_many;
use crate::select::lemma_which;
use crate::select::lemma_which_are;
use crate::select::lemma_which_same;
use crate::select::total;
use crate::select::which;
use crate::share::Factor;
use crate::share::MAX_COUNT;
use crate::share::U40;
use crate::share::U50;
use crate::share::U75;
use crate::share::U90;
use crate::share::graded;
use crate::share::graded_of;
use crate::share::percent;
use crate::share::percent_text;
use crate::share::rest;
use crate::sobel::Gradient;
use crate::sobel::gradient_at;
use crate::sobel::sobel;
use crate::sobel::sobel_x;
use crate::sobel::sobel_y;
use crate::sobel::squared;
use crate::sobel::squared_magnitude;
use crate::text::append_decimal;
use crate::text::decimal_text;
use vstd::prelude::*;
use vstd::string::*;

verus! {

/// The splice-boundary detector.
pub struct SpliceBoundaryDetector;

/// A strong edge pixel with its gradient.
#[derive(Debug, Clone, Copy, PartialEq, Eq, Structural)]
pub struct Edge {
    pub x: usize,
    pub y: usize,
    pub gradient: Gradient,
}

/// An edge pixel of an image, with a gradient that eight-bit samples can have.
pub open spec fn is_edge(e: Edge, w: int, h: int) -> bool {
    &&& e.x < w
    &&& e.y < h
    &&& -1020 <= e.gradient.gx <= 1020
    &&& -1020 <= e.gradient.gy <= 1020
}

/// The strong edges among the first `n` pixels: gradient magnitude above sixty, at
/// least nine pixels from the border.
pub open spec fn edges_of(gray: Seq<u8>, w: int, h: int, n: nat) -> Seq<Edge>
    decreases n,
{
    if n == 0 {
        Seq::empty()
    } else {
        let rest = edges_of(gray, w, h, (n - 1) as nat);
        let x = (n - 1) % w;
        let y = (n - 1) / w;
        if 9 <= x < w - 9 && 9 <= y < h - 9 && squared_magnitude(gray, w, x, y) > 3600 {
            rest.push(
                Edge { x: x as usize, y: y as usize, gradient: gradient_at(gray, w, x, y) },
            )
        } else {
            rest
        }
    }
}

/// The distance between analyzed edges: one, or what leaves about five thousand.
pub open spec fn stride(n: int) -> int {
    if n > 5000 {
        n / 5000
    } else {
        1
    }
}

/// Every `step`-th of the edges from the first on, `k` of them.
pub open spec fn every(e: Seq<Edge>, step: int, k: nat) -> Seq<Edge>
    decreases k,
{
    if k == 0 {
        Seq::empty()
    } else {
        every(e, step, (k - 1) as nat).push(e[(k - 1) * step])
    }
}

/// The analyzed edges of an image.
pub open spec fn analyzed_edges(gray: Seq<u8>, w: int, h: int) -> Seq<Edge> {
    let e = edges_of(gray, w, h, (w * h) as nat);
    let step = stride(e.len() as int);
    every(e, step, ((e.len() + step - 1) / step) as nat)
}

/// Whether the component `g` of a gradient with squared magnitude `n` moves a point
/// `m` pixels or more: `5.6 * |g| / sqrt(n) >= m - 1/2`.
pub open spec fn moves(g: int, n: int, m: int) -> bool {
    3136 * (g * g) >= 25 * ((2 * m - 1) * (2 * m - 1)) * n
}

/// `5.6 * |g| / sqrt(n)` rounded to the nearest integer.
pub open spec fn shift_size(g: int, n: int) -> int {
    if moves(g, n, 6) {
        6
    } else if moves(g, n, 5) {
        5
    } else if moves(g, n, 4) {
        4
    } else if moves(g, n, 3) {
        3
    } else if moves(g, n, 2) {
        2
    } else if moves(g, n, 1) {
        1
    } else {
        0
    }
}

/// `5.6 * g / sqrt(n)` rounded to the nearest integer.
pub open spec fn shift(g: int, n: int) -> int {
    if g < 0 {
        -shift_size(g, n)
    } else {
        shift_size(g, n)
    }
}

/// The point beside an edge pixel, in the direction of its gradient (`sign` one) or
/// against it (`sign` minus one), 5.6 pixels away.
pub open spec fn beside(e: Edge, sign: int) -> (int, int) {
    let n = e.gradient.gx * e.gradient.gx + e.gradient.gy * e.gradient.gy;
    (e.x + sign * shift(e.gradient.gx as int, n), e.y + sign * shift(e.gradient.gy as int, n))
}

/// The eight by eight area around a point lies inside the image.
pub open spec fn fits(p: (int, int), w: int, h: int) -> bool {
    p.0 - 4 >= 0 && p.1 - 4 >= 0 && p.0 + 4 < w && p.1 + 4 < h
}

/// What is sampled on one side of an edge, in an area of eight by eight pixels.
pub struct Side {
    /// The sum of the luminances.
    pub luminance: u64,
    /// Four times the difference of each inner pixel from the mean of its four
    /// neighbours, row by row.
    pub residuals: Vec<i64>,
    /// The sum of the absolute differences of neighbours across a block boundary.
    pub boundary_sum: u64,
    /// The number of those differences.
    pub boundary_count: u64,
    /// The sum of the other absolute differences of neighbours.
    pub interior_sum: u64,
    /// The number of those differences.
    pub interior_count: u64,
    /// As `residuals`, in the green channel, where column plus row is even.
    pub even: Vec<i64>,
    /// As `residuals`, in the green channel, where column plus row is odd.
    pub odd: Vec<i64>,
}

/// The sum of the first `n` luminances of an eight by eight area.
pub open spec fn area_sum(gray: Seq<u8>, w: int, x0: int, y0: int, n: nat) -> int
    decreases n,
{
    if n == 0 {
        0
    } else {
        area_sum(gray, w, x0, y0, (n - 1) as nat) + pixel(
            gray,
            w,
            x0 + (n - 1) % 8,
            y0 + (n - 1) / 8,
        )
    }
}

/// Four times the difference of a pixel from the mean of its four neighbours.
pub open spec fn residual4(gray: Seq<u8>, w: int, x: int, y: int) -> int {
    4 * pixel(gray, w, x, y) - (pixel(gray, w, x, y - 1) + pixel(gray, w, x, y + 1) + pixel(
        gray,
        w,
        x + 1,
        y,
    ) + pixel(gray, w, x - 1, y))
}

/// As [`residual4`], in the green channel of a colour raster.
pub open spec fn green_residual4(rgb: Seq<u8>, w: int, x: int, y: int) -> int {
    4 * channel(rgb, w, x, y, 1) - (channel(rgb, w, x, y - 1, 1) + channel(rgb, w, x, y + 1, 1)
        + channel(rgb, w, x - 1, y, 1) + channel(rgb, w, x + 1, y, 1))
}

/// The residuals of the inner pixels of an area, row by row.
pub open spec fn area_residuals(gray: Seq<u8>, w: int, x0: int, y0: int) -> Seq<i64> {
    Seq::new(36, |i: int| residual4(gray, w, x0 + 1 + i % 6, y0 + 1 + i / 6) as i64)
}

/// The green residuals among the first `n` inner pixels of an area for which column
/// plus row has the given remainder by two.
pub open spec fn green_residuals(
    rgb: Seq<u8>,
    w: int,
    x0: int,
    y0: int,
    parity: int,
    n: nat,
) -> Seq<i64>
    decreases n,
{
    if n == 0 {
        Seq::empty()
    } else {
        let rest = green_residuals(rgb, w, x0, y0, parity, (n - 1) as nat);
        let x = x0 + 1 + (n - 1) % 6;
        let y = y0 + 1 + (n - 1) / 6;
        if (x + y) % 2 == parity {
            rest.push(green_residual4(rgb, w, x, y) as i64)
        } else {
            rest
        }
    }
}

/// The `i`-th pair of neighbours of an area: 56 pairs side by side, row by row, then
/// 56 pairs one above the other. Given are the pixel and the coordinate across.
pub open spec fn pair_pixel(x0: int, y0: int, i: int) -> (int, int) {
    if i < 56 {
        (x0 + 1 + i % 7, y0 + i / 7)
    } else {
        (x0 + (i - 56) % 8, y0 + 1 + (i - 56) / 8)
    }
}

/// The absolute difference of the `i`-th pair of neighbours.
pub open spec fn pair_step(gray: Seq<u8>, w: int, x0: int, y0: int, i: int) -> int {
    let p = pair_pixel(x0, y0, i);
    if i < 56 {
        abs(pixel(gray, w, p.0, p.1) - pixel(gray, w, p.0 - 1, p.1))
    } else {
        abs(pixel(gray, w, p.0, p.1) - pixel(gray, w, p.0, p.1 - 1))
    }
}

/// Whether the `i`-th pair of neighbours lies across a block boundary.
pub open spec fn pair_on_boundary(x0: int, y0: int, i: int) -> bool {
    let p = pair_pixel(x0, y0, i);
    if i < 56 {
        p.0 % 8 == 0
    } else {
        p.1 % 8 == 0
    }
}

/// The sum of the differences among the first `n` pairs that lie across a block
/// boundary, or that do not.
pub open spec fn step_sum(
    gray: Seq<u8>,
    w: int,
    x0: int,
    y0: int,
    boundary: bool,
    n: nat,
) -> int
    decreases n,
{
    if n == 0 {
        0
    } else {
        step_sum(gray, w, x0, y0, boundary, (n - 1) as nat) + if pair_on_boundary(x0, y0, n - 1)
            == boundary {
            pair_step(gray, w, x0, y0, n - 1)
        } else {
            0
        }
    }
}

/// The number of pairs among the first `n` that lie across a block boundary, or that
/// do not.
pub open spec fn step_count(x0: int, y0: int, boundary: bool, n: nat) -> int
    decreases n,
{
    if n == 0 {
        0
    } else {
        step_count(x0, y0, boundary, (n - 1) as nat) + if pair_on_boundary(x0, y0, n - 1)
            == boundary {
            1int
        } else {
            0int
        }
    }
}

/// A side holds the samples of the area whose top left pixel is `(x0, y0)`.
pub open spec fn samples_area(
    s: Side,
    gray: Seq<u8>,
    rgb: Seq<u8>,
    w: int,
    x0: int,
    y0: int,
) -> bool {
    &&& s.luminance == area_sum(gray, w, x0, y0, 64)
    &&& s.residuals@ == area_residuals(gray, w, x0, y0)
    &&& s.boundary_sum == step_sum(gray, w, x0, y0, true, 112)
    &&& s.boundary_count == step_count(x0, y0, true, 112)
    &&& s.interior_sum == step_sum(gray, w, x0, y0, false, 112)
    &&& s.interior_count == step_count(x0, y0, false, 112)
    &&& s.even@ == green_residuals(rgb, w, x0, y0, 0, 36)
    &&& s.odd@ == green_residuals(rgb, w, x0, y0, 1, 36)
}

fn shifts(g: i64, n: i64, m: i64) -> (r: bool)
    requires
        -1020 <= g <= 1020,
        0 <= n <= 2080800,
        1 <= m <= 6,
    ensures
        r == moves(g as int, n as int, m as int),
{
    proof {
        assert(0 <= g * g <= 1040400) by (nonlinear_arith)
            requires
                -1020 <= g <= 1020,
        ;
        assert(0 <= (2 * m - 1) * (2 * m - 1) <= 121) by (nonlinear_arith)
            requires
                1 <= m <= 6,
        ;
        assert(0 <= 25 * ((2 * m - 1) * (2 * m - 1)) * n <= 25 * 121 * 2080800) by (nonlinear_arith)
            requires
                0 <= (2 * m - 1) * (2 * m - 1) <= 121,
                0 <= n <= 2080800,
        ;
    }
    3136 * (g * g) >= 25 * ((2 * m - 1) * (2 * m - 1)) * n
}

fn shift_of(g: i64, n: i64) -> (r: i64)
    requires
        -1020 <= g <= 1020,
        0 <= n <= 2080800,
    ensures
        r == shift(g as int, n as int),
        -6 <= r <= 6,
{
    let m: i64 = if shifts(g, n, 6) {
        6
    } else if shifts(g, n, 5) {
        5
    } else if shifts(g, n, 4) {
        4
    } else if shifts(g, n, 3) {
        3
    } else if shifts(g, n, 2) {
        2
    } else if shifts(g, n, 1) {
        1
    } else {
        0
    };
    if g < 0 {
        -m
    } else {
        m
    }
}

fn residual_px(gray: &[u8], w: usize, h: usize, x: usize, y: usize) -> (r: i64)
    requires
        gray.len() == w * h,
        1 <= x,
        x + 1 < w,
        1 <= y,
        y + 1 < h,
    ensures
        r == residual4(gray@, w as int, x as int, y as int),
{
    4 * px(gray, w, h, x, y) - (px(gray, w, h, x, y - 1) + px(gray, w, h, x, y + 1) + px(
        gray,
        w,
        h,
        x + 1,
        y,
    ) + px(gray, w, h, x - 1, y))
}

fn green_residual_px(rgb: &[u8], w: usize, h: usize, x: usize, y: usize) -> (r: i64)
    requires
        rgb.len() == w * h * 3,
        1 <= x,
        x + 1 < w,
        1 <= y,
        y + 1 < h,
    ensures
        r == green_residual4(rgb@, w as int, x as int, y as int),
{
    4 * px3(rgb, w, h, x, y, 1) - (px3(rgb, w, h, x, y - 1, 1) + px3(rgb, w, h, x, y + 1, 1) + px3(
        rgb,
        w,
        h,
        x - 1,
        y,
        1,
    ) + px3(rgb, w, h, x + 1, y, 1))
}

proof fn lemma_area_bound(gray: Seq<u8>, w: int, x0: int, y0: int, n: nat)
    ensures
        0 <= area_sum(gray, w, x0, y0, n) <= 255 * n,
    decreases n,
{
    if n > 0 {
        lemma_area_bound(gray, w, x0, y0, (n - 1) as nat);
    }
}

proof fn lemma_step_bound(gray: Seq<u8>, w: int, x0: int, y0: int, boundary: bool, n: nat)
    ensures
        0 <= step_sum(gray, w, x0, y0, boundary, n) <= 255 * n,
        0 <= step_count(x0, y0, boundary, n) <= n,
    decreases n,
{
    if n > 0 {
        lemma_step_bound(gray, w, x0, y0, boundary, (n - 1) as nat);
    }
}

fn sum_area(gray: &[u8], w: usize, h: usize, x0: usize, y0: usize) -> (r: u64)
    requires
        gray.len() == w * h,
        x0 + 8 <= w,
        y0 + 8 <= h,
    ensures
        r == area_sum(gray@, w as int, x0 as int, y0 as int, 64),
        r <= 16320,
{
    let mut sum: u64 = 0;
    let mut i: usize = 0;
    while i < 64
        invariant
            i <= 64,
            gray.len() == w * h,
            x0 + 8 <= w,
            y0 + 8 <= h,
            sum == area_sum(gray@, w as int, x0 as int, y0 as int, i as nat),
        decreases 64 - i,
    {
        proof {
            lemma_area_bound(gray@, w as int, x0 as int, y0 as int, i as nat);
        }
        sum += px(gray, w, h, x0 + i % 8, y0 + i / 8) as u64;
        i += 1;
    }
    proof {
        lemma_area_bound(gray@, w as int, x0 as int, y0 as int, 64);
    }
    sum
}

fn sample_residuals(gray: &[u8], w: usize, h: usize, x0: usize, y0: usize) -> (r: Vec<i64>)
    requires
        gray.len() == w * h,
        x0 + 8 <= w,
        y0 + 8 <= h,
    ensures
        r@ == area_residuals(gray@, w as int, x0 as int, y0 as int),
{
    let mut r: Vec<i64> = Vec::new();
    let mut i: usize = 0;
    while i < 36
        invariant
            i <= 36,
            gray.len() == w * h,
            x0 + 8 <= w,
            y0 + 8 <= h,
            r.len() == i,
            forall|j: int|
                0 <= j < i ==> r@[j] == #[trigger] area_residuals(
                    gray@,
                    w as int,
                    x0 as int,
                    y0 as int,
                )[j],
        decreases 36 - i,
    {
        r.push(residual_px(gray, w, h, x0 + 1 + i % 6, y0 + 1 + i / 6));
        i += 1;
    }
    proof {
        assert(r@ =~= area_residuals(gray@, w as int, x0 as int, y0 as int));
    }
    r
}

fn has_parity(x: usize, y: usize, parity: usize) -> (r: bool)
    requires
        parity < 2,
    ensures
        r == ((x + y) % 2 == parity),
{
    (x % 2 + y % 2) % 2 == parity
}

fn sample_green(rgb: &[u8], w: usize, h: usize, x0: usize, y0: usize, parity: usize) -> (r: Vec<i64>)
    requires
        rgb.len() == w * h * 3,
        x0 + 8 <= w,
        y0 + 8 <= h,
        parity < 2,
    ensures
        r@ == green_residuals(rgb@, w as int, x0 as int, y0 as int, parity as int, 36),
{
    let mut r: Vec<i64> = Vec::new();
    let mut i: usize = 0;
    while i < 36
        invariant
            i <= 36,
            rgb.len() == w * h * 3,
            x0 + 8 <= w,
            y0 + 8 <= h,
            parity < 2,
            r@ == green_residuals(rgb@, w as int, x0 as int, y0 as int, parity as int, i as nat),
        decreases 36 - i,
    {
        let x: usize = x0 + 1 + i % 6;
        let y: usize = y0 + 1 + i / 6;
        if has_parity(x, y, parity) {
            let g: i64 = green_residual_px(rgb, w, h, x, y);
            r.push(g);
        }
        i += 1;
    }
    r
}

fn sample_side(gray: &[u8], rgb: &[u8], w: usize, h: usize, x0: usize, y0: usize) -> (r: Side)
    requires
        gray.len() == w * h,
        rgb.len() == w * h * 3,
        x0 + 8 <= w,
        y0 + 8 <= h,
    ensures
        samples_area(r, gray@, rgb@, w as int, x0 as int, y0 as int),
{
    let luminance: u64 = sum_area(gray, w, h, x0, y0);
    let residuals = sample_residuals(gray, w, h, x0, y0);
    let even = sample_green(rgb, w, h, x0, y0, 0);
    let odd = sample_green(rgb, w, h, x0, y0, 1);
    let mut boundary_sum: u64 = 0;
    let mut boundary_count: u64 = 0;
    let mut interior_sum: u64 = 0;
    let mut interior_count: u64 = 0;
    let mut k: usize = 0;
    while k < 112
        invariant
            k <= 112,
            gray.len() == w * h,
            x0 + 8 <= w,
            y0 + 8 <= h,
            boundary_sum == step_sum(gray@, w as int, x0 as int, y0 as int, true, k as nat),
            boundary_count == step_count(x0 as int, y0 as int, true, k as nat),
            interior_sum == step_sum(gray@, w as int, x0 as int, y0 as int, false, k as nat),
            interior_count == step_count(x0 as int, y0 as int, false, k as nat),
        decreases 112 - k,
    {
        proof {
            lemma_step_bound(gray@, w as int, x0 as int, y0 as int, true, k as nat);
            lemma_step_bound(gray@, w as int, x0 as int, y0 as int, false, k as nat);
        }
        let side_by_side: bool = k < 56;
        let x: usize = if side_by_side {
            x0 + 1 + k % 7
        } else {
            x0 + (k - 56) % 8
        };
        let y: usize = if side_by_side {
            y0 + k / 7
        } else {
            y0 + 1 + (k - 56) / 8
        };
        let here: i64 = px(gray, w, h, x, y);
        let there: i64 = if side_by_side {
            px(gray, w, h, x - 1, y)
        } else {
            px(gray, w, h, x, y - 1)
        };
        let step: u64 = if here >= there {
            (here - there) as u64
        } else {
            (there - here) as u64
        };
        let on_boundary: bool = if side_by_side {
            x % 8 == 0
        } else {
            y % 8 == 0
        };
        if on_boundary {
            boundary_sum += step;
            boundary_count += 1;
        } else {
            interior_sum += step;
            interior_count += 1;
        }
        k += 1;
    }
    Side {
        luminance,
        residuals,
        boundary_sum,
        boundary_count,
        interior_sum,
        interior_count,
        even,
        odd,
    }
}

/// An edge is worth comparing: the areas on both sides lie inside the image, and
/// their mean luminances differ by at most eighty.
pub open spec fn is_comparable(gray: Seq<u8>, w: int, h: int, e: Edge) -> bool {
    let a = beside(e, 1);
    let b = beside(e, -1);
    &&& fits(a, w, h)
    &&& fits(b, w, h)
    &&& abs(
        area_sum(gray, w, a.0 - 4, a.1 - 4, 64) - area_sum(gray, w, b.0 - 4, b.1 - 4, 64),
    ) <= 80 * 64
}

impl SpliceBoundaryDetector {
    /// Whether an image is large enough to be analyzed.
    pub fn large_enough(&self, w: usize, h: usize) -> (r: bool)
        ensures
            r == (w >= 32 && h >= 32),
    {
        w >= 32 && h >= 32
    }

    /// The strong edges that are analyzed: all, or an even sample of them.
    pub fn strong_edges(&self, gray: &[u8], w: usize, h: usize) -> (r: Vec<Edge>)
        requires
            gray.len() == w * h,
        ensures
            r@ == analyzed_edges(gray@, w as int, h as int),
            forall|k: int| 0 <= k < r.len() ==> is_edge(#[trigger] r@[k], w as int, h as int),
    {
        let mut all: Vec<Edge> = Vec::new();
        let mut i: usize = 0;
        while i < gray.len()
            invariant
                gray.len() == w * h,
                i <= gray.len(),
                all@ == edges_of(gray@, w as int, h as int, i as nat),
                forall|k: int|
                    0 <= k < all.len() ==> is_edge(#[trigger] all@[k], w as int, h as int),
            decreases gray.len() - i,
        {
            proof {
                lemma_cell_coords(w as int, h as int, i as int);
            }
            let x: usize = i % w;
            let y: usize = i / w;
            if 9 <= x && w - x > 9 && 9 <= y && h - y > 9 {
                let g = sobel(gray, w, h, x, y);
                if squared(g) > 3600 {
                    all.push(Edge { x, y, gradient: g });
                }
            }
            i += 1;
        }
        let step: usize = if all.len() > 5000 {
            all.len() / 5000
        } else {
            1
        };
        let mut r: Vec<Edge> = Vec::new();
        let mut at: usize = 0;
        let ghost mut taken: nat = 0;
        proof {
            assert(0 * step == 0) by (nonlinear_arith);
        }
        while at < all.len()
            invariant
                gray.len() == w * h,
                all@ == edges_of(gray@, w as int, h as int, (w * h) as nat),
                forall|k: int|
                    0 <= k < all.len() ==> is_edge(#[trigger] all@[k], w as int, h as int),
                forall|k: int| 0 <= k < r.len() ==> is_edge(#[trigger] r@[k], w as int, h as int),
                step == stride(all@.len() as int),
                step >= 1,
                at == taken * step,
                at < all.len() + step,
                r@ == every(all@, step as int, taken),
            decreases all.len() + step - at,
        {
            r.push(all[at]);
            proof {
                taken = taken + 1;
                assert(taken * step == (taken - 1) * step + step) by (nonlinear_arith);
            }
            if all.len() - at <= step {
                proof {
                    assert(taken == (all.len() + step - 1) / (step as int)) by (nonlinear_arith)
                        requires
                            at == (taken - 1) * step,
                            taken * step == (taken - 1) * step + step,
                            at < all.len(),
                            all.len() - at <= step,
                            step >= 1,
                    ;
                }
                return r;
            }
            at += step;
        }
        proof {
            assert(all.len() == 0 ==> (all.len() + step - 1) / (step as int) == 0) by (nonlinear_arith)
                requires
                    step >= 1,
            ;
            assert(taken == (all.len() + step - 1) / (step as int)) by (nonlinear_arith)
                requires
                    at == taken * step,
                    all.len() <= at < all.len() + step,
                    step >= 1,
            ;
        }
        r
    }

    /// Samples the two sides of an edge, or nothing where they cannot be compared.
    pub fn analyze_edge_pixel(
        &self,
        gray: &[u8],
        rgb: &[u8],
        w: usize,
        h: usize,
        e: Edge,
    ) -> (r: Option<(Side, Side)>)
        requires
            gray.len() == w * h,
            rgb.len() == w * h * 3,
            is_edge(e, w as int, h as int),
            w < i64::MAX - 16,
            h < i64::MAX - 16,
        ensures
            match r {
                Some((a, b)) => is_comparable(gray@, w as int, h as int, e) && samples_area(
                    a,
                    gray@,
                    rgb@,
                    w as int,
                    beside(e, 1).0 - 4,
                    beside(e, 1).1 - 4,
                ) && samples_area(
                    b,
                    gray@,
                    rgb@,
                    w as int,
                    beside(e, -1).0 - 4,
                    beside(e, -1).1 - 4,
                ),
                None => !is_comparable(gray@, w as int, h as int, e),
            },
    {
        let n: i64 = squared(e.gradient);
        let dx: i64 = shift_of(e.gradient.gx, n);
        let dy: i64 = shift_of(e.gradient.gy, n);
        let wi: i64 = w as i64;
        let hi: i64 = h as i64;
        let ax: i64 = e.x as i64 + dx;
        let ay: i64 = e.y as i64 + dy;
        let bx: i64 = e.x as i64 - dx;
        let by: i64 = e.y as i64 - dy;
        proof {
            assert(beside(e, 1) == (ax as int, ay as int));
            assert(beside(e, -1) == (bx as int, by as int));
        }
        if ax < 4 || ay < 4 || bx < 4 || by < 4 || ax + 4 >= wi || ay + 4 >= hi || bx + 4 >= wi
            || by + 4 >= hi {
            return None;
        }
        let a_sum: u64 = sum_area(gray, w, h, (ax - 4) as usize, (ay - 4) as usize);
        let b_sum: u64 = sum_area(gray, w, h, (bx - 4) as usize, (by - 4) as usize);
        let diff: u64 = if a_sum >= b_sum {
            a_sum - b_sum
        } else {
            b_sum - a_sum
        };
        if diff > 5120 {
            return None;
        }
        let a = sample_side(gray, rgb, w, h, (ax - 4) as usize, (ay - 4) as usize);
        let b = sample_side(gray, rgb, w, h, (bx - 4) as usize, (by - 4) as usize);
        Some((a, b))
    }
}


/// Above this ratio of noise variances an edge is suspicious, as a key: 2.0.
pub const NOISE_HIGH: i64 = 0x4000_0000_0000_0000;

/// Below this ratio of noise variances an edge is suspicious, as a key: 0.5.
pub const NOISE_LOW: i64 = 0x3FE0_0000_0000_0000;

/// Above this relative difference of blocking an edge is suspicious, as a key: 0.3.
pub const BLOCKING_HIGH: i64 = 0x3FD3_3333_3333_3333;

/// Above this relative difference of colour-filter residue an edge is suspicious, as
/// a key: 0.4.
pub const CFA_HIGH: i64 = 0x3FD9_9999_9999_999A;

/// What was measured across an edge, as keys.
#[derive(Debug, Clone, Copy, PartialEq, Eq, Structural)]
pub struct Measured {
    pub noise_ratio: i64,
    pub blocking_diff: i64,
    pub cfa_diff: i64,
}

/// The suspicious properties of an edge.
#[derive(Debug, Clone, Copy, PartialEq, Eq, Structural)]
pub struct Indicators {
    pub noise: bool,
    pub blocking: bool,
    pub cfa: bool,
}

/// What makes an edge suspicious.
pub open spec fn indicators_of(m: Measured) -> Indicators {
    Indicators {
        noise: m.noise_ratio > NOISE_HIGH || m.noise_ratio < NOISE_LOW,
        blocking: m.blocking_diff > BLOCKING_HIGH,
        cfa: m.cfa_diff > CFA_HIGH,
    }
}

/// An edge has two suspicious properties or more.
pub open spec fn is_multiple(i: Indicators) -> bool {
    (i.noise && i.blocking) || (i.noise && i.cfa) || (i.blocking && i.cfa)
}

/// An analyzed edge: where it is, what is suspicious about it, and how strongly.
#[derive(Debug, Clone, Copy, PartialEq, Eq, Structural)]
pub struct EdgeVerdict {
    pub x: usize,
    pub y: usize,
    pub indicators: Indicators,
    pub score: i64,
}

/// What the analyzed edges add up to.
pub struct Tally {
    /// Edges that are suspicious for their noise.
    pub noise: usize,
    /// Edges that are suspicious for their blocking.
    pub blocking: usize,
    /// Edges that are suspicious for their colour-filter residue.
    pub cfa: usize,
    /// Edges with two suspicious properties or more.
    pub multiple: Vec<Spot>,
}

/// The edges among the first `n` that are suspicious for their noise.
pub open spec fn noise_count(v: Seq<EdgeVerdict>, n: nat) -> nat
    decreases n,
{
    if n == 0 {
        0
    } else {
        noise_count(v, (n - 1) as nat) + if v[n - 1].indicators.noise {
            1nat
        } else {
            0nat
        }
    }
}

/// The edges among the first `n` that are suspicious for their blocking.
pub open spec fn blocking_count(v: Seq<EdgeVerdict>, n: nat) -> nat
    decreases n,
{
    if n == 0 {
        0
    } else {
        blocking_count(v, (n - 1) as nat) + if v[n - 1].indicators.blocking {
            1nat
        } else {
            0nat
        }
    }
}

/// The edges among the first `n` that are suspicious for their colour-filter residue.
pub open spec fn cfa_count(v: Seq<EdgeVerdict>, n: nat) -> nat
    decreases n,
{
    if n == 0 {
        0
    } else {
        cfa_count(v, (n - 1) as nat) + if v[n - 1].indicators.cfa {
            1nat
        } else {
            0nat
        }
    }
}

/// The edges among the first `n` with two suspicious properties or more.
pub open spec fn multiple_spots(v: Seq<EdgeVerdict>, n: nat) -> Seq<Spot>
    decreases n,
{
    if n == 0 {
        Seq::empty()
    } else if is_multiple(v[n - 1].indicators) {
        multiple_spots(v, (n - 1) as nat).push(
            Spot { x: v[n - 1].x, y: v[n - 1].y, score: v[n - 1].score },
        )
    } else {
        multiple_spots(v, (n - 1) as nat)
    }
}

/// The scores of positions.
pub open spec fn scores_of(s: Seq<Spot>) -> Seq<i64> {
    Seq::new(s.len(), |i: int| s[i].score)
}

/// The positions among the first `n` that score a threshold or more.
pub open spec fn at_least(s: Seq<Spot>, threshold: i64, n: nat) -> Seq<Spot>
    decreases n,
{
    if n == 0 {
        Seq::empty()
    } else if s[n - 1].score >= threshold {
        at_least(s, threshold, (n - 1) as nat).push(s[n - 1])
    } else {
        at_least(s, threshold, (n - 1) as nat)
    }
}

/// The positions that count: all if there are at most twenty, otherwise the top tenth
/// on a document and the top quarter elsewhere.
pub open spec fn suspicious(s: Seq<Spot>, document: bool) -> Seq<Spot> {
    if s.len() > 20 {
        let percent: int = if document {
            90
        } else {
            75
        };
        let threshold = nth_smallest(scores_of(s), s.len() * percent / 100);
        at_least(s, threshold, s.len())
    } else {
        s
    }
}

/// The boundary regions: clusters of at least three positions, largest first; on a
/// document the ten largest.
pub open spec fn boundary_regions(s: Seq<Spot>, w: int, h: int, document: bool) -> Seq<Cluster> {
    let c = clusters_of(s, 32, w, h, false);
    let kept = sizable(c, 3, c.len());
    let sorted = arranged(kept, size_keys(kept));
    if document {
        sorted.take(imin(sorted.len() as int, 10))
    } else {
        sorted
    }
}

/// The positions among the first `n` that lie in the box of a cluster.
pub open spec fn members_of(s: Seq<Spot>, c: Cluster, n: nat) -> Seq<usize>
    decreases n,
{
    if n == 0 {
        Seq::empty()
    } else {
        let p = s[n - 1];
        let rest = members_of(s, c, (n - 1) as nat);
        if c.x_min <= p.x <= c.x_max && c.y_min <= p.y <= c.y_max {
            rest.push((n - 1) as usize)
        } else {
            rest
        }
    }
}

impl SpliceBoundaryDetector {
    /// What makes an edge suspicious.
    pub fn indicators(&self, m: Measured) -> (r: Indicators)
        ensures
            r == indicators_of(m),
    {
        Indicators {
            noise: m.noise_ratio > NOISE_HIGH || m.noise_ratio < NOISE_LOW,
            blocking: m.blocking_diff > BLOCKING_HIGH,
            cfa: m.cfa_diff > CFA_HIGH,
        }
    }

    /// Counts the suspicious edges and collects those with several indicators.
    pub fn tally(&self, v: &Vec<EdgeVerdict>) -> (r: Tally)
        ensures
            r.noise == noise_count(v@, v@.len()),
            r.blocking == blocking_count(v@, v@.len()),
            r.cfa == cfa_count(v@, v@.len()),
            r.multiple@ == multiple_spots(v@, v@.len()),
    {
        let mut noise: usize = 0;
        let mut blocking: usize = 0;
        let mut cfa: usize = 0;
        let mut multiple: Vec<Spot> = Vec::new();
        let mut i: usize = 0;
        while i < v.len()
            invariant
                i <= v.len(),
                noise <= i,
                blocking <= i,
                cfa <= i,
                noise == noise_count(v@, i as nat),
                blocking == blocking_count(v@, i as nat),
                cfa == cfa_count(v@, i as nat),
                multiple@ == multiple_spots(v@, i as nat),
            decreases v.len() - i,
        {
            let e: EdgeVerdict = v[i];
            if e.indicators.noise {
                noise += 1;
            }
            if e.indicators.blocking {
                blocking += 1;
            }
            if e.indicators.cfa {
                cfa += 1;
            }
            let ind = e.indicators;
            if (ind.noise && ind.blocking) || (ind.noise && ind.cfa) || (ind.blocking && ind.cfa) {
                multiple.push(Spot { x: e.x, y: e.y, score: e.score });
            }
            i += 1;
        }
        Tally { noise, blocking, cfa, multiple }
    }

    /// Keeps the positions that count.
    pub fn select_suspicious(&self, s: &Vec<Spot>, document: bool) -> (r: Vec<Spot>)
        ensures
            r@ == suspicious(s@, document),
    {
        let mut r: Vec<Spot> = Vec::new();
        if s.len() > 20 {
            let mut scores: Vec<i64> = Vec::new();
            let mut i: usize = 0;
            while i < s.len()
                invariant
                    i <= s.len(),
                    scores@ =~= scores_of(s@).take(i as int),
                decreases s.len() - i,
            {
                scores.push(s[i].score);
                i += 1;
            }
            proof {
                assert(scores@ =~= scores_of(s@));
            }
            let sorted = sort_keys(&scores);
            let percent: usize = if document {
                90
            } else {
                75
            };
            proof {
                let n = s.len() as int;
                assert(0 <= n * percent <= 100 * n && n * percent < 100 * n) by (nonlinear_arith)
                    requires
                        n > 0,
                        percent == 90 || percent == 75,
                ;
            }
            let rank: usize = (s.len() as u128 * percent as u128 / 100) as usize;
            let threshold: i64 = sorted[rank];
            let mut k: usize = 0;
            while k < s.len()
                invariant
                    k <= s.len(),
                    r@ == at_least(s@, threshold, k as nat),
                decreases s.len() - k,
            {
                if s[k].score >= threshold {
                    r.push(s[k]);
                }
                k += 1;
            }
        } else {
            let mut k: usize = 0;
            while k < s.len()
                invariant
                    k <= s.len(),
                    r@ =~= s@.take(k as int),
                decreases s.len() - k,
            {
                r.push(s[k]);
                k += 1;
            }
            proof {
                assert(s@.take(s@.len() as int) =~= s@);
            }
        }
        r
    }

    /// Clusters suspicious positions into boundary regions.
    pub fn cluster_positions(&self, positions: &Vec<Spot>, w: usize, h: usize, document: bool) -> (r:
        Vec<Cluster>)
        requires
            w * h <= usize::MAX,
            inside(positions@, w as int, h as int),
        ensures
            r@ == boundary_regions(positions@, w as int, h as int, document),
            document ==> r.len() <= 10,
            forall|i: int|
                0 <= i < r.len() ==> (#[trigger] r@[i]).count >= 3 && r@[i].x_min <= r@[i].x_max < w
                    && r@[i].y_min <= r@[i].y_max < h,
    {
        let c = cluster_spots(positions, 32, w, h, false);
        let kept = keep_sizable(&c, 3);
        let mut sorted = by_size(&kept);
        let ghost whole = sorted@;
        if document && sorted.len() > 10 {
            sorted.truncate(10);
        }
        proof {
            assert(sorted@ =~= boundary_regions(positions@, w as int, h as int, document));
            assert forall|i: int| 0 <= i < sorted.len() implies (#[trigger] sorted@[i]).count >= 3
                && sorted@[i].x_min <= sorted@[i].x_max < w && sorted@[i].y_min <= sorted@[i].y_max
                < h by {
                assert(whole[i] == sorted@[i]);
                assert(kept@.contains(whole[i]));
                let k = choose|k: int| 0 <= k < kept@.len() && kept@[k] == whole[i];
                assert(c@.contains(kept@[k]));
            }
        }
        sorted
    }

    /// The positions in the box of a cluster.
    pub fn members(&self, s: &Vec<Spot>, c: Cluster) -> (r: Vec<usize>)
        ensures
            r@ == members_of(s@, c, s@.len()),
    {
        let mut r: Vec<usize> = Vec::new();
        let mut i: usize = 0;
        while i < s.len()
            invariant
                i <= s.len(),
                r@ == members_of(s@, c, i as nat),
            decreases s.len() - i,
        {
            let p: Spot = s[i];
            if c.x_min <= p.x && p.x <= c.x_max && c.y_min <= p.y && p.y <= c.y_max {
                r.push(i);
            }
            i += 1;
        }
        r
    }
}

/// The numbers of suspicious edges among the analyzed ones.
#[derive(Debug, Clone, Copy, PartialEq, Eq, Structural)]
pub struct EdgeCounts {
    /// Edges that are suspicious for their noise.
    pub noise: usize,
    /// Edges that are suspicious for their blocking.
    pub blocking: usize,
    /// Edges that are suspicious for their colour-filter residue.
    pub cfa: usize,
    /// Edges with several indicators.
    pub multiple: usize,
    /// All analyzed edges.
    pub total: usize,
}

impl EdgeCounts {
    /// No kind has more edges than there are.
    pub open spec fn wf(self) -> bool {
        &&& self.noise <= self.total
        &&& self.blocking <= self.total
        &&& self.cfa <= self.total
        &&& self.multiple <= self.total
        &&& self.total <= MAX_COUNT
    }
}

/// A share of the analyzed edges in percent, with one decimal.
pub open spec fn edge_share(part: usize, k: EdgeCounts) -> Seq<char> {
    percent_text(part as nat, k.total as nat)
}

/// The severity of a share of edges with several indicators.
pub open spec fn splice_severity(multiple: int, total: int) -> Severity {
    if share_above(multiple, total, 15, 100) {
        Severity::Critical
    } else if share_above(multiple, total, 8, 100) {
        Severity::High
    } else {
        Severity::Medium
    }
}

/// The finding where no region stands out.
pub open spec fn spread_finding(k: EdgeCounts) -> FindingView {
    plain_finding(
        "splice_boundary"@,
        "splice_boundary_detected"@,
        "Splice boundary detected: "@ + edge_share(k.multiple, k)
            + "% of strong edges show multi-indicator forensic discontinuity (noise: "@
            + edge_share(k.noise, k) + "%, blocking: "@ + edge_share(k.blocking, k) + "%, CFA: "@
            + edge_share(k.cfa, k)
            + "%) - distinct image regions with different provenance are joined"@,
        splice_severity(k.multiple as int, k.total as int),
        graded_of(U50, k.multiple as nat, k.total as nat, Factor { num: 3, den: 1 }, U90),
    )
}

/// The finding for region `i` of `count` (counted from zero).
pub open spec fn region_finding(
    c: Cluster,
    i: int,
    count: int,
    k: EdgeCounts,
    confidence: u64,
) -> FindingView {
    boxed_finding(
        "splice_boundary"@,
        "splice_boundary_detected"@,
        "Splice boundary region "@ + decimal_text((i + 1) as nat) + " of "@ + decimal_text(
            count as nat,
        ) + ": "@ + decimal_text(c.count as nat) + " suspicious edge pixels at ("@ + decimal_text(
            c.x_min as nat,
        ) + ","@ + decimal_text(c.y_min as nat) + ")->("@ + decimal_text(c.x_max as nat) + ","@
            + decimal_text(c.y_max as nat) + ") (noise: "@ + edge_share(k.noise, k)
            + "%, blocking: "@ + edge_share(k.blocking, k) + "%, CFA: "@ + edge_share(k.cfa, k)
            + "%)"@,
        splice_severity(k.multiple as int, k.total as int),
        confidence,
        c.x_min as u32,
        c.y_min as u32,
        (c.x_max - c.x_min + 1) as u32,
        (c.y_max - c.y_min + 1) as u32,
    )
}

/// The finding where the noise alone is suspicious.
pub open spec fn noise_finding(c: Seq<Cluster>, k: EdgeCounts) -> FindingView {
    let f = plain_finding(
        "splice_boundary"@,
        "splice_boundary_detected"@,
        "Noise variance transitions detected along "@ + edge_share(k.noise, k)
            + "% of strong edges - possible splice boundary where regions with different noise characteristics meet"@,
        Severity::Medium,
        graded_of(U40, k.noise as nat, k.total as nat, Factor { num: 2, den: 1 }, U75),
    );
    if c.len() > 0 {
        FindingView {
            region: Some(
                crate::finding::RegionView::BoundingBox {
                    x: c[0].x_min as u32,
                    y: c[0].y_min as u32,
                    width: (c[0].x_max - c[0].x_min + 1) as u32,
                    height: (c[0].y_max - c[0].y_min + 1) as u32,
                },
            ),
            ..f
        }
    } else {
        f
    }
}

/// The splice report.
pub open spec fn splice_findings(k: EdgeCounts, c: Seq<Cluster>, regions: Seq<u64>) -> Seq<
    FindingView,
> {
    if k.total == 0 {
        Seq::empty()
    } else if share_above(k.multiple as int, k.total as int, 3, 100) {
        if c.len() == 0 {
            seq![spread_finding(k)]
        } else {
            Seq::new(c.len(), |i: int| region_finding(c[i], i, c.len() as int, k, regions[i]))
        }
    } else if share_above(k.noise as int, k.total as int, 6, 100) {
        seq![noise_finding(c, k)]
    } else {
        Seq::empty()
    }
}

fn region_of(c: Cluster) -> (r: Region)
    requires
        c.x_min <= c.x_max < u32::MAX,
        c.y_min <= c.y_max < u32::MAX,
    ensures
        r@ == (crate::finding::RegionView::BoundingBox {
            x: c.x_min as u32,
            y: c.y_min as u32,
            width: (c.x_max - c.x_min + 1) as u32,
            height: (c.y_max - c.y_min + 1) as u32,
        }),
{
    Region::BoundingBox {
        x: c.x_min as u32,
        y: c.y_min as u32,
        width: (c.x_max - c.x_min + 1) as u32,
        height: (c.y_max - c.y_min + 1) as u32,
    }
}

/// Appends the shares of edges by kind.
fn append_shares(s: &mut String, k: EdgeCounts)
    requires
        k.wf(),
        k.total > 0,
    ensures
        final(s)@ == old(s)@ + edge_share(k.noise, k) + "%, blocking: "@ + edge_share(k.blocking, k)
            + "%, CFA: "@ + edge_share(k.cfa, k),
{
    let noise = percent(k.noise as u64, k.total as u64);
    s.append(noise.as_str());
    s.append("%, blocking: ");
    let blocking = percent(k.blocking as u64, k.total as u64);
    s.append(blocking.as_str());
    s.append("%, CFA: ");
    let cfa = percent(k.cfa as u64, k.total as u64);
    s.append(cfa.as_str());
}

impl SpliceBoundaryDetector {
    fn report_region(
        &self,
        c: Cluster,
        i: usize,
        count: usize,
        severity: Severity,
        k: EdgeCounts,
        confidence: u64,
    ) -> (r: Finding)
        requires
            i < count,
            k.wf(),
            k.total > 0,
            severity == splice_severity(k.multiple as int, k.total as int),
            c.x_min <= c.x_max < u32::MAX,
            c.y_min <= c.y_max < u32::MAX,
        ensures
            r@ == region_finding(c, i as int, count as int, k, confidence),
    {
        let mut s = "Splice boundary region ".to_string();
        append_decimal(&mut s, i as u64 + 1);
        s.append(" of ");
        append_decimal(&mut s, count as u64);
        s.append(": ");
        append_decimal(&mut s, c.count as u64);
        s.append(" suspicious edge pixels at (");
        append_decimal(&mut s, c.x_min as u64);
        s.append(",");
        append_decimal(&mut s, c.y_min as u64);
        s.append(")->(");
        append_decimal(&mut s, c.x_max as u64);
        s.append(",");
        append_decimal(&mut s, c.y_max as u64);
        s.append(") (noise: ");
        append_shares(&mut s, k);
        s.append("%)");
        Finding::new(
            "splice_boundary",
            "splice_boundary_detected",
            s,
            severity,
            confidence,
        ).with_region(region_of(c))
    }

    /// Reports splice boundaries from the counts of suspicious edges and the boundary
    /// regions, with the confidence in each region.
    pub fn report(
        &self,
        k: EdgeCounts,
        clusters: &Vec<Cluster>,
        regions: &Vec<u64>,
    ) -> (r: Vec<Finding>)
        requires
            k.wf(),
            regions.len() == clusters.len(),
            forall|i: int|
                0 <= i < clusters.len() ==> (#[trigger] clusters@[i]).x_min <= clusters@[i].x_max
                    < u32::MAX && clusters@[i].y_min <= clusters@[i].y_max < u32::MAX,
        ensures
            values(r@) == splice_findings(k, clusters@, regions@),
    {
        broadcast use group_values;

        let mut r: Vec<Finding> = Vec::new();
        if k.total == 0 {
            return r;
        }
        let total: u64 = k.total as u64;
        if is_share_above(k.multiple as u64, total, 3, 100) {
            let severity = if is_share_above(k.multiple as u64, total, 15, 100) {
                Severity::Critical
            } else if is_share_above(k.multiple as u64, total, 8, 100) {
                Severity::High
            } else {
                Severity::Medium
            };
            if clusters.len() == 0 {
                let mut s = "Splice boundary detected: ".to_string();
                let share = percent(k.multiple as u64, total);
                s.append(share.as_str());
                s.append(
                    "% of strong edges show multi-indicator forensic discontinuity (noise: ",
                );
                append_shares(&mut s, k);
                s.append(
                    "%) - distinct image regions with different provenance are joined",
                );
                let factor = Factor { num: 3, den: 1 };
                let sure: u64 = graded(U50, k.multiple as u64, total, factor, U90);
                r.push(
                    Finding::new(
                        "splice_boundary",
                        "splice_boundary_detected",
                        s,
                        severity,
                        sure,
                    ),
                );
                proof {
                    assert(values(r@) =~= seq![spread_finding(k)]);
                }
            } else {
                let ghost target = Seq::new(
                    clusters@.len(),
                    |i: int|
                        region_finding(clusters@[i], i, clusters@.len() as int, k, regions@[i]),
                );
                let mut i: usize = 0;
                while i < clusters.len()
                    invariant
                        i <= clusters.len(),
                        regions.len() == clusters.len(),
                        k.wf(),
                        k.total > 0,
                        severity == splice_severity(k.multiple as int, k.total as int),
                        forall|i: int|
                            0 <= i < clusters.len() ==> (#[trigger] clusters@[i]).x_min
                                <= clusters@[i].x_max < u32::MAX && clusters@[i].y_min
                                <= clusters@[i].y_max < u32::MAX,
                        target == Seq::new(
                            clusters@.len(),
                            |i: int|
                                region_finding(
                                    clusters@[i],
                                    i,
                                    clusters@.len() as int,
                                    k,
                                    regions@[i],
                                ),
                        ),
                        values(r@) =~= target.take(i as int),
                    decreases clusters.len() - i,
                {
                    broadcast use group_values;

                    let f = self.report_region(
                        clusters[i],
                        i,
                        clusters.len(),
                        severity,
                        k,
                        regions[i],
                    );
                    r.push(f);
                    i += 1;
                }
                proof {
                    assert(values(r@) =~= target);
                }
            }
        } else if is_share_above(k.noise as u64, total, 6, 100) {
            let mut s = "Noise variance transitions detected along ".to_string();
            let share = percent(k.noise as u64, total);
            s.append(share.as_str());
            s.append(
                "% of strong edges - possible splice boundary where regions with different noise characteristics meet",
            );
            let factor = Factor { num: 2, den: 1 };
            let sure: u64 = graded(U40, k.noise as u64, total, factor, U75);
            let f = Finding::new(
                "splice_boundary",
                "splice_boundary_detected",
                s,
                Severity::Medium,
                sure,
            );
            if clusters.len() > 0 {
                r.push(f.with_region(region_of(clusters[0])));
            } else {
                r.push(f);
            }
            proof {
                assert(values(r@) =~= seq![noise_finding(clusters@, k)]);
            }
        }
        r
    }
}

/// How many of the three suspicious properties an edge has.
pub open spec fn held(e: EdgeVerdict) -> int {
    (if e.indicators.noise {
        1int
    } else {
        0
    }) + (if e.indicators.blocking {
        1int
    } else {
        0
    }) + (if e.indicators.cfa {
        1int
    } else {
        0
    })
}

/// The edges that are collected are those with at least two of the three properties,
/// whichever two, each with its place and its score, in the order of the edges.
pub proof fn law_two_properties_are_collected(v: Seq<EdgeVerdict>, n: nat)
    requires
        n <= v.len(),
    ensures
        multiple_spots(v, n) == which(n, |i: int| held(v[i]) >= 2).map_values(
            |i: int| Spot { x: v[i].x, y: v[i].y, score: v[i].score },
        ),
    decreases n,
{
    let p = |i: int| held(v[i]) >= 2;
    let f = |i: int| Spot { x: v[i].x, y: v[i].y, score: v[i].score };
    lemma_which(0, p);
    if n > 0 {
        let m = (n - 1) as nat;
        law_two_properties_are_collected(v, m);
        lemma_which(m, p);
        assert(which(n, p).map_values(f) =~= if p(m as int) {
            which(m, p).map_values(f).push(f(m as int))
        } else {
            which(m, p).map_values(f)
        });
    } else {
        assert(which(0, p).map_values(f) =~= Seq::<Spot>::empty());
    }
}

/// Every edge with any two of the properties is among the collected spots.
pub proof fn law_any_two_properties(v: Seq<EdgeVerdict>, i: int)
    requires
        0 <= i < v.len(),
        held(v[i]) >= 2,
    ensures
        multiple_spots(v, v.len()).contains(Spot { x: v[i].x, y: v[i].y, score: v[i].score }),
{
    law_two_properties_are_collected(v, v.len());
    let p = |i: int| held(v[i]) >= 2;
    lemma_which_are(v.len(), p);
    assert(p(i));
    let k = which(v.len(), p).index_of(i);
    let f = |i: int| Spot { x: v[i].x, y: v[i].y, score: v[i].score };
    assert(which(v.len(), p).map_values(f)[k] == f(i));
}

/// Each property is counted by itself: the counts are of the edges that have it.
pub proof fn law_properties_are_counted(v: Seq<EdgeVerdict>, n: nat)
    requires
        n <= v.len(),
    ensures
        noise_count(v, n) == how_many(n, |i: int| v[i].indicators.noise),
        blocking_count(v, n) == how_many(n, |i: int| v[i].indicators.blocking),
        cfa_count(v, n) == how_many(n, |i: int| v[i].indicators.cfa),
    decreases n,
{
    let a = |i: int| v[i].indicators.noise;
    let b = |i: int| v[i].indicators.blocking;
    let c = |i: int| v[i].indicators.cfa;
    lemma_which(0, a);
    lemma_which(0, b);
    lemma_which(0, c);
    if n > 0 {
        let m = (n - 1) as nat;
        law_properties_are_counted(v, m);
        lemma_which(m, a);
        lemma_which(m, b);
        lemma_which(m, c);
    }
}

/// The rule does not tell the three properties apart: exchanging them in every edge leaves
/// the collected spots as they are.
pub proof fn law_properties_count_alike(v: Seq<EdgeVerdict>, u: Seq<EdgeVerdict>)
    requires
        u.len() == v.len(),
        forall|i: int|
            0 <= i < v.len() ==> (#[trigger] u[i]).x == v[i].x && u[i].y == v[i].y && u[i].score
                == v[i].score && u[i].indicators.noise == v[i].indicators.blocking
                && u[i].indicators.blocking == v[i].indicators.cfa && u[i].indicators.cfa
                == v[i].indicators.noise,
    ensures
        multiple_spots(u, u.len()) == multiple_spots(v, v.len()),
{
    lemma_alike(v, u, v.len());
}

proof fn lemma_alike(v: Seq<EdgeVerdict>, u: Seq<EdgeVerdict>, n: nat)
    requires
        n <= v.len(),
        u.len() == v.len(),
        forall|i: int|
            0 <= i < v.len() ==> (#[trigger] u[i]).x == v[i].x && u[i].y == v[i].y && u[i].score
                == v[i].score && u[i].indicators.noise == v[i].indicators.blocking
                && u[i].indicators.blocking == v[i].indicators.cfa && u[i].indicators.cfa
                == v[i].indicators.noise,
    ensures
        multiple_spots(u, n) == multiple_spots(v, n),
    decreases n,
{
    if n > 0 {
        lemma_alike(v, u, (n - 1) as nat);
        assert(u[n - 1].x == v[n - 1].x);
    }
}

/// An edge is suspicious for its noise where one side has more than twice the variance of
/// the other, whichever side that is, for its blocking above three tenths, and for its
/// colour-filter residue above four tenths.
pub proof fn law_what_is_suspicious(m: Measured)
    ensures
        indicators_of(m).noise <==> (m.noise_ratio > 0x4000_0000_0000_0000 || m.noise_ratio
            < 0x3FE0_0000_0000_0000),
        indicators_of(m).blocking <==> m.blocking_diff > 0x3FD3_3333_3333_3333,
        indicators_of(m).cfa <==> m.cfa_diff > 0x3FD9_9999_9999_999A,
{
}

/// A pixel is an edge where it lies at least nine pixels from every border and its gradient
/// is longer than sixty.
pub proof fn law_strong_edges(gray: Seq<u8>, w: int, h: int, n: nat)
    requires
        w > 0,
    ensures
        edges_of(gray, w, h, n) == which(n, |i: int| i % w >= 9 && i % w + 10 <= w && i / w >= 9 && i / w + 10 <= h && sobel_x(gray, w, i % w, i / w) * sobel_x(gray, w, i % w, i / w) + sobel_y(gray, w, i % w, i / w) * sobel_y(gray, w, i % w, i / w) >= 60 * 60 + 1).map_values(|i: int| (Edge { x: (i % w) as usize, y: (i / w) as usize, gradient: Gradient { gx: sobel_x(gray, w, i % w, i / w) as i64, gy: sobel_y(gray, w, i % w, i / w) as i64 } })),
    decreases n,
{
    let p = |i: int| i % w >= 9 && i % w + 10 <= w && i / w >= 9 && i / w + 10 <= h && sobel_x(gray, w, i % w, i / w) * sobel_x(gray, w, i % w, i / w) + sobel_y(gray, w, i % w, i / w) * sobel_y(gray, w, i % w, i / w) >= 60 * 60 + 1;
    let f = |i: int| (Edge { x: (i % w) as usize, y: (i / w) as usize, gradient: Gradient { gx: sobel_x(gray, w, i % w, i / w) as i64, gy: sobel_y(gray, w, i % w, i / w) as i64 } });
    lemma_which(0, p);
    if n > 0 {
        let m = (n - 1) as nat;
        law_strong_edges(gray, w, h, m);
        lemma_which(m, p);
        assert(which(n, p).map_values(f) =~= if p(m as int) {
            which(m, p).map_values(f).push(f(m as int))
        } else {
            which(m, p).map_values(f)
        });
    } else {
        assert(which(0, p).map_values(f) =~= Seq::<Edge>::empty());
    }
}

proof fn lemma_every(e: Seq<Edge>, step: int, k: nat)
    ensures
        every(e, step, k).len() == k,
        forall|j: int| 0 <= j < k ==> #[trigger] every(e, step, k)[j] == e[j * step],
    decreases k,
{
    if k > 0 {
        lemma_every(e, step, (k - 1) as nat);
    }
}

/// Up to five thousand edges are all analyzed; of more, evenly spaced ones are, no fewer than
/// five thousand and fewer than ten thousand.
pub proof fn law_analyzed_edges(gray: Seq<u8>, w: int, h: int)
    ensures
        ({
            let e = edges_of(gray, w, h, (w * h) as nat);
            let a = analyzed_edges(gray, w, h);
            &&& e.len() <= 5000 ==> a == e
            &&& e.len() > 5000 ==> 5000 <= a.len() < 10000
            &&& a.len() > 0 ==> a[0] == e[0]
        }),
{
    let e = edges_of(gray, w, h, (w * h) as nat);
    let n = e.len() as int;
    let step = stride(n);
    let k = ((n + step - 1) / step) as nat;
    lemma_every(e, step, k);
    if n <= 5000 {
        assert(analyzed_edges(gray, w, h) =~= e);
    } else {
        let s = n / 5000;
        assert(5000 * s <= n < 5000 * s + 5000);
        assert(5000 <= (n + s - 1) / s < 10000) by (nonlinear_arith)
            requires
                s >= 1,
                5000 * s <= n < 5000 * s + 5000,
        ;
    }
}

/// The areas on the two sides lie opposite each other: the edge is in the middle between
/// their centres.
pub proof fn law_sides_opposite(e: Edge)
    ensures
        beside(e, 1).0 + beside(e, -1).0 == 2 * e.x,
        beside(e, 1).1 + beside(e, -1).1 == 2 * e.y,
{
    let n = e.gradient.gx * e.gradient.gx + e.gradient.gy * e.gradient.gy;
    assert(1 * shift(e.gradient.gx as int, n) + -1 * shift(e.gradient.gx as int, n) == 0);
}

/// The first side lies where the gradient points: its offset in a direction has the sign of
/// that part of the gradient, and an opposite gradient has the opposite offset.
pub proof fn law_shift_follows_gradient(g: int, n: int)
    requires
        g != 0,
    ensures
        g > 0 ==> shift(g, n) >= 0,
        g < 0 ==> shift(g, n) <= 0,
        shift(-g, n) == -shift(g, n),
{
    assert((-g) * (-g) == g * g) by (nonlinear_arith);
}

/// The offset is the part of 5.6 pixels along the gradient that falls to a direction, rounded
/// to the nearest pixel: twice it is off by no more than one.
pub proof fn law_shift_rounds(g: int, n: int)
    requires
        0 < g * g <= n,
    ensures
        ({
            let m = if shift(g, n) < 0 {
                -shift(g, n)
            } else {
                shift(g, n)
            };
            &&& 0 <= m <= 6
            &&& m > 0 ==> (10 * m - 5) * (10 * m - 5) * n <= (56 * 56) * (g * g)
            &&& (56 * 56) * (g * g) < (10 * m + 5) * (10 * m + 5) * n
        }),
{
    let s = shift_size(g, n);
    let q = g * g;
    assert(n > 0 && q <= n);
    assert(moves(g, n, 1) == (3136 * q >= 25 * n)) by (nonlinear_arith)
        requires
            q == g * g,
    ;
    assert(moves(g, n, 2) == (3136 * q >= 225 * n)) by (nonlinear_arith)
        requires
            q == g * g,
    ;
    assert(moves(g, n, 3) == (3136 * q >= 625 * n)) by (nonlinear_arith)
        requires
            q == g * g,
    ;
    assert(moves(g, n, 4) == (3136 * q >= 1225 * n)) by (nonlinear_arith)
        requires
            q == g * g,
    ;
    assert(moves(g, n, 5) == (3136 * q >= 2025 * n)) by (nonlinear_arith)
        requires
            q == g * g,
    ;
    assert(moves(g, n, 6) == (3136 * q >= 3025 * n)) by (nonlinear_arith)
        requires
            q == g * g,
    ;
    if s == 0 {
        assert((10 * s + 5) * (10 * s + 5) * n == 25 * n && (10 * s - 5) * (10 * s - 5) * n == 25 * n)
            by (nonlinear_arith)
            requires
                s == 0,
        ;
        assert(!moves(g, n, 1));
        assert(3136 * (g * g) < 25 * n);
    }
    if s == 1 {
        assert((10 * s + 5) * (10 * s + 5) * n == 225 * n && (10 * s - 5) * (10 * s - 5) * n == 25 * n)
            by (nonlinear_arith)
            requires
                s == 1,
        ;
        assert(moves(g, n, 1) && !moves(g, n, 2));
        assert(3136 * (g * g) < 225 * n && 25 * n <= 3136 * (g * g));
    }
    if s == 2 {
        assert((10 * s + 5) * (10 * s + 5) * n == 625 * n && (10 * s - 5) * (10 * s - 5) * n == 225 * n)
            by (nonlinear_arith)
            requires
                s == 2,
        ;
        assert(moves(g, n, 2) && !moves(g, n, 3));
        assert(3136 * (g * g) < 625 * n && 225 * n <= 3136 * (g * g));
    }
    if s == 3 {
        assert((10 * s + 5) * (10 * s + 5) * n == 1225 * n && (10 * s - 5) * (10 * s - 5) * n == 625 * n)
            by (nonlinear_arith)
            requires
                s == 3,
        ;
        assert(moves(g, n, 3) && !moves(g, n, 4));
        assert(3136 * (g * g) < 1225 * n && 625 * n <= 3136 * (g * g));
    }
    if s == 4 {
        assert((10 * s + 5) * (10 * s + 5) * n == 2025 * n && (10 * s - 5) * (10 * s - 5) * n == 1225 * n)
            by (nonlinear_arith)
            requires
                s == 4,
        ;
        assert(moves(g, n, 4) && !moves(g, n, 5));
        assert(3136 * (g * g) < 2025 * n && 1225 * n <= 3136 * (g * g));
    }
    if s == 5 {
        assert((10 * s + 5) * (10 * s + 5) * n == 3025 * n && (10 * s - 5) * (10 * s - 5) * n == 2025 * n)
            by (nonlinear_arith)
            requires
                s == 5,
        ;
        assert(moves(g, n, 5) && !moves(g, n, 6));
        assert(3136 * (g * g) < 3025 * n && 2025 * n <= 3136 * (g * g));
    }
    if s == 6 {
        assert((10 * s + 5) * (10 * s + 5) * n == 4225 * n && (10 * s - 5) * (10 * s - 5) * n == 3025 * n)
            by (nonlinear_arith)
            requires
                s == 6,
        ;
        assert(moves(g, n, 6));
        assert(3136 * (g * g) < 4225 * n && 3025 * n <= 3136 * (g * g));
    }
}

/// Two sides are compared only where both squares of eight pixels lie in the image and their
/// mean luminances are at most eighty apart.
pub proof fn law_comparable_sides(gray: Seq<u8>, w: int, h: int, e: Edge)
    requires
        is_comparable(gray, w, h, e),
    ensures
        ({
            let (a, b) = (beside(e, 1), beside(e, -1));
            let sa = area_sum(gray, w, a.0 - 4, a.1 - 4, 64);
            let sb = area_sum(gray, w, b.0 - 4, b.1 - 4, 64);
            &&& a.0 >= 4 && a.1 >= 4 && a.0 + 5 <= w && a.1 + 5 <= h
            &&& b.0 >= 4 && b.1 >= 4 && b.0 + 5 <= w && b.1 + 5 <= h
            &&& -80 <= (sa - sb) / 64 && (sb - sa) / 64 >= -80
            &&& sa <= sb + 5120 && sb <= sa + 5120
        }),
{
}

/// Sides that lie in the image and are no more than eighty apart in mean luminance are
/// compared.
pub proof fn law_close_sides_are_compared(gray: Seq<u8>, w: int, h: int, e: Edge)
    requires
        beside(e, 1).0 >= 4,
        beside(e, 1).1 >= 4,
        beside(e, 1).0 + 5 <= w,
        beside(e, 1).1 + 5 <= h,
        beside(e, -1).0 >= 4,
        beside(e, -1).1 >= 4,
        beside(e, -1).0 + 5 <= w,
        beside(e, -1).1 + 5 <= h,
        area_sum(gray, w, beside(e, 1).0 - 4, beside(e, 1).1 - 4, 64) <= area_sum(
            gray,
            w,
            beside(e, -1).0 - 4,
            beside(e, -1).1 - 4,
            64,
        ) + 5120,
        area_sum(gray, w, beside(e, -1).0 - 4, beside(e, -1).1 - 4, 64) <= area_sum(
            gray,
            w,
            beside(e, 1).0 - 4,
            beside(e, 1).1 - 4,
            64,
        ) + 5120,
    ensures
        is_comparable(gray, w, h, e),
{
}

/// The luminance of an area is the sum of its samples, eight to a row.
pub proof fn law_area_sum(gray: Seq<u8>, w: int, x0: int, y0: int, n: nat)
    ensures
        area_sum(gray, w, x0, y0, n) == total(n, |i: int| gray[(y0 + i / 8) * w + (x0 + i % 8)] as int),
    decreases n,
{
    if n > 0 {
        law_area_sum(gray, w, x0, y0, (n - 1) as nat);
    }
}

/// A residual is four times the sample less its four neighbours: none on a plane, and four
/// times what a sample alone is raised by.
pub proof fn law_residual_of_plane(gray: Seq<u8>, w: int, x: int, y: int, a: int, b: int, d: int)
    requires
        pixel(gray, w, x + 1, y) + d == pixel(gray, w, x, y) + a,
        pixel(gray, w, x - 1, y) + d == pixel(gray, w, x, y) - a,
        pixel(gray, w, x, y + 1) + d == pixel(gray, w, x, y) + b,
        pixel(gray, w, x, y - 1) + d == pixel(gray, w, x, y) - b,
    ensures
        residual4(gray, w, x, y) == 4 * d,
{
}

/// The same in the green channel.
pub proof fn law_green_residual_of_plane(
    rgb: Seq<u8>,
    w: int,
    x: int,
    y: int,
    a: int,
    b: int,
    d: int,
)
    requires
        rgb[(y * w + (x + 1)) * 3 + 1] + d == rgb[(y * w + x) * 3 + 1] + a,
        rgb[(y * w + (x - 1)) * 3 + 1] + d == rgb[(y * w + x) * 3 + 1] - a,
        rgb[((y + 1) * w + x) * 3 + 1] + d == rgb[(y * w + x) * 3 + 1] + b,
        rgb[((y - 1) * w + x) * 3 + 1] + d == rgb[(y * w + x) * 3 + 1] - b,
    ensures
        green_residual4(rgb, w, x, y) == 4 * d,
{
}

/// The differences of neighbours part into those across a boundary of eight pixels and the
/// others: together they are all of them.
pub proof fn law_steps_part(gray: Seq<u8>, w: int, x0: int, y0: int, n: nat)
    ensures
        step_count(x0, y0, true, n) + step_count(x0, y0, false, n) == n,
        step_sum(gray, w, x0, y0, true, n) + step_sum(gray, w, x0, y0, false, n) == total(
            n,
            |i: int| pair_step(gray, w, x0, y0, i),
        ),
    decreases n,
{
    if n > 0 {
        law_steps_part(gray, w, x0, y0, (n - 1) as nat);
    }
}

/// A difference lies across a boundary where its farther pixel begins a block of eight, along
/// a row by its column and along a column by its row.
pub proof fn law_boundary_pairs(x0: int, y0: int, k: int, l: int)
    requires
        0 <= k < 7,
        0 <= l < 8,
    ensures
        pair_pixel(x0, y0, 7 * l + k) == (x0 + k + 1, y0 + l),
        pair_on_boundary(x0, y0, 7 * l + k) == ((x0 + k + 1) % 8 == 0),
        pair_pixel(x0, y0, 56 + 8 * k + l) == (x0 + l, y0 + k + 1),
        pair_on_boundary(x0, y0, 56 + 8 * k + l) == ((y0 + k + 1) % 8 == 0),
{
}

/// The residuals of the green channel part by the parity of column plus row, in reading
/// order.
pub proof fn law_green_parity(rgb: Seq<u8>, w: int, x0: int, y0: int, parity: int, n: nat)
    ensures
        green_residuals(rgb, w, x0, y0, parity, n) == which(n, |i: int| (x0 + y0 + i % 6 + i / 6) % 2 == parity).map_values(|i: int| green_residual4(rgb, w, x0 + 1 + i % 6, y0 + 1 + i / 6) as i64),
    decreases n,
{
    let p = |i: int| (x0 + y0 + i % 6 + i / 6) % 2 == parity;
    let f = |i: int| green_residual4(rgb, w, x0 + 1 + i % 6, y0 + 1 + i / 6) as i64;
    lemma_which(0, p);
    if n > 0 {
        let m = (n - 1) as nat;
        law_green_parity(rgb, w, x0, y0, parity, m);
        lemma_which(m, p);
        assert(which(n, p).map_values(f) =~= if p(m as int) {
            which(m, p).map_values(f).push(f(m as int))
        } else {
            which(m, p).map_values(f)
        });
    } else {
        assert(which(0, p).map_values(f) =~= Seq::<i64>::empty());
    }
}

/// Of at most twenty positions all count. Of more, those count that reach a score which at
/// least a quarter of them reach, or a tenth on a document, and which no such part exceeds.
pub proof fn law_suspicious(s: Seq<Spot>, document: bool)
    requires
        s.len() <= usize::MAX,
    ensures
        s.len() <= 20 ==> suspicious(s, document) == s,
        s.len() > 20 ==> exists|t: i64|
            suspicious(s, document) == #[trigger] at_least(s, t, s.len()) && how_many(
                s.len(),
                |i: int| s[i].score >= t,
            ) * 100 >= s.len() * (if document {
                10int
            } else {
                25
            }) && how_many(s.len(), |i: int| s[i].score <= t) * 100 > s.len() * (if document {
                90int
            } else {
                75
            }),
{
    if s.len() > 20 {
        let n = s.len() as int;
        let percent: int = if document {
            90
        } else {
            75
        };
        let keys = scores_of(s);
        let k = n * percent / 100;
        assert(0 <= k < n && 100 * k <= n * percent < 100 * k + 100) by (nonlinear_arith)
            requires
                k == n * percent / 100,
                n > 20,
                percent == 90 || percent == 75,
        ;
        law_nth_smallest(keys, k);
        let t = nth_smallest(keys, k);
        lemma_which_same(s.len(), |i: int| keys[i] >= t, |i: int| s[i].score >= t);
        lemma_which_same(s.len(), |i: int| keys[i] <= t, |i: int| s[i].score <= t);
        let a = how_many(s.len(), |i: int| s[i].score >= t) as int;
        let b = how_many(s.len(), |i: int| s[i].score <= t) as int;
        assert(a >= n - k && b >= k + 1);
        assert(a * 100 >= n * (100 - percent) && b * 100 > n * percent) by (nonlinear_arith)
            requires
                a >= n - k,
                b >= k + 1,
                100 * k <= n * percent < 100 * k + 100,
        ;
        assert(suspicious(s, document) == at_least(s, t, s.len()));
    }
}

/// The positions that reach a score are kept in their order.
pub proof fn law_at_least(s: Seq<Spot>, threshold: i64, n: nat)
    requires
        n <= s.len(),
    ensures
        at_least(s, threshold, n) == which(n, |i: int| !(s[i].score < threshold)).map_values(|i: int| s[i]),
    decreases n,
{
    let p = |i: int| !(s[i].score < threshold);
    let f = |i: int| s[i];
    lemma_which(0, p);
    if n > 0 {
        let m = (n - 1) as nat;
        law_at_least(s, threshold, m);
        lemma_which(m, p);
        assert(which(n, p).map_values(f) =~= if p(m as int) {
            which(m, p).map_values(f).push(f(m as int))
        } else {
            which(m, p).map_values(f)
        });
    } else {
        assert(which(0, p).map_values(f) =~= Seq::<Spot>::empty());
    }
}

/// The members of a cluster are the positions in its box.
pub proof fn law_members(s: Seq<Spot>, c: Cluster, n: nat)
    requires
        n <= s.len(),
    ensures
        members_of(s, c, n) == which(n, |i: int| holds(c, s[i])).map_values(|i: int| i as usize),
    decreases n,
{
    let p = |i: int| holds(c, s[i]);
    let f = |i: int| i as usize;
    lemma_which(0, p);
    if n > 0 {
        let m = (n - 1) as nat;
        law_members(s, c, m);
        lemma_which(m, p);
        assert(which(n, p).map_values(f) =~= if p(m as int) {
            which(m, p).map_values(f).push(f(m as int))
        } else {
            which(m, p).map_values(f)
        });
    } else {
        assert(which(0, p).map_values(f) =~= Seq::<usize>::empty());
    }
}

/// The boundary regions of a picture are all its clusters of three positions or more; on a
/// document they are the ten largest of those.
pub proof fn law_boundary_regions(s: Seq<Spot>, w: int, h: int, document: bool, i: int, j: int)
    requires
        clusters_of(s, 32, w, h, false).len() <= usize::MAX,
        0 <= i <= j < boundary_regions(s, w, h, document).len(),
    ensures
        boundary_regions(s, w, h, document)[i].count >= boundary_regions(s, w, h, document)[j].count,
        boundary_regions(s, w, h, document).len() == {
            let c = clusters_of(s, 32, w, h, false);
            let n = how_many(c.len(), |k: int| c[k].count >= 3);
            if document && n > 10 {
                10
            } else {
                n
            }
        },
{
    let c = clusters_of(s, 32, w, h, false);
    let kept = sizable(c, 3, c.len());
    law_sizable(c, 3, c.len());
    lemma_which_same(c.len(), |k: int| !(c[k].count < 3), |k: int| c[k].count >= 3);
    lemma_which_are(c.len(), |k: int| c[k].count >= 3);
    law_largest_first(kept, i, j);
}

/// Every cluster of three positions or more is a region of a picture that is no document.
pub proof fn law_no_region_is_lost(s: Seq<Spot>, w: int, h: int, k: int)
    requires
        clusters_of(s, 32, w, h, false).len() <= usize::MAX,
        0 <= k < clusters_of(s, 32, w, h, false).len(),
        clusters_of(s, 32, w, h, false)[k].count >= 3,
    ensures
        boundary_regions(s, w, h, false).contains(clusters_of(s, 32, w, h, false)[k]),
{
    let c = clusters_of(s, 32, w, h, false);
    let kept = sizable(c, 3, c.len());
    let p = |i: int| !(c[i].count < 3);
    let f = |i: int| c[i];
    law_sizable(c, 3, c.len());
    lemma_which_are(c.len(), p);
    assert(p(k));
    let at = which(c.len(), p).index_of(k);
    assert(kept == which(c.len(), p).map_values(f));
    assert(kept[at] == c[k]);
    law_arranging_keeps_all(kept, size_keys(kept), at);
}

/// What is reported hangs on shares of the analyzed edges. Above three percent with several
/// properties there is a finding for each region, or one for the picture where there is no
/// region; else above six percent with noise there is one finding; else there is none. The
/// severity is critical above fifteen percent, high above eight, and medium below.
pub proof fn law_when_splices_are_reported(k: EdgeCounts, c: Seq<Cluster>, regions: Seq<u64>)
    requires
        k.total > 0,
    ensures
        ({
            let f = splice_findings(k, c, regions);
            let many = 100 * k.multiple > 3 * k.total;
            let noisy = 100 * k.noise > 6 * k.total;
            &&& many ==> f.len() == if c.len() == 0 {
                1
            } else {
                c.len()
            }
            &&& !many && noisy ==> f.len() == 1 && f[0].severity == Severity::Medium
            &&& !many && !noisy ==> f.len() == 0
            &&& forall|i: int|
                0 <= i < f.len() ==> (#[trigger] f[i]).code == "splice_boundary_detected"@
                    && f[i].analyzer == "splice_boundary"@ && (many ==> f[i].severity == if 100
                    * k.multiple > 15 * k.total {
                    Severity::Critical
                } else if 100 * k.multiple > 8 * k.total {
                    Severity::High
                } else {
                    Severity::Medium
                })
        }),
{
}

/// The region of a finding is the box of its cluster: it holds the positions of the cluster
/// and no others.
pub proof fn law_region_is_box_of_cluster(
    c: Cluster,
    i: int,
    count: int,
    k: EdgeCounts,
    confidence: u64,
    s: Spot,
)
    requires
        c.x_min <= c.x_max < u32::MAX,
        c.y_min <= c.y_max < u32::MAX,
    ensures
        region_finding(c, i, count, k, confidence).region matches Some(
            crate::finding::RegionView::BoundingBox { x, y, width, height },
        ) && (holds(c, s) <==> x <= s.x < x + width && y <= s.y < y + height),
        region_finding(c, i, count, k, confidence).confidence == confidence,
{
}

/// The residuals of an area are those of its six inner columns and rows.
pub proof fn law_area_residuals(g: Seq<u8>, w: int, x0: int, y0: int, i: int, j: int)
    requires
        0 <= i < 6,
        0 <= j < 6,
    ensures
        area_residuals(g, w, x0, y0).len() == 36,
        area_residuals(g, w, x0, y0)[6 * j + i] == residual4(g, w, x0 + i + 1, y0 + j + 1) as i64,
{
    assert((6 * j + i) % 6 == i && (6 * j + i) / 6 == j);
    assert(x0 + 1 + i == x0 + i + 1 && y0 + 1 + j == y0 + j + 1);
}

/// A spread is critical above fifteen in a hundred edges, of high severity above eight.
pub proof fn law_splice_severity(multiple: int, total: int)
    ensures
        splice_severity(multiple, total) == Severity::Critical <==> 100 * multiple > 15 * total,
        splice_severity(multiple, total) == Severity::High <==> 100 * multiple <= 15 * total && 100
            * multiple > 8 * total,
        splice_severity(multiple, total) == Severity::Medium <==> 100 * multiple <= 15 * total && 100
            * multiple <= 8 * total,
{
}

/// Every so many edges one is taken, from the first on.
pub proof fn law_every(e: Seq<Edge>, step: int, k: nat, i: int)
    requires
        0 <= i < k,
    ensures
        every(e, step, k).len() == k,
        every(e, step, k)[i] == e[step * i],
    decreases k,
{
    if i < k - 1 {
        law_every(e, step, (k - 1) as nat, i);
    } else {
        if k > 1 {
            law_every(e, step, (k - 1) as nat, 0);
        } else {
            assert(every(e, step, 0).len() == 0);
        }
        assert(step * i == (k - 1) * step) by (nonlinear_arith)
            requires
                i == k - 1,
        ;
    }
}

} // verus!
