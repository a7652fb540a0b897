//! What the overlays show: error levels, block statistics, and the colours laid over them.
//!
//! Colours are computed in floating point by the caller, from the numbers measured here.

use crate::components::lemma_cell;
use crate::components::lemma_cell_coords;
use crate::grid::abs;
use crate::grid::channel;
use crate::grid::pixel;
use crate::grid::px3;
use crate::grid::px;
use crate::pixel::ela::ErrorLevelAnalyzer;
use crate::pixel::ela::error_map;
use crate::raster::Picture;
use crate::raster::resaved;
use crate::select::total;
use vstd::prelude::*;

verus! {

/// The quality of the re-save that error levels are taken from.
pub const OVERLAY_QUALITY: u8 = 92;

/// A colour with opacity, where there is one.
pub type Ink = Option<[u8; 4]>;

/// The error levels of a picture against its re-save.
pub open spec fn error_levels(p: Picture) -> Option<Seq<u16>> {
    let samples = if p.monochrome {
        p.gray@
    } else {
        p.rgb@
    };
    match resaved(samples, p.width, p.height, p.monochrome, OVERLAY_QUALITY) {
        Some(c) => Some(error_map(p.rgb@, c)),
        None => None,
    }
}

/// The largest of the first `n` error levels.
pub open spec fn largest(e: Seq<u16>, n: nat) -> u16
    decreases n,
{
    if n == 0 {
        0
    } else {
        let m = largest(e, (n - 1) as nat);
        if e[n - 1] > m {
            e[n - 1]
        } else {
            m
        }
    }
}

/// Measures the error levels of a picture against its re-save: the sums of the channel
/// differences of all pixels. `None` if the re-save fails.
pub fn measure_errors(p: &Picture) -> (r: Option<Vec<u16>>)
    requires
        p.wf(),
    ensures
        match r {
            Some(e) => error_levels(*p) == Some(e@) && e@.len() == p.width * p.height && forall|
                i: int,
            |
                0 <= i < e@.len() ==> #[trigger] e@[i] <= 765,
            None => error_levels(*p) is None,
        },
{
    let f = p.frame();
    match f.resave(OVERLAY_QUALITY) {
        Some(c) => {
            let analyzer = ErrorLevelAnalyzer { resave_quality: OVERLAY_QUALITY };
            let e = analyzer.pixel_errors(p.rgb.as_slice(), c.as_slice());
            Some(e)
        },
        None => None,
    }
}

/// The largest error level.
pub fn largest_error(e: &Vec<u16>) -> (r: u16)
    ensures
        r == largest(e@, e@.len()),
{
    let mut m: u16 = 0;
    let mut i: usize = 0;
    while i < e.len()
        invariant
            i <= e@.len(),
            m == largest(e@, i as nat),
        decreases e@.len() - i,
    {
        if e[i] > m {
            m = e[i];
        }
        i += 1;
    }
    m
}

/// The inks of pixels by their error levels.
pub open spec fn error_inks(e: Seq<u16>, palette: Seq<Ink>) -> Seq<Ink> {
    Seq::new(e.len(), |i: int| palette[e[i] as int])
}

/// Looks the ink of every pixel up by its error level.
pub fn ink_errors(e: &Vec<u16>, palette: &Vec<Ink>) -> (r: Vec<Ink>)
    requires
        forall|i: int| 0 <= i < e@.len() ==> #[trigger] e@[i] < palette@.len(),
    ensures
        r@ == error_inks(e@, palette@),
{
    let mut r: Vec<Ink> = Vec::new();
    let mut i: usize = 0;
    while i < e.len()
        invariant
            i <= e@.len(),
            forall|j: int| 0 <= j < e@.len() ==> #[trigger] e@[j] < palette@.len(),
            r@ == error_inks(e@, palette@).take(i as int),
        decreases e@.len() - i,
    {
        r.push(palette[e[i] as usize]);
        i += 1;
        assert(r@ =~= error_inks(e@, palette@).take(i as int));
    }
    assert(error_inks(e@, palette@).take(i as int) =~= error_inks(e@, palette@));
    r
}

/// The inks of pixels by the blocks that they lie in; pixels outside whole blocks have none.
pub open spec fn block_inks(inks: Seq<Ink>, w: int, h: int, block: int) -> Seq<Ink> {
    Seq::new(
        (w * h) as nat,
        |i: int|
            {
                let x = (i % w) / block;
                let y = (i / w) / block;
                if x < w / block && y < h / block {
                    inks[y * (w / block) + x]
                } else {
                    None
                }
            },
    )
}

/// Looks the ink of every pixel up by its block.
pub fn ink_blocks(inks: &Vec<Ink>, w: usize, h: usize, block: usize) -> (r: Vec<Ink>)
    requires
        block > 0,
        w * h <= usize::MAX,
        inks@.len() == (w / block) * (h / block),
    ensures
        r@ == block_inks(inks@, w as int, h as int, block as int),
        r@.len() == w * h,
{
    let bx: usize = w / block;
    let by: usize = h / block;
    let n: usize = w * h;
    let mut r: Vec<Ink> = Vec::new();
    let mut i: usize = 0;
    while i < n
        invariant
            i <= n,
            n == w * h,
            block > 0,
            bx == w / block,
            by == h / block,
            inks@.len() == bx * by,
            inks.len() == bx * by,
            r@ == block_inks(inks@, w as int, h as int, block as int).take(i as int),
        decreases n - i,
    {
        proof {
            lemma_cell_coords(w as int, h as int, i as int);
        }
        let x: usize = (i % w) / block;
        let y: usize = (i / w) / block;
        if x < bx && y < by {
            proof {
                lemma_cell(bx as int, by as int, x as int, y as int);
                assert(y * bx <= y * bx + x);
            }
            r.push(inks[y * bx + x]);
        } else {
            r.push(None);
        }
        i += 1;
        assert(r@ =~= block_inks(inks@, w as int, h as int, block as int).take(i as int));
    }
    assert(block_inks(inks@, w as int, h as int, block as int).take(n as int) =~= block_inks(
        inks@,
        w as int,
        h as int,
        block as int,
    ));
    r
}

/// The sum of the first `n` samples of the 32 by 32 block at (`x0`, `y0`).
pub open spec fn noise_sum(gray: Seq<u8>, w: int, x0: int, y0: int, n: nat) -> int
    decreases n,
{
    if n == 0 {
        0
    } else {
        noise_sum(gray, w, x0, y0, (n - 1) as nat) + pixel(
            gray,
            w,
            x0 + (n - 1) % 32,
            y0 + (n - 1) / 32,
        )
    }
}

/// The sum of the squares of the first `n` samples of the 32 by 32 block at (`x0`, `y0`).
pub open spec fn noise_square_sum(gray: Seq<u8>, w: int, x0: int, y0: int, n: nat) -> int
    decreases n,
{
    if n == 0 {
        0
    } else {
        let v = pixel(gray, w, x0 + (n - 1) % 32, y0 + (n - 1) / 32);
        noise_square_sum(gray, w, x0, y0, (n - 1) as nat) + v * v
    }
}

/// The sums of samples and of their squares of every 32 by 32 block.
pub open spec fn noise_moments(gray: Seq<u8>, w: int, h: int) -> Seq<(u64, u64)> {
    Seq::new(
        ((w / 32) * (h / 32)) as nat,
        |i: int|
            (
                noise_sum(gray, w, (i % (w / 32)) * 32, (i / (w / 32)) * 32, 1024) as u64,
                noise_square_sum(gray, w, (i % (w / 32)) * 32, (i / (w / 32)) * 32, 1024) as u64,
            ),
    )
}

fn moments_at(gray: &[u8], w: usize, h: usize, x0: usize, y0: usize) -> (r: (u64, u64))
    requires
        gray.len() == w * h,
        x0 + 32 <= w,
        y0 + 32 <= h,
    ensures
        r.0 == noise_sum(gray@, w as int, x0 as int, y0 as int, 1024),
        r.1 == noise_square_sum(gray@, w as int, x0 as int, y0 as int, 1024),
{
    let mut sum: u64 = 0;
    let mut squares: u64 = 0;
    let mut k: usize = 0;
    while k < 1024
        invariant
            k <= 1024,
            gray.len() == w * h,
            x0 + 32 <= w,
            y0 + 32 <= h,
            sum == noise_sum(gray@, w as int, x0 as int, y0 as int, k as nat),
            squares == noise_square_sum(gray@, w as int, x0 as int, y0 as int, k as nat),
            sum <= 255 * k,
            squares <= 65025 * k,
        decreases 1024 - k,
    {
        let v: i64 = px(gray, w, h, x0 + k % 32, y0 + k / 32);
        proof {
            assert(0 <= v * v <= 65025) by (nonlinear_arith)
                requires
                    0 <= v <= 255,
            ;
        }
        sum += v as u64;
        squares += (v * v) as u64;
        k += 1;
    }
    (sum, squares)
}

/// Measures the sums of samples and of their squares of every 32 by 32 block.
pub fn measure_noise(gray: &[u8], w: usize, h: usize) -> (r: Vec<(u64, u64)>)
    requires
        gray.len() == w * h,
    ensures
        r@ == noise_moments(gray@, w as int, h as int),
{
    let bx: usize = w / 32;
    let by: usize = h / 32;
    proof {
        assert(bx * by <= w * h) by (nonlinear_arith)
            requires
                0 <= bx <= w,
                0 <= by <= h,
        ;
    }
    let n: usize = bx * by;
    let mut r: Vec<(u64, u64)> = Vec::new();
    let mut i: usize = 0;
    while i < n
        invariant
            i <= n,
            n == bx * by,
            bx == w / 32,
            by == h / 32,
            gray.len() == w * h,
            r@ == noise_moments(gray@, w as int, h as int).take(i as int),
        decreases n - i,
    {
        proof {
            lemma_cell_coords(bx as int, by as int, i as int);
        }
        let m = moments_at(gray, w, h, (i % bx) * 32, (i / bx) * 32);
        r.push(m);
        i += 1;
        assert(r@ =~= noise_moments(gray@, w as int, h as int).take(i as int));
    }
    assert(noise_moments(gray@, w as int, h as int).take(n as int) =~= noise_moments(
        gray@,
        w as int,
        h as int,
    ));
    r
}

/// Four times the distance of the green sample of a pixel from the mean of its neighbours.
pub open spec fn green_residual(rgb: Seq<u8>, w: int, x: int, y: int) -> int {
    abs(
        4 * channel(rgb, w, x, y, 1) - channel(rgb, w, x, y - 1, 1) - channel(rgb, w, x, y + 1, 1)
            - channel(rgb, w, x - 1, y, 1) - channel(rgb, w, x + 1, y, 1),
    )
}

/// The residuals of the first `n` inner pixels of the 64 by 64 block at (`x0`, `y0`) whose
/// column and row add up to an even number, or an odd one.
pub open spec fn parity_sum(rgb: Seq<u8>, w: int, x0: int, y0: int, even: bool, n: nat) -> int
    decreases n,
{
    if n == 0 {
        0
    } else {
        let x = x0 + 1 + (n - 1) % 62;
        let y = y0 + 1 + (n - 1) / 62;
        parity_sum(rgb, w, x0, y0, even, (n - 1) as nat) + if ((x + y) % 2 == 0) == even {
            green_residual(rgb, w, x, y)
        } else {
            0
        }
    }
}

/// The residuals on even and on odd positions of every 64 by 64 block.
pub open spec fn filter_sums(rgb: Seq<u8>, w: int, h: int) -> Seq<(u64, u64)> {
    Seq::new(
        ((w / 64) * (h / 64)) as nat,
        |i: int|
            (
                parity_sum(rgb, w, (i % (w / 64)) * 64, (i / (w / 64)) * 64, true, 3844) as u64,
                parity_sum(rgb, w, (i % (w / 64)) * 64, (i / (w / 64)) * 64, false, 3844) as u64,
            ),
    )
}

#[verifier::rlimit(40)]
fn parities_at(rgb: &[u8], w: usize, h: usize, x0: usize, y0: usize) -> (r: (u64, u64))
    requires
        rgb.len() == w * h * 3,
        x0 + 64 <= w,
        y0 + 64 <= h,
    ensures
        r.0 == parity_sum(rgb@, w as int, x0 as int, y0 as int, true, 3844),
        r.1 == parity_sum(rgb@, w as int, x0 as int, y0 as int, false, 3844),
{
    let mut even: u64 = 0;
    let mut odd: u64 = 0;
    let mut k: usize = 0;
    while k < 3844
        invariant
            k <= 3844,
            rgb.len() == w * h * 3,
            x0 + 64 <= w,
            y0 + 64 <= h,
            even == parity_sum(rgb@, w as int, x0 as int, y0 as int, true, k as nat),
            odd == parity_sum(rgb@, w as int, x0 as int, y0 as int, false, k as nat),
            even <= 1020 * k,
            odd <= 1020 * k,
        decreases 3844 - k,
    {
        let x: usize = x0 + 1 + k % 62;
        let y: usize = y0 + 1 + k / 62;
        let c: i64 = px3(rgb, w, h, x, y, 1);
        let north: i64 = px3(rgb, w, h, x, y - 1, 1);
        let south: i64 = px3(rgb, w, h, x, y + 1, 1);
        let west: i64 = px3(rgb, w, h, x - 1, y, 1);
        let east: i64 = px3(rgb, w, h, x + 1, y, 1);
        let d: i64 = 4 * c - north - south - west - east;
        let e: u64 = if d < 0 {
            (-d) as u64
        } else {
            d as u64
        };
        proof {
            assert(e == green_residual(rgb@, w as int, x as int, y as int) && e <= 1020);
            assert((x % 2 == y % 2) == ((x + y) % 2 == 0));
            assert(x == x0 + 1 + k as int % 62 && y == y0 + 1 + k as int / 62);
        }
        if x % 2 == y % 2 {
            even += e;
        } else {
            odd += e;
        }
        k += 1;
    }
    (even, odd)
}

/// Measures the residuals on even and on odd positions of every 64 by 64 block.
pub fn measure_filter(rgb: &[u8], w: usize, h: usize) -> (r: Vec<(u64, u64)>)
    requires
        rgb.len() == w * h * 3,
    ensures
        r@ == filter_sums(rgb@, w as int, h as int),
{
    let bx: usize = w / 64;
    let by: usize = h / 64;
    proof {
        assert(bx * by <= w * h) by (nonlinear_arith)
            requires
                0 <= bx <= w,
                0 <= by <= h,
        ;
    }
    let n: usize = bx * by;
    let mut r: Vec<(u64, u64)> = Vec::new();
    let mut i: usize = 0;
    while i < n
        invariant
            i <= n,
            n == bx * by,
            bx == w / 64,
            by == h / 64,
            rgb.len() == w * h * 3,
            r@ == filter_sums(rgb@, w as int, h as int).take(i as int),
        decreases n - i,
    {
        proof {
            lemma_cell_coords(bx as int, by as int, i as int);
        }
        let m = parities_at(rgb, w, h, (i % bx) * 64, (i / bx) * 64);
        r.push(m);
        i += 1;
        assert(r@ =~= filter_sums(rgb@, w as int, h as int).take(i as int));
    }
    assert(filter_sums(rgb@, w as int, h as int).take(n as int) =~= filter_sums(
        rgb@,
        w as int,
        h as int,
    ));
    r
}

/// The largest level is no smaller than any, and is one of them unless all are zero.
pub proof fn law_largest(e: Seq<u16>, n: nat, i: int)
    requires
        0 <= i < n <= e.len(),
    ensures
        e[i] <= largest(e, n),
        exists|j: int| 0 <= j < n && #[trigger] e[j] == largest(e, n),
    decreases n,
{
    let m = (n - 1) as nat;
    assert(largest(e, 0) == 0);
    if m > 0 {
        law_largest(e, m, if i < m {
            i
        } else {
            0
        });
        let j = choose|j: int| 0 <= j < m && #[trigger] e[j] == largest(e, m);
        assert(e[j] == largest(e, n) || e[n - 1] == largest(e, n));
    } else {
        assert(e[n - 1] == largest(e, n));
    }
}

/// A pixel has the ink of its block; the pixels right of and below the last whole block have
/// none.
pub proof fn law_block_inks(inks: Seq<Ink>, w: int, h: int, block: int, x: int, y: int)
    requires
        0 <= x < w,
        0 <= y < h,
        block > 0,
    ensures
        block_inks(inks, w, h, block)[y * w + x] == if x / block < w / block && y / block < h / block {
            inks[(y / block) * (w / block) + x / block]
        } else {
            None
        },
{
    vstd::arithmetic::div_mod::lemma_fundamental_div_mod_converse(y * w + x, w, y, x);
    assert(0 <= y * w && y * w + x < w * h) by (nonlinear_arith)
        requires
            0 <= x < w,
            0 <= y < h,
    ;
}

/// The samples of a block are added up, 32 to a row.
pub proof fn law_noise_sums(gray: Seq<u8>, w: int, x0: int, y0: int, n: nat)
    ensures
        noise_sum(gray, w, x0, y0, n) == total(n, |i: int| gray[(y0 + i / 32) * w + (x0 + i % 32)] as int),
    decreases n,
{
    if n > 0 {
        law_noise_sums(gray, w, x0, y0, (n - 1) as nat);
    }
}

/// So are their squares.
pub proof fn law_noise_squares(gray: Seq<u8>, w: int, x0: int, y0: int, n: nat)
    ensures
        noise_square_sum(gray, w, x0, y0, n) == total(n, |i: int| gray[(y0 + i / 32) * w + (x0 + i % 32)] as int * gray[(y0 + i / 32) * w + (x0 + i % 32)] as int),
    decreases n,
{
    if n > 0 {
        law_noise_squares(gray, w, x0, y0, (n - 1) as nat);
    }
}

/// The residuals part by the parity of column plus row: together they are all of them.
pub proof fn law_parities_part(rgb: Seq<u8>, w: int, x0: int, y0: int, n: nat)
    ensures
        parity_sum(rgb, w, x0, y0, true, n) + parity_sum(rgb, w, x0, y0, false, n) == total(
            n,
            |i: int| green_residual(rgb, w, x0 + 1 + i % 62, y0 + 1 + i / 62),
        ),
    decreases n,
{
    if n > 0 {
        law_parities_part(rgb, w, x0, y0, (n - 1) as nat);
    }
}

/// Even residuals are those where column plus row is even.
pub proof fn law_even_residuals(rgb: Seq<u8>, w: int, x0: int, y0: int, n: nat)
    ensures
        parity_sum(rgb, w, x0, y0, true, n) == total(
            n,
            |i: int|
                if (x0 + y0 + i % 62 + i / 62) % 2 == 0 {
                    green_residual(rgb, w, x0 + 1 + i % 62, y0 + 1 + i / 62)
                } else {
                    0
                },
        ),
    decreases n,
{
    if n > 0 {
        law_even_residuals(rgb, w, x0, y0, (n - 1) as nat);
    }
}

/// The moments of the blocks lie row by row, blocks of 32 pixels a side.
pub proof fn law_noise_blocks(g: Seq<u8>, w: int, h: int, x: int, y: int)
    requires
        0 <= x < w / 32,
        0 <= y < h / 32,
    ensures
        noise_moments(g, w, h).len() == (w / 32) * (h / 32),
        noise_moments(g, w, h)[y * (w / 32) + x] == (
            noise_sum(g, w, 32 * x, 32 * y, 1024) as u64,
            noise_square_sum(g, w, 32 * x, 32 * y, 1024) as u64,
        ),
{
    let n = w / 32;
    vstd::arithmetic::div_mod::lemma_fundamental_div_mod_converse(y * n + x, n, y, x);
    assert(0 <= y * n + x < n * (h / 32)) by (nonlinear_arith)
        requires
            0 <= x < n,
            0 <= y < h / 32,
    ;
}

/// The sums of the filter lie row by row, blocks of 64 pixels a side: the even ones and the odd.
pub proof fn law_filter_blocks(rgb: Seq<u8>, w: int, h: int, x: int, y: int)
    requires
        0 <= x < w / 64,
        0 <= y < h / 64,
    ensures
        filter_sums(rgb, w, h).len() == (w / 64) * (h / 64),
        filter_sums(rgb, w, h)[y * (w / 64) + x] == (
            parity_sum(rgb, w, 64 * x, 64 * y, true, 3844) as u64,
            parity_sum(rgb, w, 64 * x, 64 * y, false, 3844) as u64,
        ),
{
    let n = w / 64;
    vstd::arithmetic::div_mod::lemma_fundamental_div_mod_converse(y * n + x, n, y, x);
    assert(0 <= y * n + x < n * (h / 64)) by (nonlinear_arith)
        requires
            0 <= x < n,
            0 <= y < h / 64,
    ;
}

/// An error level shows as the ink of its number, pixel by pixel.
pub proof fn law_error_inks(e: Seq<u16>, palette: Seq<Ink>, i: int)
    requires
        0 <= i < e.len(),
    ensures
        error_inks(e, palette).len() == e.len(),
        error_inks(e, palette)[i] == palette[e[i] as int],
        OVERLAY_QUALITY == 92,
{
}

} // verus!
