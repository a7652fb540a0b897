//! Reading rasters stored row by row.

use crate::components::lemma_cell;
use crate::components::lemma_cell_coords;
use crate::select::how_many;
use crate::select::lemma_which;
use vstd::prelude::*;

verus! {

/// The sample of a one-channel raster of width `w` at column `x` and row `y`.
pub open spec fn pixel(samples: Seq<u8>, w: int, x: int, y: int) -> int {
    samples[y * w + x] as int
}

/// Reads a sample of a one-channel raster.
pub fn px(samples: &[u8], w: usize, h: usize, x: usize, y: usize) -> (r: i64)
    requires
        samples.len() == w * h,
        x < w,
        y < h,
    ensures
        r == pixel(samples@, w as int, x as int, y as int),
        0 <= r <= 255,
{
    let i: usize = cell(w, h, x, y);
    samples[i] as i64
}

/// The position of a cell given by its column and row.
pub fn cell(w: usize, h: usize, x: usize, y: usize) -> (r: usize)
    requires
        x < w,
        y < h,
        w * h <= usize::MAX,
    ensures
        r == y * w + x,
        r < w * h,
        r % w == x,
        r / w == y,
{
    proof {
        lemma_cell(w as int, h as int, x as int, y as int);
        assert(y * w <= y * w + x);
    }
    y * w + x
}

/// The sample of a raster with three interleaved channels.
pub open spec fn channel(samples: Seq<u8>, w: int, x: int, y: int, c: int) -> int {
    samples[(y * w + x) * 3 + c] as int
}

/// Reads a sample of a raster with three interleaved channels.
pub fn px3(samples: &[u8], w: usize, h: usize, x: usize, y: usize, c: usize) -> (r: i64)
    requires
        samples.len() == w * h * 3,
        x < w,
        y < h,
        c < 3,
    ensures
        r == channel(samples@, w as int, x as int, y as int, c as int),
        0 <= r <= 255,
{
    proof {
        lemma_cell(w as int, h as int, x as int, y as int);
        assert(w * h <= w * h * 3);
    }
    let i: usize = cell(w, h, x, y);
    samples[i * 3 + c] as i64
}

/// Absolute value.
pub open spec fn abs(v: int) -> int {
    if v < 0 {
        -v
    } else {
        v
    }
}

/// The larger of two integers.
pub open spec fn imax(a: int, b: int) -> int {
    if a >= b {
        a
    } else {
        b
    }
}

/// The smaller of two integers.
pub open spec fn imin(a: int, b: int) -> int {
    if a <= b {
        a
    } else {
        b
    }
}

/// `v` moved into `lo..=hi`.
pub open spec fn clamped(v: int, lo: int, hi: int) -> int {
    imin(imax(v, lo), hi)
}

/// `v - d`, but not below zero.
pub open spec fn less(v: int, d: int) -> int {
    imax(v - d, 0)
}

/// How many of the first `n` blocks are active.
pub open spec fn count_active(active: Seq<bool>, n: nat) -> nat
    decreases n,
{
    if n == 0 {
        0
    } else {
        count_active(active, (n - 1) as nat) + if active[n - 1] {
            1nat
        } else {
            0nat
        }
    }
}

/// Counts the active blocks.
pub fn active_count(active: &Vec<bool>) -> (r: usize)
    ensures
        r == count_active(active@, active@.len()),
        r <= active.len(),
{
    let mut r: usize = 0;
    let mut i: usize = 0;
    while i < active.len()
        invariant
            i <= active.len(),
            r <= i,
            r == count_active(active@, i as nat),
        decreases active.len() - i,
    {
        if active[i] {
            r += 1;
        }
        i += 1;
    }
    r
}

/// A box of pixels: the first column and row, and those just past the last.
pub struct Extent {
    pub min_x: usize,
    pub min_y: usize,
    pub max_x: usize,
    pub max_y: usize,
}

/// The smallest left edge of the first `n` blocks of a list, or `top` if there is none.
pub open spec fn blocks_min_x(blocks: Seq<usize>, blocks_x: int, bs: int, n: nat, top: int) -> int
    decreases n,
{
    if n == 0 {
        top
    } else {
        imin(
            blocks_min_x(blocks, blocks_x, bs, (n - 1) as nat, top),
            (blocks[n - 1] as int % blocks_x) * bs,
        )
    }
}

/// The smallest top edge of the first `n` blocks of a list, or `top` if there is none.
pub open spec fn blocks_min_y(blocks: Seq<usize>, blocks_x: int, bs: int, n: nat, top: int) -> int
    decreases n,
{
    if n == 0 {
        top
    } else {
        imin(
            blocks_min_y(blocks, blocks_x, bs, (n - 1) as nat, top),
            (blocks[n - 1] as int / blocks_x) * bs,
        )
    }
}

/// The largest right edge of the first `n` blocks of a list, or zero if there is none.
pub open spec fn blocks_max_x(blocks: Seq<usize>, blocks_x: int, bs: int, n: nat) -> int
    decreases n,
{
    if n == 0 {
        0
    } else {
        imax(
            blocks_max_x(blocks, blocks_x, bs, (n - 1) as nat),
            (blocks[n - 1] as int % blocks_x + 1) * bs,
        )
    }
}

/// The largest bottom edge of the first `n` blocks of a list, or zero if there is none.
pub open spec fn blocks_max_y(blocks: Seq<usize>, blocks_x: int, bs: int, n: nat) -> int
    decreases n,
{
    if n == 0 {
        0
    } else {
        imax(
            blocks_max_y(blocks, blocks_x, bs, (n - 1) as nat),
            (blocks[n - 1] as int / blocks_x + 1) * bs,
        )
    }
}

/// The extent in pixels of a list of blocks.
pub open spec fn blocks_extent(blocks: Seq<usize>, blocks_x: int, bs: int, e: Extent) -> bool {
    &&& e.min_x == blocks_min_x(blocks, blocks_x, bs, blocks.len(), usize::MAX as int)
    &&& e.min_y == blocks_min_y(blocks, blocks_x, bs, blocks.len(), usize::MAX as int)
    &&& e.max_x == blocks_max_x(blocks, blocks_x, bs, blocks.len())
    &&& e.max_y == blocks_max_y(blocks, blocks_x, bs, blocks.len())
}

/// The extent in pixels of a list of blocks of size `bs`, in an image that is
/// `blocks_x` blocks wide and `blocks_y` blocks high.
pub fn bbox(blocks: &Vec<usize>, blocks_x: usize, blocks_y: usize, bs: usize) -> (e: Extent)
    requires
        forall|i: int| 0 <= i < blocks.len() ==> #[trigger] blocks@[i] < blocks_x * blocks_y,
        blocks_x * bs <= u32::MAX,
        blocks_y * bs <= u32::MAX,
    ensures
        blocks_extent(blocks@, blocks_x as int, bs as int, e),
        blocks.len() > 0 ==> e.min_x <= e.max_x <= blocks_x * bs && e.min_y <= e.max_y <= blocks_y
            * bs,
{
    let mut min_x: usize = usize::MAX;
    let mut min_y: usize = usize::MAX;
    let mut max_x: usize = 0;
    let mut max_y: usize = 0;
    let mut i: usize = 0;
    while i < blocks.len()
        invariant
            i <= blocks.len(),
            forall|i: int| 0 <= i < blocks.len() ==> #[trigger] blocks@[i] < blocks_x * blocks_y,
            blocks_x * bs <= u32::MAX,
            blocks_y * bs <= u32::MAX,
            min_x == blocks_min_x(blocks@, blocks_x as int, bs as int, i as nat, usize::MAX as int),
            min_y == blocks_min_y(blocks@, blocks_x as int, bs as int, i as nat, usize::MAX as int),
            max_x == blocks_max_x(blocks@, blocks_x as int, bs as int, i as nat),
            max_y == blocks_max_y(blocks@, blocks_x as int, bs as int, i as nat),
            i > 0 ==> min_x <= max_x <= blocks_x * bs && min_y <= max_y <= blocks_y * bs,
            i == 0 ==> max_x == 0 && max_y == 0,
        decreases blocks.len() - i,
    {
        proof {
            lemma_cell_coords(blocks_x as int, blocks_y as int, blocks@[i as int] as int);
        }
        let bx: usize = blocks[i] % blocks_x;
        let by: usize = blocks[i] / blocks_x;
        proof {
            assert((bx + 1) * bs <= blocks_x * bs) by (nonlinear_arith)
                requires
                    bx + 1 <= blocks_x,
            ;
            assert((by + 1) * bs <= blocks_y * bs) by (nonlinear_arith)
                requires
                    by + 1 <= blocks_y,
            ;
            assert((bx + 1) * bs == bx * bs + bs) by (nonlinear_arith);
            assert((by + 1) * bs == by * bs + bs) by (nonlinear_arith);
            assert(0 <= bx * bs) by (nonlinear_arith);
            assert(0 <= by * bs) by (nonlinear_arith);
        }
        let left: usize = bx * bs;
        let top: usize = by * bs;
        let right: usize = (bx + 1) * bs;
        let bottom: usize = (by + 1) * bs;
        if left < min_x {
            min_x = left;
        }
        if top < min_y {
            min_y = top;
        }
        if right > max_x {
            max_x = right;
        }
        if bottom > max_y {
            max_y = bottom;
        }
        i += 1;
    }
    Extent { min_x, min_y, max_x, max_y }
}

/// The count is of the active blocks.
pub proof fn law_active_are_counted(active: Seq<bool>, n: nat)
    requires
        n <= active.len(),
    ensures
        count_active(active, n) == how_many(n, |i: int| active[i]),
    decreases n,
{
    let p = |i: int| active[i];
    lemma_which(0, p);
    if n > 0 {
        law_active_are_counted(active, (n - 1) as nat);
        lemma_which((n - 1) as nat, p);
    }
}

/// The extent of blocks holds each of them: its columns and rows lie between the sides.
pub proof fn law_extent_holds_blocks(
    blocks: Seq<usize>,
    blocks_x: int,
    bs: int,
    n: nat,
    top: int,
    k: int,
)
    requires
        0 <= k < n <= blocks.len(),
    ensures
        blocks_min_x(blocks, blocks_x, bs, n, top) <= (blocks[k] as int % blocks_x) * bs,
        (blocks[k] as int % blocks_x + 1) * bs <= blocks_max_x(blocks, blocks_x, bs, n),
        blocks_min_y(blocks, blocks_x, bs, n, top) <= (blocks[k] as int / blocks_x) * bs,
        (blocks[k] as int / blocks_x + 1) * bs <= blocks_max_y(blocks, blocks_x, bs, n),
    decreases n,
{
    if k < n - 1 {
        law_extent_holds_blocks(blocks, blocks_x, bs, (n - 1) as nat, top, k);
    }
}

/// The extent is no larger than the blocks: where there is one, each side is that of a
/// block.
pub proof fn law_extent_is_tight(blocks: Seq<usize>, blocks_x: int, bs: int, n: nat, top: int)
    requires
        0 < n <= blocks.len(),
        blocks_x > 0,
        bs >= 0,
        forall|k: int|
            0 <= k < n ==> (#[trigger] blocks[k] as int % blocks_x) * bs <= top && (
            blocks[k] as int / blocks_x) * bs <= top,
    ensures
        exists|k: int|
            0 <= k < n && (#[trigger] blocks[k] as int % blocks_x) * bs == blocks_min_x(
                blocks,
                blocks_x,
                bs,
                n,
                top,
            ),
        exists|k: int|
            0 <= k < n && (#[trigger] blocks[k] as int % blocks_x + 1) * bs == blocks_max_x(
                blocks,
                blocks_x,
                bs,
                n,
            ),
        exists|k: int|
            0 <= k < n && (#[trigger] blocks[k] as int / blocks_x) * bs == blocks_min_y(
                blocks,
                blocks_x,
                bs,
                n,
                top,
            ),
        exists|k: int|
            0 <= k < n && (#[trigger] blocks[k] as int / blocks_x + 1) * bs == blocks_max_y(
                blocks,
                blocks_x,
                bs,
                n,
            ),
    decreases n,
{
    let m = (n - 1) as nat;
    let b = blocks[n - 1] as int;
    assert((b % blocks_x + 1) * bs >= 0 && (b / blocks_x + 1) * bs >= 0) by (nonlinear_arith)
        requires
            bs >= 0,
            b >= 0,
            blocks_x > 0,
    ;
    assert((b % blocks_x) * bs <= top && (b / blocks_x) * bs <= top);
    assert(blocks_min_x(blocks, blocks_x, bs, 0, top) == top);
    assert(blocks_min_y(blocks, blocks_x, bs, 0, top) == top);
    assert(blocks_max_x(blocks, blocks_x, bs, 0) == 0);
    assert(blocks_max_y(blocks, blocks_x, bs, 0) == 0);
    if n > 1 {
        law_extent_is_tight(blocks, blocks_x, bs, m, top);
        let p = choose|k: int|
            0 <= k < m && (#[trigger] blocks[k] as int % blocks_x) * bs == blocks_min_x(
                blocks,
                blocks_x,
                bs,
                m,
                top,
            );
        let q = choose|k: int|
            0 <= k < m && (#[trigger] blocks[k] as int % blocks_x + 1) * bs == blocks_max_x(
                blocks,
                blocks_x,
                bs,
                m,
            );
        let r = choose|k: int|
            0 <= k < m && (#[trigger] blocks[k] as int / blocks_x) * bs == blocks_min_y(
                blocks,
                blocks_x,
                bs,
                m,
                top,
            );
        let s = choose|k: int|
            0 <= k < m && (#[trigger] blocks[k] as int / blocks_x + 1) * bs == blocks_max_y(
                blocks,
                blocks_x,
                bs,
                m,
            );
        assert((blocks[p] as int % blocks_x) * bs == blocks_min_x(blocks, blocks_x, bs, n, top) || (b
            % blocks_x) * bs == blocks_min_x(blocks, blocks_x, bs, n, top));
        assert((blocks[q] as int % blocks_x + 1) * bs == blocks_max_x(blocks, blocks_x, bs, n) || (b
            % blocks_x + 1) * bs == blocks_max_x(blocks, blocks_x, bs, n));
        assert((blocks[r] as int / blocks_x) * bs == blocks_min_y(blocks, blocks_x, bs, n, top) || (b
            / blocks_x) * bs == blocks_min_y(blocks, blocks_x, bs, n, top));
        assert((blocks[s] as int / blocks_x + 1) * bs == blocks_max_y(blocks, blocks_x, bs, n) || (b
            / blocks_x + 1) * bs == blocks_max_y(blocks, blocks_x, bs, n));
    }
}

/// The lesser and the greater of two numbers, a distance from zero, and a number held between two.
pub proof fn law_bounds(a: int, b: int, c: int)
    ensures
        imin(a, b) <= a && imin(a, b) <= b && (imin(a, b) == a || imin(a, b) == b),
        imax(a, b) >= a && imax(a, b) >= b && (imax(a, b) == a || imax(a, b) == b),
        abs(a) >= a && abs(a) >= 0 - a && (abs(a) == a || abs(a) == 0 - a),
        b <= c ==> b <= clamped(a, b, c) <= c,
        b <= a <= c ==> clamped(a, b, c) == a,
        a < b <= c ==> clamped(a, b, c) == b,
        b <= c < a ==> clamped(a, b, c) == c,
        a >= b ==> less(a, b) == a - b,
        a < b ==> less(a, b) == 0,
{
}

/// A pixel lies in its row, and a channel in its pixel, three to each.
pub proof fn law_places(s: Seq<u8>, w: int, x: int, y: int, c: int)
    ensures
        pixel(s, w, x, y) == s[w * y + x],
        channel(s, w, x, y, c) == s[3 * (w * y + x) + c],
{
    assert(w * y == y * w) by (nonlinear_arith);
}

} // verus!
