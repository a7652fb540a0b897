//! Document-specific forensics: paste corners and block anomalies.
//!
//! Localized tampering in a document (a swapped digit or letter) shows where
//! vertical and horizontal boundaries of the noise residual meet, and where
//! blocks diverge from their neighbourhood.

use crate::bits::P90;
use crate::clusters::arranged;
use crate::clusters::by_peak;
use crate::clusters::cluster_spots;
use crate::clusters::clusters_of;
use crate::clusters::inside;
use crate::clusters::peak_keys;
use crate::clusters::Cluster;
use crate::clusters::Spot;
use crate::components::lemma_cell;
use crate::components::lemma_cell_coords;
use crate::finding::boxed_finding;
use crate::finding::group_values;
use crate::finding::plain_finding;
use crate::finding::values;
use crate::finding::Finding;
use crate::finding::FindingView;
use crate::finding::Region;
use crate::finding::RegionView;
use crate::finding::Severity;
use crate::grid::abs;
use crate::grid::cell;
use crate::grid::imax;
use crate::grid::imin;
use crate::grid::less;
use crate::grid::pixel;
use crate::grid::px;
use crate::histogram::count_band;
use crate::histogram::histogram;
use crate::histogram::histogram_of;
use crate::histogram::in_band;
use crate::histogram::is_bimodal;
use crate::histogram::two_peaks;
use crate::number::half_even;
use crate::number::round_half_even;
use crate::order::before;
use crate::order::law_order_exists;
use crate::order::order_of;
use crate::order::sort_bytes;
use crate::order::sorted_bytes;
use crate::order::stable_order;
use crate::pixel::splice_boundary::residual4;
use crate::select::how_many;
use crate::select::lemma_which;
use crate::select::total;
use crate::select::which;
use crate::text::append_decimal;
use crate::text::decimal_text;
use vstd::prelude::*;
use vstd::string::*;

verus! {

/// The document analyzer.
pub struct DocumentForensicsAnalyzer;

/// A paste-corner candidate. The score counts sixteenths.
#[derive(Debug, Clone, Copy, PartialEq, Eq, Structural)]
pub struct Corner {
    pub x: usize,
    pub y: usize,
    pub score: u64,
}

/// The three by three samples around an inner pixel, row by row.
pub open spec fn window(gray: Seq<u8>, w: int, x: int, y: int) -> Seq<u8> {
    Seq::new(9, |i: int| gray[(y + i / 3 - 1) * w + (x + i % 3 - 1)])
}

/// The distance of an inner pixel from the median of its window; zero at the border.
pub open spec fn residual_at(gray: Seq<u8>, w: int, h: int, x: int, y: int) -> int {
    if 1 <= x < w - 1 && 1 <= y < h - 1 {
        abs(pixel(gray, w, x, y) - sorted_bytes(window(gray, w, x, y))[4] as int)
    } else {
        0
    }
}

/// Four times the distance of a residual from the mean of the two before it and
/// the two after it, along its row (`vertical`: a vertical boundary) or along its
/// column; zero near the border.
pub open spec fn boundary_at(
    gray: Seq<u8>,
    w: int,
    h: int,
    vertical: bool,
    x: int,
    y: int,
) -> int {
    if 2 <= x < w - 2 && 2 <= y < h - 2 {
        let c = residual_at(gray, w, h, x, y);
        if vertical {
            abs(
                4 * c - (residual_at(gray, w, h, x - 2, y) + residual_at(gray, w, h, x - 1, y)
                    + residual_at(gray, w, h, x + 1, y) + residual_at(gray, w, h, x + 2, y)),
            )
        } else {
            abs(
                4 * c - (residual_at(gray, w, h, x, y - 2) + residual_at(gray, w, h, x, y - 1)
                    + residual_at(gray, w, h, x, y + 1) + residual_at(gray, w, h, x, y + 2)),
            )
        }
    } else {
        0
    }
}

/// The strongest boundary among `n` pixels of row `y` from column `x0` on.
pub open spec fn row_strength(
    gray: Seq<u8>,
    w: int,
    h: int,
    vertical: bool,
    x0: int,
    y: int,
    n: nat,
) -> int
    decreases n,
{
    if n == 0 {
        0
    } else {
        imax(
            row_strength(gray, w, h, vertical, x0, y, (n - 1) as nat),
            boundary_at(gray, w, h, vertical, x0 + n - 1, y),
        )
    }
}

/// The strongest boundary in a strip of `cols` by `rows` pixels.
pub open spec fn strip_strength(
    gray: Seq<u8>,
    w: int,
    h: int,
    vertical: bool,
    x0: int,
    y0: int,
    cols: nat,
    rows: nat,
) -> int
    decreases rows,
{
    if rows == 0 {
        0
    } else {
        imax(
            strip_strength(gray, w, h, vertical, x0, y0, cols, (rows - 1) as nat),
            row_strength(gray, w, h, vertical, x0, y0 + rows - 1, cols),
        )
    }
}

/// The corner score of a pixel, in sixteenths: the strongest vertical boundary in
/// an upright strip around it times the strongest horizontal one in a level strip.
pub open spec fn corner_score(gray: Seq<u8>, w: int, h: int, x: int, y: int) -> int {
    strip_strength(gray, w, h, true, x - 2, y - 6, 5, 13) * strip_strength(
        gray,
        w,
        h,
        false,
        x - 6,
        y - 2,
        13,
        5,
    )
}

/// The pixels among the first `n` whose corner score exceeds one hundred, row by row.
pub open spec fn corner_list(gray: Seq<u8>, w: int, h: int, n: nat) -> Seq<Corner>
    decreases n,
{
    if n == 0 {
        Seq::empty()
    } else {
        let rest = corner_list(gray, w, h, (n - 1) as nat);
        let x = (n - 1) % w;
        let y = (n - 1) / w;
        let s = corner_score(gray, w, h, x, y);
        if 6 <= x < w - 6 && 6 <= y < h - 6 && s > 1600 {
            rest.push(Corner { x: x as usize, y: y as usize, score: s as u64 })
        } else {
            rest
        }
    }
}

/// Ordering keys that put higher scores first.
pub open spec fn corner_keys(c: Seq<Corner>) -> Seq<u128> {
    Seq::new(c.len(), |i: int| (u64::MAX - c[i].score) as u128)
}

/// The corners by falling score, equal ones in their given order.
pub open spec fn ranked(c: Seq<Corner>) -> Seq<Corner> {
    Seq::new(c.len(), |i: int| c[order_of(corner_keys(c))[i] as int])
}

/// Two corners closer than twenty pixels in both directions.
pub open spec fn too_close(a: Corner, b: Corner) -> bool {
    abs(a.x - b.x) < 20 && abs(a.y - b.y) < 20
}

/// What is kept of the first `n` corners: those not too close to one kept before
/// them, up to fifteen.
pub open spec fn suppressed(c: Seq<Corner>, n: nat) -> Seq<Corner>
    decreases n,
{
    if n == 0 {
        Seq::empty()
    } else {
        let kept = suppressed(c, (n - 1) as nat);
        if kept.len() >= 15 || exists|k: int|
            0 <= k < kept.len() && too_close(c[n - 1], #[trigger] kept[k]) {
            kept
        } else {
            kept.push(c[n - 1])
        }
    }
}

/// The reported paste corners of an image.
pub open spec fn paste_corners(gray: Seq<u8>, w: int, h: int) -> Seq<Corner> {
    if w < 20 || h < 20 {
        Seq::empty()
    } else {
        let c = ranked(corner_list(gray, w, h, (w * h) as nat));
        let kept = suppressed(c, c.len());
        kept.take(imin(kept.len() as int, 10))
    }
}

/// Kept corners are never too close to each other, and there are at most fifteen.
pub proof fn law_kept_corners_apart(c: Seq<Corner>, n: nat, i: int, j: int)
    requires
        n <= c.len(),
        0 <= i < j < suppressed(c, n).len(),
    ensures
        !too_close(suppressed(c, n)[j], suppressed(c, n)[i]),
        suppressed(c, n).len() <= 15,
    decreases n,
{
    lemma_suppressed_len(c, n);
    let kept = suppressed(c, (n - 1) as nat);
    if suppressed(c, n) != kept {
        if j < kept.len() {
            law_kept_corners_apart(c, (n - 1) as nat, i, j);
        } else {
            assert(!too_close(c[n - 1], kept[i]));
        }
    } else {
        law_kept_corners_apart(c, (n - 1) as nat, i, j);
    }
}

proof fn lemma_listed_inside(gray: Seq<u8>, w: int, h: int, n: nat)
    requires
        w <= usize::MAX,
        h <= usize::MAX,
    ensures
        corner_list(gray, w, h, n).len() <= n,
        forall|i: int|
            0 <= i < corner_list(gray, w, h, n).len() ==> (#[trigger] corner_list(gray, w, h, n)[i]).x
                < w && corner_list(gray, w, h, n)[i].y < h,
    decreases n,
{
    if n > 0 {
        lemma_listed_inside(gray, w, h, (n - 1) as nat);
    }
}

proof fn lemma_suppressed_inside(c: Seq<Corner>, w: int, h: int, n: nat)
    requires
        n <= c.len(),
        forall|i: int| 0 <= i < c.len() ==> (#[trigger] c[i]).x < w && c[i].y < h,
    ensures
        forall|i: int|
            0 <= i < suppressed(c, n).len() ==> (#[trigger] suppressed(c, n)[i]).x < w && suppressed(
                c,
                n,
            )[i].y < h,
    decreases n,
{
    if n > 0 {
        lemma_suppressed_inside(c, w, h, (n - 1) as nat);
        assert(c[n - 1].x < w && c[n - 1].y < h);
        let kept = suppressed(c, (n - 1) as nat);
        let all = suppressed(c, n);
        assert forall|i: int| 0 <= i < all.len() implies (#[trigger] all[i]).x < w && all[i].y
            < h by {
            if i < kept.len() {
                assert(all[i] == kept[i]);
            } else {
                assert(all[i] == c[n - 1]);
            }
        }
    }
}

/// The reported corners lie inside the image.
pub proof fn law_corners_inside(gray: Seq<u8>, w: int, h: int, i: int)
    requires
        0 <= w,
        0 <= h,
        w * h <= usize::MAX,
        0 <= i < paste_corners(gray, w, h).len(),
    ensures
        paste_corners(gray, w, h)[i].x < w,
        paste_corners(gray, w, h)[i].y < h,
{
    assert(w <= w * h && h <= w * h) by (nonlinear_arith)
        requires
            w >= 20,
            h >= 20,
    ;
    let n = (w * h) as nat;
    let all = corner_list(gray, w, h, n);
    lemma_listed_inside(gray, w, h, n);
    law_order_exists(corner_keys(all));
    let c = ranked(all);
    assert forall|k: int| 0 <= k < c.len() implies (#[trigger] c[k]).x < w && c[k].y < h by {
        let at = order_of(corner_keys(all))[k] as int;
        assert(0 <= at < all.len());
        assert(c[k] == all[at]);
    }
    lemma_suppressed_inside(c, w, h, c.len());
    assert(paste_corners(gray, w, h)[i] == suppressed(c, c.len())[i]);
}

proof fn lemma_suppressed_len(c: Seq<Corner>, n: nat)
    ensures
        suppressed(c, n).len() <= 15,
    decreases n,
{
    if n > 0 {
        lemma_suppressed_len(c, (n - 1) as nat);
    }
}

/// The nine samples around a pixel that is not on the border, row by row.
pub fn window_of(gray: &[u8], w: usize, h: usize, x: usize, y: usize) -> (r: Vec<u8>)
    requires
        gray.len() == w * h,
        1 <= x < w - 1,
        1 <= y < h - 1,
    ensures
        r@ == window(gray@, w as int, x as int, y as int),
{
    let mut v: Vec<u8> = Vec::new();
    let mut i: usize = 0;
    while i < 9
        invariant
            i <= 9,
            v.len() == i,
            gray.len() == w * h,
            1 <= x < w - 1,
            1 <= y < h - 1,
            forall|j: int|
                0 <= j < i ==> v@[j] == #[trigger] window(gray@, w as int, x as int, y as int)[j],
        decreases 9 - i,
    {
        let c: usize = cell(w, h, x + i % 3 - 1, y + i / 3 - 1);
        v.push(gray[c]);
        i += 1;
    }
    proof {
        assert(v@ =~= window(gray@, w as int, x as int, y as int));
    }
    v
}

fn residuals(gray: &[u8], w: usize, h: usize) -> (r: Vec<i64>)
    requires
        gray.len() == w * h,
    ensures
        r.len() == w * h,
        forall|i: int|
            0 <= i < w * h ==> #[trigger] r@[i] == residual_at(
                gray@,
                w as int,
                h as int,
                i % (w as int),
                i / (w as int),
            ) && 0 <= r@[i] <= 255,
{
    let mut r: Vec<i64> = Vec::new();
    let mut i: usize = 0;
    while i < gray.len()
        invariant
            gray.len() == w * h,
            i <= gray.len(),
            r.len() == i,
            forall|j: int|
                0 <= j < i ==> #[trigger] r@[j] == residual_at(
                    gray@,
                    w as int,
                    h as int,
                    j % (w as int),
                    j / (w as int),
                ) && 0 <= r@[j] <= 255,
        decreases gray.len() - i,
    {
        proof {
            lemma_cell_coords(w as int, h as int, i as int);
        }
        let x: usize = i % w;
        let y: usize = i / w;
        if 1 <= x && x < w - 1 && 1 <= y && y < h - 1 {
            let win = window_of(gray, w, h, x, y);
            let sorted = sort_bytes(&win);
            let g: i64 = px(gray, w, h, x, y);
            let d: i64 = g - sorted[4] as i64;
            r.push(if d < 0 {
                -d
            } else {
                d
            });
        } else {
            r.push(0);
        }
        i += 1;
    }
    r
}

/// Reads one value of a map of the image.
fn value_at(map: &Vec<i64>, w: usize, h: usize, x: usize, y: usize) -> (r: i64)
    requires
        map.len() == w * h,
        x < w,
        y < h,
    ensures
        r == map@[y * w + x],
        (y * w + x) % (w as int) == x,
        (y * w + x) / (w as int) == y,
        0 <= y * w + x < w * h,
{
    let i: usize = cell(w, h, x, y);
    map[i]
}

fn boundaries(res: &Vec<i64>, Ghost(gray): Ghost<Seq<u8>>, w: usize, h: usize, vertical: bool) -> (r:
    Vec<i64>)
    requires
        res.len() == w * h,
        forall|i: int|
            0 <= i < w * h ==> #[trigger] res@[i] == residual_at(
                gray,
                w as int,
                h as int,
                i % (w as int),
                i / (w as int),
            ) && 0 <= res@[i] <= 255,
    ensures
        r.len() == w * h,
        forall|i: int|
            0 <= i < w * h ==> #[trigger] r@[i] == boundary_at(
                gray,
                w as int,
                h as int,
                vertical,
                i % (w as int),
                i / (w as int),
            ) && 0 <= r@[i] <= 1020,
{
    let mut r: Vec<i64> = Vec::new();
    let mut i: usize = 0;
    while i < res.len()
        invariant
            res.len() == w * h,
            forall|i: int|
                0 <= i < w * h ==> #[trigger] res@[i] == residual_at(
                    gray,
                    w as int,
                    h as int,
                    i % (w as int),
                    i / (w as int),
                ) && 0 <= res@[i] <= 255,
            i <= res.len(),
            r.len() == i,
            forall|j: int|
                0 <= j < i ==> #[trigger] r@[j] == boundary_at(
                    gray,
                    w as int,
                    h as int,
                    vertical,
                    j % (w as int),
                    j / (w as int),
                ) && 0 <= r@[j] <= 1020,
        decreases res.len() - i,
    {
        proof {
            lemma_cell_coords(w as int, h as int, i as int);
        }
        let x: usize = i % w;
        let y: usize = i / w;
        if w >= 4 && h >= 4 && 2 <= x && x < w - 2 && 2 <= y && y < h - 2 {
            let c: i64 = res[i];
            let sum: i64 = if vertical {
                value_at(res, w, h, x - 2, y) + value_at(res, w, h, x - 1, y) + value_at(
                    res,
                    w,
                    h,
                    x + 1,
                    y,
                ) + value_at(res, w, h, x + 2, y)
            } else {
                value_at(res, w, h, x, y - 2) + value_at(res, w, h, x, y - 1) + value_at(
                    res,
                    w,
                    h,
                    x,
                    y + 1,
                ) + value_at(res, w, h, x, y + 2)
            };
            let d: i64 = 4 * c - sum;
            r.push(if d < 0 {
                -d
            } else {
                d
            });
        } else {
            r.push(0);
        }
        i += 1;
    }
    r
}

fn strongest(
    map: &Vec<i64>,
    Ghost(gray): Ghost<Seq<u8>>,
    w: usize,
    h: usize,
    vertical: bool,
    x0: usize,
    y0: usize,
    cols: usize,
    rows: usize,
) -> (r: i64)
    requires
        map.len() == w * h,
        x0 + cols <= w,
        y0 + rows <= h,
        forall|i: int|
            0 <= i < w * h ==> #[trigger] map@[i] == boundary_at(
                gray,
                w as int,
                h as int,
                vertical,
                i % (w as int),
                i / (w as int),
            ) && 0 <= map@[i] <= 1020,
    ensures
        r == strip_strength(
            gray,
            w as int,
            h as int,
            vertical,
            x0 as int,
            y0 as int,
            cols as nat,
            rows as nat,
        ),
        0 <= r <= 1020,
{
    let mut best: i64 = 0;
    let mut dy: usize = 0;
    while dy < rows
        invariant
            map.len() == w * h,
            x0 + cols <= w,
            y0 + rows <= h,
            dy <= rows,
            forall|i: int|
                0 <= i < w * h ==> #[trigger] map@[i] == boundary_at(
                    gray,
                    w as int,
                    h as int,
                    vertical,
                    i % (w as int),
                    i / (w as int),
                ) && 0 <= map@[i] <= 1020,
            best == strip_strength(
                gray,
                w as int,
                h as int,
                vertical,
                x0 as int,
                y0 as int,
                cols as nat,
                dy as nat,
            ),
            0 <= best <= 1020,
        decreases rows - dy,
    {
        let mut row_best: i64 = 0;
        let mut dx: usize = 0;
        while dx < cols
            invariant
                map.len() == w * h,
                x0 + cols <= w,
                y0 + rows <= h,
                dy < rows,
                dx <= cols,
                forall|i: int|
                    0 <= i < w * h ==> #[trigger] map@[i] == boundary_at(
                        gray,
                        w as int,
                        h as int,
                        vertical,
                        i % (w as int),
                        i / (w as int),
                    ) && 0 <= map@[i] <= 1020,
                row_best == row_strength(
                    gray,
                    w as int,
                    h as int,
                    vertical,
                    x0 as int,
                    y0 + dy,
                    dx as nat,
                ),
                0 <= row_best <= 1020,
            decreases cols - dx,
        {
            let v: i64 = value_at(map, w, h, x0 + dx, y0 + dy);
            if v > row_best {
                row_best = v;
            }
            dx += 1;
        }
        if row_best > best {
            best = row_best;
        }
        dy += 1;
    }
    best
}

/// All corners of an image, row by row.
fn list_corners(gray: &[u8], w: usize, h: usize) -> (r: Vec<Corner>)
    requires
        gray.len() == w * h,
        w >= 20,
        h >= 20,
    ensures
        r@ == corner_list(gray@, w as int, h as int, (w * h) as nat),
{
    let res = residuals(gray, w, h);
    let vert = boundaries(&res, Ghost(gray@), w, h, true);
    let horiz = boundaries(&res, Ghost(gray@), w, h, false);
    let mut out: Vec<Corner> = Vec::new();
    let mut i: usize = 0;
    while i < gray.len()
        invariant
            gray.len() == w * h,
            w >= 20,
            h >= 20,
            vert.len() == w * h,
            horiz.len() == w * h,
            forall|i: int|
                0 <= i < w * h ==> #[trigger] vert@[i] == boundary_at(
                    gray@,
                    w as int,
                    h as int,
                    true,
                    i % (w as int),
                    i / (w as int),
                ) && 0 <= vert@[i] <= 1020,
            forall|i: int|
                0 <= i < w * h ==> #[trigger] horiz@[i] == boundary_at(
                    gray@,
                    w as int,
                    h as int,
                    false,
                    i % (w as int),
                    i / (w as int),
                ) && 0 <= horiz@[i] <= 1020,
            i <= gray.len(),
            out@ == corner_list(gray@, w as int, h as int, i as nat),
        decreases gray.len() - i,
    {
        proof {
            lemma_cell_coords(w as int, h as int, i as int);
        }
        let x: usize = i % w;
        let y: usize = i / w;
        if 6 <= x && x < w - 6 && 6 <= y && y < h - 6 {
            let v: i64 = strongest(&vert, Ghost(gray@), w, h, true, x - 2, y - 6, 5, 13);
            let u: i64 = strongest(&horiz, Ghost(gray@), w, h, false, x - 6, y - 2, 13, 5);
            proof {
                assert(0 <= v * u <= 1040400) by (nonlinear_arith)
                    requires
                        0 <= v <= 1020,
                        0 <= u <= 1020,
                ;
            }
            let s: i64 = v * u;
            if s > 1600 {
                out.push(Corner { x, y, score: s as u64 });
            }
        }
        i += 1;
    }
    out
}

fn rank_corners(c: &Vec<Corner>) -> (r: Vec<Corner>)
    ensures
        r@ == ranked(c@),
{
    let mut keys: Vec<u128> = Vec::new();
    let mut i: usize = 0;
    while i < c.len()
        invariant
            i <= c.len(),
            keys@ =~= corner_keys(c@).take(i as int),
        decreases c.len() - i,
    {
        keys.push((u64::MAX - c[i].score) as u128);
        i += 1;
    }
    proof {
        assert(keys@ =~= corner_keys(c@));
    }
    let order = stable_order(&keys);
    let mut r: Vec<Corner> = Vec::new();
    let mut k: usize = 0;
    while k < order.len()
        invariant
            k <= order.len(),
            order.len() == c.len(),
            order@ == order_of(corner_keys(c@)),
            forall|j: int| 0 <= j < order.len() ==> #[trigger] order@[j] < c.len(),
            r@ =~= ranked(c@).take(k as int),
        decreases order.len() - k,
    {
        r.push(c[order[k]]);
        k += 1;
    }
    proof {
        assert(r@ =~= ranked(c@));
    }
    r
}

fn is_near(a: Corner, b: Corner) -> (r: bool)
    ensures
        r == too_close(a, b),
{
    let dx: usize = if a.x >= b.x {
        a.x - b.x
    } else {
        b.x - a.x
    };
    let dy: usize = if a.y >= b.y {
        a.y - b.y
    } else {
        b.y - a.y
    };
    dx < 20 && dy < 20
}

fn suppress(c: &Vec<Corner>) -> (kept: Vec<Corner>)
    ensures
        kept@ == suppressed(c@, c@.len()),
{
    let mut kept: Vec<Corner> = Vec::new();
    let mut i: usize = 0;
    while i < c.len()
        invariant
            i <= c.len(),
            kept@ == suppressed(c@, i as nat),
        decreases c.len() - i,
    {
        let mut close: bool = false;
        let mut k: usize = 0;
        while k < kept.len()
            invariant
                i < c.len(),
                k <= kept.len(),
                close == exists|j: int| 0 <= j < k && too_close(c@[i as int], #[trigger] kept@[j]),
            decreases kept.len() - k,
        {
            if is_near(c[i], kept[k]) {
                close = true;
            }
            k += 1;
        }
        if !close && kept.len() < 15 {
            kept.push(c[i]);
        }
        i += 1;
    }
    kept
}

impl DocumentForensicsAnalyzer {
    /// Paste-corner candidates: where vertical and horizontal boundaries of the
    /// noise residual meet, strongest first, at most ten.
    pub fn detect_paste_corners(&self, gray: &[u8], w: usize, h: usize) -> (r: Vec<Corner>)
        requires
            gray.len() == w * h,
        ensures
            r@ == paste_corners(gray@, w as int, h as int),
            r.len() <= 10,
            forall|i: int| 0 <= i < r.len() ==> (#[trigger] r@[i]).x < w && r@[i].y < h,
    {
        if w < 20 || h < 20 {
            return Vec::new();
        }
        let all = list_corners(gray, w, h);
        let by_score = rank_corners(&all);
        let mut kept = suppress(&by_score);
        if kept.len() > 10 {
            kept.truncate(10);
        }
        proof {
            let c = ranked(corner_list(gray@, w as int, h as int, (w * h) as nat));
            assert(kept@ =~= suppressed(c, c.len()).take(
                imin(suppressed(c, c.len()).len() as int, 10),
            ));
            assert forall|i: int| 0 <= i < kept.len() implies (#[trigger] kept@[i]).x < w
                && kept@[i].y < h by {
                law_corners_inside(gray@, w as int, h as int, i);
            }
        }
        kept
    }
}


/// The share of near-white and near-black pixels above which a page is a
/// document, as a key: 0.40.
pub const DOCUMENT_THRESHOLD: i64 = 0x3FD9_9999_9999_999A;

/// The spread of scores below which no block stands out, as a key: 1e-6.
pub const MIN_SPREAD: i64 = 0x3EB0_C6F7_A0B5_ED8D;

/// The size of a block in pixels.
pub const BLOCK_SIZE: usize = 8;

/// The description of paste corner `i` (counted from zero).
pub open spec fn corner_text(c: Corner, i: int) -> Seq<char> {
    "Paste corner candidate "@ + decimal_text((i + 1) as nat) + " at ("@ + decimal_text(c.x as nat)
        + ","@ + decimal_text(c.y as nat)
        + ") - noise residual shows co-located V+H boundary transitions (score "@ + decimal_text(
        half_even(c.score as nat, 16),
    ) + ")"@
}

/// The finding for paste corner `i` (counted from zero).
pub open spec fn corner_finding(c: Corner, i: int, confidence: u64, w: int, h: int) -> FindingView {
    let x = less(c.x as int, 15);
    let y = less(c.y as int, 15);
    boxed_finding(
        "document_forensics"@,
        "document_paste_corner"@,
        corner_text(c, i),
        if i == 0 {
            Severity::High
        } else if i < 3 {
            Severity::Medium
        } else {
            Severity::Low
        },
        confidence,
        x as u32,
        y as u32,
        (imin(c.x + 15, w - 1) - x) as u32,
        (imin(c.y + 15, h - 1) - y) as u32,
    )
}

/// The findings for a list of paste corners.
pub open spec fn corner_findings(
    c: Seq<Corner>,
    confidences: Seq<u64>,
    w: int,
    h: int,
) -> Seq<FindingView> {
    Seq::new(c.len(), |i: int| corner_finding(c[i], i, confidences[i], w, h))
}

fn describe_corner(c: Corner, i: usize) -> (s: String)
    requires
        i < u32::MAX,
    ensures
        s@ == corner_text(c, i as int),
{
    let mut s = "Paste corner candidate ".to_string();
    append_decimal(&mut s, i as u64 + 1);
    s.append(" at (");
    append_decimal(&mut s, c.x as u64);
    s.append(",");
    append_decimal(&mut s, c.y as u64);
    s.append(") - noise residual shows co-located V+H boundary transitions (score ");
    append_decimal(&mut s, round_half_even(c.score, 16));
    s.append(")");
    s
}

/// Reports paste corners. The confidence of each is `0.4` plus its score over
/// `30000`, that part at most `0.4`.
pub fn report_corners(corners: &Vec<Corner>, confidences: &Vec<u64>, w: u32, h: u32) -> (r: Vec<
    Finding,
>)
    requires
        confidences.len() == corners.len(),
        corners.len() < u32::MAX,
        forall|i: int|
            0 <= i < corners.len() ==> (#[trigger] corners@[i]).x < w && corners@[i].y < h,
    ensures
        values(r@) == corner_findings(corners@, confidences@, w as int, h as int),
{
    let mut r: Vec<Finding> = Vec::new();
    let mut i: usize = 0;
    while i < corners.len()
        invariant
            i <= corners.len(),
            confidences.len() == corners.len(),
            corners.len() < u32::MAX,
            forall|i: int|
                0 <= i < corners.len() ==> (#[trigger] corners@[i]).x < w && corners@[i].y < h,
            values(r@) =~= corner_findings(corners@, confidences@, w as int, h as int).take(
                i as int,
            ),
        decreases corners.len() - i,
    {
        broadcast use group_values;

        let c: Corner = corners[i];
        let cx: u32 = c.x as u32;
        let cy: u32 = c.y as u32;
        let x: u32 = cx.saturating_sub(15);
        let y: u32 = cy.saturating_sub(15);
        let x2: u32 = if w - 1 - cx < 15 {
            w - 1
        } else {
            cx + 15
        };
        let y2: u32 = if h - 1 - cy < 15 {
            h - 1
        } else {
            cy + 15
        };
        let severity = if i == 0 {
            Severity::High
        } else if i < 3 {
            Severity::Medium
        } else {
            Severity::Low
        };
        let f = Finding::new(
            "document_forensics",
            "document_paste_corner",
            describe_corner(c, i),
            severity,
            confidences[i],
        ).with_region(Region::BoundingBox { x, y, width: x2 - x, height: y2 - y });
        r.push(f);
        i += 1;
    }
    r
}


/// Near-white and near-black pixels of a raster.
pub open spec fn background(gray: Seq<u8>) -> (nat, nat) {
    (in_band(gray, 231, 256, gray.len()), in_band(gray, 0, 25, gray.len()))
}

/// The document test: a large enough share of near-white and near-black pixels, or
/// a dark and a light peak with a valley between them.
pub open spec fn looks_like_document(gray: Seq<u8>, share: i64) -> bool {
    share > DOCUMENT_THRESHOLD || two_peaks(histogram_of(gray), 64, 192, 96, 160)
}

/// What the samples of a block add up to.
#[derive(Debug, Clone, Copy, PartialEq, Eq, Structural)]
pub struct BlockSums {
    /// The sum of the samples.
    pub sum: u64,
    /// The sum of the squared samples.
    pub squares: u64,
    /// The number of inner pixels with a gradient above thirty.
    pub edges: u64,
}

/// The sum of the first `n` samples of a block, row by row.
pub open spec fn block_sum(gray: Seq<u8>, w: int, x0: int, y0: int, n: nat) -> int
    decreases n,
{
    if n == 0 {
        0
    } else {
        block_sum(gray, w, x0, y0, (n - 1) as nat) + pixel(
            gray,
            w,
            x0 + (n - 1) % 8,
            y0 + (n - 1) / 8,
        )
    }
}

/// The sum of the first `n` squared samples of a block, row by row.
pub open spec fn block_squares(gray: Seq<u8>, w: int, x0: int, y0: int, n: nat) -> int
    decreases n,
{
    if n == 0 {
        0
    } else {
        let v = pixel(gray, w, x0 + (n - 1) % 8, y0 + (n - 1) / 8);
        block_squares(gray, w, x0, y0, (n - 1) as nat) + v * v
    }
}

/// The squared gradient at a pixel: the differences of its horizontal and of its
/// vertical neighbours.
pub open spec fn squared_gradient(gray: Seq<u8>, w: int, x: int, y: int) -> int {
    let gx = pixel(gray, w, x + 1, y) - pixel(gray, w, x - 1, y);
    let gy = pixel(gray, w, x, y + 1) - pixel(gray, w, x, y - 1);
    gx * gx + gy * gy
}

/// What is measured at the inner pixels of a block, row by row: the difference of a pixel
/// from the mean of its four neighbours, in quarters, and its squared gradient.
pub open spec fn inner_values(gray: Seq<u8>, w: int, x0: int, y0: int) -> Seq<(i64, i64)> {
    Seq::new(
        36,
        |i: int|
            (
                residual4(gray, w, x0 + 1 + i % 6, y0 + 1 + i / 6) as i64,
                squared_gradient(gray, w, x0 + 1 + i % 6, y0 + 1 + i / 6) as i64,
            ),
    )
}

/// How many of the first `n` inner pixels of a block have a gradient above thirty.
pub open spec fn block_edges(gray: Seq<u8>, w: int, x0: int, y0: int, n: nat) -> int
    decreases n,
{
    if n == 0 {
        0
    } else {
        block_edges(gray, w, x0, y0, (n - 1) as nat) + if squared_gradient(
            gray,
            w,
            x0 + 1 + (n - 1) % 6,
            y0 + 1 + (n - 1) / 6,
        ) > 900 {
            1int
        } else {
            0int
        }
    }
}

/// The sums of the block whose top left pixel is `(x0, y0)`.
pub open spec fn sums_of_block(gray: Seq<u8>, w: int, x0: int, y0: int) -> BlockSums {
    BlockSums {
        sum: block_sum(gray, w, x0, y0, 64) as u64,
        squares: block_squares(gray, w, x0, y0, 64) as u64,
        edges: block_edges(gray, w, x0, y0, 36) as u64,
    }
}

/// 4096 times the variance of a block's samples.
pub open spec fn spread(b: BlockSums) -> int {
    64 * b.squares - b.sum * b.sum
}

/// A block that holds nothing but background: no edge, and a variance below five.
pub open spec fn is_blank(b: BlockSums) -> bool {
    b.edges == 0 && spread(b) < 5 * 4096
}

/// A block that others are compared with: an edge, or a variance above five.
pub open spec fn is_textured(b: BlockSums) -> bool {
    b.edges > 0 || spread(b) > 5 * 4096
}

/// The sums of all blocks of an image, row by row.
pub open spec fn all_sums(gray: Seq<u8>, w: int, h: int) -> Seq<BlockSums> {
    Seq::new(
        ((w / 8) * (h / 8)) as nat,
        |i: int| sums_of_block(gray, w, (i % (w / 8)) * 8, (i / (w / 8)) * 8),
    )
}

/// Whether block `c` is one that block `b` is compared with: another textured block
/// at most three blocks away in either direction.
pub open spec fn compares_with(sums: Seq<BlockSums>, bx: int, b: int, c: int) -> bool {
    &&& c != b
    &&& abs(c % bx - b % bx) <= 3
    &&& abs(c / bx - b / bx) <= 3
    &&& is_textured(sums[c])
}

/// The blocks among the first `n` that block `b` is compared with.
pub open spec fn comparable(sums: Seq<BlockSums>, bx: int, b: int, n: nat) -> Seq<usize>
    decreases n,
{
    if n == 0 {
        Seq::empty()
    } else if compares_with(sums, bx, b, n - 1) {
        comparable(sums, bx, b, (n - 1) as nat).push((n - 1) as usize)
    } else {
        comparable(sums, bx, b, (n - 1) as nat)
    }
}

/// The positions of the blocks among the first `n` that score above a threshold:
/// the centres of the blocks.
pub open spec fn outlier_spots(scores: Seq<i64>, bx: int, threshold: i64, n: nat) -> Seq<Spot>
    decreases n,
{
    if n == 0 {
        Seq::empty()
    } else {
        let rest = outlier_spots(scores, bx, threshold, (n - 1) as nat);
        if scores[n - 1] > threshold {
            rest.push(
                Spot {
                    x: (((n - 1) % bx) * 8 + 4) as usize,
                    y: (((n - 1) / bx) * 8 + 4) as usize,
                    score: scores[n - 1],
                },
            )
        } else {
            rest
        }
    }
}

/// The reported clusters of outlier blocks: the five with the highest peaks.
pub open spec fn anomaly_clusters(spots: Seq<Spot>, w: int, h: int) -> Seq<Cluster> {
    let c = clusters_of(spots, 16, w, h, true);
    let sorted = arranged(c, peak_keys(c));
    sorted.take(imin(sorted.len() as int, 5))
}

impl DocumentForensicsAnalyzer {
    /// Counts the near-white and the near-black pixels.
    pub fn background_counts(&self, gray: &[u8]) -> (r: (usize, usize))
        ensures
            (r.0 as nat, r.1 as nat) == background(gray@),
    {
        (count_band(gray, 231, 256), count_band(gray, 0, 25))
    }

    /// Classify document (text on background) vs photo. `share` is the key of the
    /// share of near-white pixels plus that of near-black pixels.
    pub fn is_document(&self, gray: &[u8], share: i64) -> (r: bool)
        ensures
            r == looks_like_document(gray@, share),
    {
        if share > DOCUMENT_THRESHOLD {
            return true;
        }
        let h = histogram(gray);
        is_bimodal(&h, 64, 192, 96, 160)
    }
}

proof fn lemma_block_inside(w: int, h: int, i: int)
    requires
        0 <= i < (w / 8) * (h / 8),
        w >= 0,
        h >= 0,
    ensures
        0 <= (i % (w / 8)) * 8,
        (i % (w / 8)) * 8 + 8 <= w,
        0 <= (i / (w / 8)) * 8,
        (i / (w / 8)) * 8 + 8 <= h,
        w / 8 > 0,
{
    lemma_cell_coords(w / 8, h / 8, i);
}

proof fn lemma_sums_bound(gray: Seq<u8>, w: int, x0: int, y0: int, n: nat)
    ensures
        0 <= block_sum(gray, w, x0, y0, n) <= 255 * n,
        0 <= block_squares(gray, w, x0, y0, n) <= 65025 * n,
    decreases n,
{
    if n > 0 {
        lemma_sums_bound(gray, w, x0, y0, (n - 1) as nat);
        let v = pixel(gray, w, x0 + (n - 1) % 8, y0 + (n - 1) / 8);
        assert(0 <= v * v <= 65025) by (nonlinear_arith)
            requires
                0 <= v <= 255,
        ;
    }
}

/// Adds up the samples of a block.
fn sum_block(gray: &[u8], w: usize, h: usize, x0: usize, y0: usize) -> (r: BlockSums)
    requires
        gray.len() == w * h,
        x0 + 8 <= w,
        y0 + 8 <= h,
    ensures
        r == sums_of_block(gray@, w as int, x0 as int, y0 as int),
{
    let mut sum: u64 = 0;
    let mut squares: u64 = 0;
    let mut i: usize = 0;
    while i < 64
        invariant
            i <= 64,
            gray.len() == w * h,
            x0 + 8 <= w,
            y0 + 8 <= h,
            sum == block_sum(gray@, w as int, x0 as int, y0 as int, i as nat),
            squares == block_squares(gray@, w as int, x0 as int, y0 as int, i as nat),
        decreases 64 - i,
    {
        let v: i64 = px(gray, w, h, x0 + i % 8, y0 + i / 8);
        proof {
            lemma_sums_bound(gray@, w as int, x0 as int, y0 as int, i as nat);
            assert(0 <= v * v <= 65025) by (nonlinear_arith)
                requires
                    0 <= v <= 255,
            ;
        }
        sum += v as u64;
        squares += (v * v) as u64;
        i += 1;
    }
    let mut edges: u64 = 0;
    let mut k: usize = 0;
    while k < 36
        invariant
            k <= 36,
            edges <= k,
            gray.len() == w * h,
            x0 + 8 <= w,
            y0 + 8 <= h,
            edges == block_edges(gray@, w as int, x0 as int, y0 as int, k as nat),
        decreases 36 - k,
    {
        let x: usize = x0 + 1 + k % 6;
        let y: usize = y0 + 1 + k / 6;
        let gx: i64 = px(gray, w, h, x + 1, y) - px(gray, w, h, x - 1, y);
        let gy: i64 = px(gray, w, h, x, y + 1) - px(gray, w, h, x, y - 1);
        proof {
            assert(0 <= gx * gx <= 65025) by (nonlinear_arith)
                requires
                    -255 <= gx <= 255,
            ;
            assert(0 <= gy * gy <= 65025) by (nonlinear_arith)
                requires
                    -255 <= gy <= 255,
            ;
        }
        if gx * gx + gy * gy > 900 {
            edges += 1;
        }
        k += 1;
    }
    BlockSums { sum, squares, edges }
}

/// Stretches of blocks outside the neighbourhood add nothing.
proof fn lemma_skip(sums: Seq<BlockSums>, bx: int, b: int, from: nat, to: nat)
    requires
        from <= to,
        forall|c: int| from <= c < to ==> !#[trigger] compares_with(sums, bx, b, c),
    ensures
        comparable(sums, bx, b, from) == comparable(sums, bx, b, to),
    decreases to - from,
{
    if from < to {
        lemma_skip(sums, bx, b, from, (to - 1) as nat);
        assert(!compares_with(sums, bx, b, to - 1));
    }
}

/// Blocks of a row that are too far to the side add nothing.
proof fn lemma_skip_in_row(
    sums: Seq<BlockSums>,
    bx: int,
    by: int,
    b: int,
    y: int,
    from: int,
    to: int,
)
    requires
        0 <= from <= to <= bx,
        0 <= y < by,
        from == to || to <= b % bx - 3 || from > b % bx + 3,
    ensures
        comparable(sums, bx, b, (y * bx + from) as nat) == comparable(
            sums,
            bx,
            b,
            (y * bx + to) as nat,
        ),
{
    assert(0 <= y * bx) by (nonlinear_arith)
        requires
            0 <= y,
            0 <= bx,
    ;
    assert forall|c: int| y * bx + from <= c < y * bx + to implies !#[trigger] compares_with(
        sums,
        bx,
        b,
        c,
    ) by {
        lemma_cell(bx, by, c - y * bx, y);
        assert(abs((c - y * bx) - b % bx) > 3);
    }
    lemma_skip(sums, bx, b, (y * bx + from) as nat, (y * bx + to) as nat);
}

/// Rows of blocks that are too far up or down add nothing.
proof fn lemma_skip_rows(
    sums: Seq<BlockSums>,
    bx: int,
    by: int,
    b: int,
    from: int,
    to: int,
)
    requires
        0 <= from <= to <= by,
        0 < bx,
        from == to || to <= b / bx - 3 || from > b / bx + 3,
    ensures
        comparable(sums, bx, b, (from * bx) as nat) == comparable(sums, bx, b, (to * bx) as nat),
{
    assert(0 <= from * bx <= to * bx <= bx * by) by (nonlinear_arith)
        requires
            0 <= from <= to <= by,
            0 < bx,
    ;
    assert forall|c: int| from * bx <= c < to * bx implies !#[trigger] compares_with(
        sums,
        bx,
        b,
        c,
    ) by {
        lemma_cell_coords(bx, by, c);
        let y = c / bx;
        assert(from <= y < to) by (nonlinear_arith)
            requires
                from * bx <= c < to * bx,
                c == y * bx + c % bx,
                0 <= c % bx < bx,
                0 < bx,
        ;
        assert(abs(y - b / bx) > 3);
    }
    lemma_skip(sums, bx, b, (from * bx) as nat, (to * bx) as nat);
}

impl DocumentForensicsAnalyzer {
    /// Measures the inner pixels of block `b`, row by row: the residual of each and the
    /// squared gradient.
    pub fn inner_pixels(&self, gray: &[u8], w: usize, h: usize, b: usize) -> (r: Vec<(i64, i64)>)
        requires
            gray.len() == w * h,
            b < (w / 8) * (h / 8),
        ensures
            r@ == inner_values(gray@, w as int, (b as int % (w as int / 8)) * 8, (b as int / (w as int / 8)) * 8),
    {
        proof {
            lemma_block_inside(w as int, h as int, b as int);
        }
        let x0: usize = (b % (w / 8)) * 8;
        let y0: usize = (b / (w / 8)) * 8;
        let mut r: Vec<(i64, i64)> = Vec::new();
        let mut k: usize = 0;
        while k < 36
            invariant
                k <= 36,
                gray.len() == w * h,
                x0 + 8 <= w,
                y0 + 8 <= h,
                r@ =~= inner_values(gray@, w as int, x0 as int, y0 as int).take(k as int),
            decreases 36 - k,
        {
            let x: usize = x0 + 1 + k % 6;
            let y: usize = y0 + 1 + k / 6;
            let north: i64 = px(gray, w, h, x, y - 1);
            let south: i64 = px(gray, w, h, x, y + 1);
            let east: i64 = px(gray, w, h, x + 1, y);
            let west: i64 = px(gray, w, h, x - 1, y);
            let gx: i64 = east - west;
            let gy: i64 = south - north;
            proof {
                assert(0 <= gx * gx <= 65025) by (nonlinear_arith)
                    requires
                        -255 <= gx <= 255,
                ;
                assert(0 <= gy * gy <= 65025) by (nonlinear_arith)
                    requires
                        -255 <= gy <= 255,
                ;
            }
            r.push(
                (4 * px(gray, w, h, x, y) - (north + south + east + west), gx * gx + gy * gy),
            );
            k += 1;
        }
        proof {
            assert(r@ =~= inner_values(gray@, w as int, x0 as int, y0 as int));
        }
        r
    }

    /// Adds up the samples of every block.
    pub fn block_sums(&self, gray: &[u8], w: usize, h: usize) -> (r: Vec<BlockSums>)
        requires
            gray.len() == w * h,
        ensures
            r@ == all_sums(gray@, w as int, h as int),
            forall|i: int|
                0 <= i < r.len() ==> (#[trigger] r@[i]).sum <= 16320 && r@[i].squares <= 4161600,
    {
        let bx: usize = w / 8;
        let by: usize = h / 8;
        proof {
            assert(bx * by <= w * h) by (nonlinear_arith)
                requires
                    0 <= bx <= w,
                    0 <= by <= h,
            ;
        }
        let total: usize = bx * by;
        let mut r: Vec<BlockSums> = Vec::new();
        let mut i: usize = 0;
        while i < total
            invariant
                i <= total,
                bx == w / 8,
                by == h / 8,
                total == bx * by,
                gray.len() == w * h,
                r@ =~= all_sums(gray@, w as int, h as int).take(i as int),
            decreases total - i,
        {
            proof {
                lemma_block_inside(w as int, h as int, i as int);
            }
            let s = sum_block(gray, w, h, (i % bx) * 8, (i / bx) * 8);
            r.push(s);
            i += 1;
        }
        proof {
            assert(r@ =~= all_sums(gray@, w as int, h as int));
            assert forall|i: int| 0 <= i < r.len() implies (#[trigger] r@[i]).sum <= 16320
                && r@[i].squares <= 4161600 by {
                lemma_sums_bound(gray@, w as int, (i % (bx as int)) * 8, (i / (bx as int)) * 8, 64);
            }
        }
        r
    }

    /// Whether a block holds nothing but background and gets no score.
    pub fn is_background(&self, b: BlockSums) -> (r: bool)
        requires
            b.sum <= 16320,
            b.squares <= 4161600,
        ensures
            r == is_blank(b),
    {
        proof {
            assert(b.sum * b.sum <= 266342400) by (nonlinear_arith)
                requires
                    0 <= b.sum <= 16320,
            ;
        }
        let spread: i64 = (64 * b.squares) as i64 - (b.sum * b.sum) as i64;
        b.edges == 0 && spread < 5 * 4096
    }

    /// The blocks that block `b` is compared with.
    pub fn comparable_blocks(
        &self,
        sums: &Vec<BlockSums>,
        blocks_x: usize,
        blocks_y: usize,
        b: usize,
    ) -> (r: Vec<usize>)
        requires
            sums.len() == blocks_x * blocks_y,
            b < sums.len(),
            forall|i: int|
                0 <= i < sums.len() ==> (#[trigger] sums@[i]).sum <= 16320 && sums@[i].squares
                    <= 4161600,
        ensures
            r@ == comparable(sums@, blocks_x as int, b as int, sums@.len()),
    {
        proof {
            lemma_cell_coords(blocks_x as int, blocks_y as int, b as int);
        }
        let x: usize = b % blocks_x;
        let y: usize = b / blocks_x;
        let x0: usize = x.saturating_sub(3);
        let y0: usize = y.saturating_sub(3);
        let x1: usize = if blocks_x - x > 3 {
            x + 4
        } else {
            blocks_x
        };
        let y1: usize = if blocks_y - y > 3 {
            y + 4
        } else {
            blocks_y
        };
        let ghost bx = blocks_x as int;
        let mut r: Vec<usize> = Vec::new();
        let mut cy: usize = y0;
        proof {
            lemma_skip_rows(sums@, bx, blocks_y as int, b as int, 0, y0 as int);
        }
        while cy < y1
            invariant
                sums.len() == blocks_x * blocks_y,
                b < sums.len(),
                bx == blocks_x,
                x == b % blocks_x,
                y == b / blocks_x,
                x < blocks_x,
                y < blocks_y,
                x0 == less(x as int, 3),
                x1 == imin(x + 4, bx),
                y1 == imin(y + 4, blocks_y as int),
                y0 == less(y as int, 3),
                y0 <= cy <= y1,
                forall|i: int|
                    0 <= i < sums.len() ==> (#[trigger] sums@[i]).sum <= 16320 && sums@[i].squares
                        <= 4161600,
                r@ == comparable(sums@, bx, b as int, (cy * bx) as nat),
            decreases y1 - cy,
        {
            let mut cx: usize = x0;
            proof {
                lemma_skip_in_row(sums@, bx, blocks_y as int, b as int, cy as int, 0, x0 as int);
            }
            while cx < x1
                invariant
                    sums.len() == blocks_x * blocks_y,
                    b < sums.len(),
                    bx == blocks_x,
                    x == b % blocks_x,
                    y == b / blocks_x,
                    x < blocks_x,
                    y < blocks_y,
                    x0 == less(x as int, 3),
                    x1 == imin(x + 4, bx),
                    y1 == imin(y + 4, blocks_y as int),
                    y0 == less(y as int, 3),
                    y0 <= cy < y1,
                    x0 <= cx <= x1,
                    forall|i: int|
                        0 <= i < sums.len() ==> (#[trigger] sums@[i]).sum <= 16320
                            && sums@[i].squares <= 4161600,
                    r@ == comparable(sums@, bx, b as int, (cy * bx + cx) as nat),
                decreases x1 - cx,
            {
                let i: usize = cell(blocks_x, blocks_y, cx, cy);
                let s: BlockSums = sums[i];
                proof {
                    assert(s.sum * s.sum <= 266342400) by (nonlinear_arith)
                        requires
                            0 <= s.sum <= 16320,
                    ;
                }
                let spread: i64 = (64 * s.squares) as i64 - (s.sum * s.sum) as i64;
                if i != b && (s.edges > 0 || spread > 5 * 4096) {
                    r.push(i);
                }
                cx += 1;
            }
            proof {
                assert((cy + 1) * bx == cy * bx + bx) by (nonlinear_arith);
                assert((cy + 1) * bx <= blocks_x * blocks_y) by (nonlinear_arith)
                    requires
                        cy + 1 <= blocks_y,
                        bx == blocks_x,
                ;
                lemma_skip_in_row(sums@, bx, blocks_y as int, b as int, cy as int, x1 as int, bx);
            }
            cy += 1;
        }
        proof {
            lemma_skip_rows(sums@, bx, blocks_y as int, b as int, y1 as int, blocks_y as int);
            assert(blocks_y * bx == blocks_x * blocks_y) by (nonlinear_arith)
                requires
                    bx == blocks_x,
            ;
        }
        r
    }

    /// The centres of the blocks that score above a threshold.
    pub fn outlier_positions(
        &self,
        scores: &Vec<i64>,
        blocks_x: usize,
        blocks_y: usize,
        threshold: i64,
    ) -> (r: Vec<Spot>)
        requires
            scores.len() == blocks_x * blocks_y,
            blocks_x * 8 <= usize::MAX,
            blocks_y * 8 <= usize::MAX,
        ensures
            r@ == outlier_spots(scores@, blocks_x as int, threshold, scores@.len()),
            inside(r@, blocks_x * 8, blocks_y * 8),
    {
        let mut r: Vec<Spot> = Vec::new();
        let mut i: usize = 0;
        while i < scores.len()
            invariant
                i <= scores.len(),
                scores.len() == blocks_x * blocks_y,
                blocks_x * 8 <= usize::MAX,
                blocks_y * 8 <= usize::MAX,
                r@ == outlier_spots(scores@, blocks_x as int, threshold, i as nat),
                inside(r@, blocks_x * 8, blocks_y * 8),
            decreases scores.len() - i,
        {
            proof {
                lemma_cell_coords(blocks_x as int, blocks_y as int, i as int);
            }
            if scores[i] > threshold {
                let x: usize = (i % blocks_x) * 8 + 4;
                let y: usize = (i / blocks_x) * 8 + 4;
                r.push(Spot { x, y, score: scores[i] });
            }
            i += 1;
        }
        r
    }

    /// Clusters outlier positions and keeps the five with the highest peaks.
    pub fn cluster_outliers(&self, positions: &Vec<Spot>, w: usize, h: usize) -> (r: Vec<Cluster>)
        requires
            w * h <= usize::MAX,
            inside(positions@, w as int, h as int),
        ensures
            r@ == anomaly_clusters(positions@, w as int, h as int),
            r.len() <= 5,
            forall|i: int|
                0 <= i < r.len() ==> (#[trigger] r@[i]).x_min <= r@[i].x_max < w && r@[i].y_min
                    <= r@[i].y_max < h,
    {
        let c = cluster_spots(positions, 16, w, h, true);
        let mut sorted = by_peak(&c);
        let ghost whole = sorted@;
        if sorted.len() > 5 {
            sorted.truncate(5);
        }
        proof {
            assert(sorted@ =~= anomaly_clusters(positions@, w as int, h as int));
            assert forall|i: int| 0 <= i < sorted.len() implies (#[trigger] sorted@[i]).x_min
                <= sorted@[i].x_max < w && sorted@[i].y_min <= sorted@[i].y_max < h by {
                assert(whole[i] == sorted@[i]);
                assert(c@.contains(whole[i]));
            }
        }
        sorted
    }
}


/// The finding that a page is a document.
pub open spec fn detected_finding() -> FindingView {
    plain_finding(
        "document_forensics"@,
        "document_detected"@,
        "Image classified as document/screenshot - running document-specific forensic analysis"@,
        Severity::Info,
        P90,
    )
}

/// The description of cluster `i` of `n` (counted from zero).
pub open spec fn cluster_text(
    c: Cluster,
    i: int,
    n: int,
    w: int,
    h: int,
    peak: Seq<char>,
    threshold: Seq<char>,
) -> Seq<char> {
    "Document forensics: anomalous region "@ + decimal_text((i + 1) as nat) + " of "@
        + decimal_text(n as nat) + " at ("@ + decimal_text(less(c.x_min as int, 4) as nat) + ","@
        + decimal_text(less(c.y_min as int, 4) as nat) + ")->("@ + decimal_text(
        imin(c.x_max + 4, w - 1) as nat,
    ) + ","@ + decimal_text(imin(c.y_max + 4, h - 1) as nat) + ") - "@ + decimal_text(
        c.count as nat,
    )
        + " blocks with noise/sharpness inconsistent with surrounding content (peak anomaly score "@
        + peak + ", threshold "@ + threshold + ")"@
}

/// The finding for cluster `i` of `n` (counted from zero).
pub open spec fn cluster_finding(
    c: Cluster,
    i: int,
    n: int,
    w: int,
    h: int,
    peak: Seq<char>,
    threshold: Seq<char>,
    double_threshold: i64,
    confidence: u64,
) -> FindingView {
    let x = less(c.x_min as int, 4);
    let y = less(c.y_min as int, 4);
    boxed_finding(
        "document_forensics"@,
        "document_block_anomaly"@,
        cluster_text(c, i, n, w, h, peak, threshold),
        if c.peak > double_threshold {
            Severity::High
        } else {
            Severity::Medium
        },
        confidence,
        x as u32,
        y as u32,
        (imin(c.x_max + 4, w - 1) - x + 1) as u32,
        (imin(c.y_max + 4, h - 1) - y + 1) as u32,
    )
}

/// Numbers that belong to a cluster: its peak as text and the confidence in it.
pub struct ClusterNumbers {
    /// The peak score with two decimals.
    pub peak: String,
    /// The confidence, as bits.
    pub confidence: u64,
}

/// The findings for a list of clusters.
pub open spec fn cluster_findings(
    c: Seq<Cluster>,
    numbers: Seq<ClusterNumbers>,
    w: int,
    h: int,
    threshold: Seq<char>,
    double_threshold: i64,
) -> Seq<FindingView> {
    Seq::new(
        c.len(),
        |i: int|
            cluster_finding(
                c[i],
                i,
                c.len() as int,
                w,
                h,
                numbers[i].peak@,
                threshold,
                double_threshold,
                numbers[i].confidence,
            ),
    )
}

fn padded_end(v: usize, n: u32) -> (r: u32)
    requires
        v < n,
    ensures
        r == imin(v + 4, n - 1),
{
    let u: u32 = v as u32;
    if n - 1 - u < 4 {
        n - 1
    } else {
        u + 4
    }
}

impl DocumentForensicsAnalyzer {
    /// Whether an image is large enough to be analyzed.
    pub fn large_enough(&self, w: usize, h: usize) -> (r: bool)
        ensures
            r == (w >= 64 && h >= 64),
    {
        w >= 64 && h >= 64
    }

    /// Whether values spread too little to be scored by their spread, given its key.
    pub fn is_negligible(&self, spread: i64) -> (r: bool)
        ensures
            r == (spread < MIN_SPREAD),
    {
        spread < MIN_SPREAD
    }

    /// Whether a block has so many comparable neighbours that it is scored.
    pub fn enough_neighbours(&self, n: usize) -> (r: bool)
        ensures
            r == (n >= 3),
    {
        n >= 3
    }

    /// Reports clusters of anomalous blocks.
    pub fn report_clusters(
        &self,
        clusters: &Vec<Cluster>,
        numbers: &Vec<ClusterNumbers>,
        w: u32,
        h: u32,
        threshold: &str,
        double_threshold: i64,
    ) -> (r: Vec<Finding>)
        requires
            numbers.len() == clusters.len(),
            clusters.len() <= 5,
            forall|i: int|
                0 <= i < clusters.len() ==> (#[trigger] clusters@[i]).x_min <= clusters@[i].x_max
                    < w && clusters@[i].y_min <= clusters@[i].y_max < h,
        ensures
            values(r@) == cluster_findings(
                clusters@,
                numbers@,
                w as int,
                h as int,
                threshold@,
                double_threshold,
            ),
    {
        let mut r: Vec<Finding> = Vec::new();
        let mut i: usize = 0;
        while i < clusters.len()
            invariant
                i <= clusters.len(),
                numbers.len() == clusters.len(),
                clusters.len() <= 5,
                forall|i: int|
                    0 <= i < clusters.len() ==> (#[trigger] clusters@[i]).x_min
                        <= clusters@[i].x_max < w && clusters@[i].y_min <= clusters@[i].y_max < h,
                values(r@) =~= cluster_findings(
                    clusters@,
                    numbers@,
                    w as int,
                    h as int,
                    threshold@,
                    double_threshold,
                ).take(i as int),
            decreases clusters.len() - i,
        {
            broadcast use group_values;

            let c: Cluster = clusters[i];
            let x: u32 = (c.x_min as u32).saturating_sub(4);
            let y: u32 = (c.y_min as u32).saturating_sub(4);
            let x_max: u32 = padded_end(c.x_max, w);
            let y_max: u32 = padded_end(c.y_max, h);
            let mut s = "Document forensics: anomalous region ".to_string();
            append_decimal(&mut s, i as u64 + 1);
            s.append(" of ");
            append_decimal(&mut s, clusters.len() as u64);
            s.append(" at (");
            append_decimal(&mut s, x as u64);
            s.append(",");
            append_decimal(&mut s, y as u64);
            s.append(")->(");
            append_decimal(&mut s, x_max as u64);
            s.append(",");
            append_decimal(&mut s, y_max as u64);
            s.append(") - ");
            append_decimal(&mut s, c.count as u64);
            s.append(
                " blocks with noise/sharpness inconsistent with surrounding content (peak anomaly score ",
            );
            s.append(numbers[i].peak.as_str());
            s.append(", threshold ");
            s.append(threshold);
            s.append(")");
            let severity = if c.peak > double_threshold {
                Severity::High
            } else {
                Severity::Medium
            };
            let f = Finding::new(
                "document_forensics",
                "document_block_anomaly",
                s,
                severity,
                numbers[i].confidence,
            ).with_region(
                Region::BoundingBox { x, y, width: x_max - x + 1, height: y_max - y + 1 },
            );
            r.push(f);
            i += 1;
        }
        r
    }

    /// Puts the report on a document together. Where the scores of the blocks do
    /// not spread, it holds that the page is a document and its paste corners;
    /// otherwise it holds the anomalous clusters alone.
    pub fn assemble(
        &self,
        corners: Vec<Finding>,
        spread: i64,
        clusters: Vec<Finding>,
    ) -> (r: Vec<Finding>)
        ensures
            values(r@) == (if spread < MIN_SPREAD {
                seq![detected_finding()] + values(corners@)
            } else {
                values(clusters@)
            }),
    {
        broadcast use group_values;

        if spread < MIN_SPREAD {
            let mut r: Vec<Finding> = Vec::new();
            r.push(
                Finding::new(
                    "document_forensics",
                    "document_detected",
                    "Image classified as document/screenshot - running document-specific forensic analysis".to_string(),
                    Severity::Info,
                    P90,
                ),
            );
            let mut rest = corners;
            proof {
                assert(Seq::<FindingView>::empty().push(detected_finding()) =~= seq![
                    detected_finding(),
                ]);
            }
            r.append(&mut rest);
            r
        } else {
            clusters
        }
    }
}

/// A window holds the pixel in its middle and those round it, row by row.
pub proof fn law_window(g: Seq<u8>, w: int, x: int, y: int, dx: int, dy: int)
    requires
        -1 <= dx <= 1,
        -1 <= dy <= 1,
    ensures
        window(g, w, x, y).len() == 9,
        window(g, w, x, y)[3 * (dy + 1) + (dx + 1)] == g[(y + dy) * w + (x + dx)],
{
    assert((3 * (dy + 1) + (dx + 1)) / 3 == dy + 1 && (3 * (dy + 1) + (dx + 1)) % 3 == dx + 1);
    assert(y + (dy + 1) - 1 == y + dy && x + (dx + 1) - 1 == x + dx);
}

/// A residual is the distance of a pixel from the middle one of its window in order; at the
/// border there is none.
pub proof fn law_median_residual(g: Seq<u8>, w: int, h: int, x: int, y: int)
    ensures
        x <= 0 || y <= 0 || x >= w - 1 || y >= h - 1 ==> residual_at(g, w, h, x, y) == 0,
        0 < x < w - 1 && 0 < y < h - 1 ==> ({
            let m = sorted_bytes(window(g, w, x, y))[4] as int;
            let p = g[y * w + x] as int;
            let r = residual_at(g, w, h, x, y);
            r >= p - m && r >= m - p && (r == p - m || r == m - p)
        }),
{
}

/// A boundary is four times a residual against the two on either side; none shows two pixels from
/// the border, nor where the residuals are equal.
pub proof fn law_boundary(g: Seq<u8>, w: int, h: int, x: int, y: int)
    ensures
        x < 2 || y < 2 || x + 2 >= w || y + 2 >= h ==> boundary_at(g, w, h, true, x, y) == 0
            && boundary_at(g, w, h, false, x, y) == 0,
        2 <= x < w - 2 && 2 <= y < h - 2 ==> ({
            let c = residual_at(g, w, h, x, y);
            let v = residual_at(g, w, h, x - 2, y) + residual_at(g, w, h, x - 1, y) + residual_at(
                g,
                w,
                h,
                x + 1,
                y,
            ) + residual_at(g, w, h, x + 2, y);
            let u = residual_at(g, w, h, x, y - 2) + residual_at(g, w, h, x, y - 1) + residual_at(
                g,
                w,
                h,
                x,
                y + 1,
            ) + residual_at(g, w, h, x, y + 2);
            &&& boundary_at(g, w, h, true, x, y) == if 4 * c >= v {
                4 * c - v
            } else {
                v - 4 * c
            }
            &&& boundary_at(g, w, h, false, x, y) == if 4 * c >= u {
                4 * c - u
            } else {
                u - 4 * c
            }
        }),
{
}

/// The strength of a strip is that of its strongest boundary.
pub proof fn law_strip(
    g: Seq<u8>,
    w: int,
    h: int,
    vertical: bool,
    x0: int,
    y0: int,
    cols: nat,
    rows: nat,
    i: int,
    j: int,
)
    requires
        0 <= i < cols,
        0 <= j < rows,
    ensures
        boundary_at(g, w, h, vertical, x0 + i, y0 + j) <= strip_strength(
            g,
            w,
            h,
            vertical,
            x0,
            y0,
            cols,
            rows,
        ),
    decreases rows,
{
    lemma_row_strongest(g, w, h, vertical, x0, y0 + rows - 1, cols, i);
    if j < rows - 1 {
        law_strip(g, w, h, vertical, x0, y0, cols, (rows - 1) as nat, i, j);
    }
}

proof fn lemma_row_strongest(
    g: Seq<u8>,
    w: int,
    h: int,
    vertical: bool,
    x0: int,
    y: int,
    n: nat,
    i: int,
)
    requires
        0 <= i < n,
    ensures
        boundary_at(g, w, h, vertical, x0 + i, y) <= row_strength(g, w, h, vertical, x0, y, n),
    decreases n,
{
    if i < n - 1 {
        lemma_row_strongest(g, w, h, vertical, x0, y, (n - 1) as nat, i);
    }
}

/// A strip is no stronger than a bound on all its boundaries.
pub proof fn law_strip_bounded(
    g: Seq<u8>,
    w: int,
    h: int,
    vertical: bool,
    x0: int,
    y0: int,
    cols: nat,
    rows: nat,
    most: int,
)
    requires
        most >= 0,
        forall|x: int, y: int|
            x0 <= x < x0 + cols && y0 <= y < y0 + rows ==> #[trigger] boundary_at(
                g,
                w,
                h,
                vertical,
                x,
                y,
            ) <= most,
    ensures
        0 <= strip_strength(g, w, h, vertical, x0, y0, cols, rows) <= most,
    decreases rows,
{
    if rows > 0 {
        law_strip_bounded(g, w, h, vertical, x0, y0, cols, (rows - 1) as nat, most);
        lemma_row_bounded(g, w, h, vertical, x0, y0 + rows - 1, cols, most);
    }
}

proof fn lemma_row_bounded(
    g: Seq<u8>,
    w: int,
    h: int,
    vertical: bool,
    x0: int,
    y: int,
    n: nat,
    most: int,
)
    requires
        most >= 0,
        forall|x: int|
            x0 <= x < x0 + n ==> #[trigger] boundary_at(g, w, h, vertical, x, y) <= most,
    ensures
        0 <= row_strength(g, w, h, vertical, x0, y, n) <= most,
    decreases n,
{
    if n > 0 {
        lemma_row_bounded(g, w, h, vertical, x0, y, (n - 1) as nat, most);
    }
}

/// A corner's score is the strength of an upright strip times that of a level one: five pixels
/// wide and thirteen long, round the corner.
pub proof fn law_corner_score(g: Seq<u8>, w: int, h: int, x: int, y: int)
    ensures
        corner_score(g, w, h, x, y) == strip_strength(g, w, h, false, x - 6, y - 2, 13, 5)
            * strip_strength(g, w, h, true, x - 2, y - 6, 5, 13),
{
    let (a, b) = (
        strip_strength(g, w, h, true, x - 2, y - 6, 5, 13),
        strip_strength(g, w, h, false, x - 6, y - 2, 13, 5),
    );
    assert(a * b == b * a) by (nonlinear_arith);
}

/// Corners are the pixels six from the border or more with a score above 1600.
pub proof fn law_corners(gray: Seq<u8>, w: int, h: int, n: nat)
    requires
        w > 0,
    ensures
        corner_list(gray, w, h, n) == which(n, |i: int| i % w > 5 && i % w + 6 < w && i / w > 5 && i / w + 6 < h && corner_score(gray, w, h, i % w, i / w) >= 1601).map_values(|i: int| (Corner { x: (i % w) as usize, y: (i / w) as usize, score: corner_score(gray, w, h, i % w, i / w) as u64 })),
    decreases n,
{
    let p = |i: int| i % w > 5 && i % w + 6 < w && i / w > 5 && i / w + 6 < h && corner_score(gray, w, h, i % w, i / w) >= 1601;
    let f = |i: int| (Corner { x: (i % w) as usize, y: (i / w) as usize, score: corner_score(gray, w, h, i % w, i / w) as u64 });
    lemma_which(0, p);
    if n > 0 {
        let lower = (n - 1) as nat;
        law_corners(gray, w, h, lower);
        lemma_which(lower, p);
        assert(which(n, p).map_values(f) =~= if p(lower as int) {
            which(lower, p).map_values(f).push(f(lower as int))
        } else {
            which(lower, p).map_values(f)
        });
    } else {
        assert(which(0, p).map_values(f) =~= Seq::<Corner>::empty());
    }
}

/// Corners are ranked by score, highest first.
pub proof fn law_ranked_corners(c: Seq<Corner>, i: int, j: int)
    requires
        c.len() <= usize::MAX,
        0 <= i < j < c.len(),
    ensures
        ranked(c).len() == c.len(),
        ranked(c)[i].score >= ranked(c)[j].score,
        c.contains(ranked(c)[i]),
{
    let keys = corner_keys(c);
    law_order_exists(keys);
    let o = order_of(keys);
    assert(before(keys, o[i] as int, o[j] as int));
    assert(c.contains(c[o[i] as int]));
}

/// Corners are too close where both coordinates differ by less than twenty. One left out is too
/// close to one that is kept, unless fifteen were; ten at most are told.
pub proof fn law_suppressed(c: Seq<Corner>, n: nat, i: int, a: Corner, b: Corner)
    requires
        n <= c.len(),
        0 <= i < n,
    ensures
        too_close(a, b) <==> a.x - 20 < b.x < a.x + 20 && a.y - 20 < b.y < a.y + 20,
        suppressed(c, n).contains(c[i]) || suppressed(c, n).len() >= 15 || exists|k: int|
            0 <= k < suppressed(c, n).len() && too_close(c[i], #[trigger] suppressed(c, n)[k]),
        suppressed(c, n).len() <= 15,
    decreases n,
{
    let m = (n - 1) as nat;
    let rest = suppressed(c, m);
    let all = suppressed(c, n);
    if m > 0 {
        law_suppressed(c, m, if i < m {
            i
        } else {
            0
        }, a, b);
    } else {
        assert(rest.len() == 0);
    }
    if i < m {
        if rest.contains(c[i]) {
            assert(all[rest.index_of(c[i])] == c[i]);
        } else if rest.len() < 15 {
            let k = choose|k: int| 0 <= k < rest.len() && too_close(c[i], #[trigger] rest[k]);
            assert(all[k] == rest[k]);
        }
    } else if rest.len() < 15 && !(exists|k: int|
        0 <= k < rest.len() && too_close(c[n - 1], #[trigger] rest[k])) {
        assert(all[rest.len() as int] == c[i]);
    }
}

/// At most ten corners are told of an image, and none of one with a side below twenty.
pub proof fn law_corners_told(g: Seq<u8>, w: int, h: int)
    ensures
        paste_corners(g, w, h).len() <= 10,
        w < 20 || h < 20 ==> paste_corners(g, w, h).len() == 0,
        w > 19 && h > 19 ==> ({
            let c = ranked(corner_list(g, w, h, (w * h) as nat));
            let kept = suppressed(c, c.len());
            &&& kept.len() <= 10 ==> paste_corners(g, w, h) == kept
            &&& kept.len() > 10 ==> paste_corners(g, w, h).len() == 10 && forall|k: int|
                0 <= k < 10 ==> #[trigger] paste_corners(g, w, h)[k] == kept[k]
        }),
{
}

/// The first corner told is of high severity, the next two of medium, the rest of low; each is told
/// with the fifteen pixels round it.
pub proof fn law_corner_findings(c: Seq<Corner>, confidences: Seq<u64>, w: int, h: int, i: int)
    requires
        0 <= i < c.len(),
        15 <= c[i].x < w - 15,
        15 <= c[i].y < h - 15,
    ensures
        corner_findings(c, confidences, w, h).len() == c.len(),
        ({
            let f = corner_findings(c, confidences, w, h)[i];
            &&& f.code == "document_paste_corner"@
            &&& f.confidence == confidences[i]
            &&& f.severity == if i == 0 {
                Severity::High
            } else if i == 1 || i == 2 {
                Severity::Medium
            } else {
                Severity::Low
            }
            &&& f.region == Some(
                RegionView::BoundingBox {
                    x: (c[i].x - 15) as u32,
                    y: (c[i].y - 15) as u32,
                    width: 30,
                    height: 30,
                },
            )
        }),
{
}

/// The background is counted as samples of 231 or more, and below 25.
pub proof fn law_background(g: Seq<u8>, share: i64)
    ensures
        background(g).0 == in_band(g, 231, 256, g.len()),
        background(g).1 == in_band(g, 0, 25, g.len()),
        share > 0x3FD9_9999_9999_999A ==> looks_like_document(g, share),
        share <= 0x3FD9_9999_9999_999A ==> (looks_like_document(g, share) <==> two_peaks(
            histogram_of(g),
            64,
            192,
            96,
            160,
        )),
        MIN_SPREAD == 0x3EB0_C6F7_A0B5_ED8D,
        BLOCK_SIZE == 8,
{
}

/// The samples of a block are added up, row by row.
pub proof fn law_block_sum(gray: Seq<u8>, w: int, x0: int, y0: int, n: nat)
    ensures
        block_sum(gray, w, x0, y0, n) == total(n, |i: int| gray[(y0 + i / 8) * w + (x0 + i % 8)] as int),
    decreases n,
{
    if n > 0 {
        law_block_sum(gray, w, x0, y0, (n - 1) as nat);
    }
}

/// The squares of the samples of a block are added up.
pub proof fn law_block_squares(gray: Seq<u8>, w: int, x0: int, y0: int, n: nat)
    ensures
        block_squares(gray, w, x0, y0, n) == total(n, |i: int| gray[(y0 + i / 8) * w + (x0 + i % 8)] * gray[(y0 + i / 8) * w + (x0 + i % 8)]),
    decreases n,
{
    if n > 0 {
        law_block_squares(gray, w, x0, y0, (n - 1) as nat);
    }
}

/// The inner pixels of a block with a gradient above thirty are counted.
pub proof fn law_block_edges(gray: Seq<u8>, w: int, x0: int, y0: int, n: nat)
    ensures
        block_edges(gray, w, x0, y0, n) == how_many(n, |i: int| squared_gradient(gray, w, x0 + i % 6 + 1, y0 + i / 6 + 1) >= 901),
    decreases n,
{
    let p = |i: int| squared_gradient(gray, w, x0 + i % 6 + 1, y0 + i / 6 + 1) >= 901;
    lemma_which(0, p);
    if n > 0 {
        law_block_edges(gray, w, x0, y0, (n - 1) as nat);
        lemma_which((n - 1) as nat, p);
    }
}

/// A squared gradient is that of the differences across and down; it does not tell their signs.
pub proof fn law_squared_gradient(g: Seq<u8>, w: int, x: int, y: int)
    ensures
        ({
            let (l, r) = (g[y * w + (x - 1)] as int, g[y * w + (x + 1)] as int);
            let (u, d) = (g[(y - 1) * w + x] as int, g[(y + 1) * w + x] as int);
            squared_gradient(g, w, x, y) == (l - r) * (l - r) + (u - d) * (u - d)
        }),
{
    let (l, r) = (g[y * w + (x - 1)] as int, g[y * w + (x + 1)] as int);
    let (u, d) = (g[(y - 1) * w + x] as int, g[(y + 1) * w + x] as int);
    assert((l - r) * (l - r) == (r - l) * (r - l) && (u - d) * (u - d) == (d - u) * (d - u))
        by (nonlinear_arith);
}

/// A block is blank without an edge and below a variance of five; it is textured with an edge or
/// above that. It is never both.
pub proof fn law_blank_and_textured(b: BlockSums)
    ensures
        is_blank(b) <==> b.edges < 1 && 64 * b.squares - b.sum * b.sum < 20_480,
        is_textured(b) <==> b.edges >= 1 || 64 * b.squares - b.sum * b.sum > 20_480,
        !(is_blank(b) && is_textured(b)),
{
}

/// The sums of all blocks lie row by row, eight pixels apart.
pub proof fn law_all_sums(g: Seq<u8>, w: int, h: int, x: int, y: int)
    requires
        0 <= x < w / 8,
        0 <= y < h / 8,
    ensures
        all_sums(g, w, h).len() == (w / 8) * (h / 8),
        all_sums(g, w, h)[y * (w / 8) + x] == (BlockSums {
            sum: block_sum(g, w, 8 * x, 8 * y, 64) as u64,
            squares: block_squares(g, w, 8 * x, 8 * y, 64) as u64,
            edges: block_edges(g, w, 8 * x, 8 * y, 36) as u64,
        }),
{
    let n = w / 8;
    vstd::arithmetic::div_mod::lemma_fundamental_div_mod_converse(y * n + x, n, y, x);
    assert(0 <= y * n + x < n * (h / 8)) by (nonlinear_arith)
        requires
            0 <= x < n,
            0 <= y < h / 8,
    ;
}

/// A block is held against the textured ones within three blocks of it, itself left out.
pub proof fn law_comparable(sums: Seq<BlockSums>, bx: int, b: int, n: nat)
    requires
        n <= sums.len(),
        bx > 0,
    ensures
        comparable(sums, bx, b, n) == which(n, |i: int| i != b && b % bx - 3 <= i % bx && i % bx <= b % bx + 3 && b / bx - 3 <= i / bx && i / bx <= b / bx + 3 && is_textured(sums[i])).map_values(|i: int| i as usize),
    decreases n,
{
    let p = |i: int| i != b && b % bx - 3 <= i % bx && i % bx <= b % bx + 3 && b / bx - 3 <= i / bx && i / bx <= b / bx + 3 && is_textured(sums[i]);
    let f = |i: int| i as usize;
    lemma_which(0, p);
    if n > 0 {
        let lower = (n - 1) as nat;
        law_comparable(sums, bx, b, lower);
        lemma_which(lower, p);
        assert(which(n, p).map_values(f) =~= if p(lower as int) {
            which(lower, p).map_values(f).push(f(lower as int))
        } else {
            which(lower, p).map_values(f)
        });
    } else {
        assert(which(0, p).map_values(f) =~= Seq::<usize>::empty());
    }
}

/// The blocks above the threshold are told at their middles.
pub proof fn law_outlier_spots(scores: Seq<i64>, bx: int, threshold: i64, n: nat)
    requires
        n <= scores.len(),
    ensures
        outlier_spots(scores, bx, threshold, n) == which(n, |i: int| scores[i] > threshold).map_values(|i: int| (Spot { x: (8 * (i % bx) + 4) as usize, y: (8 * (i / bx) + 4) as usize, score: scores[i] })),
    decreases n,
{
    let p = |i: int| scores[i] > threshold;
    let f = |i: int| (Spot { x: (8 * (i % bx) + 4) as usize, y: (8 * (i / bx) + 4) as usize, score: scores[i] });
    lemma_which(0, p);
    if n > 0 {
        let lower = (n - 1) as nat;
        law_outlier_spots(scores, bx, threshold, lower);
        lemma_which(lower, p);
        assert(which(n, p).map_values(f) =~= if p(lower as int) {
            which(lower, p).map_values(f).push(f(lower as int))
        } else {
            which(lower, p).map_values(f)
        });
    } else {
        assert(which(0, p).map_values(f) =~= Seq::<Spot>::empty());
    }
}

/// A document is told as information; a region is of high severity above twice the threshold, and
/// told with four pixels round it.
pub proof fn law_region_findings(
    c: Cluster,
    i: int,
    n: int,
    w: int,
    h: int,
    p: Seq<char>,
    t: Seq<char>,
    double_threshold: i64,
    confidence: u64,
)
    requires
        4 <= c.x_min <= c.x_max < w - 4,
        4 <= c.y_min <= c.y_max < h - 4,
    ensures
        detected_finding().code == "document_detected"@,
        detected_finding().severity == Severity::Info,
        detected_finding().confidence == 0x3FEC_CCCC_CCCC_CCCD,
        ({
            let f = cluster_finding(c, i, n, w, h, p, t, double_threshold, confidence);
            &&& f.code == "document_block_anomaly"@
            &&& f.severity == if c.peak <= double_threshold {
                Severity::Medium
            } else {
                Severity::High
            }
            &&& f.region == Some(
                RegionView::BoundingBox {
                    x: (c.x_min - 4) as u32,
                    y: (c.y_min - 4) as u32,
                    width: (c.x_max - c.x_min + 9) as u32,
                    height: (c.y_max - c.y_min + 9) as u32,
                },
            )
        }),
{
}

/// Five clusters at most are told, the highest first.
pub proof fn law_anomaly_clusters(spots: Seq<Spot>, w: int, h: int)
    ensures
        anomaly_clusters(spots, w, h).len() <= 5,
        clusters_of(spots, 16, w, h, true).len() <= 5 ==> anomaly_clusters(spots, w, h).len()
            == clusters_of(spots, 16, w, h, true).len(),
{
}

} // verus!
