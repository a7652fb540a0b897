//! Painting on interleaved colour rasters.

use crate::annotate::blend::blend_pixel;
use crate::annotate::blend::blended;
use crate::components::lemma_cell;
use crate::components::lemma_cell_coords;
use vstd::prelude::*;

verus! {

/// Whether sample `i` belongs to a pixel of the rectangle from (`x0`, `y0`) to (`x1`, `y1`),
/// the far sides left out.
pub open spec fn in_rect(i: int, w: int, x0: int, y0: int, x1: int, y1: int) -> bool {
    x0 <= (i / 3) % w < x1 && y0 <= (i / 3) / w < y1
}

/// A raster with a rectangle filled.
pub open spec fn filled(
    s: Seq<u8>,
    w: int,
    x0: int,
    y0: int,
    x1: int,
    y1: int,
    color: Seq<u8>,
) -> Seq<u8> {
    Seq::new(
        s.len(),
        |i: int|
            if in_rect(i, w, x0, y0, x1, y1) {
                color[i % 3]
            } else {
                s[i]
            },
    )
}

/// The value of a colour with opacity, where there is one.
pub open spec fn tint(c: Option<[u8; 4]>, base: u8, channel: int) -> u8 {
    match c {
        Some(a) => blended(base, a@[channel], a@[3]),
        None => base,
    }
}

/// A raster with a colour composited onto each pixel that has one.
pub open spec fn tinted(s: Seq<u8>, colors: Seq<Option<[u8; 4]>>) -> Seq<u8> {
    Seq::new(s.len(), |i: int| tint(colors[i / 3], s[i], i % 3))
}

/// A raster whose first rows are darkened to three tenths.
pub open spec fn darkened(s: Seq<u8>, w: int, rows: int) -> Seq<u8> {
    Seq::new(
        s.len(),
        |i: int|
            if i < rows * w * 3 {
                (s[i] as int * 3 / 10) as u8
            } else {
                s[i]
            },
    )
}

proof fn lemma_sample(i: int, w: int, h: int, x: int, y: int)
    requires
        0 <= x < w,
        0 <= y < h,
        0 <= i < w * h * 3,
    ensures
        ((i / 3) % w == x && (i / 3) / w == y) <==> (y * w + x) * 3 <= i < (y * w + x) * 3 + 3,
        (y * w + x) * 3 <= i < (y * w + x) * 3 + 3 ==> i % 3 == i - (y * w + x) * 3,
        0 <= (y * w + x) * 3,
        (y * w + x) * 3 + 3 <= w * h * 3,
{
    lemma_cell(w, h, x, y);
    lemma_cell_coords(w, h, i / 3);
}

/// Fills the pixels of row `y` from `x0` to `x1`.
fn fill_row(
    canvas: &mut Vec<u8>,
    w: usize,
    h: usize,
    y: usize,
    x0: usize,
    x1: usize,
    color: [u8; 3],
)
    requires
        old(canvas)@.len() == w * h * 3,
        y < h,
        x1 <= w,
    ensures
        final(canvas)@ == filled(
            old(canvas)@,
            w as int,
            x0 as int,
            y as int,
            x1 as int,
            y + 1,
            color@,
        ),
{
    let ghost s = canvas@;
    let mut x: usize = x0;
    assert(canvas@ =~= filled(s, w as int, x0 as int, y as int, x0 as int, y + 1, color@));
    while x < x1
        invariant
            x0 <= x,
            x <= x1 || x == x0,
            x1 <= w,
            y < h,
            s.len() == w * h * 3,
            canvas.len() == w * h * 3,
            canvas@ == filled(s, w as int, x0 as int, y as int, x as int, y + 1, color@),
        decreases x1 - x,
    {
        let ghost before = canvas@;
        proof {
            assert forall|i: int| 0 <= i < s.len() implies ((#[trigger] (i / 3)) % (w as int) == x
                && (i / 3) / (w as int) == y) == ((y * w + x) * 3 <= i < (y * w + x) * 3 + 3) by {
                lemma_sample(i, w as int, h as int, x as int, y as int);
            }
            lemma_cell(w as int, h as int, x as int, y as int);
            lemma_sample(0, w as int, h as int, x as int, y as int);
            assert(y * w <= y * w + x);
        }
        let at: usize = (y * w + x) * 3;
        canvas.set(at, color[0]);
        canvas.set(at + 1, color[1]);
        canvas.set(at + 2, color[2]);
        proof {
            let next = filled(s, w as int, x0 as int, y as int, x + 1, y + 1, color@);
            assert forall|i: int| 0 <= i < s.len() implies #[trigger] canvas@[i] == next[i] by {
                lemma_sample(i, w as int, h as int, x as int, y as int);
                assert((i / 3) % (w as int) == (i / 3) % (w as int));
                if at <= i < at + 3 {
                    assert(canvas@[i] == color@[i % 3]);
                } else {
                    assert(canvas@[i] == before[i]);
                }
            }
            assert(canvas@ =~= next);
        }
        x += 1;
    }
    if x0 > x1 {
        assert(canvas@ =~= filled(s, w as int, x0 as int, y as int, x1 as int, y + 1, color@));
    }
}

/// Fills a rectangle, the far sides left out.
pub fn fill(
    canvas: &mut Vec<u8>,
    w: usize,
    h: usize,
    x0: usize,
    y0: usize,
    x1: usize,
    y1: usize,
    color: [u8; 3],
)
    requires
        old(canvas)@.len() == w * h * 3,
        x1 <= w,
        y1 <= h,
    ensures
        final(canvas)@ == filled(
            old(canvas)@,
            w as int,
            x0 as int,
            y0 as int,
            x1 as int,
            y1 as int,
            color@,
        ),
{
    let ghost s = canvas@;
    let mut y: usize = y0;
    assert(canvas@ =~= filled(s, w as int, x0 as int, y0 as int, x1 as int, y0 as int, color@));
    while y < y1
        invariant
            y0 <= y,
            y <= y1 || y == y0,
            x1 <= w,
            y1 <= h,
            s.len() == w * h * 3,
            canvas@.len() == w * h * 3,
            canvas@ == filled(s, w as int, x0 as int, y0 as int, x1 as int, y as int, color@),
        decreases y1 - y,
    {
        fill_row(canvas, w, h, y, x0, x1, color);
        y += 1;
        assert(canvas@ =~= filled(s, w as int, x0 as int, y0 as int, x1 as int, y as int, color@));
    }
    if y0 > y1 {
        assert(canvas@ =~= filled(s, w as int, x0 as int, y0 as int, x1 as int, y1 as int, color@));
    }
}

/// Composites a colour onto each pixel that has one.
pub fn apply_tints(canvas: &mut Vec<u8>, colors: &Vec<Option<[u8; 4]>>)
    requires
        old(canvas)@.len() == colors@.len() * 3,
    ensures
        final(canvas)@ == tinted(old(canvas)@, colors@),
{
    let ghost s = canvas@;
    let mut p: usize = 0;
    while p < colors.len()
        invariant
            p <= colors@.len(),
            s.len() == colors@.len() * 3,
            canvas.len() == colors@.len() * 3,
            forall|i: int| p * 3 <= i < s.len() ==> canvas@[i] == s[i],
            forall|i: int| 0 <= i < p * 3 ==> #[trigger] canvas@[i] == tinted(s, colors@)[i],
        decreases colors@.len() - p,
    {
        if let Some(c) = colors[p] {
            let at: usize = p * 3;
            let base: [u8; 3] = [canvas[at], canvas[at + 1], canvas[at + 2]];
            let mixed = blend_pixel(base, c);
            let ghost before = canvas@;
            canvas.set(at, mixed[0]);
            canvas.set(at + 1, mixed[1]);
            canvas.set(at + 2, mixed[2]);
            proof {
                assert forall|i: int| 0 <= i < (p + 1) * 3 implies #[trigger] canvas@[i] == tinted(
                    s,
                    colors@,
                )[i] by {
                    if i >= at {
                        assert(i / 3 == p && i % 3 == i - at);
                        assert(base@[i - at] == s[i]);
                        assert(mixed@[i - at] == blended(base@[i - at], c@[i - at], c@[3]));
                    } else {
                        assert(canvas@[i] == before[i]);
                    }
                }
            }
        }
        p += 1;
    }
    assert(canvas@ =~= tinted(s, colors@));
}

/// Darkens the first rows to three tenths.
pub fn darken(canvas: &mut Vec<u8>, w: usize, h: usize, rows: usize)
    requires
        old(canvas)@.len() == w * h * 3,
        rows <= h,
    ensures
        final(canvas)@ == darkened(old(canvas)@, w as int, rows as int),
{
    let ghost s = canvas@;
    proof {
        assert(rows * w * 3 <= w * h * 3) by (nonlinear_arith)
            requires
                0 <= rows <= h,
                0 <= w,
        ;
        assert(rows * w <= rows * w * 3);
    }
    assert(canvas.len() == w * h * 3);
    let end: usize = rows * w * 3;
    let mut i: usize = 0;
    while i < end
        invariant
            i <= end,
            end == rows * w * 3,
            end <= s.len(),
            canvas@.len() == s.len(),
            forall|j: int| i <= j < s.len() ==> canvas@[j] == s[j],
            forall|j: int| 0 <= j < i ==> #[trigger] canvas@[j] == (s[j] as int * 3 / 10) as u8,
        decreases end - i,
    {
        let v: u8 = (canvas[i] as u16 * 3 / 10) as u8;
        canvas.set(i, v);
        i += 1;
    }
    assert(canvas@ =~= darkened(s, w as int, rows as int));
}

proof fn lemma_channel_place(w: int, h: int, x: int, y: int, c: int)
    requires
        0 <= x < w,
        0 <= y < h,
        0 <= c < 3,
    ensures
        ((y * w + x) * 3 + c) / 3 == y * w + x,
        ((y * w + x) * 3 + c) % 3 == c,
        (y * w + x) % w == x,
        (y * w + x) / w == y,
        0 <= (y * w + x) * 3 + c < w * h * 3,
{
    vstd::arithmetic::div_mod::lemma_fundamental_div_mod_converse(y * w + x, w, y, x);
    assert(0 <= y * w && y * w + w <= w * h) by (nonlinear_arith)
        requires
            0 <= y < h,
            0 < w,
    ;
}

/// Filling a rectangle gives the colour to the pixels in its columns and rows, and leaves all
/// others.
pub proof fn law_filled(
    s: Seq<u8>,
    w: int,
    h: int,
    x0: int,
    y0: int,
    x1: int,
    y1: int,
    color: Seq<u8>,
    x: int,
    y: int,
    c: int,
)
    requires
        s.len() == w * h * 3,
        0 <= x < w,
        0 <= y < h,
        0 <= c < 3,
    ensures
        ({
            let i = (y * w + x) * 3 + c;
            filled(s, w, x0, y0, x1, y1, color)[i] == if x >= x0 && x < x1 && y >= y0 && y < y1 {
                color[c]
            } else {
                s[i]
            }
        }),
        filled(s, w, x0, y0, x1, y1, color).len() == s.len(),
{
    lemma_channel_place(w, h, x, y, c);
}

/// Tinting blends each pixel with its own ink, channel by channel, and leaves those without.
pub proof fn law_tinted(
    s: Seq<u8>,
    colors: Seq<Option<[u8; 4]>>,
    w: int,
    h: int,
    x: int,
    y: int,
    c: int,
)
    requires
        s.len() == w * h * 3,
        0 <= x < w,
        0 <= y < h,
        0 <= c < 3,
    ensures
        ({
            let i = (y * w + x) * 3 + c;
            tinted(s, colors)[i] == match colors[y * w + x] {
                Some(a) => blended(s[i], a@[c], a@[3]),
                None => s[i],
            }
        }),
{
    lemma_channel_place(w, h, x, y, c);
}

/// Darkening leaves three tenths of the first rows, rounded down, and the other rows as they
/// are.
pub proof fn law_darkened(s: Seq<u8>, w: int, h: int, rows: int, x: int, y: int, c: int)
    requires
        s.len() == w * h * 3,
        0 <= x < w,
        0 <= y < h,
        0 <= c < 3,
        0 <= rows,
    ensures
        ({
            let i = (y * w + x) * 3 + c;
            let v = darkened(s, w, rows)[i];
            &&& y < rows ==> 10 * v <= 3 * s[i] < 10 * v + 10
            &&& y >= rows ==> v == s[i]
        }),
{
    lemma_channel_place(w, h, x, y, c);
    let i = (y * w + x) * 3 + c;
    assert((y < rows) == (i < rows * w * 3)) by (nonlinear_arith)
        requires
            i == (y * w + x) * 3 + c,
            0 <= x < w,
            0 <= c < 3,
            0 <= y,
            0 <= rows,
    ;
}

} // verus!
