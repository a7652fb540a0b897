//! Sobel gradients on a one-channel raster.

use crate::grid::pixel;
use crate::grid::px;
use vstd::prelude::*;

verus! {

/// The horizontal Sobel response at an inner pixel.
pub open spec fn sobel_x(g: Seq<u8>, w: int, x: int, y: int) -> int {
    pixel(g, w, x + 1, y - 1) - pixel(g, w, x - 1, y - 1) + 2 * pixel(g, w, x + 1, y) - 2 * pixel(
        g,
        w,
        x - 1,
        y,
    ) + pixel(g, w, x + 1, y + 1) - pixel(g, w, x - 1, y + 1)
}

/// The vertical Sobel response at an inner pixel.
pub open spec fn sobel_y(g: Seq<u8>, w: int, x: int, y: int) -> int {
    pixel(g, w, x - 1, y + 1) - pixel(g, w, x - 1, y - 1) + 2 * pixel(g, w, x, y + 1) - 2 * pixel(
        g,
        w,
        x,
        y - 1,
    ) + pixel(g, w, x + 1, y + 1) - pixel(g, w, x + 1, y - 1)
}

/// The squared magnitude of the gradient at an inner pixel.
pub open spec fn squared_magnitude(g: Seq<u8>, w: int, x: int, y: int) -> int {
    sobel_x(g, w, x, y) * sobel_x(g, w, x, y) + sobel_y(g, w, x, y) * sobel_y(g, w, x, y)
}

/// A gradient.
#[derive(Debug, Clone, Copy, PartialEq, Eq, Structural)]
pub struct Gradient {
    pub gx: i64,
    pub gy: i64,
}

/// The gradient at an inner pixel.
pub open spec fn gradient_at(g: Seq<u8>, w: int, x: int, y: int) -> Gradient {
    Gradient { gx: sobel_x(g, w, x, y) as i64, gy: sobel_y(g, w, x, y) as i64 }
}

/// The Sobel responses at an inner pixel.
pub fn sobel(g: &[u8], w: usize, h: usize, x: usize, y: usize) -> (r: Gradient)
    requires
        g.len() == w * h,
        1 <= x,
        x + 1 < w,
        1 <= y,
        y + 1 < h,
    ensures
        r == gradient_at(g@, w as int, x as int, y as int),
        r.gx == sobel_x(g@, w as int, x as int, y as int),
        r.gy == sobel_y(g@, w as int, x as int, y as int),
        -1020 <= r.gx <= 1020,
        -1020 <= r.gy <= 1020,
{
    let a: i64 = px(g, w, h, x - 1, y - 1);
    let b: i64 = px(g, w, h, x, y - 1);
    let c: i64 = px(g, w, h, x + 1, y - 1);
    let d: i64 = px(g, w, h, x - 1, y);
    let e: i64 = px(g, w, h, x + 1, y);
    let f: i64 = px(g, w, h, x - 1, y + 1);
    let p: i64 = px(g, w, h, x, y + 1);
    let q: i64 = px(g, w, h, x + 1, y + 1);
    Gradient { gx: c - a + 2 * e - 2 * d + q - f, gy: f - a + 2 * p - 2 * b + q - c }
}

/// The square of a gradient's magnitude.
pub fn squared(g: Gradient) -> (r: i64)
    requires
        -1020 <= g.gx <= 1020,
        -1020 <= g.gy <= 1020,
    ensures
        r == g.gx * g.gx + g.gy * g.gy,
        0 <= r <= 2080800,
{
    proof {
        assert(0 <= g.gx * g.gx <= 1040400) by (nonlinear_arith)
            requires
                -1020 <= g.gx <= 1020,
        ;
        assert(0 <= g.gy * g.gy <= 1040400) by (nonlinear_arith)
            requires
                -1020 <= g.gy <= 1020,
        ;
    }
    g.gx * g.gx + g.gy * g.gy
}

/// On a plane the gradient is eight times the slope: across it along the columns, down it
/// along the rows.
pub proof fn law_gradient_of_plane(g: Seq<u8>, w: int, x: int, y: int, a: int, b: int)
    requires
        forall|dx: int, dy: int|
            -1 <= dx <= 1 && -1 <= dy <= 1 ==> #[trigger] pixel(g, w, x + dx, y + dy) == pixel(
                g,
                w,
                x,
                y,
            ) + a * dx + b * dy,
    ensures
        sobel_x(g, w, x, y) == 8 * a,
        sobel_y(g, w, x, y) == 8 * b,
{
    let c = pixel(g, w, x, y);
    assert(pixel(g, w, x + 1, y + 1) == c + a * 1 + b * 1);
    assert(pixel(g, w, x + 1, y + -1) == c + a * 1 + b * -1);
    assert(pixel(g, w, x + 1, y + 0) == c + a * 1 + b * 0);
    assert(pixel(g, w, x + -1, y + 1) == c + a * -1 + b * 1);
    assert(pixel(g, w, x + -1, y + -1) == c + a * -1 + b * -1);
    assert(pixel(g, w, x + -1, y + 0) == c + a * -1 + b * 0);
    assert(pixel(g, w, x + 0, y + 1) == c + a * 0 + b * 1);
    assert(pixel(g, w, x + 0, y + -1) == c + a * 0 + b * -1);
}

/// Exchanging columns and rows exchanges the parts of the gradient.
pub proof fn law_gradient_transposed(g: Seq<u8>, w: int, x: int, y: int, t: Seq<u8>, h: int)
    requires
        forall|dx: int, dy: int|
            -1 <= dx <= 1 && -1 <= dy <= 1 ==> #[trigger] pixel(t, h, y + dy, x + dx) == pixel(
                g,
                w,
                x + dx,
                y + dy,
            ),
    ensures
        sobel_x(t, h, y, x) == sobel_y(g, w, x, y),
        sobel_y(t, h, y, x) == sobel_x(g, w, x, y),
        squared_magnitude(t, h, y, x) == squared_magnitude(g, w, x, y),
{
    assert(pixel(t, h, y + 1, x + 1) == pixel(g, w, x + 1, y + 1));
    assert(pixel(t, h, y + 1, x + 0) == pixel(g, w, x + 0, y + 1));
    assert(pixel(t, h, y + 1, x + -1) == pixel(g, w, x + -1, y + 1));
    assert(pixel(t, h, y + 0, x + 1) == pixel(g, w, x + 1, y + 0));
    assert(pixel(t, h, y + 0, x + -1) == pixel(g, w, x + -1, y + 0));
    assert(pixel(t, h, y + -1, x + 1) == pixel(g, w, x + 1, y + -1));
    assert(pixel(t, h, y + -1, x + 0) == pixel(g, w, x + 0, y + -1));
    assert(pixel(t, h, y + -1, x + -1) == pixel(g, w, x + -1, y + -1));
}

/// A raster turned upside down has the same slope across and the opposite one down.
pub proof fn law_gradient_flipped(g: Seq<u8>, f: Seq<u8>, w: int, x: int, y: int, z: int)
    requires
        forall|dx: int, dy: int|
            -1 <= dx <= 1 && -1 <= dy <= 1 ==> #[trigger] pixel(f, w, x + dx, z + dy) == pixel(
                g,
                w,
                x + dx,
                y - dy,
            ),
    ensures
        sobel_x(f, w, x, z) == sobel_x(g, w, x, y),
        sobel_y(f, w, x, z) == -sobel_y(g, w, x, y),
{
    assert(pixel(f, w, x + 1, z + 1) == pixel(g, w, x + 1, y - 1));
    assert(pixel(f, w, x + 0, z + 1) == pixel(g, w, x + 0, y - 1));
    assert(pixel(f, w, x + -1, z + 1) == pixel(g, w, x + -1, y - 1));
    assert(pixel(f, w, x + 1, z + 0) == pixel(g, w, x + 1, y - 0));
    assert(pixel(f, w, x + -1, z + 0) == pixel(g, w, x + -1, y - 0));
    assert(pixel(f, w, x + 1, z + -1) == pixel(g, w, x + 1, y - -1));
    assert(pixel(f, w, x + 0, z + -1) == pixel(g, w, x + 0, y - -1));
    assert(pixel(f, w, x + -1, z + -1) == pixel(g, w, x + -1, y - -1));
}

} // verus!
