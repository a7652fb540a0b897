//! JPEG ghost splice detection.
//!
//! Sweeps re-save qualities: a block spliced from a differently compressed source
//! shows its least re-save error at a different quality than the rest of the image.
//! Among qualities that are best equally often the lowest one is dominant.

use crate::bits::P80;
use crate::bits::P85;
use crate::components::lemma_cell_coords;
use crate::finding::Finding;
use crate::finding::FindingView;
use crate::finding::Severity;
use crate::finding::group_values;
use crate::finding::plain_finding;
use crate::finding::values;
use crate::number::is_share_above;
use crate::number::is_share_below;
use crate::number::share_above;
use crate::number::share_below;
use crate::raster::Frame;
use crate::raster::Picture;
use crate::raster::colors_of;
use crate::raster::fitted;
use crate::raster::resaved;
use crate::raster::resizable;
use crate::select::how_many;
use crate::select::lemma_which;
use crate::select::lemma_which_are;
use crate::select::total;
use crate::select::which;
use crate::share::MAX_COUNT;
use crate::share::percent;
use crate::share::percent_text;
use crate::text::append_decimal;
use crate::text::decimal_text;
use crate::text::signed_decimal;
use crate::text::signed_text;
use vstd::prelude::*;
use vstd::string::*;

verus! {

/// The JPEG ghost detector.
pub struct JpegGhostDetector;

/// The number of qualities that are tried.
pub const LADDER: usize = 7;

/// Cap on the pixel count of the image that is swept.
pub const MAX_SWEEP_PIXELS: u32 = 270_000;

/// The quality on a rung of the ladder: 60, 66, .. 96.
pub open spec fn rung(k: int) -> int {
    60 + 6 * k
}

/// The squared difference of the `k`-th sample of a block in two colour rasters.
pub open spec fn sample_error(a: Seq<u8>, b: Seq<u8>, w: int, x0: int, y0: int, k: int) -> int {
    let i = (y0 + k / 192) * (w * 3) + x0 * 3 + k % 192;
    (a[i] as int - b[i] as int) * (a[i] as int - b[i] as int)
}

/// The squared differences of the first `n` samples of a block, added up.
pub open spec fn block_error(a: Seq<u8>, b: Seq<u8>, w: int, x0: int, y0: int, n: nat) -> int
    decreases n,
{
    if n == 0 {
        0
    } else {
        block_error(a, b, w, x0, y0, (n - 1) as nat) + sample_error(a, b, w, x0, y0, n - 1)
    }
}

/// The squared error of each block between two colour rasters.
pub open spec fn errors_of(a: Seq<u8>, b: Seq<u8>, w: int, h: int) -> Seq<u64> {
    Seq::new(
        ((w / 64) * (h / 64)) as nat,
        |i: int|
            block_error(a, b, w, (i % (w / 64)) * 64, (i / (w / 64)) * 64, 12288) as u64,
    )
}

/// The block errors of an image against its re-save at the quality of a rung.
pub open spec fn rung_errors(f: Frame, k: int) -> Option<Seq<u64>> {
    match resaved(f.samples@, f.width, f.height, f.monochrome, rung(k) as u8) {
        Some(c) => Some(
            errors_of(colors_of(f.samples@, f.monochrome), c, f.width as int, f.height as int),
        ),
        None => None,
    }
}

/// The errors of the rungs.
pub open spec fn rungs(errors: Seq<Vec<u64>>) -> Seq<Seq<u64>> {
    Seq::new(errors.len(), |k: int| errors[k]@)
}

/// The rung with the least error of block `b` among the first `n`, the first of equals.
pub open spec fn best_rung(errors: Seq<Seq<u64>>, b: int, n: nat) -> int
    decreases n,
{
    if n <= 1 {
        0
    } else {
        let p = best_rung(errors, b, (n - 1) as nat);
        if errors[n - 1][b] < errors[p][b] {
            n - 1
        } else {
            p
        }
    }
}

/// How many of the first `n` blocks have a rung as their best one.
pub open spec fn rung_count(errors: Seq<Seq<u64>>, k: int, n: nat) -> nat
    decreases n,
{
    if n == 0 {
        0
    } else {
        rung_count(errors, k, (n - 1) as nat) + if best_rung(errors, n - 1, LADDER as nat) == k {
            1nat
        } else {
            0nat
        }
    }
}

/// The rung that is best most often among the first `k` rungs, the lowest of equals.
pub open spec fn dominant_rung(errors: Seq<Seq<u64>>, blocks: nat, k: nat) -> int
    decreases k,
{
    if k <= 1 {
        0
    } else {
        let p = dominant_rung(errors, blocks, (k - 1) as nat);
        if rung_count(errors, k - 1, blocks) > rung_count(errors, p, blocks) {
            k - 1
        } else {
            p
        }
    }
}

/// What the sweep tells.
#[derive(Debug, Clone, Copy, PartialEq, Eq, Structural)]
pub struct Sweep {
    /// The quality that is best for most blocks.
    pub dominant: u8,
    /// The number of blocks whose best quality is more than six away from it.
    pub ghosts: usize,
    /// The least deviation of such a block; zero if there is none.
    pub least: i64,
    /// The largest deviation of such a block; zero if there is none.
    pub largest: i64,
}

/// The deviation of block `b`'s best rung from the dominant one, in quality.
pub open spec fn deviation(errors: Seq<Seq<u64>>, d: int, b: int) -> int {
    rung(best_rung(errors, b, LADDER as nat)) - rung(d)
}

/// A block is a ghost: its best quality is more than six away from the dominant one.
pub open spec fn is_ghost(errors: Seq<Seq<u64>>, d: int, b: int) -> bool {
    deviation(errors, d, b) > 6 || deviation(errors, d, b) < -6
}

/// The sweep over the first `n` blocks, with the dominant rung `d`.
pub open spec fn sweep_of(errors: Seq<Seq<u64>>, d: int, n: nat) -> Sweep
    decreases n,
{
    if n == 0 {
        Sweep { dominant: rung(d) as u8, ghosts: 0, least: 0, largest: 0 }
    } else {
        let s = sweep_of(errors, d, (n - 1) as nat);
        let v = deviation(errors, d, n - 1);
        if is_ghost(errors, d, n - 1) {
            Sweep {
                dominant: s.dominant,
                ghosts: (s.ghosts + 1) as usize,
                least: if s.ghosts == 0 || v < s.least {
                    v as i64
                } else {
                    s.least
                },
                largest: if s.ghosts == 0 || v > s.largest {
                    v as i64
                } else {
                    s.largest
                },
            }
        } else {
            s
        }
    }
}

/// The finding on ghost blocks.
pub open spec fn ghost_finding(s: Sweep, blocks: int) -> FindingView {
    plain_finding(
        "jpeg_ghost"@,
        "jpeg_ghost_detected"@,
        percent_text(s.ghosts as nat, blocks as nat)
            + "% of image blocks show different JPEG compression history (dominant quality ≈"@
            + decimal_text(s.dominant as nat) + ", ghost regions deviate by "@ + signed_text(
            s.least as int,
        ) + " to "@ + signed_text(s.largest as int)
            + ") - indicates splicing from differently-compressed source"@,
        Severity::Critical,
        P80,
    )
}

/// The finding on the dominant quality.
pub open spec fn quality_finding(s: Sweep) -> FindingView {
    plain_finding(
        "jpeg_ghost"@,
        "jpeg_quality_estimate"@,
        "Estimated original JPEG quality factor: ~"@ + decimal_text(s.dominant as nat),
        Severity::Info,
        P85,
    )
}

/// The report on a sweep over `blocks` blocks: ghosts if they are more than one block
/// in twenty and less than seven in ten, and the dominant quality.
pub open spec fn ghost_findings(s: Sweep, blocks: int) -> Seq<FindingView> {
    (if share_above(s.ghosts as int, blocks, 5, 100) && share_below(
        s.ghosts as int,
        blocks,
        70,
        100,
    ) {
        seq![ghost_finding(s, blocks)]
    } else {
        Seq::empty()
    }) + seq![quality_finding(s)]
}

proof fn lemma_error_bound(a: Seq<u8>, b: Seq<u8>, w: int, x0: int, y0: int, n: nat)
    ensures
        0 <= block_error(a, b, w, x0, y0, n) <= 65025 * n,
    decreases n,
{
    if n > 0 {
        lemma_error_bound(a, b, w, x0, y0, (n - 1) as nat);
        let i = (y0 + (n - 1) / 192) * (w * 3) + x0 * 3 + (n - 1) % 192;
        let d = a[i] as int - b[i] as int;
        assert(0 <= d * d <= 65025) by (nonlinear_arith)
            requires
                -255 <= d <= 255,
        ;
    }
}

/// The squared error of a block between two colour rasters.
pub fn block_mse_cpu(a: &[u8], b: &[u8], w: usize, h: usize, x0: usize, y0: usize) -> (r: u64)
    requires
        a.len() == w * h * 3,
        b.len() == w * h * 3,
        x0 + 64 <= w,
        y0 + 64 <= h,
    ensures
        r == block_error(a@, b@, w as int, x0 as int, y0 as int, 12288),
        r <= 799027200,
{
    let mut sum: u64 = 0;
    let mut k: usize = 0;
    while k < 12288
        invariant
            k <= 12288,
            a.len() == w * h * 3,
            b.len() == w * h * 3,
            x0 + 64 <= w,
            y0 + 64 <= h,
            sum == block_error(a@, b@, w as int, x0 as int, y0 as int, k as nat),
        decreases 12288 - k,
    {
        let y: usize = y0 + k / 192;
        proof {
            lemma_error_bound(a@, b@, w as int, x0 as int, y0 as int, k as nat);
            assert(y * (w * 3) + (w * 3) <= w * h * 3) by (nonlinear_arith)
                requires
                    y + 1 <= h,
                    0 <= w,
            ;
            assert(w * 3 <= w * h * 3) by (nonlinear_arith)
                requires
                    1 <= h,
                    0 <= w,
            ;
            assert(0 <= y * (w * 3)) by (nonlinear_arith)
                requires
                    0 <= y,
                    0 <= w,
            ;
        }
        let i: usize = y * (w * 3) + x0 * 3 + k % 192;
        let d: i64 = a[i] as i64 - b[i] as i64;
        proof {
            assert(0 <= d * d <= 65025) by (nonlinear_arith)
                requires
                    -255 <= d <= 255,
            ;
        }
        sum += (d * d) as u64;
        k += 1;
    }
    proof {
        lemma_error_bound(a@, b@, w as int, x0 as int, y0 as int, 12288);
    }
    sum
}

/// Whether an image can be swept: it has a block, and no re-save fails.
pub open spec fn is_swept(f: Frame) -> bool {
    f.width >= 64 && f.height >= 64 && forall|k: int|
        0 <= k < LADDER ==> #[trigger] rung_errors(f, k) is Some
}

/// The errors of an image at every rung.
pub open spec fn frame_errors(f: Frame) -> Seq<Seq<u64>> {
    Seq::new(LADDER as nat, |k: int| rung_errors(f, k)->0)
}

/// What is reported on an image.
pub open spec fn frame_findings(f: Frame) -> Seq<FindingView> {
    if is_swept(f) {
        let e = frame_errors(f);
        let blocks = ((f.width / 64) * (f.height / 64)) as nat;
        ghost_findings(
            sweep_of(e, dominant_rung(e, blocks, LADDER as nat), blocks),
            blocks as int,
        )
    } else {
        Seq::empty()
    }
}

impl JpegGhostDetector {
    /// Whether an image is large enough to be analyzed.
    pub fn large_enough(&self, w: u32, h: u32) -> (r: bool)
        ensures
            r == (w >= 128 && h >= 128),
    {
        w >= 128 && h >= 128
    }

    /// The qualities that are tried.
    pub fn qualities(&self) -> (r: Vec<u8>)
        ensures
            r.len() == LADDER,
            forall|k: int| 0 <= k < LADDER ==> #[trigger] r@[k] == rung(k),
    {
        let mut r: Vec<u8> = Vec::new();
        let mut k: usize = 0;
        while k < LADDER
            invariant
                k <= LADDER,
                r.len() == k,
                forall|j: int| 0 <= j < k ==> #[trigger] r@[j] == rung(j),
            decreases LADDER - k,
        {
            r.push((60 + 6 * k) as u8);
            k += 1;
        }
        r
    }

    /// The squared error of every block between an image and its re-saved version.
    pub fn block_errors(&self, image: &[u8], resaved: &[u8], w: usize, h: usize) -> (r: Vec<u64>)
        requires
            image.len() == w * h * 3,
            resaved.len() == w * h * 3,
        ensures
            r@ == errors_of(image@, resaved@, w as int, h as int),
    {
        let bx: usize = w / 64;
        let by: usize = h / 64;
        proof {
            assert(bx * by <= w * h) by (nonlinear_arith)
                requires
                    0 <= bx <= w,
                    0 <= by <= h,
            ;
        }
        let total: usize = bx * by;
        let mut r: Vec<u64> = Vec::new();
        let mut i: usize = 0;
        while i < total
            invariant
                i <= total,
                bx == w / 64,
                by == h / 64,
                total == bx * by,
                image.len() == w * h * 3,
                resaved.len() == w * h * 3,
                r@ =~= errors_of(image@, resaved@, w as int, h as int).take(i as int),
            decreases total - i,
        {
            proof {
                lemma_cell_coords(bx as int, by as int, i as int);
            }
            let e: u64 = block_mse_cpu(image, resaved, w, h, (i % bx) * 64, (i / bx) * 64);
            r.push(e);
            i += 1;
        }
        proof {
            assert(r@ =~= errors_of(image@, resaved@, w as int, h as int));
        }
        r
    }

    fn best(&self, errors: &Vec<Vec<u64>>, b: usize) -> (r: usize)
        requires
            errors.len() == LADDER,
            forall|k: int| 0 <= k < LADDER ==> b < (#[trigger] errors@[k]).len(),
        ensures
            r == best_rung(rungs(errors@), b as int, LADDER as nat),
            r < LADDER,
    {
        let mut p: usize = 0;
        let mut k: usize = 1;
        while k < LADDER
            invariant
                1 <= k <= LADDER,
                p < k,
                errors.len() == LADDER,
                forall|k: int| 0 <= k < LADDER ==> b < (#[trigger] errors@[k]).len(),
                p == best_rung(rungs(errors@), b as int, k as nat),
            decreases LADDER - k,
        {
            proof {
                assert(b < errors@[k as int].len());
                assert(b < errors@[p as int].len());
            }
            if errors[k][b] < errors[p][b] {
                p = k;
            }
            k += 1;
        }
        p
    }

    /// Finds the dominant quality and the blocks that deviate from it. `errors` holds,
    /// for each rung of the ladder, the squared errors of the blocks.
    pub fn sweep(&self, errors: &Vec<Vec<u64>>, blocks: usize) -> (r: Sweep)
        requires
            errors.len() == LADDER,
            forall|k: int| 0 <= k < LADDER ==> (#[trigger] errors@[k]).len() == blocks,
        ensures
            r == sweep_of(
                rungs(errors@),
                dominant_rung(rungs(errors@), blocks as nat, LADDER as nat),
                blocks as nat,
            ),
            r.ghosts <= blocks,
            -36 <= r.least <= 36,
            -36 <= r.largest <= 36,
    {
        let mut best: Vec<usize> = Vec::new();
        let mut counts: Vec<usize> = vec![0; LADDER];
        let mut b: usize = 0;
        while b < blocks
            invariant
                b <= blocks,
                errors.len() == LADDER,
                forall|k: int| 0 <= k < LADDER ==> (#[trigger] errors@[k]).len() == blocks,
                best.len() == b,
                forall|j: int|
                    0 <= j < b ==> #[trigger] best@[j] == best_rung(rungs(errors@), j, LADDER as nat)
                        && best@[j] < LADDER,
                counts.len() == LADDER,
                forall|k: int|
                    0 <= k < LADDER ==> #[trigger] counts@[k] == rung_count(rungs(errors@), k, b as nat)
                        && counts@[k] <= b,
            decreases blocks - b,
        {
            let p: usize = self.best(errors, b);
            best.push(p);
            let c: usize = counts[p];
            counts.set(p, c + 1);
            b += 1;
        }
        let mut d: usize = 0;
        let mut k: usize = 1;
        while k < LADDER
            invariant
                1 <= k <= LADDER,
                d < k,
                counts.len() == LADDER,
                forall|j: int|
                    0 <= j < LADDER ==> #[trigger] counts@[j] == rung_count(
                        rungs(errors@),
                        j,
                        blocks as nat,
                    ),
                d == dominant_rung(rungs(errors@), blocks as nat, k as nat),
            decreases LADDER - k,
        {
            if counts[k] > counts[d] {
                d = k;
            }
            k += 1;
        }
        let mut s = Sweep { dominant: (60 + 6 * d) as u8, ghosts: 0, least: 0, largest: 0 };
        let mut i: usize = 0;
        while i < blocks
            invariant
                i <= blocks,
                d < LADDER,
                best.len() == blocks,
                forall|j: int|
                    0 <= j < blocks ==> #[trigger] best@[j] == best_rung(rungs(errors@), j, LADDER as nat)
                        && best@[j] < LADDER,
                s == sweep_of(rungs(errors@), d as int, i as nat),
                s.ghosts <= i,
                -36 <= s.least <= 36,
                -36 <= s.largest <= 36,
            decreases blocks - i,
        {
            let v: i64 = 6 * best[i] as i64 - 6 * d as i64;
            if v > 6 || v < -6 {
                s = Sweep {
                    dominant: s.dominant,
                    ghosts: s.ghosts + 1,
                    least: if s.ghosts == 0 || v < s.least {
                        v
                    } else {
                        s.least
                    },
                    largest: if s.ghosts == 0 || v > s.largest {
                        v
                    } else {
                        s.largest
                    },
                };
            }
            i += 1;
        }
        s
    }

    /// Whether a picture is scaled down before it is swept.
    pub fn too_large(&self, w: u32, h: u32) -> (r: bool)
        ensures
            r == (w * h > MAX_SWEEP_PIXELS),
    {
        proof {
            assert(w * h <= u32::MAX * u32::MAX) by (nonlinear_arith)
                requires
                    0 <= w <= u32::MAX,
                    0 <= h <= u32::MAX,
            ;
        }
        w as u64 * h as u64 > MAX_SWEEP_PIXELS as u64
    }

    /// The image that is swept: the picture, scaled to fit a size where one is given.
    pub fn prepare(&self, p: &Picture, to: Option<(u32, u32)>) -> (r: Frame)
        requires
            p.wf(),
            p.width > 0,
            p.height > 0,
            to matches Some(t) ==> resizable(p.width, p.height, t.0, t.1),
        ensures
            r.wf(),
            r.monochrome == p.monochrome,
            ({
                let samples = if p.monochrome {
                    p.gray@
                } else {
                    p.rgb@
                };
                (r.width, r.height, r.samples@) == match to {
                    Some(t) => fitted(samples, p.width, p.height, p.monochrome, t.0, t.1),
                    None => (p.width, p.height, samples),
                }
            }),
    {
        let f = p.frame();
        match to {
            Some(t) => f.fit(t.0, t.1),
            None => f,
        }
    }

    /// The block errors of an image against its re-save at every rung. `None` if the image
    /// has no block or a re-save fails.
    pub fn ladder_errors(&self, f: &Frame) -> (r: Option<Vec<Vec<u64>>>)
        requires
            f.wf(),
        ensures
            match r {
                Some(v) => f.width >= 64 && f.height >= 64 && v@.len() == LADDER && (forall|k: int|
                    0 <= k < LADDER ==> #[trigger] rung_errors(*f, k) == Some(v@[k]@)),
                None => f.width < 64 || f.height < 64 || (exists|k: int|
                    0 <= k < LADDER && #[trigger] rung_errors(*f, k) is None),
            },
    {
        if f.width < 64 || f.height < 64 {
            return None;
        }
        let colors = f.colors();
        proof {
            if f.monochrome {
                assert(colors@.len() == f.width * f.height * 3);
            }
        }
        let q = self.qualities();
        let mut r: Vec<Vec<u64>> = Vec::new();
        let mut k: usize = 0;
        while k < LADDER
            invariant
                k <= LADDER,
                f.wf(),
                f.width >= 64,
                f.height >= 64,
                colors@ == colors_of(f.samples@, f.monochrome),
                colors@.len() == f.width * f.height * 3,
                q@.len() == LADDER,
                forall|j: int| 0 <= j < LADDER ==> #[trigger] q@[j] == rung(j),
                r@.len() == k,
                forall|j: int| 0 <= j < k ==> #[trigger] rung_errors(*f, j) == Some(r@[j]@),
            decreases LADDER - k,
        {
            match f.resave(q[k]) {
                Some(c) => {
                    let e = self.block_errors(
                        colors.as_slice(),
                        c.as_slice(),
                        f.width as usize,
                        f.height as usize,
                    );
                    assert(rung_errors(*f, k as int) == Some(e@));
                    r.push(e);
                },
                None => {
                    assert(rung_errors(*f, k as int) is None);
                    return None;
                },
            }
            k += 1;
        }
        Some(r)
    }

    /// Sweeps an image and reports on it; nothing where it has no block or a re-save fails.
    pub fn analyze(&self, f: &Frame) -> (r: Vec<Finding>)
        requires
            f.wf(),
        ensures
            values(r@) == frame_findings(*f),
    {
        match self.ladder_errors(f) {
            None => {
                let r: Vec<Finding> = Vec::new();
                proof {
                    assert(values(r@) =~= frame_findings(*f));
                }
                r
            },
            Some(errors) => {
                let blocks: usize = errors[0].len();
                proof {
                    assert forall|k: int| 0 <= k < LADDER implies (#[trigger] errors@[k])@.len()
                        == (f.width / 64) * (f.height / 64) && rung_errors(*f, k) is Some by {
                        assert(rung_errors(*f, k) == Some(errors@[k]@));
                    }
                    assert(rungs(errors@) =~= frame_errors(*f)) by {
                        assert forall|k: int| 0 <= k < LADDER implies #[trigger] rungs(errors@)[k]
                            == frame_errors(*f)[k] by {
                            assert(rung_errors(*f, k) == Some(errors@[k]@));
                        }
                    }
                    assert((f.width / 64) * (f.height / 64) <= MAX_COUNT) by (nonlinear_arith)
                        requires
                            f.width / 64 <= 0x400_0000,
                            f.height / 64 <= 0x400_0000,
                    ;
                }
                let s = self.sweep(&errors, blocks);
                self.report(s, blocks)
            },
        }
    }

    /// Reports on a sweep of that many blocks.
    pub fn report(&self, s: Sweep, blocks: usize) -> (r: Vec<Finding>)
        requires
            s.ghosts <= blocks <= MAX_COUNT,
            s.least > i64::MIN,
            s.largest > i64::MIN,
        ensures
            values(r@) == ghost_findings(s, blocks as int),
    {
        broadcast use group_values;

        let mut r: Vec<Finding> = Vec::new();
        if is_share_above(s.ghosts as u64, blocks as u64, 5, 100) && is_share_below(
            s.ghosts as u64,
            blocks as u64,
            70,
            100,
        ) {
            let mut t = percent(s.ghosts as u64, blocks as u64);
            t.append(
                "% of image blocks show different JPEG compression history (dominant quality ≈",
            );
            append_decimal(&mut t, s.dominant as u64);
            t.append(", ghost regions deviate by ");
            let least = signed_decimal(s.least);
            t.append(least.as_str());
            t.append(" to ");
            let largest = signed_decimal(s.largest);
            t.append(largest.as_str());
            t.append(") - indicates splicing from differently-compressed source");
            r.push(
                Finding::new("jpeg_ghost", "jpeg_ghost_detected", t, Severity::Critical, P80),
            );
        }
        let mut t = "Estimated original JPEG quality factor: ~".to_string();
        append_decimal(&mut t, s.dominant as u64);
        r.push(Finding::new("jpeg_ghost", "jpeg_quality_estimate", t, Severity::Info, P85));
        proof {
            assert(values(r@) =~= ghost_findings(s, blocks as int));
        }
        r
    }
}

/// The best rung of a block has no larger error than any other rung.
pub proof fn law_best_rung_minimal(errors: Seq<Seq<u64>>, b: int, n: nat, k: int)
    requires
        0 <= k < n <= errors.len(),
    ensures
        0 <= best_rung(errors, b, n) < n,
        errors[best_rung(errors, b, n)][b] <= errors[k][b],
    decreases n,
{
    if n > 1 {
        if k < n - 1 {
            law_best_rung_minimal(errors, b, (n - 1) as nat, k);
        } else {
            law_best_rung_minimal(errors, b, (n - 1) as nat, 0);
        }
    }
}

/// No quality is best in more blocks than the dominant one, and every lower one is best in
/// fewer.
pub proof fn law_dominant_rung(errors: Seq<Seq<u64>>, blocks: nat, n: nat, k: int)
    requires
        0 <= k < n,
    ensures
        0 <= dominant_rung(errors, blocks, n) < n,
        rung_count(errors, k, blocks) <= rung_count(
            errors,
            dominant_rung(errors, blocks, n),
            blocks,
        ),
        k < dominant_rung(errors, blocks, n) ==> rung_count(errors, k, blocks) < rung_count(
            errors,
            dominant_rung(errors, blocks, n),
            blocks,
        ),
    decreases n,
{
    if n > 1 {
        if k < n - 1 {
            law_dominant_rung(errors, blocks, (n - 1) as nat, k);
        } else {
            law_dominant_rung(errors, blocks, (n - 1) as nat, 0);
        }
    }
}

/// The best quality of a block has the least error, and every lower quality a greater one.
pub proof fn law_best_rung_first(errors: Seq<Seq<u64>>, b: int, n: nat, k: int)
    requires
        0 <= k < n <= errors.len(),
    ensures
        0 <= best_rung(errors, b, n) < n,
        errors[k][b] >= errors[best_rung(errors, b, n)][b],
        k < best_rung(errors, b, n) ==> errors[k][b] > errors[best_rung(errors, b, n)][b],
    decreases n,
{
    if n > 1 {
        if k < n - 1 {
            law_best_rung_first(errors, b, (n - 1) as nat, k);
        } else {
            law_best_rung_first(errors, b, (n - 1) as nat, 0);
        }
    }
}

/// The blocks of a quality are those whose best rung it is.
pub proof fn law_rungs_are_counted(errors: Seq<Seq<u64>>, k: int, n: nat)
    ensures
        rung_count(errors, k, n) == how_many(n, |b: int| best_rung(errors, b, 7) == k),
    decreases n,
{
    let p = |b: int| best_rung(errors, b, 7) == k;
    lemma_which(0, p);
    if n > 0 {
        law_rungs_are_counted(errors, k, (n - 1) as nat);
        lemma_which((n - 1) as nat, p);
    }
}

/// The ghosts are the blocks whose best quality is two rungs or more from the dominant one,
/// above it or below it alike; qualities are six apart and begin at sixty.
pub proof fn law_ghosts_on_either_side(errors: Seq<Seq<u64>>, d: int, n: nat)
    requires
        errors.len() == 7,
        0 <= d < 7,
        n <= usize::MAX,
    ensures
        sweep_of(errors, d, n).dominant == 60 + 6 * d,
        sweep_of(errors, d, n).ghosts == how_many(
            n,
            |b: int| best_rung(errors, b, 7) >= d + 2 || best_rung(errors, b, 7) + 2 <= d,
        ),
    decreases n,
{
    let p = |b: int| best_rung(errors, b, 7) >= d + 2 || best_rung(errors, b, 7) + 2 <= d;
    lemma_which(0, p);
    lemma_which_are(n, p);
    if n > 0 {
        law_ghosts_on_either_side(errors, d, (n - 1) as nat);
        lemma_which((n - 1) as nat, p);
        law_best_rung_first(errors, n - 1, 7, 0);
    }
}

/// The deviations that are reported are the least and the largest of the ghosts: every
/// ghost lies between them, and a ghost has each.
pub proof fn law_ghost_deviations(errors: Seq<Seq<u64>>, d: int, n: nat, b: int)
    requires
        errors.len() == 7,
        0 <= d < 7,
        0 <= b < n <= usize::MAX,
        best_rung(errors, b, 7) - d >= 2 || d - best_rung(errors, b, 7) >= 2,
    ensures
        sweep_of(errors, d, n).least <= 6 * (best_rung(errors, b, 7) - d) <= sweep_of(
            errors,
            d,
            n,
        ).largest,
        exists|c: int|
            0 <= c < n && 6 * (#[trigger] best_rung(errors, c, 7) - d) == sweep_of(
                errors,
                d,
                n,
            ).least && sweep_of(errors, d, n).least != 0,
        exists|c: int|
            0 <= c < n && 6 * (#[trigger] best_rung(errors, c, 7) - d) == sweep_of(
                errors,
                d,
                n,
            ).largest && sweep_of(errors, d, n).largest != 0,
    decreases n,
{
    let m = (n - 1) as nat;
    law_best_rung_first(errors, n - 1, 7, 0);
    law_ghosts_on_either_side(errors, d, m);
    let p = |b: int| best_rung(errors, b, 7) >= d + 2 || best_rung(errors, b, 7) + 2 <= d;
    lemma_which_are(m, p);
    assert(best_rung(errors, n - 1, 7) == best_rung(errors, n - 1, 7));
    if b < m {
        assert(p(b));
        law_ghost_deviations(errors, d, m, b);
    } else if sweep_of(errors, d, m).ghosts > 0 {
        let c = which(m, p)[0];
        assert(p(c));
        law_ghost_deviations(errors, d, m, c);
    }
}

/// A sweep without ghosts names no deviation.
pub proof fn law_no_ghosts(errors: Seq<Seq<u64>>, d: int, n: nat)
    requires
        errors.len() == 7,
        0 <= d < 7,
        n <= usize::MAX,
        forall|b: int| 0 <= b < n ==> -1 <= #[trigger] best_rung(errors, b, 7) - d <= 1,
    ensures
        sweep_of(errors, d, n).ghosts == 0,
        sweep_of(errors, d, n).least == 0,
        sweep_of(errors, d, n).largest == 0,
    decreases n,
{
    if n > 0 {
        law_no_ghosts(errors, d, (n - 1) as nat);
        assert(-1 <= best_rung(errors, n - 1, 7) - d <= 1);
    }
}

/// Ghosts are reported, as critical, where they are more than a twentieth of the blocks and
/// less than seven tenths; the last finding is always the dominant quality.
pub proof fn law_when_ghosts_are_reported(s: Sweep, blocks: int)
    ensures
        ({
            let f = ghost_findings(s, blocks);
            let some = 20 * s.ghosts > blocks && 10 * s.ghosts < 7 * blocks;
            &&& f.len() == if some { 2int } else { 1 }
            &&& some ==> f[0].code == "jpeg_ghost_detected"@ && f[0].severity == Severity::Critical
            &&& f.last().code == "jpeg_quality_estimate"@ && f.last().severity == Severity::Info
            &&& f.last().description == "Estimated original JPEG quality factor: ~"@ + decimal_text(
                s.dominant as nat,
            )
        }),
{
}

/// The error of a block is the sum of the squared differences of its samples, 192 to a row.
pub proof fn law_block_error(a: Seq<u8>, b: Seq<u8>, w: int, x0: int, y0: int, n: nat)
    ensures
        block_error(a, b, w, x0, y0, n) == total(n, |i: int| (b[(y0 + i / 192) * (w * 3) + x0 * 3 + i % 192] - a[(y0 + i / 192) * (w * 3) + x0 * 3 + i % 192]) * (b[(y0 + i / 192) * (w * 3) + x0 * 3 + i % 192] - a[(y0 + i / 192) * (w * 3) + x0 * 3 + i % 192])),
    decreases n,
{
    if n > 0 {
        law_block_error(a, b, w, x0, y0, (n - 1) as nat);
        let at = (y0 + (n - 1) / 192) * (w * 3) + x0 * 3 + (n - 1) % 192;
        let d = a[at] as int - b[at] as int;
        assert((-d) * (-d) == d * d) by (nonlinear_arith);
        assert(b[at] - a[at] == -d);
    }
}

/// A block that a re-save leaves as it is has no error.
pub proof fn law_no_error(a: Seq<u8>, w: int, x0: int, y0: int, n: nat)
    ensures
        block_error(a, a, w, x0, y0, n) == 0,
    decreases n,
{
    if n > 0 {
        law_no_error(a, w, x0, y0, (n - 1) as nat);
    }
}

/// The ladder has seven qualities from sixty on, six apart.
pub proof fn law_ladder(k: int)
    ensures
        rung(0) == 60,
        rung(k + 1) - rung(k) == 6,
        rung(6) == 96,
        LADDER == 7,
{
}

/// The errors of the blocks lie row by row, blocks of 64 pixels a side.
pub proof fn law_errors(a: Seq<u8>, b: Seq<u8>, w: int, h: int, x: int, y: int)
    requires
        0 <= x < w / 64,
        0 <= y < h / 64,
    ensures
        errors_of(a, b, w, h).len() == (w / 64) * (h / 64),
        errors_of(a, b, w, h)[y * (w / 64) + x] == block_error(a, b, w, 64 * x, 64 * y, 12_288) as u64,
{
    let n = w / 64;
    vstd::arithmetic::div_mod::lemma_fundamental_div_mod_converse(y * n + x, n, y, x);
    assert(0 <= y * n + x < n * (h / 64)) by (nonlinear_arith)
        requires
            0 <= x < n,
            0 <= y < h / 64,
    ;
}

/// A frame with a side below 64 pixels tells of nothing, nor does one that cannot be saved again at
/// every quality.
pub proof fn law_frames_not_swept(f: Frame, k: int)
    ensures
        f.width < 64 || f.height < 64 ==> frame_findings(f).len() == 0,
        0 <= k < LADDER && rung_errors(f, k) is None ==> frame_findings(f).len() == 0,
{
}

/// The errors of a quality are those of the frame against what is read back at it.
pub proof fn law_rung_errors(f: Frame, k: int)
    ensures
        ({
            let c = resaved(f.samples@, f.width, f.height, f.monochrome, rung(k) as u8);
            &&& c is None ==> rung_errors(f, k) is None
            &&& c is Some ==> rung_errors(f, k) == Some(
                errors_of(
                    colors_of(f.samples@, f.monochrome),
                    c->Some_0,
                    f.width as int,
                    f.height as int,
                ),
            )
        }),
{
}

} // verus!
