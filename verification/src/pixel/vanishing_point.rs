//! Vanishing-point consistency.
//!
//! Parallel lines of a scene converge to vanishing points. A composite of different
//! scenes has lines that converge to different points in different halves of the
//! image. The intersections of lines need trigonometry and come from the caller.

use crate::finding::group_values;
use crate::finding::plain_finding;
use crate::finding::values;
use crate::finding::Finding;
use crate::finding::FindingView;
use crate::finding::Severity;
use crate::grid::abs;
use crate::grid::imax;
use crate::hough::extract_peaks;
use crate::hough::top_peaks;
use crate::hough::Peak;
use crate::raster::bound_gray;
use crate::raster::bounded_gray;
use crate::raster::resizable;
use crate::raster::Frame;
use crate::robust::median;
use crate::robust::middle;
use crate::select::lemma_which;
use crate::select::total;
use crate::select::which;
use crate::sobel::sobel;
use crate::sobel::squared;
use crate::sobel::squared_magnitude;
use vstd::prelude::*;
use vstd::string::*;

verus! {

/// Cap on the pixel count of the image that is analyzed.
pub const VANISHING_PIXELS: u64 = 500_000;

/// The vanishing-point analyzer.
pub struct VanishingPointAnalyzer;

/// The number of angles of the accumulator.
pub const VP_NUM_THETA: usize = 180;

/// Above this distance, relative to the diagonal, two vanishing points differ, as a
/// key: 0.15.
pub const DIVERGENCE: i64 = 0x3FC3_3333_3333_3333;

/// Above this distance the difference is grave, as a key: 0.30.
pub const GRAVE_DIVERGENCE: i64 = 0x3FD3_3333_3333_3333;

/// A cell of the plane that intersections are sorted into.
#[derive(Debug, Clone, Copy, PartialEq, Eq, Structural)]
pub struct PlaneCell {
    pub x: i64,
    pub y: i64,
}

/// A cell with the number of intersections in it.
#[derive(Debug, Clone, Copy, PartialEq, Eq, Structural)]
pub struct Occupied {
    pub cell: PlaneCell,
    pub count: usize,
}

/// A cell comes before another: by column, then by row.
pub open spec fn cell_before(a: PlaneCell, b: PlaneCell) -> bool {
    a.x < b.x || (a.x == b.x && a.y < b.y)
}

/// Occupied cells in ascending order with one more intersection.
pub open spec fn counted(s: Seq<Occupied>, c: PlaneCell, k: nat) -> Seq<Occupied>
    decreases s.len() - k,
{
    if k >= s.len() {
        s.push(Occupied { cell: c, count: 1 })
    } else if s[k as int].cell == c {
        s.update(k as int, Occupied { cell: c, count: (s[k as int].count + 1) as usize })
    } else if cell_before(c, s[k as int].cell) {
        s.insert(k as int, Occupied { cell: c, count: 1 })
    } else {
        counted(s, c, k + 1)
    }
}

/// The cells that the first `n` intersections fall into, in ascending order.
pub open spec fn occupied(cells: Seq<PlaneCell>, n: nat) -> Seq<Occupied>
    decreases n,
{
    if n == 0 {
        Seq::empty()
    } else {
        counted(occupied(cells, (n - 1) as nat), cells[n - 1], 0)
    }
}

/// Two cells touch or are the same.
pub open spec fn touching(a: PlaneCell, b: PlaneCell) -> bool {
    abs(a.x - b.x) <= 1 && abs(a.y - b.y) <= 1
}

/// What is left and what has been gathered while cells are merged into the one at `i`.
pub struct Merge {
    /// Which cells are taken.
    pub used: Seq<bool>,
    /// The number of intersections gathered.
    pub size: int,
}

/// Merging the free cells from `i + 1` up to `j` that touch cell `i` into it.
pub open spec fn merge_into(s: Seq<Occupied>, used: Seq<bool>, i: int, j: nat) -> Merge
    decreases j,
{
    if j == 0 || j <= i + 1 {
        Merge { used: used.update(i, true), size: s[i].count as int }
    } else {
        let m = merge_into(s, used, i, (j - 1) as nat);
        if !m.used[j - 1] && touching(s[i].cell, s[j - 1].cell) {
            Merge { used: m.used.update(j - 1, true), size: m.size + s[j - 1].count }
        } else {
            m
        }
    }
}

/// What the first `n` cells have been merged to.
pub struct Merged {
    pub used: Seq<bool>,
    /// The number of clusters with two intersections or more.
    pub clusters: int,
}

/// Merging, cell by cell, what touches a free cell into it.
pub open spec fn merged(s: Seq<Occupied>, n: nat) -> Merged
    decreases n,
{
    if n == 0 {
        Merged { used: Seq::new(s.len(), |i: int| false), clusters: 0 }
    } else {
        let before = merged(s, (n - 1) as nat);
        if before.used[n - 1] {
            before
        } else {
            let m = merge_into(s, before.used, n - 1, s.len());
            Merged {
                used: m.used,
                clusters: before.clusters + if m.size >= 2 {
                    1int
                } else {
                    0int
                },
            }
        }
    }
}

/// The number of clusters of intersections.
pub open spec fn cluster_number(cells: Seq<PlaneCell>) -> int {
    let s = occupied(cells, cells.len());
    merged(s, s.len()).clusters
}

/// A strong edge: an inner pixel with a gradient magnitude of 80 or more.
pub open spec fn is_line_edge(gray: Seq<u8>, w: int, h: int, x: int, y: int) -> bool {
    1 <= x < w - 1 && 1 <= y < h - 1 && squared_magnitude(gray, w, x, y) >= 6400
}

/// The finding on two halves whose vanishing points differ.
pub open spec fn divergence_finding(
    sideways: bool,
    distance: Seq<char>,
    percent: Seq<char>,
    relative: i64,
    confidence: u64,
) -> FindingView {
    plain_finding(
        "vanishing_point"@,
        if sideways {
            "vanishing_point_inconsistency"@
        } else {
            "vanishing_point_vertical_inconsistency"@
        },
        if sideways {
            "Vanishing points estimated from left and right image halves diverge by "@ + distance
                + " pixels ("@ + percent
                + "% of diagonal) - possible composite from scenes with different perspective geometry"@
        } else {
            "Vanishing points from top and bottom halves diverge by "@ + distance + " pixels ("@
                + percent
                + "% of diagonal) - possible vertical splice combining scenes with different perspective"@
        },
        if relative > GRAVE_DIVERGENCE {
            Severity::High
        } else {
            Severity::Medium
        },
        confidence,
    )
}

fn count_cell(s: &mut Vec<Occupied>, c: PlaneCell, Ghost(total): Ghost<nat>)
    requires
        forall|i: int| 0 <= i < old(s).len() ==> (#[trigger] old(s)@[i]).count <= total,
        total < usize::MAX,
    ensures
        final(s)@ == counted(old(s)@, c, 0),
        forall|i: int| 0 <= i < final(s).len() ==> (#[trigger] final(s)@[i]).count <= total + 1,
{
    let mut k: usize = 0;
    while k < s.len()
        invariant
            k <= s.len(),
            s@ == old(s)@,
            forall|i: int| 0 <= i < s.len() ==> (#[trigger] s@[i]).count <= total,
            total < usize::MAX,
            counted(s@, c, 0) == counted(s@, c, k as nat),
        decreases s.len() - k,
    {
        let here: Occupied = s[k];
        if here.cell == c {
            s.set(k, Occupied { cell: c, count: here.count + 1 });
            return;
        }
        if c.x < here.cell.x || (c.x == here.cell.x && c.y < here.cell.y) {
            let ghost before = s@;
            s.insert(k, Occupied { cell: c, count: 1 });
            proof {
                assert forall|i: int| 0 <= i < s.len() implies (#[trigger] s@[i]).count <= total + 1 by {
                    if i < k {
                        assert(s@[i] == before[i]);
                    } else if i > k {
                        assert(s@[i] == before[i - 1]);
                    }
                }
            }
            return;
        }
        k += 1;
    }
    s.push(Occupied { cell: c, count: 1 });
}

fn near_value(a: i64, b: i64) -> (r: bool)
    ensures
        r == (abs(a - b) <= 1),
{
    let d: i128 = a as i128 - b as i128;
    -1 <= d && d <= 1
}

/// Below this angle two lines are parallel, as a key: five degrees, in radians.
pub const PARALLEL: i64 = 0x3FB6_5718_4AE7_4487;

/// Where two lines cross. All numbers are keys: the crossing, the angle between the lines,
/// the distance of the crossing from the centre of the image, the columns at which the two
/// lines pass the middle row, and the rows at which they pass the middle column.
#[derive(Debug, Clone, Copy, PartialEq, Eq, Structural)]
pub struct Crossing {
    pub x: i64,
    pub y: i64,
    pub angle: i64,
    pub distance: i64,
    pub first_column: i64,
    pub second_column: i64,
    pub first_row: i64,
    pub second_row: i64,
}

/// Whether a crossing is a candidate for a vanishing point.
pub open spec fn is_candidate(c: Crossing, reach: i64) -> bool {
    c.angle >= PARALLEL && c.distance < reach
}

/// The candidates among the first `n` crossings.
pub open spec fn candidates(c: Seq<Crossing>, reach: i64, n: nat) -> Seq<Crossing>
    decreases n,
{
    if n == 0 {
        Seq::empty()
    } else if is_candidate(c[n - 1], reach) {
        candidates(c, reach, (n - 1) as nat).push(c[n - 1])
    } else {
        candidates(c, reach, (n - 1) as nat)
    }
}

/// A half of an image: left or right of the centre, or above or below it.
#[derive(Debug, Clone, Copy, PartialEq, Eq, Structural)]
pub struct Half {
    pub sideways: bool,
    pub low: bool,
}

/// Whether both lines of a crossing pass a half of the image, which ends at `centre`.
pub open spec fn passes(c: Crossing, half: Half, centre: i64) -> bool {
    let at = if half.sideways {
        (c.first_column, c.second_column)
    } else {
        (c.first_row, c.second_row)
    };
    if half.low {
        at.0 < centre && at.1 < centre
    } else {
        at.0 >= centre && at.1 >= centre
    }
}

/// The columns (`column`) or the rows of the crossings among the first `n`
/// whose lines pass a half.
pub open spec fn coordinates(
    c: Seq<Crossing>,
    half: Half,
    centre: i64,
    column: bool,
    n: nat,
) -> Seq<i64>
    decreases n,
{
    if n == 0 {
        Seq::empty()
    } else {
        let before = coordinates(c, half, centre, column, (n - 1) as nat);
        if passes(c[n - 1], half, centre) {
            before.push(
                if column {
                    c[n - 1].x
                } else {
                    c[n - 1].y
                },
            )
        } else {
            before
        }
    }
}

/// The vanishing point of a half: the median column and the median row of its crossings, of
/// which it takes three.
pub open spec fn half_point(c: Seq<Crossing>, half: Half, centre: i64) -> Option<(i64, i64)> {
    let xs = coordinates(c, half, centre, true, c.len());
    let ys = coordinates(c, half, centre, false, c.len());
    if xs.len() >= 3 {
        Some((middle(xs), middle(ys)))
    } else {
        None
    }
}

/// No crossing counts for both halves: its lines pass one side of the centre or the other.
pub proof fn law_halves_disjoint(c: Crossing, sideways: bool, centre: i64)
    ensures
        !(passes(c, Half { sideways, low: true }, centre) && passes(
            c,
            Half { sideways, low: false },
            centre,
        )),
{
}

/// How far the vanishing points of two halves lie apart.
pub struct Divergence {
    /// The distance without decimals.
    pub distance: String,
    /// The share of the diagonal in percent, with one decimal.
    pub percent: String,
    /// The share of the diagonal, as a key.
    pub relative: i64,
    /// The confidence, as bits.
    pub confidence: u64,
}

/// The finding on two halves, left and right if `sideways` is set, else top and bottom,
/// where both have a vanishing point and they lie too far apart.
pub open spec fn half_findings(sideways: bool, d: Option<Divergence>) -> Seq<FindingView> {
    match d {
        Some(n) => if n.relative > DIVERGENCE {
            seq![
                divergence_finding(
                    sideways,
                    n.distance@,
                    n.percent@,
                    n.relative,
                    n.confidence,
                ),
            ]
        } else {
            seq![]
        },
        None => seq![],
    }
}

impl VanishingPointAnalyzer {
    /// The luminance plane that is analyzed: resampled to `nw` by `nh` where the image is
    /// over the cap.
    pub fn working_image(&self, gray: &[u8], w: u32, h: u32, nw: u32, nh: u32) -> (r: Frame)
        requires
            gray@.len() == w * h,
            w * h > VANISHING_PIXELS ==> resizable(w, h, nw, nh),
        ensures
            r.monochrome,
            r.wf(),
            (r.width, r.height, r.samples@) == bounded_gray(
                gray@,
                w,
                h,
                VANISHING_PIXELS as int,
                nw,
                nh,
            ),
    {
        bound_gray(gray, w, h, VANISHING_PIXELS, nw, nh)
    }

    /// Whether an image is large enough to be analyzed.
    pub fn large_enough(&self, w: usize, h: usize) -> (r: bool)
        ensures
            r == (w >= 200 && h >= 200),
    {
        w >= 200 && h >= 200
    }

    /// Whether so many lines are enough to look for vanishing points.
    pub fn enough_lines(&self, n: usize) -> (r: bool)
        ensures
            r == (n >= 4),
    {
        n >= 4
    }

    /// Whether a pixel lies on a strong edge.
    pub fn edge_at(&self, gray: &[u8], x: usize, y: usize, w: usize, h: usize) -> (r: bool)
        requires
            gray.len() == w * h,
        ensures
            r == is_line_edge(gray@, w as int, h as int, x as int, y as int),
    {
        if x < 1 || y < 1 || x >= w || y >= h || w - x <= 1 || h - y <= 1 {
            return false;
        }
        let g = sobel(gray, w, h, x, y);
        squared(g) >= 6400
    }

    /// The peaks of the accumulator: those with votes for six percent of the longer
    /// side, the forty strongest.
    pub fn extract_peaks(&self, acc: &Vec<u32>, num_rho: usize, w: u32, h: u32) -> (r: Vec<Peak>)
        requires
            acc.len() == VP_NUM_THETA * num_rho,
        ensures
            r@ == top_peaks(
                acc@,
                VP_NUM_THETA as int,
                num_rho as int,
                6 * imax(w as int, h as int) / 100,
                40,
            ),
    {
        let side: u64 = if w >= h {
            w as u64
        } else {
            h as u64
        };
        let least: u32 = (6 * side / 100) as u32;
        extract_peaks(acc, VP_NUM_THETA, num_rho, least, 40)
    }

    /// Keeps the crossings that are candidates: the lines are not parallel, and the crossing
    /// is nearer to the centre than `reach`. None where there are fewer than five.
    pub fn keep_crossings(&self, c: &Vec<Crossing>, reach: i64) -> (r: Option<Vec<Crossing>>)
        ensures
            r is Some <==> candidates(c@, reach, c@.len()).len() >= 5,
            r matches Some(v) ==> v@ == candidates(c@, reach, c@.len()),
    {
        let mut kept: Vec<Crossing> = Vec::new();
        let mut i: usize = 0;
        while i < c.len()
            invariant
                i <= c.len(),
                kept@ == candidates(c@, reach, i as nat),
            decreases c.len() - i,
        {
            if c[i].angle >= PARALLEL && c[i].distance < reach {
                kept.push(c[i]);
            }
            i += 1;
        }
        if kept.len() >= 5 {
            Some(kept)
        } else {
            None
        }
    }

    /// Whether crossings gather at more than one point, given the cell of each.
    pub fn gather_apart(&self, cells: &Vec<PlaneCell>) -> (r: bool)
        ensures
            r == (cluster_number(cells@) >= 2),
    {
        self.cluster_intersections(cells) >= 2
    }

    /// The vanishing point of a half of the image, if enough crossings belong to it.
    pub fn point_of(&self, c: &Vec<Crossing>, half: Half, centre: i64) -> (r: Option<(i64, i64)>)
        ensures
            r == half_point(c@, half, centre),
    {
        let mut xs: Vec<i64> = Vec::new();
        let mut ys: Vec<i64> = Vec::new();
        let mut i: usize = 0;
        while i < c.len()
            invariant
                i <= c.len(),
                xs.len() == ys.len(),
                xs@ == coordinates(c@, half, centre, true, i as nat),
                ys@ == coordinates(c@, half, centre, false, i as nat),
            decreases c.len() - i,
        {
            let at: (i64, i64) = if half.sideways {
                (c[i].first_column, c[i].second_column)
            } else {
                (c[i].first_row, c[i].second_row)
            };
            let inside: bool = if half.low {
                at.0 < centre && at.1 < centre
            } else {
                at.0 >= centre && at.1 >= centre
            };
            if inside {
                xs.push(c[i].x);
                ys.push(c[i].y);
            }
            i += 1;
        }
        if xs.len() < 3 {
            return None;
        }
        Some((median(&xs), median(&ys)))
    }

    /// The number of clusters of intersections, given the cell of each intersection.
    pub fn cluster_intersections(&self, cells: &Vec<PlaneCell>) -> (r: usize)
        ensures
            r == cluster_number(cells@),
    {
        let mut s: Vec<Occupied> = Vec::new();
        let mut i: usize = 0;
        while i < cells.len()
            invariant
                i <= cells.len(),
                s@ == occupied(cells@, i as nat),
                forall|k: int| 0 <= k < s.len() ==> (#[trigger] s@[k]).count <= i,
            decreases cells.len() - i,
        {
            count_cell(&mut s, cells[i], Ghost(i as nat));
            i += 1;
        }
        let n: usize = s.len();
        let mut used: Vec<bool> = vec![false; n];
        let mut clusters: usize = 0;
        let mut a: usize = 0;
        proof {
            assert(used@ =~= merged(s@, 0).used);
        }
        while a < n
            invariant
                a <= n,
                n == s.len(),
                used.len() == n,
                clusters <= a,
                used@ == merged(s@, a as nat).used,
                clusters == merged(s@, a as nat).clusters,
            decreases n - a,
        {
            if !used[a] {
                let ghost start = used@;
                used.set(a, true);
                let mut many: bool = s[a].count >= 2;
                let mut some: bool = s[a].count >= 1;
                let mut b: usize = a + 1;
                proof {
                    assert(used@ == merge_into(s@, start, a as int, (a + 1) as nat).used);
                }
                while b < n
                    invariant
                        a < n,
                        a + 1 <= b <= n,
                        n == s.len(),
                        used.len() == n,
                        start.len() == n,
                        used@ == merge_into(s@, start, a as int, b as nat).used,
                        many == (merge_into(s@, start, a as int, b as nat).size >= 2),
                        some == (merge_into(s@, start, a as int, b as nat).size >= 1),
                        merge_into(s@, start, a as int, b as nat).size >= 0,
                    decreases n - b,
                {
                    if !used[b] && near_value(s[a].cell.x, s[b].cell.x) && near_value(
                        s[a].cell.y,
                        s[b].cell.y,
                    ) {
                        used.set(b, true);
                        many = many || s[b].count >= 2 || (some && s[b].count >= 1);
                        some = some || s[b].count >= 1;
                    }
                    b += 1;
                }
                if many {
                    clusters += 1;
                }
            }
            a += 1;
        }
        clusters
    }

    /// Reports where the vanishing points of the halves differ: first those of left and
    /// right, then those of top and bottom, each where both halves have one.
    pub fn check_consistency(&self, across: &Option<Divergence>, down: &Option<Divergence>) -> (r:
        Vec<Finding>)
        ensures
            values(r@) == half_findings(true, *across) + half_findings(false, *down),
            r.len() <= 2,
    {
        broadcast use group_values;

        let mut r: Vec<Finding> = Vec::new();
        if let Some(d) = across {
            if let Some(f) = self.report(
                true,
                d.distance.as_str(),
                d.percent.as_str(),
                d.relative,
                d.confidence,
            ) {
                r.push(f);
            }
        }
        assert(values(r@) =~= half_findings(true, *across));
        if let Some(d) = down {
            if let Some(f) = self.report(
                false,
                d.distance.as_str(),
                d.percent.as_str(),
                d.relative,
                d.confidence,
            ) {
                r.push(f);
            }
        }
        assert(values(r@) =~= half_findings(true, *across) + half_findings(false, *down));
        r
    }

    /// Reports that the vanishing points of two halves differ, left and right if
    /// `sideways` is set, else top and bottom. `relative` is the key of their distance
    /// over the diagonal, `distance` the distance without decimals, and `percent` its
    /// share of the diagonal with one decimal.
    pub fn report(
        &self,
        sideways: bool,
        distance: &str,
        percent: &str,
        relative: i64,
        confidence: u64,
    ) -> (r: Option<Finding>)
        ensures
            match r {
                Some(f) => relative > DIVERGENCE && f@ == divergence_finding(
                    sideways,
                    distance@,
                    percent@,
                    relative,
                    confidence,
                ),
                None => relative <= DIVERGENCE,
            },
    {
        if relative <= DIVERGENCE {
            return None;
        }
        let mut t = if sideways {
            "Vanishing points estimated from left and right image halves diverge by ".to_string()
        } else {
            "Vanishing points from top and bottom halves diverge by ".to_string()
        };
        t.append(distance);
        t.append(" pixels (");
        t.append(percent);
        t.append(
            if sideways {
                "% of diagonal) - possible composite from scenes with different perspective geometry"
            } else {
                "% of diagonal) - possible vertical splice combining scenes with different perspective"
            },
        );
        let code = if sideways {
            "vanishing_point_inconsistency"
        } else {
            "vanishing_point_vertical_inconsistency"
        };
        let severity = if relative > GRAVE_DIVERGENCE {
            Severity::High
        } else {
            Severity::Medium
        };
        Some(Finding::new("vanishing_point", code, t, severity, confidence))
    }
}

/// Cells touch where neither coordinate differs by more than one.
pub proof fn law_touching(a: PlaneCell, b: PlaneCell)
    ensures
        touching(a, b) <==> a.x - 1 <= b.x && b.x <= a.x + 1 && a.y - 1 <= b.y && b.y <= a.y + 1,
        touching(a, b) == touching(b, a),
{
}

/// The intersections of a cluster are those of its cell and of each later cell that touches it
/// and was free; just those cells are then taken.
pub proof fn law_cluster_size(s: Seq<Occupied>, used: Seq<bool>, i: int, n: nat)
    requires
        0 <= i < n <= s.len(),
        used.len() == s.len(),
    ensures
        ({
            let m = merge_into(s, used, i, n);
            &&& m.size == total(
                n,
                |k: int|
                    if k == i || (k > i && !used[k] && touching(s[i].cell, s[k].cell)) {
                        s[k].count as int
                    } else {
                        0
                    },
            )
            &&& m.used.len() == used.len()
            &&& forall|k: int|
                0 <= k < used.len() ==> #[trigger] m.used[k] == (used[k] || k == i || (i < k < n
                    && touching(s[i].cell, s[k].cell)))
        }),
    decreases n,
{
    let f = |k: int|
        if k == i || (k > i && !used[k] && touching(s[i].cell, s[k].cell)) {
            s[k].count as int
        } else {
            0
        };
    if n <= i + 1 {
        lemma_none_below(n as int - 1, f);
        assert(total(n, f) == total((n - 1) as nat, f) + f(n - 1));
    } else {
        law_cluster_size(s, used, i, (n - 1) as nat);
        let before = merge_into(s, used, i, (n - 1) as nat);
        assert(before.used[n - 1] == used[n - 1]);
    }
}

proof fn lemma_none_below(i: int, f: spec_fn(int) -> int)
    requires
        0 <= i,
        forall|k: int| 0 <= k < i ==> #[trigger] f(k) == 0,
    ensures
        total(i as nat, f) == 0,
    decreases i,
{
    if i > 0 {
        lemma_none_below(i - 1, f);
    }
}

/// A cluster counts where it gathers two intersections or more; a cell that is taken begins
/// none.
pub proof fn law_clusters_count(s: Seq<Occupied>, n: nat)
    requires
        n < s.len(),
    ensures
        ({
            let before = merged(s, n);
            let after = merged(s, n + 1);
            let m = merge_into(s, before.used, n as int, s.len());
            &&& before.used[n as int] ==> after == before
            &&& !before.used[n as int] && m.size < 2 ==> after.clusters == before.clusters
            &&& !before.used[n as int] && m.size >= 2 ==> after.clusters == before.clusters + 1
            &&& !before.used[n as int] ==> after.used == m.used
        }),
        merged(s, 0).clusters == 0,
        forall|k: int| 0 <= k < s.len() ==> !#[trigger] merged(s, 0).used[k],
{
}

/// An intersection is counted in its cell, or in a new one put in its place in the order; no
/// other cell changes.
pub proof fn law_counted(s: Seq<Occupied>, c: PlaneCell, k: nat)
    requires
        k <= s.len(),
        forall|i: int| 0 <= i < s.len() ==> (#[trigger] s[i]).count < usize::MAX,
    ensures
        counted(s, c, k).len() == s.len() || counted(s, c, k).len() == s.len() + 1,
        occupancy(counted(s, c, k)) == occupancy(s) + 1,
        exists|i: int|
            k <= i < counted(s, c, k).len() && (#[trigger] counted(s, c, k)[i]).cell == c && counted(
                s,
                c,
                k,
            )[i].count >= 1,
    decreases s.len() - k,
{
    let r = counted(s, c, k);
    if k >= s.len() {
        assert(r.drop_last() =~= s);
        assert(r[s.len() as int].cell == c);
    } else if s[k as int].cell == c {
        lemma_one_more(s, k as int);
        assert(r[k as int].cell == c);
    } else if cell_before(c, s[k as int].cell) {
        lemma_inserted(s, k as int, Occupied { cell: c, count: 1 });
        assert(r[k as int].cell == c);
    } else {
        law_counted(s, c, k + 1);
    }
}

/// The number of intersections in all cells.
pub open spec fn occupancy(s: Seq<Occupied>) -> int
    decreases s.len(),
{
    if s.len() == 0 {
        0
    } else {
        occupancy(s.drop_last()) + s.last().count
    }
}

proof fn lemma_one_more(s: Seq<Occupied>, k: int)
    requires
        0 <= k < s.len(),
        s[k].count < usize::MAX,
    ensures
        occupancy(
            s.update(k, Occupied { cell: s[k].cell, count: (s[k].count + 1) as usize }),
        ) == occupancy(s) + 1,
    decreases s.len(),
{
    let o = Occupied { cell: s[k].cell, count: (s[k].count + 1) as usize };
    let r = s.update(k, o);
    if k == s.len() - 1 {
        assert(r.drop_last() =~= s.drop_last());
    } else {
        assert(r.drop_last() =~= s.drop_last().update(k, o));
        lemma_one_more(s.drop_last(), k);
    }
}

proof fn lemma_inserted(s: Seq<Occupied>, k: int, o: Occupied)
    requires
        0 <= k <= s.len(),
    ensures
        occupancy(s.insert(k, o)) == occupancy(s) + o.count,
    decreases s.len(),
{
    let r = s.insert(k, o);
    if k == s.len() {
        assert(r.drop_last() =~= s);
    } else {
        assert(r.drop_last() =~= s.drop_last().insert(k, o));
        assert(r.last() == s.last());
        lemma_inserted(s.drop_last(), k, o);
    }
}

/// Crossings are considered where the lines are five degrees apart or more and the crossing
/// lies within reach.
pub proof fn law_candidates(c: Seq<Crossing>, reach: i64, n: nat)
    requires
        n <= c.len(),
    ensures
        candidates(c, reach, n) == which(n, |i: int| PARALLEL <= c[i].angle && reach > c[i].distance).map_values(|i: int| c[i]),
    decreases n,
{
    let p = |i: int| PARALLEL <= c[i].angle && reach > c[i].distance;
    let f = |i: int| c[i];
    lemma_which(0, p);
    if n > 0 {
        let lower = (n - 1) as nat;
        law_candidates(c, reach, lower);
        lemma_which(lower, p);
        assert(which(n, p).map_values(f) =~= if p(lower as int) {
            which(lower, p).map_values(f).push(f(lower as int))
        } else {
            which(lower, p).map_values(f)
        });
    } else {
        assert(which(0, p).map_values(f) =~= Seq::<Crossing>::empty());
    }
}

/// A crossing counts for a half where both of its lines pass on that side of the centre,
/// which itself belongs to the upper half.
pub proof fn law_half_coordinates(c: Seq<Crossing>, half: Half, centre: i64, column: bool, n: nat)
    requires
        n <= c.len(),
    ensures
        coordinates(c, half, centre, column, n) == which(n, |i: int| if half.sideways { if half.low { c[i].first_column < centre && c[i].second_column < centre } else { !(c[i].first_column < centre) && !(c[i].second_column < centre) } } else if half.low { c[i].first_row < centre && c[i].second_row < centre } else { !(c[i].first_row < centre) && !(c[i].second_row < centre) }).map_values(|i: int| if column { c[i].x } else { c[i].y }),
    decreases n,
{
    let p = |i: int| if half.sideways { if half.low { c[i].first_column < centre && c[i].second_column < centre } else { !(c[i].first_column < centre) && !(c[i].second_column < centre) } } else if half.low { c[i].first_row < centre && c[i].second_row < centre } else { !(c[i].first_row < centre) && !(c[i].second_row < centre) };
    let f = |i: int| if column { c[i].x } else { c[i].y };
    lemma_which(0, p);
    if n > 0 {
        let lower = (n - 1) as nat;
        law_half_coordinates(c, half, centre, column, lower);
        lemma_which(lower, p);
        assert(which(n, p).map_values(f) =~= if p(lower as int) {
            which(lower, p).map_values(f).push(f(lower as int))
        } else {
            which(lower, p).map_values(f)
        });
    } else {
        assert(which(0, p).map_values(f) =~= Seq::<i64>::empty());
    }
}

/// A half has a point where three crossings or more count for it: the middle ones.
pub proof fn law_half_point(c: Seq<Crossing>, half: Half, centre: i64)
    ensures
        ({
            let xs = coordinates(c, half, centre, true, c.len());
            let ys = coordinates(c, half, centre, false, c.len());
            &&& half_point(c, half, centre) is Some <==> xs.len() > 2
            &&& xs.len() > 2 ==> half_point(c, half, centre) == Some((middle(xs), middle(ys)))
        }),
{
}

/// Points that diverge by more than 0.15 of the diagonal are told, gravely above 0.3.
pub proof fn law_when_divergence_is_reported(sideways: bool, d: Option<Divergence>)
    ensures
        ({
            let f = half_findings(sideways, d);
            let due = d is Some && d->Some_0.relative > 0x3FC3_3333_3333_3333;
            &&& f.len() == if due {
                1int
            } else {
                0
            }
            &&& due ==> f[0].severity == if d->Some_0.relative > 0x3FD3_3333_3333_3333 {
                Severity::High
            } else {
                Severity::Medium
            }
            &&& due && sideways ==> f[0].code == "vanishing_point_inconsistency"@
            &&& due && !sideways ==> f[0].code == "vanishing_point_vertical_inconsistency"@
        }),
        PARALLEL == 0x3FB6_5718_4AE7_4487,
        VANISHING_PIXELS == 500_000,
        VP_NUM_THETA == 180,
{
}

/// A line's edge lies inside the image and has a gradient of eighty or more.
pub proof fn law_line_edge(g: Seq<u8>, w: int, h: int, x: int, y: int)
    ensures
        is_line_edge(g, w, h, x, y) <==> 0 < x && x + 1 < w && 0 < y && y + 1 < h
            && squared_magnitude(g, w, x, y) > 6399,
{
}

/// Whether the cells stand in order, by column and then by row, each once.
pub open spec fn in_order(s: Seq<Occupied>) -> bool {
    forall|i: int, j: int|
        0 <= i < j < s.len() ==> (#[trigger] s[i]).cell.x < (#[trigger] s[j]).cell.x || (
        s[i].cell.x == s[j].cell.x && s[i].cell.y < s[j].cell.y)
}

/// The occupied cells stand in order.
pub proof fn law_cells_in_order(cells: Seq<PlaneCell>, n: nat)
    requires
        n <= cells.len(),
    ensures
        in_order(occupied(cells, n)),
    decreases n,
{
    if n > 0 {
        law_cells_in_order(cells, (n - 1) as nat);
        lemma_counted_in_order(occupied(cells, (n - 1) as nat), cells[n - 1], 0);
    }
}

proof fn lemma_counted_in_order(s: Seq<Occupied>, c: PlaneCell, k: nat)
    requires
        in_order(s),
        k <= s.len(),
        forall|i: int|
            0 <= i < k ==> (#[trigger] s[i]).cell.x < c.x || (s[i].cell.x == c.x && s[i].cell.y < c.y),
    ensures
        in_order(counted(s, c, k)),
    decreases s.len() - k,
{
    if k < s.len() && s[k as int].cell != c && !cell_before(c, s[k as int].cell) {
        lemma_counted_in_order(s, c, k + 1);
    }
}

} // verus!
