//! Clusters of scored positions in an image.
//!
//! The image is divided into square cells. A cell is marked if a position falls
//! into it, and marked cells that touch, corners counted, form a cluster. A
//! cluster is described by the box, the number and the highest score of its
//! positions.
//!
//! Scores are ordered integer images of numbers: see [`crate::number`].

use crate::components::adjacent;
use crate::components::label_components;
use crate::components::lemma_cell;
use crate::components::numbering_of;
use crate::grid::imax;
use crate::grid::imin;
use crate::order::before;
use crate::order::law_order_exists;
use crate::order::order_of;
use crate::order::stable_order;
use crate::select::how_many;
use crate::select::lemma_which;
use crate::select::lemma_which_are;
use crate::select::which;
use vstd::prelude::*;

verus! {

/// A scored position.
#[derive(Debug, Clone, Copy, PartialEq, Eq, Structural)]
pub struct Spot {
    pub x: usize,
    pub y: usize,
    pub score: i64,
}

/// A cluster of positions: its box, bounds included, the number of its positions
/// and their highest score.
#[derive(Debug, Clone, Copy, PartialEq, Eq, Structural)]
pub struct Cluster {
    pub x_min: usize,
    pub y_min: usize,
    pub x_max: usize,
    pub y_max: usize,
    pub count: usize,
    pub peak: i64,
}

/// The number of cells of size `cell` that cover `n` pixels.
pub open spec fn cells_over(n: int, cell: int) -> int {
    (n + cell - 1) / cell
}

/// The cell that a position falls into.
pub open spec fn cell_of(s: Spot, cell: int, gw: int) -> int {
    (s.y as int / cell) * gw + s.x as int / cell
}

/// A position marks its cell, where only positive scores count if `positive` is set.
pub open spec fn marks(s: Spot, cell: int, gw: int, positive: bool, c: int) -> bool {
    cell_of(s, cell, gw) == c && (!positive || s.score > 0)
}

/// The marked cells of the grid.
pub open spec fn marked(spots: Seq<Spot>, cell: int, gw: int, gh: int, positive: bool) -> Seq<
    bool,
> {
    Seq::new(
        (gw * gh) as nat,
        |c: int|
            exists|k: int| 0 <= k < spots.len() && #[trigger] marks(spots[k], cell, gw, positive, c),
    )
}

/// A cluster without positions.
pub open spec fn no_cluster() -> Cluster {
    Cluster { x_min: usize::MAX, y_min: usize::MAX, x_max: 0, y_max: 0, count: 0, peak: 0 }
}

/// A cluster with one more position.
pub open spec fn joined(c: Cluster, s: Spot) -> Cluster {
    Cluster {
        x_min: imin(c.x_min as int, s.x as int) as usize,
        y_min: imin(c.y_min as int, s.y as int) as usize,
        x_max: imax(c.x_max as int, s.x as int) as usize,
        y_max: imax(c.y_max as int, s.y as int) as usize,
        count: (c.count + 1) as usize,
        peak: imax(c.peak as int, s.score as int) as i64,
    }
}

/// The positions among the first `n` whose cell carries the number `l`, gathered.
pub open spec fn gathered(
    spots: Seq<Spot>,
    labels: Seq<usize>,
    cell: int,
    gw: int,
    l: int,
    n: nat,
) -> Cluster
    decreases n,
{
    if n == 0 {
        no_cluster()
    } else {
        let c = gathered(spots, labels, cell, gw, l, (n - 1) as nat);
        if labels[cell_of(spots[n - 1], cell, gw)] == l {
            joined(c, spots[n - 1])
        } else {
            c
        }
    }
}

/// The clusters of an image, in the order of their first cells.
pub open spec fn clusters_of(
    spots: Seq<Spot>,
    cell: int,
    w: int,
    h: int,
    positive: bool,
) -> Seq<Cluster> {
    let gw = cells_over(w, cell);
    let gh = cells_over(h, cell);
    let n = numbering_of(marked(spots, cell, gw, gh, positive), gw, gh, true);
    Seq::new(n.1.len(), |l: int| gathered(spots, n.0, cell, gw, l + 1, spots.len()))
}

/// Every position lies inside the image.
pub open spec fn inside(spots: Seq<Spot>, w: int, h: int) -> bool {
    forall|k: int| 0 <= k < spots.len() ==> (#[trigger] spots[k]).x < w && spots[k].y < h
}

proof fn lemma_spot_cell(s: Spot, cell: int, w: int, h: int)
    requires
        cell > 0,
        s.x < w,
        s.y < h,
    ensures
        0 <= cell_of(s, cell, cells_over(w, cell)) < cells_over(w, cell) * cells_over(h, cell),
        0 <= s.x as int / cell < cells_over(w, cell),
        0 <= s.y as int / cell < cells_over(h, cell),
{
    lemma_cell_index(s.x as int, w, cell);
    lemma_cell_index(s.y as int, h, cell);
    lemma_cell(cells_over(w, cell), cells_over(h, cell), s.x as int / cell, s.y as int / cell);
}

proof fn lemma_cell_index(v: int, n: int, cell: int)
    by (nonlinear_arith)
    requires
        cell > 0,
        0 <= v < n,
    ensures
        0 <= v / cell < (n + cell - 1) / cell,
{
}

/// The cells of a count are no more than the count.
proof fn lemma_cells_small(n: int, cell: int)
    by (nonlinear_arith)
    requires
        cell > 0,
        n >= 0,
    ensures
        0 <= (n + cell - 1) / cell <= n,
{
}

/// The boxes of a cluster's positions stay inside the image.
proof fn lemma_gathered_bounds(
    spots: Seq<Spot>,
    labels: Seq<usize>,
    cell: int,
    gw: int,
    l: int,
    n: nat,
    w: int,
    h: int,
)
    requires
        n <= spots.len(),
        spots.len() <= usize::MAX,
        inside(spots, w, h),
    ensures
        ({
            let c = gathered(spots, labels, cell, gw, l, n);
            &&& c.count <= n
            &&& c.count > 0 ==> c.x_min <= c.x_max < w && c.y_min <= c.y_max < h
            &&& c.count == 0 ==> c == no_cluster()
        }),
    decreases n,
{
    if n > 0 {
        lemma_gathered_bounds(spots, labels, cell, gw, l, (n - 1) as nat, w, h);
        assert(spots[n - 1].x < w);
    }
}

/// Every cluster has a position, and its box lies inside the image.
proof fn lemma_clusters_inside(spots: Seq<Spot>, cell: int, w: int, h: int, positive: bool, l: int)
    requires
        cell > 0,
        0 <= w,
        0 <= h,
        spots.len() <= usize::MAX,
        inside(spots, w, h),
        exists|n: (Seq<usize>, Seq<usize>)|
            crate::components::numbering(
                marked(spots, cell, cells_over(w, cell), cells_over(h, cell), positive),
                cells_over(w, cell),
                cells_over(h, cell),
                true,
                n,
            ),
        0 <= l < clusters_of(spots, cell, w, h, positive).len(),
    ensures
        ({
            let c = clusters_of(spots, cell, w, h, positive)[l];
            c.count >= 1 && c.x_min <= c.x_max < w && c.y_min <= c.y_max < h
        }),
{
    let gw = cells_over(w, cell);
    let gh = cells_over(h, cell);
    let on = marked(spots, cell, gw, gh, positive);
    let n = numbering_of(on, gw, gh, true);
    let f = n.1[l] as int;
    assert(n.0[f] == l + 1);
    assert(on[f]);
    let k = choose|k: int|
        0 <= k < spots.len() && #[trigger] marks(spots[k], cell, gw, positive, f);
    lemma_gathered_some(spots, n.0, cell, gw, l + 1, spots.len(), k);
    lemma_gathered_bounds(spots, n.0, cell, gw, l + 1, spots.len(), w, h);
}

proof fn lemma_gathered_some(
    spots: Seq<Spot>,
    labels: Seq<usize>,
    cell: int,
    gw: int,
    l: int,
    n: nat,
    k: int,
)
    requires
        0 <= k < n <= spots.len(),
        spots.len() <= usize::MAX,
        labels[cell_of(spots[k], cell, gw)] == l,
    ensures
        0 < gathered(spots, labels, cell, gw, l, n).count,
        gathered(spots, labels, cell, gw, l, n).count <= n,
    decreases n,
{
    lemma_gathered_count(spots, labels, cell, gw, l, (n - 1) as nat);
    if k < n - 1 {
        lemma_gathered_some(spots, labels, cell, gw, l, (n - 1) as nat, k);
    }
}

proof fn lemma_gathered_count(
    spots: Seq<Spot>,
    labels: Seq<usize>,
    cell: int,
    gw: int,
    l: int,
    n: nat,
)
    requires
        n <= spots.len(),
        spots.len() <= usize::MAX,
    ensures
        gathered(spots, labels, cell, gw, l, n).count <= n,
    decreases n,
{
    if n > 0 {
        lemma_gathered_count(spots, labels, cell, gw, l, (n - 1) as nat);
    }
}

fn cell_index(s: Spot, cell: usize, w: usize, h: usize, gw: usize, gh: usize) -> (r: usize)
    requires
        cell > 0,
        s.x < w,
        s.y < h,
        gw == cells_over(w as int, cell as int),
        gh == cells_over(h as int, cell as int),
        gw * gh <= usize::MAX,
    ensures
        r == cell_of(s, cell as int, gw as int),
        r < gw * gh,
{
    proof {
        lemma_spot_cell(s, cell as int, w as int, h as int);
    }
    crate::grid::cell(gw, gh, s.x / cell, s.y / cell)
}

/// The number of cells of size `cell` that cover `n` pixels.
fn count_cells(n: usize, cell: usize) -> (r: usize)
    requires
        cell > 0,
    ensures
        r == cells_over(n as int, cell as int),
{
    let q: usize = n / cell;
    let rest: usize = n % cell;
    proof {
        lemma_cells_small(n as int, cell as int);
        assert((n + cell - 1) / (cell as int) == q + (if rest > 0 {
            1int
        } else {
            0int
        })) by (nonlinear_arith)
            requires
                cell > 0,
                q == n / cell,
                rest == n % cell,
        ;
    }
    if rest > 0 {
        q + 1
    } else {
        q
    }
}

/// Clusters scored positions on a grid of cells.
pub fn cluster_spots(spots: &Vec<Spot>, cell: usize, w: usize, h: usize, positive: bool) -> (r: Vec<
    Cluster,
>)
    requires
        cell > 0,
        w * h <= usize::MAX,
        inside(spots@, w as int, h as int),
    ensures
        r@ == clusters_of(spots@, cell as int, w as int, h as int, positive),
        forall|l: int|
            0 <= l < r.len() ==> (#[trigger] r@[l]).count >= 1 && r@[l].x_min <= r@[l].x_max < w
                && r@[l].y_min <= r@[l].y_max < h,
        forall|a: int, b: int|
            #![trigger spots@[a], spots@[b]]
            0 <= a < spots.len() && 0 <= b < spots.len() && (positive ==> spots@[a].score > 0
                && spots@[b].score > 0) && -1 <= spots@[a].x as int / cell as int - spots@[b].x as int
                / cell as int <= 1 && -1 <= spots@[a].y as int / cell as int - spots@[b].y as int
                / cell as int <= 1 ==> exists|l: int|
                0 <= l < r.len() && holds(#[trigger] r@[l], spots@[a]) && holds(r@[l], spots@[b]),
{
    let gw: usize = count_cells(w, cell);
    let gh: usize = count_cells(h, cell);
    proof {
        lemma_cells_small(w as int, cell as int);
        lemma_cells_small(h as int, cell as int);
        assert(gw * gh <= w * h) by (nonlinear_arith)
            requires
                0 <= gw <= w,
                0 <= gh <= h,
        ;
    }
    let mut on: Vec<bool> = vec![false; gw * gh];
    let mut i: usize = 0;
    while i < spots.len()
        invariant
            cell > 0,
            i <= spots.len(),
            gw == cells_over(w as int, cell as int),
            gh == cells_over(h as int, cell as int),
            gw * gh <= usize::MAX,
            inside(spots@, w as int, h as int),
            on.len() == gw * gh,
            forall|c: int|
                0 <= c < gw * gh ==> #[trigger] on@[c] == exists|k: int|
                    0 <= k < i && #[trigger] marks(
                        spots@[k],
                        cell as int,
                        gw as int,
                        positive,
                        c,
                    ),
        decreases spots.len() - i,
    {
        let s: Spot = spots[i];
        let c: usize = cell_index(s, cell, w, h, gw, gh);
        let ghost prev = on@;
        let hit: bool = !positive || s.score > 0;
        if hit {
            on.set(c, true);
        }
        proof {
            assert forall|d: int| 0 <= d < gw * gh implies #[trigger] on@[d] == exists|k: int|
                0 <= k < i + 1 && #[trigger] marks(spots@[k], cell as int, gw as int, positive, d) by {
                if on@[d] {
                    if prev[d] {
                        let k = choose|k: int|
                            0 <= k < i && #[trigger] marks(
                                spots@[k],
                                cell as int,
                                gw as int,
                                positive,
                                d,
                            );
                        assert(marks(spots@[k], cell as int, gw as int, positive, d));
                    } else {
                        assert(marks(spots@[i as int], cell as int, gw as int, positive, d));
                    }
                }
            }
        }
        i += 1;
    }
    proof {
        assert(on@ =~= marked(spots@, cell as int, gw as int, gh as int, positive));
    }
    let comps = label_components(&on, gw, gh, true);
    let ghost labels = comps.labels@;
    let total: usize = comps.firsts.len();
    let mut r: Vec<Cluster> = vec![Cluster { x_min: usize::MAX, y_min: usize::MAX, x_max: 0, y_max: 0, count: 0, peak: 0 }; total];
    let mut j: usize = 0;
    while j < spots.len()
        invariant
            cell > 0,
            j <= spots.len(),
            gw == cells_over(w as int, cell as int),
            gh == cells_over(h as int, cell as int),
            gw * gh <= usize::MAX,
            inside(spots@, w as int, h as int),
            labels == comps.labels@,
            labels.len() == gw * gh,
            total == comps.firsts.len(),
            forall|c: int| 0 <= c < gw * gh ==> #[trigger] labels[c] <= total,
            r.len() == total,
            forall|l: int|
                0 <= l < total ==> #[trigger] r@[l] == gathered(
                    spots@,
                    labels,
                    cell as int,
                    gw as int,
                    l + 1,
                    j as nat,
                ),
        decreases spots.len() - j,
    {
        let s: Spot = spots[j];
        let c: usize = cell_index(s, cell, w, h, gw, gh);
        let label: usize = comps.labels[c];
        if label > 0 {
            let old: Cluster = r[label - 1];
            proof {
                lemma_gathered_count(
                    spots@,
                    labels,
                    cell as int,
                    gw as int,
                    label as int,
                    j as nat,
                );
            }
            let new = Cluster {
                x_min: if s.x < old.x_min {
                    s.x
                } else {
                    old.x_min
                },
                y_min: if s.y < old.y_min {
                    s.y
                } else {
                    old.y_min
                },
                x_max: if s.x > old.x_max {
                    s.x
                } else {
                    old.x_max
                },
                y_max: if s.y > old.y_max {
                    s.y
                } else {
                    old.y_max
                },
                count: old.count + 1,
                peak: if s.score > old.peak {
                    s.score
                } else {
                    old.peak
                },
            };
            r.set(label - 1, new);
        }
        j += 1;
    }
    proof {
        assert(r@ =~= clusters_of(spots@, cell as int, w as int, h as int, positive));
        assert forall|a: int, b: int|
            #![trigger spots@[a], spots@[b]]
            0 <= a < spots.len() && 0 <= b < spots.len() && (positive ==> spots@[a].score > 0
                && spots@[b].score > 0) && -1 <= spots@[a].x as int / cell as int - spots@[b].x as int
                / cell as int <= 1 && -1 <= spots@[a].y as int / cell as int - spots@[b].y as int
                / cell as int <= 1 implies exists|l: int|
            0 <= l < r.len() && holds(#[trigger] r@[l], spots@[a]) && holds(r@[l], spots@[b]) by {
            let (z, g) = (cell as int, gw as int);
            let ca = cell_of(spots@[a], z, g);
            let cb = cell_of(spots@[b], z, g);
            lemma_spot_cell(spots@[a], z, w as int, h as int);
            lemma_spot_cell(spots@[b], z, w as int, h as int);
            lemma_cell(g, gh as int, spots@[a].x as int / z, spots@[a].y as int / z);
            lemma_cell(g, gh as int, spots@[b].x as int / z, spots@[b].y as int / z);
            assert(marks(spots@[a], z, g, positive, ca));
            assert(marks(spots@[b], z, g, positive, cb));
            assert(on@[ca] && on@[cb]);
            assert(labels[ca] == labels[cb]) by {
                if ca != cb {
                    assert(adjacent(g, gh as int, true, ca, cb));
                }
            }
            let l = labels[ca] - 1;
            law_cluster_holds_positions(spots@, labels, z, g, l + 1, spots@.len(), a);
            law_cluster_holds_positions(spots@, labels, z, g, l + 1, spots@.len(), b);
            assert(holds(r@[l], spots@[a]));
        }
        assert forall|l: int| 0 <= l < r.len() implies (#[trigger] r@[l]).count >= 1 && r@[l].x_min
            <= r@[l].x_max < w && r@[l].y_min <= r@[l].y_max < h by {
            assert(crate::components::numbering(
                on@,
                gw as int,
                gh as int,
                true,
                (comps.labels@, comps.firsts@),
            ));
            lemma_clusters_inside(spots@, cell as int, w as int, h as int, positive, l);
        }
    }
    r
}

/// Ordering keys that put higher peaks first.
pub open spec fn peak_keys(c: Seq<Cluster>) -> Seq<u128> {
    Seq::new(c.len(), |i: int| (i64::MAX - c[i].peak) as u128)
}

/// Ordering keys that put larger clusters first.
pub open spec fn size_keys(c: Seq<Cluster>) -> Seq<u128> {
    Seq::new(c.len(), |i: int| (usize::MAX - c[i].count) as u128)
}

/// Clusters in the order that keys give them.
pub open spec fn arranged(c: Seq<Cluster>, keys: Seq<u128>) -> Seq<Cluster> {
    Seq::new(c.len(), |i: int| c[order_of(keys)[i] as int])
}

/// Clusters arranged by size come largest first.
pub proof fn law_largest_first(c: Seq<Cluster>, i: int, j: int)
    requires
        c.len() <= usize::MAX,
        0 <= i <= j < c.len(),
    ensures
        arranged(c, size_keys(c))[i].count >= arranged(c, size_keys(c))[j].count,
{
    let keys = size_keys(c);
    law_order_exists(keys);
    let o = order_of(keys);
    if i < j {
        assert(before(keys, o[i] as int, o[j] as int));
    }
}

fn arrange(c: &Vec<Cluster>, keys: &Vec<u128>) -> (r: Vec<Cluster>)
    requires
        keys.len() == c.len(),
    ensures
        r@ == arranged(c@, keys@),
        forall|i: int| 0 <= i < r.len() ==> c@.contains(#[trigger] r@[i]),
{
    let order = stable_order(keys);
    let mut r: Vec<Cluster> = Vec::new();
    let mut k: usize = 0;
    while k < order.len()
        invariant
            k <= order.len(),
            order.len() == c.len(),
            order@ == order_of(keys@),
            forall|j: int| 0 <= j < order.len() ==> #[trigger] order@[j] < c.len(),
            r@ =~= arranged(c@, keys@).take(k as int),
            forall|i: int| 0 <= i < r.len() ==> c@.contains(#[trigger] r@[i]),
        decreases order.len() - k,
    {
        r.push(c[order[k]]);
        k += 1;
    }
    proof {
        assert(r@ =~= arranged(c@, keys@));
    }
    r
}

/// Orders clusters by falling peak.
pub fn by_peak(c: &Vec<Cluster>) -> (r: Vec<Cluster>)
    ensures
        r@ == arranged(c@, peak_keys(c@)),
        forall|i: int| 0 <= i < r.len() ==> c@.contains(#[trigger] r@[i]),
{
    let mut keys: Vec<u128> = Vec::new();
    let mut i: usize = 0;
    while i < c.len()
        invariant
            i <= c.len(),
            keys@ =~= peak_keys(c@).take(i as int),
        decreases c.len() - i,
    {
        keys.push((i64::MAX as i128 - c[i].peak as i128) as u128);
        i += 1;
    }
    proof {
        assert(keys@ =~= peak_keys(c@));
    }
    arrange(c, &keys)
}

/// Orders clusters by falling size.
pub fn by_size(c: &Vec<Cluster>) -> (r: Vec<Cluster>)
    ensures
        r@ == arranged(c@, size_keys(c@)),
        forall|i: int| 0 <= i < r.len() ==> c@.contains(#[trigger] r@[i]),
{
    let mut keys: Vec<u128> = Vec::new();
    let mut i: usize = 0;
    while i < c.len()
        invariant
            i <= c.len(),
            keys@ =~= size_keys(c@).take(i as int),
        decreases c.len() - i,
    {
        keys.push((usize::MAX - c[i].count) as u128);
        i += 1;
    }
    proof {
        assert(keys@ =~= size_keys(c@));
    }
    arrange(c, &keys)
}

/// The clusters among the first `n` with at least `least` positions.
pub open spec fn sizable(c: Seq<Cluster>, least: int, n: nat) -> Seq<Cluster>
    decreases n,
{
    if n == 0 {
        Seq::empty()
    } else if c[n - 1].count >= least {
        sizable(c, least, (n - 1) as nat).push(c[n - 1])
    } else {
        sizable(c, least, (n - 1) as nat)
    }
}

/// Keeps the clusters with at least `least` positions.
pub fn keep_sizable(c: &Vec<Cluster>, least: usize) -> (r: Vec<Cluster>)
    ensures
        r@ == sizable(c@, least as int, c@.len()),
        forall|i: int| 0 <= i < r.len() ==> c@.contains(#[trigger] r@[i]) && r@[i].count >= least,
{
    let mut r: Vec<Cluster> = Vec::new();
    let mut i: usize = 0;
    while i < c.len()
        invariant
            i <= c.len(),
            r@ == sizable(c@, least as int, i as nat),
            forall|j: int|
                0 <= j < r.len() ==> c@.contains(#[trigger] r@[j]) && r@[j].count >= least,
        decreases c.len() - i,
    {
        if c[i].count >= least {
            proof {
                assert(c@.contains(c@[i as int]));
            }
            r.push(c[i]);
        }
        i += 1;
    }
    r
}

/// A position lies in the box of a cluster.
pub open spec fn holds(c: Cluster, s: Spot) -> bool {
    c.x_min <= s.x <= c.x_max && c.y_min <= s.y <= c.y_max
}

/// A cluster counts its positions, and its box and its peak are theirs: every position with
/// its label lies in the box and scores no more than the peak.
pub proof fn law_cluster_holds_positions(
    spots: Seq<Spot>,
    labels: Seq<usize>,
    cell: int,
    gw: int,
    l: int,
    n: nat,
    k: int,
)
    requires
        0 <= k < n <= spots.len() <= usize::MAX,
        labels[cell_of(spots[k], cell, gw)] == l,
    ensures
        holds(gathered(spots, labels, cell, gw, l, n), spots[k]),
        spots[k].score <= gathered(spots, labels, cell, gw, l, n).peak,
    decreases n,
{
    if k < n - 1 {
        law_cluster_holds_positions(spots, labels, cell, gw, l, (n - 1) as nat, k);
    }
}

/// A cluster counts the positions with its label.
pub proof fn law_cluster_counts_positions(
    spots: Seq<Spot>,
    labels: Seq<usize>,
    cell: int,
    gw: int,
    l: int,
    n: nat,
)
    requires
        n <= spots.len() <= usize::MAX,
    ensures
        gathered(spots, labels, cell, gw, l, n).count == how_many(
            n,
            |i: int| labels[(spots[i].y as int / cell) * gw + spots[i].x as int / cell] == l,
        ),
    decreases n,
{
    let p = |i: int| labels[(spots[i].y as int / cell) * gw + spots[i].x as int / cell] == l;
    lemma_which(0, p);
    lemma_which_are(n, p);
    if n > 0 {
        law_cluster_counts_positions(spots, labels, cell, gw, l, (n - 1) as nat);
        lemma_which((n - 1) as nat, p);
    }
}

/// Every side of the box of a cluster is touched by one of its positions.
pub proof fn law_cluster_box_touched(
    spots: Seq<Spot>,
    labels: Seq<usize>,
    cell: int,
    gw: int,
    l: int,
    n: nat,
)
    requires
        n <= spots.len() <= usize::MAX,
        gathered(spots, labels, cell, gw, l, n).count > 0,
    ensures
        exists|k: int|
            0 <= k < n && (#[trigger] spots[k]).x == gathered(spots, labels, cell, gw, l, n).x_min,
        exists|k: int|
            0 <= k < n && (#[trigger] spots[k]).x == gathered(spots, labels, cell, gw, l, n).x_max,
        exists|k: int|
            0 <= k < n && (#[trigger] spots[k]).y == gathered(spots, labels, cell, gw, l, n).y_min,
        exists|k: int|
            0 <= k < n && (#[trigger] spots[k]).y == gathered(spots, labels, cell, gw, l, n).y_max,
    decreases n,
{
    if n > 0 {
        let m = (n - 1) as nat;
        let c = gathered(spots, labels, cell, gw, l, m);
        let d = gathered(spots, labels, cell, gw, l, n);
        law_cluster_counts_positions(spots, labels, cell, gw, l, m);
        lemma_which_are(
            m,
            |i: int| labels[(spots[i].y as int / cell) * gw + spots[i].x as int / cell] == l,
        );
        let s = spots[n - 1];
        if c.count > 0 {
            law_cluster_box_touched(spots, labels, cell, gw, l, m);
            let p = choose|k: int| 0 <= k < m && (#[trigger] spots[k]).x == c.x_min;
            let q = choose|k: int| 0 <= k < m && (#[trigger] spots[k]).x == c.x_max;
            let r = choose|k: int| 0 <= k < m && (#[trigger] spots[k]).y == c.y_min;
            let t = choose|k: int| 0 <= k < m && (#[trigger] spots[k]).y == c.y_max;
            assert(s.x == d.x_min || spots[p].x == d.x_min);
            assert(s.x == d.x_max || spots[q].x == d.x_max);
            assert(s.y == d.y_min || spots[r].y == d.y_min);
            assert(s.y == d.y_max || spots[t].y == d.y_max);
        } else {
            lemma_none_gathered(spots, labels, cell, gw, l, m);
            assert(s.x == d.x_min && s.x == d.x_max && s.y == d.y_min && s.y == d.y_max);
        }
    }
}

proof fn lemma_none_gathered(
    spots: Seq<Spot>,
    labels: Seq<usize>,
    cell: int,
    gw: int,
    l: int,
    n: nat,
)
    requires
        n <= spots.len() <= usize::MAX,
        gathered(spots, labels, cell, gw, l, n).count == 0,
    ensures
        gathered(spots, labels, cell, gw, l, n) == no_cluster(),
    decreases n,
{
    if n > 0 {
        law_cluster_counts_positions(spots, labels, cell, gw, l, (n - 1) as nat);
        lemma_which_are(
            (n - 1) as nat,
            |i: int| labels[(spots[i].y as int / cell) * gw + spots[i].x as int / cell] == l,
        );
        lemma_none_gathered(spots, labels, cell, gw, l, (n - 1) as nat);
    }
}

/// Clusters arranged by their peaks come highest first.
pub proof fn law_highest_first(c: Seq<Cluster>, i: int, j: int)
    requires
        c.len() <= usize::MAX,
        0 <= i <= j < c.len(),
        forall|k: int| 0 <= k < c.len() ==> (#[trigger] c[k]).peak >= 0,
    ensures
        arranged(c, peak_keys(c))[i].peak >= arranged(c, peak_keys(c))[j].peak,
{
    let keys = peak_keys(c);
    law_order_exists(keys);
    let o = order_of(keys);
    if i < j {
        assert(before(keys, o[i] as int, o[j] as int));
        assert(c[o[i] as int].peak >= 0 && c[o[j] as int].peak >= 0);
    }
}

/// Arranging clusters loses none of them.
pub proof fn law_arranging_keeps_all(c: Seq<Cluster>, keys: Seq<u128>, i: int)
    requires
        keys.len() == c.len() <= usize::MAX,
        0 <= i < c.len(),
    ensures
        arranged(c, keys).len() == c.len(),
        arranged(c, keys).contains(c[i]),
        c.contains(arranged(c, keys)[i]),
{
    law_order_exists(keys);
    let o = order_of(keys);
    assert(o.contains(i as usize));
    let k = o.index_of(i as usize);
    assert(arranged(c, keys)[k] == c[i]);
    assert(arranged(c, keys)[i] == c[o[i] as int]);
}

/// The clusters that are kept are those with enough positions.
pub proof fn law_sizable(c: Seq<Cluster>, least: int, n: nat)
    requires
        n <= c.len(),
    ensures
        sizable(c, least, n) == which(n, |i: int| !(c[i].count < least)).map_values(|i: int| c[i]),
    decreases n,
{
    let p = |i: int| !(c[i].count < least);
    let f = |i: int| c[i];
    lemma_which(0, p);
    if n > 0 {
        let m = (n - 1) as nat;
        law_sizable(c, least, m);
        lemma_which(m, p);
        assert(which(n, p).map_values(f) =~= if p(m as int) {
            which(m, p).map_values(f).push(f(m as int))
        } else {
            which(m, p).map_values(f)
        });
    } else {
        assert(which(0, p).map_values(f) =~= Seq::<Cluster>::empty());
    }
}

/// A cell is marked where a spot lies in it, one above zero where only those count.
pub proof fn law_marked_cells(s: Seq<Spot>, cell: int, gw: int, gh: int, positive: bool, k: int)
    requires
        0 <= k < s.len(),
        0 <= cell_of(s[k], cell, gw) < gw * gh,
    ensures
        marked(s, cell, gw, gh, positive).len() == gw * gh,
        marked(s, cell, gw, gh, false)[cell_of(s[k], cell, gw)],
        s[k].score > 0 ==> marked(s, cell, gw, gh, true)[cell_of(s[k], cell, gw)],
        (forall|j: int| 0 <= j < s.len() ==> (#[trigger] s[j]).score <= 0) ==> !marked(
            s,
            cell,
            gw,
            gh,
            true,
        )[cell_of(s[k], cell, gw)],
{
    let c = cell_of(s[k], cell, gw);
    assert(marks(s[k], cell, gw, false, c));
    if s[k].score > 0 {
        assert(marks(s[k], cell, gw, true, c));
    }
}

} // verus!
