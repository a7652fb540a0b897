//! Matching of blocks by their features: where the blocks are, which pairs of them are
//! compared, and which pairs match.
//!
//! Blocks are put in the lexicographic order of their features, given as keys; each block is
//! compared with the next few. The distances of features are computed in floating point by
//! the caller.

use crate::order::before;
use crate::order::is_order;
use crate::order::stable_order;
use crate::pixel::copy_move::CopyMoveDetector;
use crate::pixel::copy_move::Match;
use crate::select::lemma_which;
use crate::select::which;
use vstd::prelude::*;

verus! {

/// How many of the next blocks a block is compared with.
pub const WINDOW: usize = 6;

/// The centre of a block.
#[derive(Debug, Clone, Copy, PartialEq, Eq, Structural)]
pub struct Center {
    pub x: u32,
    pub y: u32,
}

/// How many centres there are from `from` to `to` in steps of `stride`.
pub open spec fn steps(from: int, to: int, stride: int) -> int {
    if to > from {
        (to - from + stride - 1) / stride
    } else {
        0
    }
}

/// The centres of the blocks of an image, row by row: at least `r` from its sides.
pub open spec fn centers_of(w: int, h: int, r: int, stride: int) -> Seq<Center> {
    let across = steps(r, w - r, stride);
    let down = steps(r, h - r, stride);
    Seq::new(
        (across * down) as nat,
        |i: int|
            Center {
                x: (r + (i % across) * stride) as u32,
                y: (r + (i / across) * stride) as u32,
            },
    )
}

/// The features of one block come before those of another, from feature `k` on.
pub open spec fn lex_less(a: Seq<i64>, b: Seq<i64>, k: int, n: int) -> bool
    decreases n - k,
{
    k < n && (a[k] < b[k] || (a[k] == b[k] && lex_less(a, b, k + 1, n)))
}

/// The features of two blocks are the same from feature `k` on.
pub open spec fn lex_same(a: Seq<i64>, b: Seq<i64>, k: int, n: int) -> bool {
    forall|j: int| k <= j < n ==> #[trigger] a[j] == b[j]
}

/// Block `a` comes before block `b`: its features do, from feature `k` on, or they are the
/// same and it is the earlier one.
pub open spec fn ahead_of(f: Seq<Vec<i64>>, a: int, b: int, k: int, n: int) -> bool {
    lex_less(f[a]@, f[b]@, k, n) || (lex_same(f[a]@, f[b]@, k, n) && a < b)
}

/// An order of all blocks by their features from feature `k` on.
pub open spec fn lex_order(f: Seq<Vec<i64>>, order: Seq<usize>, k: int, n: int) -> bool {
    &&& order.len() == f.len()
    &&& forall|i: int| 0 <= i < order.len() ==> #[trigger] order[i] < f.len()
    &&& order.no_duplicates()
    &&& forall|i: int, j: int|
        0 <= i < j < order.len() ==> ahead_of(
            f,
            #[trigger] order[i] as int,
            #[trigger] order[j] as int,
            k,
            n,
        )
}

/// Whether all blocks have `n` features.
pub open spec fn uniform(f: Seq<Vec<i64>>, n: int) -> bool {
    forall|i: int| 0 <= i < f.len() ==> (#[trigger] f[i])@.len() == n
}

/// Puts an order of blocks into the order of one more feature before it.
fn refine(f: &Vec<Vec<i64>>, order: &Vec<usize>, k: usize, n: usize) -> (r: Vec<usize>)
    requires
        uniform(f@, n as int),
        k < n,
        lex_order(f@, order@, k + 1, n as int),
    ensures
        lex_order(f@, r@, k as int, n as int),
{
    let mut keys: Vec<u128> = Vec::new();
    let mut i: usize = 0;
    while i < order.len()
        invariant
            i <= order@.len(),
            uniform(f@, n as int),
            k < n,
            lex_order(f@, order@, k + 1, n as int),
            keys@.len() == i,
            forall|j: int|
                0 <= j < i ==> #[trigger] keys@[j] == f@[order@[j] as int]@[k as int] - i64::MIN,
        decreases order@.len() - i,
    {
        let b: usize = order[i];
        assert(f@[b as int]@.len() == n);
        keys.push((f[b][k] as i128 - i64::MIN as i128) as u128);
        i += 1;
    }
    let by = stable_order(&keys);
    let mut r: Vec<usize> = Vec::new();
    let mut j: usize = 0;
    while j < by.len()
        invariant
            j <= by@.len(),
            is_order(keys@, by@),
            keys@.len() == order@.len(),
            lex_order(f@, order@, k + 1, n as int),
            r@.len() == j,
            forall|q: int| 0 <= q < j ==> #[trigger] r@[q] == order@[by@[q] as int],
        decreases by@.len() - j,
    {
        assert(by@[j as int] < keys@.len());
        r.push(order[by[j]]);
        j += 1;
    }
    proof {
        assert forall|p: int, q: int| 0 <= p < q < r@.len() implies ahead_of(
            f@,
            #[trigger] r@[p] as int,
            #[trigger] r@[q] as int,
            k as int,
            n as int,
        ) by {
            let x = by@[p] as int;
            let y = by@[q] as int;
            assert(before(keys@, x, y));
            let a = order@[x] as int;
            let b = order@[y] as int;
            assert(keys@[x] == f@[a]@[k as int] - i64::MIN);
            assert(keys@[y] == f@[b]@[k as int] - i64::MIN);
            if keys@[x] == keys@[y] {
                assert(x < y);
                assert(ahead_of(f@, a, b, k + 1, n as int));
                if lex_same(f@[a]@, f@[b]@, k + 1, n as int) {
                    assert(lex_same(f@[a]@, f@[b]@, k as int, n as int));
                }
            }
        }
        assert forall|q: int| 0 <= q < r@.len() implies #[trigger] r@[q] < f@.len() by {
            assert(by@[q] < keys@.len());
        }
        assert(r@.no_duplicates()) by {
            assert forall|p: int, q: int| 0 <= p < r@.len() && 0 <= q < r@.len() && p != q implies r@[p]
                != r@[q] by {
                let x = by@[p] as int;
                let y = by@[q] as int;
                if p < q {
                    assert(before(keys@, x, y));
                } else {
                    assert(before(keys@, y, x));
                }
                assert(x != y);
            }
        }
    }
    r
}

/// The lexicographic order of blocks by their features, earlier blocks first among equals.
pub fn feature_order(f: &Vec<Vec<i64>>, n: usize) -> (r: Vec<usize>)
    requires
        uniform(f@, n as int),
    ensures
        lex_order(f@, r@, 0, n as int),
{
    let mut r: Vec<usize> = Vec::new();
    let mut i: usize = 0;
    while i < f.len()
        invariant
            i <= f@.len(),
            r@.len() == i,
            forall|j: int| 0 <= j < i ==> #[trigger] r@[j] == j,
        decreases f@.len() - i,
    {
        r.push(i);
        i += 1;
    }
    assert(lex_order(f@, r@, n as int, n as int));
    let mut k: usize = n;
    while k > 0
        invariant
            k <= n,
            uniform(f@, n as int),
            lex_order(f@, r@, k as int, n as int),
        decreases k,
    {
        k -= 1;
        r = refine(f, &r, k, n);
    }
    r
}

/// The square of the distance of two centres.
pub open spec fn centers_apart(a: Center, b: Center) -> int {
    (a.x - b.x) * (a.x - b.x) + (a.y - b.y) * (a.y - b.y)
}

/// The pairs that block number `i` of the order makes with the next `n` blocks.
pub open spec fn pairs_at(c: Seq<Center>, order: Seq<usize>, least: int, i: int, n: nat) -> Seq<
    (usize, usize),
>
    decreases n,
{
    if n == 0 {
        seq![]
    } else {
        let before = pairs_at(c, order, least, i, (n - 1) as nat);
        if i + n < order.len() && centers_apart(c[order[i] as int], c[order[i + n] as int])
            >= least {
            before.push((order[i], order[i + n]))
        } else {
            before
        }
    }
}

/// The pairs that the first `n` blocks of the order make.
pub open spec fn pairs(c: Seq<Center>, order: Seq<usize>, least: int, n: nat) -> Seq<(usize, usize)>
    decreases n,
{
    if n == 0 {
        seq![]
    } else {
        pairs(c, order, least, (n - 1) as nat) + pairs_at(
            c,
            order,
            least,
            n - 1,
            WINDOW as nat,
        )
    }
}

/// The pairs among the first `n` whose distance is below a threshold, as matches.
pub open spec fn matched(
    c: Seq<Center>,
    p: Seq<(usize, usize)>,
    distances: Seq<i64>,
    threshold: i64,
    n: nat,
) -> Seq<Match>
    decreases n,
{
    if n == 0 {
        seq![]
    } else {
        let before = matched(c, p, distances, threshold, (n - 1) as nat);
        let a = c[p[n - 1].0 as int];
        let b = c[p[n - 1].1 as int];
        if distances[n - 1] < threshold {
            before.push(Match { x1: a.x, y1: a.y, x2: b.x, y2: b.y })
        } else {
            before
        }
    }
}

impl CopyMoveDetector {
    /// The pairs of blocks that are compared: each block with those of the next few in the
    /// order that are far enough from it.
    pub fn candidate_pairs(&self, c: &Vec<Center>, order: &Vec<usize>) -> (r: Vec<(usize, usize)>)
        requires
            self.block_radius <= 0x1000_0000,
            forall|i: int| 0 <= i < order@.len() ==> #[trigger] order@[i] < c@.len(),
        ensures
            r@ == pairs(
                c@,
                order@,
                (self.block_radius * 3) * (self.block_radius * 3),
                order@.len(),
            ),
            forall|i: int|
                0 <= i < r@.len() ==> (#[trigger] r@[i]).0 < c@.len() && r@[i].1 < c@.len(),
    {
        let ghost least = (self.block_radius * 3) * (self.block_radius * 3);
        let mut r: Vec<(usize, usize)> = Vec::new();
        let mut i: usize = 0;
        while i < order.len()
            invariant
                i <= order@.len(),
                self.block_radius <= 0x1000_0000,
                least == (self.block_radius * 3) * (self.block_radius * 3),
                forall|j: int| 0 <= j < order@.len() ==> #[trigger] order@[j] < c@.len(),
                r@ == pairs(c@, order@, least, i as nat),
                forall|j: int|
                    0 <= j < r@.len() ==> (#[trigger] r@[j]).0 < c@.len() && r@[j].1 < c@.len(),
            decreases order@.len() - i,
        {
            let ghost start = r@;
            let mut j: usize = 0;
            assert(r@ =~= start + pairs_at(c@, order@, least, i as int, 0));
            while j < WINDOW
                invariant
                    j <= WINDOW,
                    i < order@.len(),
                    self.block_radius <= 0x1000_0000,
                    least == (self.block_radius * 3) * (self.block_radius * 3),
                    forall|q: int| 0 <= q < order@.len() ==> #[trigger] order@[q] < c@.len(),
                    r@ == start + pairs_at(c@, order@, least, i as int, j as nat),
                    forall|q: int|
                        0 <= q < r@.len() ==> (#[trigger] r@[q]).0 < c@.len() && r@[q].1 < c@.len(),
                decreases WINDOW - j,
            {
                if j + 1 < order.len() - i {
                    let a: usize = order[i];
                    let b: usize = order[i + j + 1];
                    if self.far_apart(c[a].x, c[a].y, c[b].x, c[b].y) {
                        r.push((a, b));
                    }
                }
                j += 1;
                assert(r@ =~= start + pairs_at(c@, order@, least, i as int, j as nat));
            }
            i += 1;
        }
        r
    }

    /// The pairs that match: those whose distance, a key, is below the threshold.
    pub fn select_matches(
        &self,
        c: &Vec<Center>,
        p: &Vec<(usize, usize)>,
        distances: &Vec<i64>,
    ) -> (r: Vec<Match>)
        requires
            distances@.len() == p@.len(),
            forall|i: int|
                0 <= i < p@.len() ==> (#[trigger] p@[i]).0 < c@.len() && p@[i].1 < c@.len(),
        ensures
            r@ == matched(c@, p@, distances@, self.similarity_threshold, p@.len()),
    {
        let mut r: Vec<Match> = Vec::new();
        let mut i: usize = 0;
        while i < p.len()
            invariant
                i <= p@.len(),
                distances@.len() == p@.len(),
                forall|j: int|
                    0 <= j < p@.len() ==> (#[trigger] p@[j]).0 < c@.len() && p@[j].1 < c@.len(),
                r@ == matched(c@, p@, distances@, self.similarity_threshold, i as nat),
            decreases p@.len() - i,
        {
            let pair = p[i];
            assert(p@[i as int].0 < c@.len());
            if distances[i] < self.similarity_threshold {
                let a = c[pair.0];
                let b = c[pair.1];
                r.push(Match { x1: a.x, y1: a.y, x2: b.x, y2: b.y });
            }
            i += 1;
        }
        r
    }

    /// The centres of the blocks of an image, row by row.
    pub fn block_centers(&self, w: u32, h: u32) -> (r: Vec<Center>)
        requires
            0 < self.stride <= 0x1000_0000,
            self.block_radius <= 0x1000_0000,
        ensures
            r@ == centers_of(
                w as int,
                h as int,
                self.block_radius as int,
                self.stride as int,
            ),
    {
        let mut r: Vec<Center> = Vec::new();
        let s: u64 = self.stride as u64;
        let b: u64 = self.block_radius as u64;
        let ghost across = steps(b as int, w - b, s as int);
        let ghost down = steps(b as int, h - b, s as int);
        let right: u64 = if w as u64 > b {
            w as u64 - b
        } else {
            0
        };
        let low: u64 = if h as u64 > b {
            h as u64 - b
        } else {
            0
        };
        let columns: u64 = if right > b {
            (right - b + s - 1) / s
        } else {
            0
        };
        let rows: u64 = if low > b {
            (low - b + s - 1) / s
        } else {
            0
        };
        assert(columns == across && rows == down);
        let ghost all = centers_of(w as int, h as int, b as int, s as int);
        let mut j: u64 = 0;
        proof {
            assert(0 * across == 0) by (nonlinear_arith);
            assert(r@ =~= all.take(0));
            assert(across * down >= 0) by (nonlinear_arith)
                requires
                    across >= 0,
                    down >= 0,
            ;
        }
        while j < rows
            invariant
                j <= rows,
                0 < s <= 0x1000_0000,
                b <= 0x1000_0000,
                columns == across,
                rows == down,
                across == steps(b as int, w - b, s as int),
                down == steps(b as int, h - b, s as int),
                all == centers_of(w as int, h as int, b as int, s as int),
                all.len() == across * down,
                r@ == all.take(j * across),
                r@.len() == j * across,
            decreases rows - j,
        {
            let mut i: u64 = 0;
            while i < columns
                invariant
                    i <= columns,
                    j < rows,
                    0 < s <= 0x1000_0000,
                    b <= 0x1000_0000,
                    columns == across,
                    rows == down,
                    across == steps(b as int, w - b, s as int),
                    down == steps(b as int, h - b, s as int),
                    all == centers_of(w as int, h as int, b as int, s as int),
                    all.len() == across * down,
                    r@ == all.take(j * across + i),
                    r@.len() == j * across + i,
                decreases columns - i,
            {
                proof {
                    lemma_step_inside(b as int, w - b, s as int, i as int);
                    lemma_step_inside(b as int, h - b, s as int, j as int);
                    crate::components::lemma_cell(across, down, i as int, j as int);
                }
                let c = Center { x: (b + i * s) as u32, y: (b + j * s) as u32 };
                r.push(c);
                assert(c == all[j * across + i]);
                i += 1;
                assert(r@ =~= all.take(j * across + i));
            }
            assert((j + 1) * across == j * across + across) by (nonlinear_arith);
            j += 1;
        }
        assert(rows * across == across * down) by (nonlinear_arith)
            requires
                rows == down,
        ;
        assert(all.take(across * down) =~= all);
        r
    }
}

proof fn lemma_step_inside(from: int, to: int, stride: int, i: int)
    requires
        0 <= from,
        0 < stride,
        0 <= i < steps(from, to, stride),
    ensures
        0 <= i * stride,
        from + i * stride < to,
{
    let n = (to - from + stride - 1) / stride;
    assert(n * stride <= to - from + stride - 1) by (nonlinear_arith)
        requires
            n == (to - from + stride - 1) / stride,
            stride > 0,
    ;
    assert(i * stride <= (n - 1) * stride) by (nonlinear_arith)
        requires
            i <= n - 1,
            stride > 0,
    ;
    assert((n - 1) * stride == n * stride - stride) by (nonlinear_arith);
    assert(0 <= i * stride) by (nonlinear_arith)
        requires
            0 <= i,
            0 < stride,
    ;
}

/// A pair is a match where the distance of its features is below the threshold; it holds
/// the centres of its first and of its second block.
pub proof fn law_matches_are_close(c: Seq<Center>, p0: Seq<(usize, usize)>, distances: Seq<i64>, threshold: i64, n: nat)
    requires
        n <= p0.len(),
    ensures
        matched(c, p0, distances, threshold, n) == which(n, |i: int| !(distances[i] >= threshold)).map_values(|i: int| (Match { x1: c[p0[i].0 as int].x, y1: c[p0[i].0 as int].y, x2: c[p0[i].1 as int].x, y2: c[p0[i].1 as int].y })),
    decreases n,
{
    let p = |i: int| !(distances[i] >= threshold);
    let f = |i: int| (Match { x1: c[p0[i].0 as int].x, y1: c[p0[i].0 as int].y, x2: c[p0[i].1 as int].x, y2: c[p0[i].1 as int].y });
    lemma_which(0, p);
    if n > 0 {
        let lower = (n - 1) as nat;
        law_matches_are_close(c, p0, distances, threshold, lower);
        lemma_which(lower, p);
        assert(which(n, p).map_values(f) =~= if p(lower as int) {
            which(lower, p).map_values(f).push(f(lower as int))
        } else {
            which(lower, p).map_values(f)
        });
    } else {
        assert(which(0, p).map_values(f) =~= Seq::<Match>::empty());
    }
}

/// A block is paired with those among the next six in the order whose centres lie far enough
/// from its own, whichever of the two comes first.
pub proof fn law_pairs_of_block(
    c: Seq<Center>,
    order: Seq<usize>,
    least: int,
    i: int,
    n: nat,
)
    ensures
        pairs_at(c, order, least, i, n) == which(
            n,
            |k: int| i + k + 1 < order.len() && !(centers_apart(
                c[order[i + k + 1] as int],
                c[order[i] as int],
            ) < least),
        ).map_values(|k: int| (order[i], order[i + k + 1])),
    decreases n,
{
    let p = |k: int|
        i + k + 1 < order.len() && !(centers_apart(
            c[order[i + k + 1] as int],
            c[order[i] as int],
        ) < least);
    let f = |k: int| (order[i], order[i + k + 1]);
    lemma_which(0, p);
    if n > 0 {
        let lower = (n - 1) as nat;
        law_pairs_of_block(c, order, least, i, lower);
        lemma_which(lower, p);
        law_centers_apart_symmetric(c[order[i + n] as int], c[order[i] as int]);
        assert(which(n, p).map_values(f) =~= if p(lower as int) {
            which(lower, p).map_values(f).push(f(lower as int))
        } else {
            which(lower, p).map_values(f)
        });
    } else {
        assert(which(0, p).map_values(f) =~= Seq::<(usize, usize)>::empty());
    }
}

/// The distance of two centres does not depend on their order, is none only of a centre from
/// itself, and is that along a row or a column where they share it.
pub proof fn law_centers_apart_symmetric(a: Center, b: Center)
    ensures
        centers_apart(a, b) == centers_apart(b, a),
        centers_apart(a, b) == 0 <==> a == b,
        a.x == b.x ==> centers_apart(a, b) == (b.y - a.y) * (b.y - a.y),
        a.y == b.y ==> centers_apart(a, b) == (b.x - a.x) * (b.x - a.x),
{
    let (u, v) = (a.x - b.x, a.y - b.y);
    assert((-u) * (-u) == u * u && (-v) * (-v) == v * v && u * u >= 0 && v * v >= 0) by (
    nonlinear_arith);
    assert((u * u == 0) == (u == 0)) by (nonlinear_arith);
    assert((v * v == 0) == (v == 0)) by (nonlinear_arith);
    assert(b.x - a.x == -u && b.y - a.y == -v);
}

/// All blocks of the order are paired, each with the six that follow.
pub proof fn law_every_block_is_paired(
    c: Seq<Center>,
    order: Seq<usize>,
    least: int,
    n: nat,
    i: int,
    k: int,
)
    requires
        0 <= i < n,
        0 <= k < pairs_at(c, order, least, i, 6).len(),
    ensures
        pairs(c, order, least, n).contains(pairs_at(c, order, least, i, 6)[k]),
    decreases n,
{
    let x = pairs_at(c, order, least, i, 6)[k];
    let before = pairs(c, order, least, (n - 1) as nat);
    let all = pairs(c, order, least, n);
    if i < n - 1 {
        law_every_block_is_paired(c, order, least, (n - 1) as nat, i, k);
        let j = before.index_of(x);
        assert(all[j] == x);
    } else {
        assert(all[before.len() + k] == x);
    }
}

/// Every centre keeps the radius from all four sides of the image, and lies on the lattice of
/// the stride.
pub proof fn law_centers_inside(w: int, h: int, r: int, stride: int, i: int)
    requires
        0 <= r,
        0 < stride,
        0 <= w <= u32::MAX,
        0 <= h <= u32::MAX,
        0 <= i < centers_of(w, h, r, stride).len(),
    ensures
        ({
            let c = centers_of(w, h, r, stride)[i];
            &&& r <= c.x < w - r && r <= c.y < h - r
            &&& (c.x - r) % stride == 0 && (c.y - r) % stride == 0
        }),
{
    let across = steps(r, w - r, stride);
    let down = steps(r, h - r, stride);
    lemma_lattice_steps(r, w - r, stride);
    lemma_lattice_steps(r, h - r, stride);
    assert(across > 0 && down > 0) by (nonlinear_arith)
        requires
            across * down > 0,
            across >= 0,
            down >= 0,
    ;
    crate::components::lemma_cell_coords(across, down, i);
    lemma_lattice_inside(r, w - r, stride, i % across);
    lemma_lattice_inside(r, h - r, stride, i / across);
}

proof fn lemma_lattice_steps(from: int, to: int, stride: int)
    by (nonlinear_arith)
    requires
        0 < stride,
    ensures
        to > from ==> (to - from + stride - 1) / stride >= 1,
{
}

proof fn lemma_lattice_inside(from: int, to: int, stride: int, k: int)
    requires
        0 < stride,
        from < to,
        0 <= k < steps(from, to, stride),
    ensures
        from <= from + k * stride < to,
        (k * stride) % stride == 0,
{
    let n = (to - from + stride - 1) / stride;
    vstd::arithmetic::div_mod::lemma_fundamental_div_mod(to - from + stride - 1, stride);
    vstd::arithmetic::div_mod::lemma_mod_bound(to - from + stride - 1, stride);
    vstd::arithmetic::div_mod::lemma_mod_multiples_basic(k, stride);
    assert(0 <= k * stride && k * stride < to - from) by (nonlinear_arith)
        requires
            0 <= k <= n - 1,
            stride * n <= to - from + stride - 1,
            stride > 0,
    ;
}

/// The steps from one place to below another: the last lies below it, and one more would not.
pub proof fn law_steps(from: int, to: int, stride: int)
    requires
        stride > 0,
    ensures
        to <= from ==> steps(from, to, stride) == 0,
        to > from ==> steps(from, to, stride) > 0 && from + (steps(from, to, stride) - 1) * stride < to
            && from + steps(from, to, stride) * stride >= to,
{
    if to > from {
        let a = to - from + stride - 1;
        let n = a / stride;
        vstd::arithmetic::div_mod::lemma_fundamental_div_mod(a, stride);
        vstd::arithmetic::div_mod::lemma_mod_bound(a, stride);
        assert(n > 0 && (n - 1) * stride < to - from && n * stride >= to - from)
            by (nonlinear_arith)
            requires
                a == stride * n + a % stride,
                0 <= a % stride < stride,
                a == to - from + stride - 1,
                to > from,
                stride > 0,
        ;
    }
}

/// Features are in order by the first number that differs; of two lists one is before the other
/// unless they are the same.
pub proof fn law_feature_order(a: Seq<i64>, b: Seq<i64>, k: int, n: int)
    requires
        0 <= k <= n,
    ensures
        k < n && a[k] < b[k] ==> lex_less(a, b, k, n),
        k < n && a[k] > b[k] ==> !lex_less(a, b, k, n),
        k < n && a[k] == b[k] ==> lex_less(a, b, k, n) == lex_less(a, b, k + 1, n),
        !lex_less(a, a, k, n),
        !(lex_less(a, b, k, n) && lex_less(b, a, k, n)),
        !lex_less(a, b, k, n) && !lex_less(b, a, k, n) ==> lex_same(a, b, k, n),
        WINDOW == 6,
    decreases n - k,
{
    if k < n {
        law_feature_order(a, b, k + 1, n);
        if !lex_less(a, b, k, n) && !lex_less(b, a, k, n) {
            assert forall|j: int| k <= j < n implies #[trigger] a[j] == b[j] by {
                if j > k {
                    assert(lex_same(a, b, k + 1, n));
                }
            }
        }
    }
}

} // verus!
