//! Depth-of-field consistency.
//!
//! In a real photograph blur varies smoothly with the distance from the focal plane.
//! Composites produce abrupt transitions between neighbouring blocks. The sharpness
//! of a block, the mean gradient magnitude at its edges, is computed in floating
//! point by the caller.

use crate::components::lemma_cell;
use crate::components::lemma_cell_coords;
use crate::finding::plain_finding;
use crate::finding::Finding;
use crate::finding::FindingView;
use crate::finding::Region;
use crate::finding::RegionView;
use crate::finding::Severity;
use crate::number::is_share_above;
use crate::number::is_share_below;
use crate::number::share_above;
use crate::number::share_below;
use crate::select::how_many;
use crate::select::lemma_which;
use crate::select::lemma_which_are;
use crate::select::which;
use crate::share::graded;
use crate::share::graded_of;
use crate::share::percent;
use crate::share::percent_text;
use crate::share::Factor;
use crate::share::MAX_COUNT;
use crate::share::U40;
use crate::share::U75;
use crate::sobel::sobel;
use crate::sobel::squared;
use crate::sobel::squared_magnitude;
use crate::text::decimal;
use crate::text::decimal_text;
use vstd::prelude::*;
use vstd::string::*;

verus! {

/// The depth-of-field analyzer.
pub struct DofConsistencyAnalyzer;

/// The size of a block in pixels.
pub const DOF_BLOCK: usize = 64;

/// Above this relative difference of sharpness a transition is abrupt, as a key: 0.6.
pub const ABRUPT: i64 = 0x3FE3_3333_3333_3333;

/// Above this one it is grave, as a key: 1.0.
pub const GRAVE_JUMP: i64 = 0x3FF0_0000_0000_0000;

/// Inner pixel `k` of a block lies on an edge: a gradient magnitude of thirty or more.
pub open spec fn on_edge(gray: Seq<u8>, w: int, x0: int, y0: int, k: int) -> bool {
    squared_magnitude(gray, w, x0 + 1 + k % 62, y0 + 1 + k / 62) >= 900
}

/// The squared gradient magnitudes of the edge pixels among the first `n` inner pixels of
/// a block.
pub open spec fn edge_squares(gray: Seq<u8>, w: int, x0: int, y0: int, n: nat) -> Seq<u32>
    decreases n,
{
    if n == 0 {
        Seq::empty()
    } else if on_edge(gray, w, x0, y0, n - 1) {
        edge_squares(gray, w, x0, y0, (n - 1) as nat).push(
            squared_magnitude(gray, w, x0 + 1 + (n - 1) % 62, y0 + 1 + (n - 1) / 62) as u32,
        )
    } else {
        edge_squares(gray, w, x0, y0, (n - 1) as nat)
    }
}

/// Two neighbouring blocks.
#[derive(Debug, Clone, Copy, PartialEq, Eq, Structural)]
pub struct Neighbours {
    pub first: usize,
    pub second: usize,
}

/// The pairs of blocks side by side, row by row, `n` of them.
pub open spec fn level_pairs(bx: int, n: nat) -> Seq<Neighbours>
    decreases n,
{
    if n == 0 {
        Seq::empty()
    } else {
        let b = ((n - 1) / (bx - 1)) * bx + (n - 1) % (bx - 1);
        level_pairs(bx, (n - 1) as nat).push(
            Neighbours { first: b as usize, second: (b + 1) as usize },
        )
    }
}

/// The pairs of blocks one above the other, row by row, `n` of them.
pub open spec fn upright_pairs(bx: int, n: nat) -> Seq<Neighbours>
    decreases n,
{
    if n == 0 {
        Seq::empty()
    } else {
        upright_pairs(bx, (n - 1) as nat).push(
            Neighbours { first: (n - 1) as usize, second: (n - 1 + bx) as usize },
        )
    }
}

/// All pairs of neighbouring blocks: those side by side, then those one above the other.
pub open spec fn all_pairs(bx: int, by: int) -> Seq<Neighbours> {
    level_pairs(bx, ((bx - 1) * by) as nat) + upright_pairs(bx, (bx * (by - 1)) as nat)
}

/// A transition between neighbouring blocks: the first of them, and the key of the
/// relative difference of their sharpness.
#[derive(Debug, Clone, Copy, PartialEq, Eq, Structural)]
pub struct Transition {
    pub block: usize,
    pub jump: i64,
}

/// The abrupt transitions of an image.
#[derive(Debug, Clone, Copy, PartialEq, Eq, Structural)]
pub struct Jumps {
    /// Their number.
    pub count: usize,
    /// The largest jump; zero if there is none.
    pub largest: i64,
    /// The block of the first largest jump; zero if there is none.
    pub block: usize,
}

/// The abrupt ones among the first `n` transitions.
pub open spec fn jumps_of(t: Seq<Transition>, n: nat) -> Jumps
    decreases n,
{
    if n == 0 {
        Jumps { count: 0, largest: 0, block: 0 }
    } else {
        let j = jumps_of(t, (n - 1) as nat);
        if t[n - 1].jump > ABRUPT {
            Jumps {
                count: (j.count + 1) as usize,
                largest: if t[n - 1].jump > j.largest {
                    t[n - 1].jump
                } else {
                    j.largest
                },
                block: if t[n - 1].jump > j.largest {
                    t[n - 1].block
                } else {
                    j.block
                },
            }
        } else {
            j
        }
    }
}

/// Transitions are concentrated: three or more, and between two and thirty percent of
/// all adjacencies.
pub open spec fn is_concentrated(count: int, adjacencies: int) -> bool {
    count >= 3 && share_above(count, adjacencies, 2, 100) && share_below(
        count,
        adjacencies,
        30,
        100,
    )
}

/// The finding on abrupt transitions.
pub open spec fn dof_finding(
    j: Jumps,
    bx: int,
    adjacencies: int,
    jump_percent: Seq<char>,
) -> FindingView {
    FindingView {
        region: Some(
            RegionView::BoundingBox {
                x: ((j.block as int % bx) * 64) as u32,
                y: ((j.block as int / bx) * 64) as u32,
                width: 128,
                height: 64,
            },
        ),
        ..plain_finding(
            "dof_consistency"@,
            "dof_abrupt_transition"@,
            decimal_text(j.count as nat) + " abrupt blur transitions detected ("@ + percent_text(
                j.count as nat,
                adjacencies as nat,
            )
                + "% of block boundaries, max "@ + jump_percent
                + "% sharpness jump) - depth-of-field discontinuity inconsistent with natural lens optics"@,
            if j.largest > GRAVE_JUMP {
                Severity::High
            } else {
                Severity::Medium
            },
            graded_of(U40, j.count as nat, adjacencies as nat, Factor { num: 3, den: 1 }, U75),
        )
    }
}

/// The least mean sharpness of blocks that are compared, as a key: 1.0.
pub const LEAST_SHARPNESS: i64 = 0x3FF0_0000_0000_0000;

impl DofConsistencyAnalyzer {
    /// Whether an image is large enough to be analyzed.
    pub fn large_enough(&self, w: usize, h: usize) -> (r: bool)
        ensures
            r == (w >= 256 && h >= 256),
    {
        w >= 256 && h >= 256
    }

    /// The squared gradient magnitudes of the edge pixels of a block.
    pub fn block_edges(&self, gray: &[u8], w: usize, h: usize, x0: usize, y0: usize) -> (r: Vec<
        u32,
    >)
        requires
            gray.len() == w * h,
            x0 + 64 <= w,
            y0 + 64 <= h,
        ensures
            r@ == edge_squares(gray@, w as int, x0 as int, y0 as int, 3844),
    {
        let mut r: Vec<u32> = Vec::new();
        let mut k: usize = 0;
        while k < 3844
            invariant
                k <= 3844,
                gray.len() == w * h,
                x0 + 64 <= w,
                y0 + 64 <= h,
                r@ == edge_squares(gray@, w as int, x0 as int, y0 as int, k as nat),
            decreases 3844 - k,
        {
            let g = sobel(gray, w, h, x0 + 1 + k % 62, y0 + 1 + k / 62);
            let n: i64 = squared(g);
            if n >= 900 {
                r.push(n as u32);
            }
            k += 1;
        }
        r
    }

    /// All pairs of neighbouring blocks of an image of `bx` by `by` blocks.
    pub fn adjacencies(&self, bx: usize, by: usize) -> (r: Vec<Neighbours>)
        requires
            bx >= 2,
            by >= 2,
            2 * bx * by <= usize::MAX,
        ensures
            r@ == all_pairs(bx as int, by as int),
            r.len() == (bx - 1) * by + bx * (by - 1),
            forall|i: int|
                0 <= i < r.len() ==> (#[trigger] r@[i]).first < bx * by && r@[i].second < bx * by,
    {
        proof {
            assert((bx - 1) * by <= bx * by) by (nonlinear_arith)
                requires
                    by >= 0,
            ;
            assert(bx * (by - 1) <= bx * by) by (nonlinear_arith)
                requires
                    bx >= 0,
            ;
            assert((bx - 1) * by >= 0 && bx * (by - 1) >= 0) by (nonlinear_arith)
                requires
                    bx >= 1,
                    by >= 1,
            ;
            assert(2 * bx * by == 2 * (bx * by)) by (nonlinear_arith);
        }
        let level: usize = (bx - 1) * by;
        let upright: usize = bx * (by - 1);
        let mut r: Vec<Neighbours> = Vec::new();
        let mut k: usize = 0;
        while k < level
            invariant
                k <= level,
                bx >= 2,
                by >= 2,
                level == (bx - 1) * by,
                bx * by <= usize::MAX,
                r.len() == k,
                r@ == level_pairs(bx as int, k as nat),
                forall|i: int|
                    0 <= i < r.len() ==> (#[trigger] r@[i]).first < bx * by && r@[i].second < bx
                        * by,
            decreases level - k,
        {
            proof {
                lemma_cell_coords((bx - 1) as int, by as int, k as int);
                lemma_cell(
                    bx as int,
                    by as int,
                    k as int % (bx - 1),
                    k as int / (bx - 1),
                );
                lemma_cell(
                    bx as int,
                    by as int,
                    k as int % (bx - 1) + 1,
                    k as int / (bx - 1),
                );
                let y = k as int / (bx - 1);
                assert(0 <= y * bx) by (nonlinear_arith)
                    requires
                        0 <= y,
                        0 <= bx,
                ;
            }
            let b: usize = (k / (bx - 1)) * bx + k % (bx - 1);
            r.push(Neighbours { first: b, second: b + 1 });
            k += 1;
        }
        let ghost sides = r@;
        let mut j: usize = 0;
        proof {
            assert(sides + upright_pairs(bx as int, 0) =~= sides);
            assert(bx * (by - 1) == bx * by - bx) by (nonlinear_arith);
        }
        while j < upright
            invariant
                j <= upright,
                bx >= 2,
                by >= 2,
                upright == bx * (by - 1),
                bx * by <= usize::MAX,
                bx * (by - 1) == bx * by - bx,
                sides.len() == (bx - 1) * by,
                r.len() == sides.len() + j,
                r@ == sides + upright_pairs(bx as int, j as nat),
                forall|i: int|
                    0 <= i < r.len() ==> (#[trigger] r@[i]).first < bx * by && r@[i].second < bx
                        * by,
            decreases upright - j,
        {
            let ghost before = r@;
            r.push(Neighbours { first: j, second: j + bx });
            proof {
                assert(r@ =~= sides + upright_pairs(bx as int, (j + 1) as nat));
            }
            j += 1;
        }
        r
    }

    /// Whether two neighbouring blocks can be compared: each has at least twenty edge
    /// pixels, and their mean sharpness, given as a key, is not negligible.
    pub fn is_comparable(&self, first: usize, second: usize, mean: i64) -> (r: bool)
        ensures
            r == (first >= 20 && second >= 20 && mean >= LEAST_SHARPNESS),
    {
        first >= 20 && second >= 20 && mean >= LEAST_SHARPNESS
    }

    /// Collects the abrupt transitions.
    pub fn count_jumps(&self, t: &Vec<Transition>) -> (r: Jumps)
        ensures
            r == jumps_of(t@, t@.len()),
            r.count <= t.len(),
            r.count > 0 ==> exists|i: int| 0 <= i < t.len() && (#[trigger] t@[i]).block == r.block,
    {
        let mut j = Jumps { count: 0, largest: 0, block: 0 };
        let mut i: usize = 0;
        while i < t.len()
            invariant
                i <= t.len(),
                j == jumps_of(t@, i as nat),
                j.count <= i,
                j.count == 0 ==> j.largest == 0,
                j.count > 0 ==> j.largest > ABRUPT && exists|k: int|
                    0 <= k < i && (#[trigger] t@[k]).block == j.block,
            decreases t.len() - i,
        {
            let e: Transition = t[i];
            let ghost before = j;
            if e.jump > ABRUPT {
                j = Jumps {
                    count: j.count + 1,
                    largest: if e.jump > j.largest {
                        e.jump
                    } else {
                        j.largest
                    },
                    block: if e.jump > j.largest {
                        e.block
                    } else {
                        j.block
                    },
                };
                proof {
                    if e.jump > before.largest {
                        assert(t@[i as int].block == j.block);
                    } else {
                        let k = choose|k: int| 0 <= k < i && (#[trigger] t@[k]).block
                            == before.block;
                        assert(t@[k].block == j.block);
                    }
                }
            }
            i += 1;
        }
        j
    }

    /// Whether abrupt transitions are concentrated.
    pub fn concentrated(&self, count: usize, adjacencies: usize) -> (r: bool)
        ensures
            r == is_concentrated(count as int, adjacencies as int),
    {
        count >= 3 && is_share_above(count as u64, adjacencies as u64, 2, 100) && is_share_below(
            count as u64,
            adjacencies as u64,
            30,
            100,
        )
    }

    /// Reports abrupt transitions among the adjacencies. `jump_percent` is the largest jump in
    /// percent without decimals.
    pub fn report(
        &self,
        j: Jumps,
        bx: usize,
        by: usize,
        adjacencies: usize,
        jump_percent: &str,
    ) -> (r: Finding)
        requires
            j.count <= adjacencies,
            0 < adjacencies <= MAX_COUNT,
            j.block < bx * by,
            bx * 64 <= u32::MAX,
            by * 64 <= u32::MAX,
        ensures
            r@ == dof_finding(j, bx as int, adjacencies as int, jump_percent@),
    {
        proof {
            lemma_cell_coords(bx as int, by as int, j.block as int);
        }
        let mut t = decimal(j.count as u64);
        t.append(" abrupt blur transitions detected (");
        let share = percent(j.count as u64, adjacencies as u64);
        t.append(share.as_str());
        t.append("% of block boundaries, max ");
        t.append(jump_percent);
        t.append(
            "% sharpness jump) - depth-of-field discontinuity inconsistent with natural lens optics",
        );
        let severity = if j.largest > GRAVE_JUMP {
            Severity::High
        } else {
            Severity::Medium
        };
        let factor = Factor { num: 3, den: 1 };
        let sure: u64 = graded(U40, j.count as u64, adjacencies as u64, factor, U75);
        Finding::new("dof_consistency", "dof_abrupt_transition", t, severity, sure).with_region(
            Region::BoundingBox {
                x: ((j.block % bx) * 64) as u32,
                y: ((j.block / bx) * 64) as u32,
                width: 128,
                height: 64,
            },
        )
    }
}

/// The squared gradients of a block that reach thirty are kept, its border left out.
pub proof fn law_edge_squares(gray: Seq<u8>, w: int, x0: int, y0: int, n: nat)
    ensures
        edge_squares(gray, w, x0, y0, n) == which(n, |i: int| squared_magnitude(gray, w, x0 + i % 62 + 1, y0 + i / 62 + 1) > 899).map_values(|i: int| squared_magnitude(gray, w, x0 + i % 62 + 1, y0 + i / 62 + 1) as u32),
    decreases n,
{
    let p = |i: int| squared_magnitude(gray, w, x0 + i % 62 + 1, y0 + i / 62 + 1) > 899;
    let f = |i: int| squared_magnitude(gray, w, x0 + i % 62 + 1, y0 + i / 62 + 1) as u32;
    lemma_which(0, p);
    if n > 0 {
        let lower = (n - 1) as nat;
        law_edge_squares(gray, w, x0, y0, lower);
        lemma_which(lower, p);
        assert(which(n, p).map_values(f) =~= if p(lower as int) {
            which(lower, p).map_values(f).push(f(lower as int))
        } else {
            which(lower, p).map_values(f)
        });
    } else {
        assert(which(0, p).map_values(f) =~= Seq::<u32>::empty());
    }
}

/// Blocks side by side are paired from the left one, blocks above each other from the upper one;
/// each pair of neighbours has its place.
pub proof fn law_pairs(bx: int, by: int, x: int, y: int)
    requires
        1 <= bx,
        1 <= by,
        bx * by <= usize::MAX,
        0 <= x < bx,
        0 <= y < by,
    ensures
        all_pairs(bx, by).len() == (bx - 1) * by + bx * (by - 1),
        x + 1 < bx ==> all_pairs(bx, by)[y * (bx - 1) + x].first == y * bx + x && all_pairs(
            bx,
            by,
        )[y * (bx - 1) + x].second == y * bx + (x + 1),
        y + 1 < by ==> all_pairs(bx, by)[(bx - 1) * by + (y * bx + x)].first == y * bx + x
            && all_pairs(bx, by)[(bx - 1) * by + (y * bx + x)].second == (y + 1) * bx + x,
{
    let a = (bx - 1) * by;
    let b = bx * (by - 1);
    assert(a >= 0 && b >= 0) by (nonlinear_arith)
        requires
            bx >= 1,
            by >= 1,
            a == (bx - 1) * by,
            b == bx * (by - 1),
    ;
    lemma_level(bx, a as nat);
    lemma_upright(bx, b as nat);
    if x + 1 < bx {
        let k = y * (bx - 1) + x;
        assert(0 <= k < a) by (nonlinear_arith)
            requires
                0 <= x < bx - 1,
                0 <= y < by,
                k == y * (bx - 1) + x,
                a == (bx - 1) * by,
        ;
        vstd::arithmetic::div_mod::lemma_fundamental_div_mod_converse(k, bx - 1, y, x);
        assert(0 <= y * bx + x && y * bx + (x + 1) < bx * by) by (nonlinear_arith)
            requires
                0 <= x < bx - 1,
                0 <= y < by,
        ;
    }
    if y + 1 < by {
        let k = y * bx + x;
        assert(0 <= k < b && k + bx < bx * by && (y + 1) * bx + x == k + bx) by (nonlinear_arith)
            requires
                0 <= x < bx,
                0 <= y < by - 1,
                k == y * bx + x,
                b == bx * (by - 1),
        ;
    }
}

proof fn lemma_level(bx: int, n: nat)
    ensures
        level_pairs(bx, n).len() == n,
        forall|k: int|
            0 <= k < n ==> (#[trigger] level_pairs(bx, n)[k]).first == ((k / (bx - 1)) * bx + k % (bx
                - 1)) as usize && level_pairs(bx, n)[k].second == ((k / (bx - 1)) * bx + k % (bx - 1)
                + 1) as usize,
    decreases n,
{
    if n > 0 {
        lemma_level(bx, (n - 1) as nat);
        let before = level_pairs(bx, (n - 1) as nat);
        assert(forall|k: int| 0 <= k < n - 1 ==> #[trigger] level_pairs(bx, n)[k] == before[k]);
    }
}

proof fn lemma_upright(bx: int, n: nat)
    ensures
        upright_pairs(bx, n).len() == n,
        forall|k: int|
            0 <= k < n ==> (#[trigger] upright_pairs(bx, n)[k]).first == k as usize && upright_pairs(
                bx,
                n,
            )[k].second == (k + bx) as usize,
    decreases n,
{
    if n > 0 {
        lemma_upright(bx, (n - 1) as nat);
        let before = upright_pairs(bx, (n - 1) as nat);
        assert(forall|k: int| 0 <= k < n - 1 ==> #[trigger] upright_pairs(bx, n)[k] == before[k]);
    }
}

/// Jumps above 0.6 are counted; the largest is one of them, the first of equals, and its block is
/// told with it.
pub proof fn law_jumps(t: Seq<Transition>, n: nat, i: int)
    requires
        n <= t.len() <= usize::MAX,
    ensures
        jumps_of(t, n).count == how_many(n, |k: int| t[k].jump > 0x3FE3_3333_3333_3333),
        jumps_of(t, n).count <= n,
        0 <= i < n && t[i].jump > 0x3FE3_3333_3333_3333 ==> t[i].jump <= jumps_of(t, n).largest,
        jumps_of(t, n).count > 0 ==> exists|k: int|
            0 <= k < n && (#[trigger] t[k]).jump == jumps_of(t, n).largest && t[k].block == jumps_of(
                t,
                n,
            ).block && t[k].jump > 0x3FE3_3333_3333_3333 && forall|j: int|
                0 <= j < k ==> (#[trigger] t[j]).jump < t[k].jump,
        jumps_of(t, n).count == 0 ==> jumps_of(t, n).largest == 0 && jumps_of(t, n).block == 0,
    decreases n,
{
    let p = |k: int| t[k].jump > 0x3FE3_3333_3333_3333;
    lemma_which(0, p);
    if n > 0 {
        let m = (n - 1) as nat;
        law_jumps(t, m, i);
        lemma_which(m, p);
        let j = jumps_of(t, m);
        let e = jumps_of(t, n);
        if j.count > 0 {
            let a = choose|k: int|
                0 <= k < m && (#[trigger] t[k]).jump == j.largest && t[k].block == j.block && t[k].jump
                    > 0x3FE3_3333_3333_3333 && forall|l: int| 0 <= l < k ==> (#[trigger] t[l]).jump < t[k].jump;
            if e.largest == j.largest {
                assert(t[a].jump == e.largest && t[a].block == e.block);
            } else {
                assert forall|l: int| 0 <= l < m implies (#[trigger] t[l]).jump < t[n - 1].jump by {
                    law_jumps(t, m, l);
                }
                assert(t[n - 1].jump == e.largest && t[n - 1].block == e.block);
            }
        } else if e.count > 0 {
            assert forall|l: int| 0 <= l < m implies (#[trigger] t[l]).jump < t[n - 1].jump by {
                lemma_which_are(m, p);
                if p(l) {
                    assert(which(m, p).contains(l));
                }
            }
            assert(t[n - 1].jump == e.largest && t[n - 1].block == e.block);
        }
    }
}

/// Jumps are concentrated where there are three or more, above two in a hundred of the
/// adjacencies and below thirty; they are grave above a jump of one.
pub proof fn law_when_jumps_are_reported(
    j: Jumps,
    bx: int,
    adjacencies: int,
    t: Seq<char>,
)
    ensures
        is_concentrated(j.count as int, adjacencies) <==> j.count > 2 && share_above(
            j.count as int,
            adjacencies,
            2,
            100,
        ) && share_below(j.count as int, adjacencies, 30, 100),
        dof_finding(j, bx, adjacencies, t).code == "dof_abrupt_transition"@,
        dof_finding(j, bx, adjacencies, t).severity == if j.largest > 0x3FF0_0000_0000_0000 {
            Severity::High
        } else {
            Severity::Medium
        },
        dof_finding(j, bx, adjacencies, t).region == Some(
            RegionView::BoundingBox {
                x: (64 * (j.block as int % bx)) as u32,
                y: (64 * (j.block as int / bx)) as u32,
                width: 128,
                height: 64,
            },
        ),
        LEAST_SHARPNESS == 0x3FF0_0000_0000_0000,
        DOF_BLOCK == 64,
{
}

} // verus!
